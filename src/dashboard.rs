//! The dashboard's state and the decisions of each tick: key dispatch,
//! recording the sample, and whether the loop goes on.

use crate::history::{latest, lemma_pushes_keep_latest, pushed, pushed_all, TempData, HISTORY_CAPACITY};
use vstd::prelude::*;

verus! {

/// The keys the dashboard tells apart.
#[derive(Clone, Copy, Debug, PartialEq, Eq, Structural)]
pub enum KeyCode {
    Char(char),
    Left,
    Right,
    Other,
}

/// Whether a key went down, repeated, or came up.
#[derive(Clone, Copy, Debug, PartialEq, Eq, Structural)]
pub enum KeyEventKind {
    Press,
    Repeat,
    Release,
}

/// A key event as the terminal reports it.
#[derive(Clone, Copy, Debug, PartialEq, Eq, Structural)]
pub struct KeyEvent {
    pub code: KeyCode,
    pub kind: KeyEventKind,
}

/// The abstract state of the dashboard.
pub struct AppState {
    pub counter: u8,
    pub exit: bool,
    /// Bit pattern of the last reading shown.
    pub temp: u64,
    /// Bit patterns of the recent readings, oldest first.
    pub history: Seq<u64>,
}

/// The bit pattern of the reading `0.0`, shown when no reading could be had.
pub const ZERO_READING: u64 = 0;

/// The reading recorded for a sample: the sample itself, or zero when none
/// could be had.
pub open spec fn reading_or_zero(sample: Option<u64>) -> u64 {
    match sample {
        Some(v) => v,
        None => ZERO_READING,
    }
}

/// A press of the quit key.
pub open spec fn is_quit(e: KeyEvent) -> bool {
    e.kind == KeyEventKind::Press && e.code == KeyCode::Char('q')
}

impl AppState {
    /// The state after a key event: only presses act; `q` asks to stop, left
    /// lowers the counter (never below zero), right raises it (never past
    /// `u8::MAX`); other keys change nothing.
    pub open spec fn on_key(self, e: KeyEvent) -> AppState {
        if e.kind != KeyEventKind::Press {
            self
        } else {
            match e.code {
                KeyCode::Char('q') => AppState { exit: true, ..self },
                KeyCode::Left => AppState {
                    counter: if self.counter == 0 { 0 } else { (self.counter - 1) as u8 },
                    ..self
                },
                KeyCode::Right => AppState {
                    counter: if self.counter == u8::MAX { u8::MAX } else { (self.counter + 1) as u8 },
                    ..self
                },
                _ => self,
            }
        }
    }

    /// The state after a sample: shown as the latest reading and recorded in
    /// the history; a missing sample counts as zero.
    pub open spec fn on_sample(self, sample: Option<u64>) -> AppState {
        let v = reading_or_zero(sample);
        AppState { temp: v, history: pushed(self.history, v), ..self }
    }

    /// One tick of a running dashboard: the key event, if any, then the sample.
    pub open spec fn on_tick(self, event: Option<KeyEvent>, sample: Option<u64>) -> AppState {
        let s = match event {
            Some(e) => self.on_key(e),
            None => self,
        };
        s.on_sample(sample)
    }
}

/// The state in which the loop stops, or in which the inputs run out, when it
/// starts from `s` and takes one tick per input (a key event, if any arrived,
/// and the sample).
pub open spec fn run_state(s: AppState, inputs: Seq<(Option<KeyEvent>, Option<u64>)>) -> AppState
    decreases inputs.len(),
{
    if s.exit || inputs.len() == 0 {
        s
    } else {
        run_state(s.on_tick(inputs[0].0, inputs[0].1), inputs.drop_first())
    }
}

/// How many ticks, each ending in one redraw, the loop takes from `s` on
/// `inputs` before it stops or the inputs run out.
pub open spec fn run_ticks(s: AppState, inputs: Seq<(Option<KeyEvent>, Option<u64>)>) -> nat
    decreases inputs.len(),
{
    if s.exit || inputs.len() == 0 {
        0
    } else {
        1 + run_ticks(s.on_tick(inputs[0].0, inputs[0].1), inputs.drop_first())
    }
}

/// The readings that the ticks on `inputs` record, in order.
pub open spec fn readings_of(inputs: Seq<(Option<KeyEvent>, Option<u64>)>) -> Seq<u64> {
    Seq::new(inputs.len(), |j: int| reading_or_zero(inputs[j].1))
}

/// A quit key press stops the loop after the tick it arrives in: when the
/// first quit press comes in the input of tick `k` of a running dashboard, the
/// loop takes exactly `k + 1` ticks (each with its redraw), ends stopped, and
/// nothing after that tick is sampled or has any effect: exactly the `k + 1`
/// samples of those ticks are recorded, the last of them is the reading shown,
/// and the history holds the latest `HISTORY_CAPACITY` of its old readings
/// followed by those samples.
pub proof fn lemma_quit_ends_run(s: AppState, inputs: Seq<(Option<KeyEvent>, Option<u64>)>, k: int)
    requires
        !s.exit,
        0 <= k < inputs.len(),
        inputs[k].0 matches Some(e) && is_quit(e),
        forall|j: int| 0 <= j < k ==> !(#[trigger] inputs[j].0 matches Some(e) && is_quit(e)),
    ensures
        run_ticks(s, inputs) == k + 1,
        run_state(s, inputs) == run_state(s, inputs.take(k + 1)),
        run_state(s, inputs).exit,
        run_state(s, inputs).temp == reading_or_zero(inputs[k].1),
        run_state(s, inputs).history == pushed_all(s.history, readings_of(inputs.take(k + 1))),
        s.history.len() <= HISTORY_CAPACITY ==> run_state(s, inputs).history == latest(
            s.history + readings_of(inputs.take(k + 1)),
        ),
    decreases k,
{
    let rs = readings_of(inputs.take(k + 1));
    assert(rs[0] == reading_or_zero(inputs[0].1));
    let next = s.on_tick(inputs[0].0, inputs[0].1);
    let rest = inputs.drop_first();
    let cut = inputs.take(k + 1);
    assert(cut.drop_first() =~= rest.take(k));
    assert(cut[0] == inputs[0]);
    assert(run_state(s, cut) == run_state(next, rest.take(k)));
    assert(run_ticks(s, inputs) == 1 + run_ticks(next, rest));
    assert(run_state(s, inputs) == run_state(next, rest));
    assert(next.history == pushed(s.history, rs[0]));
    assert(readings_of(rest.take(k)) =~= rs.drop_first());
    assert(pushed_all(s.history, rs) == pushed_all(next.history, rs.drop_first()));
    if k == 0 {
        assert(next.exit);
        assert(rest.take(0).len() == 0);
        assert(rs.drop_first().len() == 0);
    } else {
        assert(!next.exit);
        assert forall|j: int| 0 <= j < k - 1 implies !(#[trigger] rest[j].0 matches Some(e) && is_quit(e)) by {
            assert(rest[j] == inputs[j + 1]);
        }
        assert(rest[k - 1] == inputs[k]);
        lemma_quit_ends_run(next, rest, k - 1);
    }
    if s.history.len() <= HISTORY_CAPACITY {
        lemma_pushes_keep_latest(s.history, rs);
    }
}

/// A quit key press only sets the stop flag, leaving counter, reading and
/// history as they were; a quit key that is released or repeated changes
/// nothing.
pub proof fn lemma_quit_only_stops(s: AppState, kind: KeyEventKind)
    ensures
        kind == KeyEventKind::Press ==> s.on_key(KeyEvent { code: KeyCode::Char('q'), kind }) == (AppState {
            exit: true,
            ..s
        }),
        kind != KeyEventKind::Press ==> s.on_key(KeyEvent { code: KeyCode::Char('q'), kind }) == s,
{
}

/// The counter neither goes below zero nor past `u8::MAX`: a left press at
/// zero leaves it at zero, and a right press at `u8::MAX` leaves it there.
pub proof fn lemma_counter_saturates(s: AppState)
    ensures
        s.counter == 0 ==> s.on_key(KeyEvent { code: KeyCode::Left, kind: KeyEventKind::Press }).counter == 0,
        s.counter == u8::MAX ==> s.on_key(KeyEvent { code: KeyCode::Right, kind: KeyEventKind::Press }).counter == u8::MAX,
{
}

/// The dashboard: a counter, the stop flag, the latest reading and the recent
/// history of readings.
pub struct App {
    counter: u8,
    exit: bool,
    temp: u64,
    temp_data: TempData,
}

impl View for App {
    type V = AppState;

    closed spec fn view(&self) -> AppState {
        AppState {
            counter: self.counter,
            exit: self.exit,
            temp: self.temp,
            history: self.temp_data@,
        }
    }
}

impl App {
    /// A running dashboard with counter zero, reading zero and no history.
    pub fn new() -> (r: App)
        ensures
            r@ == (AppState {
                counter: 0,
                exit: false,
                temp: ZERO_READING,
                history: Seq::empty(),
            }),
    {
        App { counter: 0, exit: false, temp: ZERO_READING, temp_data: TempData::new() }
    }

    /// The counter shown beside the chart.
    pub fn counter(&self) -> (r: u8)
        ensures
            r == self@.counter,
    {
        self.counter
    }

    /// Whether a stop was asked for.
    pub fn is_exiting(&self) -> (r: bool)
        ensures
            r == self@.exit,
    {
        self.exit
    }

    /// Bit pattern of the latest reading.
    pub fn temp(&self) -> (r: u64)
        ensures
            r == self@.temp,
    {
        self.temp
    }

    /// The recent readings, oldest first.
    pub fn snapshot(&self) -> (r: Vec<u64>)
        ensures
            r@ == self@.history,
            r@.len() <= HISTORY_CAPACITY,
    {
        self.temp_data.snapshot()
    }

    /// The chart points of the recent readings: each paired with its
    /// zero-based position, oldest first.
    pub fn get_dataset(&self) -> (r: Vec<(usize, u64)>)
        ensures
            r@.len() == self@.history.len(),
            r@.len() <= HISTORY_CAPACITY,
            forall|i: int| 0 <= i < r@.len() ==> #[trigger] r@[i] == (i as usize, self@.history[i]),
    {
        self.temp_data.get_dataset()
    }

    /// Asks the loop to stop after the current tick.
    pub fn exit(&mut self)
        ensures
            final(self)@ == (AppState { exit: true, ..old(self)@ }),
    {
        self.exit = true;
    }

    /// Raises the counter by one, staying at `u8::MAX` once there.
    pub fn increment_counter(&mut self)
        ensures
            final(self)@ == (AppState {
                counter: if old(self)@.counter == u8::MAX { u8::MAX } else { (old(self)@.counter + 1) as u8 },
                ..old(self)@
            }),
    {
        if self.counter < u8::MAX {
            self.counter = self.counter + 1;
        }
    }

    /// Lowers the counter by one, staying at zero once there.
    pub fn decrement_counter(&mut self)
        ensures
            final(self)@ == (AppState {
                counter: if old(self)@.counter == 0 { 0 } else { (old(self)@.counter - 1) as u8 },
                ..old(self)@
            }),
    {
        if self.counter > 0 {
            self.counter = self.counter - 1;
        }
    }

    /// Acts on a key event; see [`AppState::on_key`].
    pub fn handle_key_event(&mut self, key_event: KeyEvent)
        ensures
            final(self)@ == old(self)@.on_key(key_event),
    {
        if key_event.kind != KeyEventKind::Press {
            return;
        }
        match key_event.code {
            KeyCode::Char(c) => {
                if c == 'q' {
                    self.exit();
                }
            },
            KeyCode::Left => self.decrement_counter(),
            KeyCode::Right => self.increment_counter(),
            KeyCode::Other => {},
        }
    }

    /// Records a sample (`None` when none could be had, which counts as zero)
    /// as the latest reading and in the history.
    pub fn update_temp(&mut self, sample: Option<u64>)
        ensures
            final(self)@ == old(self)@.on_sample(sample),
    {
        let temp: u64 = match sample {
            Some(v) => v,
            None => ZERO_READING,
        };
        self.temp = temp;
        self.temp_data.add_data(temp);
    }

    /// One tick of the loop, given the key event that arrived within the wait
    /// (if any) and the sample taken. A stopped dashboard takes no more ticks:
    /// it is left as it is. Returns whether the loop goes on after this tick's
    /// redraw.
    pub fn tick(&mut self, event: Option<KeyEvent>, sample: Option<u64>) -> (running: bool)
        ensures
            old(self)@.exit ==> final(self)@ == old(self)@,
            !old(self)@.exit ==> final(self)@ == old(self)@.on_tick(event, sample),
            running == !final(self)@.exit,
    {
        if self.exit {
            return false;
        }
        match event {
            Some(e) => self.handle_key_event(e),
            None => {},
        }
        self.update_temp(sample);
        !self.exit
    }
}

impl Default for App {
    fn default() -> (r: App)
        ensures
            r@ == (AppState {
                counter: 0,
                exit: false,
                temp: ZERO_READING,
                history: Seq::empty(),
            }),
    {
        App::new()
    }
}

} // verus!
