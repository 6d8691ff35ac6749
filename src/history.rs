//! A fixed-capacity, oldest-first history of readings.

use circular_buffer::CircularBuffer;
use vstd::prelude::*;

verus! {

/// How many readings the history keeps.
pub const HISTORY_CAPACITY: usize = 100;

/// `circular_buffer::CircularBuffer`, the fixed-capacity ring that holds the
/// history; Verus sees its contents only through `buffer_items`.
#[verifier::external_type_specification]
#[verifier::external_body]
#[verifier::reject_recursive_types(T)]
pub struct ExCircularBuffer<const N: usize, T>(CircularBuffer<N, T>);

/// The items held by a circular buffer, front (oldest) first.
pub uninterp spec fn buffer_items(b: CircularBuffer<HISTORY_CAPACITY, u64>) -> Seq<u64>;

/// Relies on `CircularBuffer::new`: a new buffer is empty.
#[verifier::external_body]
fn empty_buffer() -> (r: CircularBuffer<HISTORY_CAPACITY, u64>)
    ensures
        buffer_items(r) == Seq::<u64>::empty(),
{
    CircularBuffer::new()
}

/// Relies on `CircularBuffer::push_back`: the item goes to the back; when the
/// buffer already holds its capacity, the front item is dropped. It neither
/// allocates nor panics.
#[verifier::external_body]
fn buffer_push_back(b: &mut CircularBuffer<HISTORY_CAPACITY, u64>, item: u64)
    ensures
        buffer_items(*final(b)) == pushed(buffer_items(*old(b)), item),
    no_unwind
{
    b.push_back(item);
}

/// Relies on `CircularBuffer::to_vec`: a copy of the items, front first.
#[verifier::external_body]
fn buffer_to_vec(b: &CircularBuffer<HISTORY_CAPACITY, u64>) -> (r: Vec<u64>)
    ensures
        r@ == buffer_items(*b),
{
    b.to_vec()
}

/// The history `h` after one more reading `x`: appended at the back, and the
/// oldest reading evicted when `h` is already full.
pub open spec fn pushed(h: Seq<u64>, x: u64) -> Seq<u64> {
    if h.len() >= HISTORY_CAPACITY {
        h.drop_first().push(x)
    } else {
        h.push(x)
    }
}

/// The history `h` after the readings `readings` arrive, one by one in order.
pub open spec fn pushed_all(h: Seq<u64>, readings: Seq<u64>) -> Seq<u64>
    decreases readings.len(),
{
    if readings.len() == 0 {
        h
    } else {
        pushed_all(pushed(h, readings[0]), readings.drop_first())
    }
}

/// The history that a run of readings leaves behind, starting from empty.
pub open spec fn history_after(readings: Seq<u64>) -> Seq<u64> {
    pushed_all(Seq::empty(), readings)
}

/// The last `HISTORY_CAPACITY` readings of `readings`, or all of them when
/// there are fewer.
pub open spec fn latest(readings: Seq<u64>) -> Seq<u64> {
    if readings.len() > HISTORY_CAPACITY {
        readings.subrange(readings.len() - HISTORY_CAPACITY, readings.len() as int)
    } else {
        readings
    }
}

/// The chart point of the reading at `i`: its position and its value.
pub open spec fn point_at(h: Seq<u64>, i: int) -> (usize, u64) {
    (i as usize, h[i])
}

/// Whatever readings arrive at a history that holds no more than
/// `HISTORY_CAPACITY` readings, it ends up holding exactly the latest
/// `HISTORY_CAPACITY` of its old readings followed by the new ones, in arrival
/// order (all of them while there are no more than that).
pub proof fn lemma_pushes_keep_latest(h: Seq<u64>, readings: Seq<u64>)
    requires
        h.len() <= HISTORY_CAPACITY,
    ensures
        pushed_all(h, readings) == latest(h + readings),
        pushed_all(h, readings).len() <= HISTORY_CAPACITY,
    decreases readings.len(),
{
    let all = h + readings;
    if readings.len() == 0 {
        assert(all =~= h);
    } else {
        let next = pushed(h, readings[0]);
        let rest = readings.drop_first();
        lemma_pushes_keep_latest(next, rest);
        if h.len() >= HISTORY_CAPACITY {
            let t = all.drop_first();
            assert(next + rest =~= t);
            let n = all.len();
            if t.len() > HISTORY_CAPACITY {
                assert(t.subrange(t.len() - HISTORY_CAPACITY, t.len() as int) =~= all.subrange(
                    n - HISTORY_CAPACITY,
                    n as int,
                ));
            } else {
                assert(t =~= all.subrange(n - HISTORY_CAPACITY, n as int));
            }
        } else {
            assert(next + rest =~= all);
        }
    }
}

/// Whatever readings arrive, starting from an empty history, the history holds
/// exactly the latest `HISTORY_CAPACITY` of them in arrival order: all of them
/// while no more than `HISTORY_CAPACITY` have arrived, and then exactly the last
/// `HISTORY_CAPACITY`.
pub proof fn lemma_history_keeps_latest(readings: Seq<u64>)
    ensures
        history_after(readings) == latest(readings),
        readings.len() <= HISTORY_CAPACITY ==> history_after(readings).len() == readings.len(),
        readings.len() > HISTORY_CAPACITY ==> history_after(readings).len() == HISTORY_CAPACITY,
{
    lemma_pushes_keep_latest(Seq::empty(), readings);
    assert(Seq::<u64>::empty() + readings =~= readings);
}

/// The history never holds more than `HISTORY_CAPACITY` readings.
pub proof fn lemma_history_bounded(readings: Seq<u64>)
    ensures
        history_after(readings).len() <= HISTORY_CAPACITY,
{
    lemma_history_keeps_latest(readings);
}

/// The chart points of a history are as many as its readings, and the point
/// at `i` has position `i` and the reading at `i` as its value.
pub proof fn lemma_points_follow_history(h: Seq<u64>)
    requires
        h.len() <= usize::MAX,
    ensures
        forall|i: int| 0 <= i < h.len() ==> (#[trigger] point_at(h, i)).0 == i && point_at(h, i).1 == h[i],
{
}

/// The oldest-first history of the most recent readings; it never holds more
/// than `HISTORY_CAPACITY` of them.
pub struct TempData {
    temp_buffer: CircularBuffer<HISTORY_CAPACITY, u64>,
}

impl View for TempData {
    type V = Seq<u64>;

    closed spec fn view(&self) -> Seq<u64> {
        buffer_items(self.temp_buffer)
    }
}

impl TempData {
    #[verifier::type_invariant]
    spec fn bounded(&self) -> bool {
        buffer_items(self.temp_buffer).len() <= HISTORY_CAPACITY
    }

    /// An empty history.
    pub fn new() -> (r: TempData)
        ensures
            r@ == Seq::<u64>::empty(),
    {
        TempData { temp_buffer: empty_buffer() }
    }

    /// Records one reading, evicting the oldest one when the history is full.
    pub fn add_data(&mut self, data: u64)
        ensures
            final(self)@ == pushed(old(self)@, data),
    {
        proof {
            use_type_invariant(&*self);
        }
        buffer_push_back(&mut self.temp_buffer, data);
    }

    /// The readings held, oldest first.
    pub fn snapshot(&self) -> (r: Vec<u64>)
        ensures
            r@ == self@,
            r@.len() <= HISTORY_CAPACITY,
    {
        proof {
            use_type_invariant(self);
        }
        buffer_to_vec(&self.temp_buffer)
    }

    /// The chart points of the history: each reading paired with its
    /// zero-based position, oldest first.
    pub fn get_dataset(&self) -> (r: Vec<(usize, u64)>)
        ensures
            r@.len() == self@.len(),
            r@.len() <= HISTORY_CAPACITY,
            forall|i: int| 0 <= i < r@.len() ==> #[trigger] r@[i] == point_at(self@, i),
    {
        let values = self.snapshot();
        let mut points: Vec<(usize, u64)> = Vec::new();
        let mut i: usize = 0;
        while i < values.len()
            invariant
                values@ == self@,
                i <= values@.len(),
                points@.len() == i,
                forall|j: int| 0 <= j < i ==> #[trigger] points@[j] == point_at(self@, j),
            decreases values@.len() - i,
        {
            points.push((i, values[i]));
            i = i + 1;
        }
        points
    }
}

impl Default for TempData {
    fn default() -> (r: TempData)
        ensures
            r@ == Seq::<u64>::empty(),
    {
        TempData::new()
    }
}

} // verus!
