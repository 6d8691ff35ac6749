use pitemp::dashboard::{App, KeyCode, KeyEvent, KeyEventKind, ZERO_READING};

fn press(code: KeyCode) -> KeyEvent {
    KeyEvent { code, kind: KeyEventKind::Press }
}

#[test]
fn new_app_starts_idle() {
    let app = App::default();
    assert_eq!(app.counter(), 0);
    assert!(!app.is_exiting());
    assert_eq!(app.temp(), ZERO_READING);
    assert!(app.snapshot().is_empty());
}

#[test]
fn decrement_at_zero_stays_at_zero() {
    let mut app = App::new();
    app.handle_key_event(press(KeyCode::Left));
    assert_eq!(app.counter(), 0);
    app.decrement_counter();
    assert_eq!(app.counter(), 0);
}

#[test]
fn increment_saturates_at_max() {
    let mut app = App::new();
    for _ in 0..300 {
        app.handle_key_event(press(KeyCode::Right));
    }
    assert_eq!(app.counter(), u8::MAX);
    app.increment_counter();
    assert_eq!(app.counter(), 255);
    app.handle_key_event(press(KeyCode::Left));
    assert_eq!(app.counter(), 254);
}

#[test]
fn only_presses_are_acted_on() {
    let mut app = App::new();
    app.handle_key_event(KeyEvent { code: KeyCode::Right, kind: KeyEventKind::Release });
    app.handle_key_event(KeyEvent { code: KeyCode::Right, kind: KeyEventKind::Repeat });
    app.handle_key_event(KeyEvent { code: KeyCode::Char('q'), kind: KeyEventKind::Release });
    assert_eq!(app.counter(), 0);
    assert!(!app.is_exiting());
}

#[test]
fn other_keys_are_ignored() {
    let mut app = App::new();
    app.handle_key_event(press(KeyCode::Char('x')));
    app.handle_key_event(press(KeyCode::Char('Q')));
    app.handle_key_event(press(KeyCode::Other));
    assert_eq!(app.counter(), 0);
    assert!(!app.is_exiting());
}

#[test]
fn quit_press_sets_the_stop_flag() {
    let mut app = App::new();
    app.handle_key_event(press(KeyCode::Char('q')));
    assert!(app.is_exiting());
    app.exit();
    assert!(app.is_exiting());
}

#[test]
fn update_records_the_reading() {
    let mut app = App::new();
    app.update_temp(Some(48.3f64.to_bits()));
    assert_eq!(f64::from_bits(app.temp()), 48.3);
    app.update_temp(None);
    assert_eq!(app.temp(), 0.0f64.to_bits());
    assert_eq!(app.snapshot(), vec![48.3f64.to_bits(), 0.0f64.to_bits()]);
    assert_eq!(app.get_dataset(), vec![(0, 48.3f64.to_bits()), (1, 0)]);
}

#[test]
fn ticks_sample_with_or_without_input() {
    let mut app = App::new();
    assert!(app.tick(None, Some(40.0f64.to_bits())));
    assert!(app.tick(Some(press(KeyCode::Right)), None));
    assert!(app.tick(Some(press(KeyCode::Right)), Some(41.0f64.to_bits())));
    assert_eq!(app.counter(), 2);
    assert_eq!(
        app.snapshot(),
        vec![40.0f64.to_bits(), 0, 41.0f64.to_bits()]
    );
}

#[test]
fn quit_tick_samples_once_more_then_stops() {
    let mut app = App::new();
    assert!(app.tick(None, Some(30.0f64.to_bits())));
    assert!(!app.tick(Some(press(KeyCode::Char('q'))), Some(31.0f64.to_bits())));
    assert!(app.is_exiting());
    assert_eq!(app.snapshot().len(), 2);
    assert_eq!(f64::from_bits(app.temp()), 31.0);
    assert!(!app.tick(Some(press(KeyCode::Right)), Some(32.0f64.to_bits())));
    assert_eq!(app.snapshot().len(), 2);
    assert_eq!(app.counter(), 0);
    assert_eq!(f64::from_bits(app.temp()), 31.0);
}

#[test]
fn long_run_keeps_the_latest_hundred() {
    let mut app = App::new();
    for i in 0..150u32 {
        assert!(app.tick(None, Some((i as f64).to_bits())));
    }
    let snap: Vec<f64> = app.snapshot().into_iter().map(f64::from_bits).collect();
    let expected: Vec<f64> = (50..150u32).map(|i| i as f64).collect();
    assert_eq!(snap, expected);
}
