use grainx::performance::next_sleep_ms;
use grainx::ranking::rank_by_load;
use grainx::trace::{alert_level, AlertLevel, GraphTrace};
use grainx::watch::{decide_key, CpuWatch, InputAction, Key, INITIAL_USER_THRESHOLD};

#[test]
fn cpu_watch_sampling_interval() {
    let mut w = CpuWatch::new();
    assert_eq!(w.observe(85_000).sampling_interval_ms, 100);
    assert_eq!(w.observe(60_000).sampling_interval_ms, 200);
    assert_eq!(w.observe(50_000).sampling_interval_ms, 500);
    assert_eq!(w.last_usage(), 50_000);
}

#[test]
fn cpu_watch_sustained_high_after_five_readings() {
    let mut w = CpuWatch::new();
    for _ in 0..4 {
        assert!(!w.observe(95_000).sustained_high);
    }
    assert!(w.observe(95_000).sustained_high);
    assert!(!w.observe(10_000).sustained_high);
    assert!(!w.observe(95_000).sustained_high);
}

#[test]
fn cpu_watch_detects_high_low_high() {
    let mut w = CpuWatch::new();
    assert!(!w.observe(80_000).fluctuation);
    assert!(!w.observe(10_000).fluctuation);
    assert!(w.observe(80_000).fluctuation);
    // The history was cleared, so the pattern is not reported again at once.
    assert!(!w.observe(10_000).fluctuation);
    assert!(!w.observe(80_000).fluctuation);
}

#[test]
fn cpu_watch_learns_user_threshold() {
    let mut w = CpuWatch::new();
    assert_eq!(w.user_threshold(), INITIAL_USER_THRESHOLD);
    for _ in 0..9 {
        assert_eq!(w.observe(76_000).raised_threshold, None);
    }
    assert_eq!(w.observe(76_000).raised_threshold, Some(80_000));
    assert_eq!(w.user_threshold(), 80_000);
    // A reading at or below the threshold resets the count.
    for _ in 0..9 {
        w.observe(81_000);
    }
    w.observe(80_000);
    assert_eq!(w.observe(81_000).raised_threshold, None);
}

#[test]
fn key_decisions() {
    assert_eq!(decide_key(Key::Char('q'), 0, 3), InputAction::Quit);
    assert_eq!(decide_key(Key::Esc, 0, 3), InputAction::Quit);
    assert_eq!(decide_key(Key::Up, 0, 3), InputAction::Select(0));
    assert_eq!(decide_key(Key::Up, 2, 3), InputAction::Select(1));
    assert_eq!(decide_key(Key::Down, 1, 3), InputAction::Select(2));
    assert_eq!(decide_key(Key::Down, 2, 3), InputAction::Select(2));
    assert_eq!(decide_key(Key::Down, 0, 0), InputAction::Select(0));
    assert_eq!(decide_key(Key::Char('k'), 1, 3), InputAction::ConfirmKill(1));
    assert_eq!(decide_key(Key::Char('k'), 0, 0), InputAction::Nothing);
    assert_eq!(decide_key(Key::Char('?'), 0, 0), InputAction::Help);
    assert_eq!(decide_key(Key::Char('h'), 0, 0), InputAction::Help);
    assert_eq!(decide_key(Key::Char('a'), 0, 0), InputAction::ToggleAdaptive);
    assert_eq!(decide_key(Key::Char('p'), 0, 0), InputAction::Pause);
    assert_eq!(decide_key(Key::Char('r'), 0, 0), InputAction::Refresh);
    assert_eq!(decide_key(Key::Char('s'), 0, 0), InputAction::SaveStats);
    assert_eq!(decide_key(Key::Char('z'), 0, 0), InputAction::Nothing);
    assert_eq!(decide_key(Key::Other, 0, 0), InputAction::Nothing);
}

#[test]
fn alert_levels() {
    assert_eq!(alert_level(81_000, 80_000), AlertLevel::Critical);
    assert_eq!(alert_level(80_000, 80_000), AlertLevel::Elevated);
    assert_eq!(alert_level(56_001, 80_000), AlertLevel::Elevated);
    assert_eq!(alert_level(56_000, 80_000), AlertLevel::Normal);
}

#[test]
fn graph_trace_smooths_and_scrolls() {
    let mut t = GraphTrace::new(3, 10);
    // 50% of 10 rows is 5 cells; a fifth of the way from 0 is 1 cell.
    t.push(50_000);
    assert_eq!(t.points(), vec![(0, 1_000)]);
    t.push(50_000);
    t.push(50_000);
    t.push(50_000);
    // Levels 1000, 1800, 2440, 2952: the first has scrolled out.
    assert_eq!(t.points(), vec![(0, 1_800), (1_000, 2_440), (2_000, 2_952)]);
}

#[test]
fn ranking_by_load() {
    let loads = [5_000, 90_000, 5_000, 40_000, 0];
    assert_eq!(rank_by_load(&loads, 3), vec![1, 3, 0]);
    assert_eq!(rank_by_load(&loads, 10), vec![1, 3, 0, 2, 4]);
    assert_eq!(rank_by_load(&loads, 0), Vec::<usize>::new());
    assert_eq!(rank_by_load(&[], 4), Vec::<usize>::new());
}

#[test]
fn sleep_is_clamped_at_zero() {
    assert_eq!(next_sleep_ms(250, 100), 150);
    assert_eq!(next_sleep_ms(250, 250), 0);
    assert_eq!(next_sleep_ms(250, 900), 0);
}
