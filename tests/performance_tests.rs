use grainx::performance::{MemoryPool, PerformanceMonitor, StringCache};
use grainx::series::BoundedSeries;

#[test]
fn test_performance_monitor_creation() {
    let perf = PerformanceMonitor::new(60_000);
    assert_eq!(perf.target_fps(), 60_000);
    assert!(perf.is_adaptive());
}

#[test]
fn test_adaptive_refresh_high_cpu() {
    let mut perf = PerformanceMonitor::new(60_000);
    let refresh_time = perf.calculate_adaptive_refresh(95_000);
    assert!(refresh_time >= 1000);
}

#[test]
fn test_adaptive_refresh_low_cpu() {
    let mut perf = PerformanceMonitor::new(60_000);
    let refresh_time = perf.calculate_adaptive_refresh(20_000);
    assert!(refresh_time <= 500);
}

#[test]
fn test_frame_skipping() {
    let perf = PerformanceMonitor::new(60_000);
    assert!(perf.should_skip_frame(96_000));
    assert!(!perf.should_skip_frame(50_000));
}

#[test]
fn test_toggle_adaptive() {
    let mut perf = PerformanceMonitor::new(60_000);
    let initial = perf.is_adaptive();
    perf.toggle_adaptive_refresh();
    assert_ne!(initial, perf.is_adaptive());
}

#[test]
fn test_memory_pool() {
    let mut pool: MemoryPool<i32> = MemoryPool::new(10);
    let vec1 = pool.get();
    assert!(vec1.is_empty());

    let vec2 = vec![1, 2, 3];
    pool.return_vec(vec2);

    let vec3 = pool.get();
    assert!(vec3.is_empty());
}

#[test]
fn test_string_cache() {
    let mut cache = StringCache::new(5);
    let result1 = cache.get_or_format("test", || "formatted".to_string()).to_string();
    let result2 = cache.get_or_format("test", || "different".to_string()).to_string();

    assert_eq!(result1, "formatted");
    assert_eq!(result2, "formatted");
}

#[test]
fn string_cache_empties_when_full() {
    let mut cache = StringCache::new(2);
    cache.get_or_format("a", || "1".to_string());
    cache.get_or_format("b", || "2".to_string());
    cache.get_or_format("c", || "3".to_string());
    // The cache was emptied before "c" went in, so "a" is made afresh.
    assert_eq!(cache.get_or_format("a", || "again".to_string()), "again");
    assert_eq!(cache.get_or_format("c", || "x".to_string()), "3");
}

#[test]
fn pacing_step_function() {
    let mut perf = PerformanceMonitor::new(60_000);
    assert_eq!(perf.calculate_adaptive_refresh(96_000), 2000);
    let mut perf = PerformanceMonitor::new(60_000);
    assert_eq!(perf.calculate_adaptive_refresh(10_000), 250);
    let mut perf = PerformanceMonitor::new(60_000);
    assert_eq!(perf.calculate_adaptive_refresh(90_000), 1000);
    let mut perf = PerformanceMonitor::new(60_000);
    assert_eq!(perf.calculate_adaptive_refresh(70_001), 1000);
    let mut perf = PerformanceMonitor::new(60_000);
    assert_eq!(perf.calculate_adaptive_refresh(50_001), 500);
    let mut perf = PerformanceMonitor::new(60_000);
    assert_eq!(perf.calculate_adaptive_refresh(50_000), 250);
    let perf = PerformanceMonitor::new(60_000);
    assert!(perf.should_skip_frame(96_000));
    assert!(!perf.should_skip_frame(50_000));
    assert!(!perf.should_skip_frame(95_000));
}

#[test]
fn pacing_averages_the_last_ten_samples() {
    let mut perf = PerformanceMonitor::new(60_000);
    for _ in 0..10 {
        perf.calculate_adaptive_refresh(100_000);
    }
    // Ten samples of 100% then one of 0%: the oldest 100% drops out, average 90%.
    assert_eq!(perf.calculate_adaptive_refresh(0), 1000);
}

#[test]
fn pacing_without_adaptivity_uses_target_rate() {
    let mut perf = PerformanceMonitor::new(60_000);
    perf.toggle_adaptive_refresh();
    assert_eq!(perf.calculate_adaptive_refresh(99_000), 16);
    assert!(!perf.should_skip_frame(99_000));
    let mut zero = PerformanceMonitor::new(0);
    zero.toggle_adaptive_refresh();
    assert_eq!(zero.calculate_adaptive_refresh(0), u64::MAX);
}

#[test]
fn frame_statistics() {
    let mut perf = PerformanceMonitor::new(60_000);
    assert_eq!(perf.get_fps(), 0);
    assert_eq!(perf.get_frame_time_ms(), 0);
    perf.start_frame_at(100);
    assert_eq!(perf.end_frame_at(20_100), 20_000);
    perf.start_frame_at(500);
    assert_eq!(perf.end_frame_at(400), 0);
    assert_eq!(perf.get_frame_time_ms(), 10_000);
    assert_eq!(perf.get_fps(), 100_000);
    assert_eq!(perf.get_performance_stats(), (100_000, 10_000, true));
}

#[test]
fn frame_window_keeps_sixty() {
    let mut perf = PerformanceMonitor::new(60_000);
    perf.start_frame_at(0);
    perf.end_frame_at(1_000_000);
    for _ in 0..60 {
        perf.start_frame_at(0);
        perf.end_frame_at(10_000);
    }
    // The one-second frame has dropped out of the window.
    assert_eq!(perf.get_frame_time_ms(), 10_000);
}

#[test]
fn frame_clock_measures_elapsed_time() {
    let mut perf = PerformanceMonitor::new(60_000);
    perf.start_frame();
    let d = perf.end_frame();
    assert!(d < 60_000_000);
}

#[test]
fn bounded_series_never_exceeds_capacity() {
    let mut s = BoundedSeries::new(10);
    for i in 0..100 {
        s.push(i);
        assert!(s.len() <= 10);
    }
    assert_eq!(s.to_vec(), vec![90, 91, 92, 93, 94, 95, 96, 97, 98, 99]);
    let mut empty = BoundedSeries::new(0);
    empty.push(1);
    assert_eq!(empty.len(), 0);
    s.clear();
    assert_eq!(s.len(), 0);
    assert_eq!(s.capacity(), 10);
}

#[test]
fn memory_pool_respects_capacity() {
    let mut pool: MemoryPool<u8> = MemoryPool::new(1);
    pool.return_vec(vec![1]);
    pool.return_vec(vec![2]);
    assert!(pool.get().is_empty());
    assert!(pool.get().is_empty());
}
