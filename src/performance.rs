use vstd::prelude::*;

use std::time::Instant;

use crate::clock::{instant_now, micros_since};
use crate::series::{keep_last, BoundedSeries};

verus! {

/// Number of frame durations kept.
pub const FRAME_WINDOW: usize = 60;

/// Number of load samples kept.
pub const LOAD_WINDOW: usize = 10;

/// Load above which a frame is skipped, in thousandths of a percent.
pub const SKIP_LOAD: u32 = 95_000;

pub open spec fn seq_sum_u64(s: Seq<u64>) -> int
    decreases s.len(),
{
    if s.len() == 0 {
        0
    } else {
        seq_sum_u64(s.drop_last()) + s.last()
    }
}

pub open spec fn seq_sum_u32(s: Seq<u32>) -> int
    decreases s.len(),
{
    if s.len() == 0 {
        0
    } else {
        seq_sum_u32(s.drop_last()) + s.last()
    }
}

/// Refresh interval in milliseconds for an average load of `sum / n`
/// (thousandths of a percent): the heavier the load, the slower the refresh.
pub open spec fn interval_for_load(sum: int, n: int) -> u64 {
    if sum > 90_000 * n {
        2000
    } else if sum > 70_000 * n {
        1000
    } else if sum > 50_000 * n {
        500
    } else {
        250
    }
}

/// Refresh interval in milliseconds at a fixed frame rate (thousandths of a frame per
/// second); a rate of zero gives the largest interval.
pub open spec fn fixed_interval(target_fps: u32) -> u64 {
    if target_fps == 0 {
        u64::MAX
    } else {
        (1_000_000int / (target_fps as int)) as u64
    }
}

/// How long to sleep after a frame that took `elapsed_ms` when the next one is due
/// `interval_ms` after it started: the difference, or zero where the frame overran.
pub fn next_sleep_ms(interval_ms: u64, elapsed_ms: u64) -> (r: u64)
    ensures
        r == if interval_ms > elapsed_ms {
            interval_ms - elapsed_ms
        } else {
            0
        },
{
    if interval_ms > elapsed_ms {
        interval_ms - elapsed_ms
    } else {
        0
    }
}

/// Paces rendering by the load of the machine and measures the frame rate.
pub struct PerformanceMonitor {
    frame_times: BoundedSeries<u64>,
    last_frame_time: i64,
    frame_clock: Instant,
    target_fps: u32,
    adaptive_refresh: bool,
    cpu_load_history: BoundedSeries<u32>,
}

impl PerformanceMonitor {
    pub open spec fn wf(&self) -> bool {
        &&& self.frame_times().wf()
        &&& self.frame_times().cap() == FRAME_WINDOW
        &&& self.loads().wf()
        &&& self.loads().cap() == LOAD_WINDOW
    }

    /// Durations of the latest frames, in microseconds, oldest first.
    pub closed spec fn frame_times(&self) -> BoundedSeries<u64> {
        self.frame_times
    }

    /// Latest load samples, in thousandths of a percent, oldest first.
    pub closed spec fn loads(&self) -> BoundedSeries<u32> {
        self.cpu_load_history
    }

    pub closed spec fn frame_start(&self) -> i64 {
        self.last_frame_time
    }

    pub closed spec fn target(&self) -> u32 {
        self.target_fps
    }

    pub closed spec fn adaptive(&self) -> bool {
        self.adaptive_refresh
    }

    /// A monitor for `target_fps` thousandths of a frame per second, with adaptive
    /// refresh on and no frames or load samples recorded.
    pub fn new(target_fps: u32) -> (r: Self)
        ensures
            r.wf(),
            r.target() == target_fps,
            r.adaptive(),
            r.frame_times()@ == Seq::<u64>::empty(),
            r.loads()@ == Seq::<u32>::empty(),
    {
        PerformanceMonitor {
            frame_times: BoundedSeries::new(FRAME_WINDOW),
            last_frame_time: 0,
            frame_clock: instant_now(),
            target_fps,
            adaptive_refresh: true,
            cpu_load_history: BoundedSeries::new(LOAD_WINDOW),
        }
    }

    pub fn target_fps(&self) -> (r: u32)
        ensures
            r == self.target(),
    {
        self.target_fps
    }

    pub fn is_adaptive(&self) -> (r: bool)
        ensures
            r == self.adaptive(),
    {
        self.adaptive_refresh
    }

    /// Marks the start of a frame at time `now` (microseconds).
    pub fn start_frame_at(&mut self, now: i64)
        ensures
            final(self).frame_start() == now,
            final(self).frame_times() == old(self).frame_times(),
            final(self).loads() == old(self).loads(),
            final(self).target() == old(self).target(),
            final(self).adaptive() == old(self).adaptive(),
    {
        self.last_frame_time = now;
    }

    /// Marks the end of a frame at time `now` (microseconds) and records its duration,
    /// zero where the clock went back; the oldest duration past the window is dropped.
    pub fn end_frame_at(&mut self, now: i64) -> (d: u64)
        requires
            old(self).wf(),
        ensures
            final(self).wf(),
            d == if now >= old(self).frame_start() {
                (now - old(self).frame_start()) as u64
            } else {
                0
            },
            final(self).frame_times()@ == keep_last(
                old(self).frame_times()@.push(d),
                FRAME_WINDOW as nat,
            ),
            final(self).frame_start() == old(self).frame_start(),
            final(self).loads() == old(self).loads(),
            final(self).target() == old(self).target(),
            final(self).adaptive() == old(self).adaptive(),
    {
        let d: u64 = if now >= self.last_frame_time {
            (now as i128 - self.last_frame_time as i128) as u64
        } else {
            0
        };
        self.frame_times.push(d);
        d
    }

    /// Marks the start of a frame now, on the monotonic clock.
    pub fn start_frame(&mut self)
        ensures
            final(self).frame_start() == old(self).frame_start(),
            final(self).frame_times() == old(self).frame_times(),
            final(self).loads() == old(self).loads(),
            final(self).target() == old(self).target(),
            final(self).adaptive() == old(self).adaptive(),
    {
        self.frame_clock = instant_now();
    }

    /// Marks the end of a frame now and records the time since its start on the monotonic
    /// clock, in microseconds; the oldest duration past the window is dropped.
    pub fn end_frame(&mut self) -> (d: u64)
        requires
            old(self).wf(),
        ensures
            final(self).wf(),
            final(self).frame_times()@ == keep_last(
                old(self).frame_times()@.push(d),
                FRAME_WINDOW as nat,
            ),
            final(self).frame_start() == old(self).frame_start(),
            final(self).loads() == old(self).loads(),
            final(self).target() == old(self).target(),
            final(self).adaptive() == old(self).adaptive(),
    {
        let d = micros_since(&self.frame_clock);
        self.frame_times.push(d);
        d
    }

    fn total_frame_time(&self) -> (t: u128)
        requires
            self.wf(),
        ensures
            t == seq_sum_u64(self.frame_times()@),
            t <= self.frame_times()@.len() * 0xffff_ffff_ffff_ffff,
    {
        let s = self.frame_times.to_vec();
        let mut total: u128 = 0;
        let mut i: usize = 0;
        while i < s.len()
            invariant
                i <= s.len(),
                s.len() <= FRAME_WINDOW,
                total == seq_sum_u64(s@.subrange(0, i as int)),
                total <= i * 0xffff_ffff_ffff_ffff,
            decreases s.len() - i,
        {
            assert(s@.subrange(0, i + 1).drop_last() =~= s@.subrange(0, i as int));
            total = total + s[i] as u128;
            i = i + 1;
        }
        assert(s@.subrange(0, s.len() as int) =~= s@);
        total
    }

    /// Frames per second over the recorded frames, in thousandths: the number of frames
    /// over their total duration; 0 with no frames recorded, the largest value where
    /// they took no time.
    pub fn get_fps(&self) -> (r: u64)
        requires
            self.wf(),
        ensures
            self.frame_times()@.len() == 0 ==> r == 0,
            self.frame_times()@.len() > 0 && seq_sum_u64(self.frame_times()@) == 0 ==> r
                == u64::MAX,
            self.frame_times()@.len() > 0 && seq_sum_u64(self.frame_times()@) != 0 ==> r == (
            1_000_000_000 * (self.frame_times()@.len() as int) / seq_sum_u64(self.frame_times()@)) as u64,
    {
        let n = self.frame_times.len();
        if n == 0 {
            return 0;
        }
        let total = self.total_frame_time();
        if total == 0 {
            return u64::MAX;
        }
        let n128 = n as u128;
        assert(1_000_000_000 * (n128 as int) / (total as int) <= 1_000_000_000 * (n128 as int)) by (nonlinear_arith)
            requires
                total >= 1,
        ;
        (1_000_000_000 * n128 / total) as u64
    }

    /// Average frame duration in microseconds (thousandths of a millisecond), rounded
    /// down; 0 with no frames recorded.
    pub fn get_frame_time_ms(&self) -> (r: u64)
        requires
            self.wf(),
        ensures
            self.frame_times()@.len() == 0 ==> r == 0,
            self.frame_times()@.len() > 0 ==> r == seq_sum_u64(self.frame_times()@)
                / self.frame_times()@.len() as int,
    {
        let n = self.frame_times.len();
        if n == 0 {
            return 0;
        }
        let total = self.total_frame_time();
        let n128 = n as u128;
        assert(total / n128 <= 0xffff_ffff_ffff_ffff) by (nonlinear_arith)
            requires
                n128 >= 1,
                total <= n128 * 0xffff_ffff_ffff_ffff,
        ;
        (total / n128) as u64
    }

    /// Records `cpu_usage` (thousandths of a percent) among the latest load samples and
    /// returns the next refresh interval in milliseconds: by the average of the samples
    /// when adaptive, else from the target frame rate.
    pub fn calculate_adaptive_refresh(&mut self, cpu_usage: u32) -> (r: u64)
        requires
            old(self).wf(),
        ensures
            final(self).wf(),
            final(self).loads()@ == keep_last(old(self).loads()@.push(cpu_usage), LOAD_WINDOW as nat),
            final(self).frame_times() == old(self).frame_times(),
            final(self).frame_start() == old(self).frame_start(),
            final(self).target() == old(self).target(),
            final(self).adaptive() == old(self).adaptive(),
            r == if old(self).adaptive() {
                interval_for_load(seq_sum_u32(final(self).loads()@), final(self).loads()@.len() as int)
            } else {
                fixed_interval(old(self).target())
            },
    {
        self.cpu_load_history.push(cpu_usage);
        if !self.adaptive_refresh {
            if self.target_fps == 0 {
                return u64::MAX;
            }
            return (1_000_000 / self.target_fps) as u64;
        }
        let s = self.cpu_load_history.to_vec();
        let n = s.len();
        let mut sum: u64 = 0;
        let mut i: usize = 0;
        while i < n
            invariant
                i <= n,
                n == s.len(),
                n <= LOAD_WINDOW,
                sum == seq_sum_u32(s@.subrange(0, i as int)),
                sum <= i * 0xffff_ffff,
            decreases n - i,
        {
            assert(s@.subrange(0, i + 1).drop_last() =~= s@.subrange(0, i as int));
            sum = sum + s[i] as u64;
            i = i + 1;
        }
        assert(s@.subrange(0, n as int) =~= s@);
        let n64 = n as u64;
        if sum > 90_000 * n64 {
            2000
        } else if sum > 70_000 * n64 {
            1000
        } else if sum > 50_000 * n64 {
            500
        } else {
            250
        }
    }

    /// A frame is skipped when the load (thousandths of a percent) is above 95% and
    /// refresh is adaptive.
    pub fn should_skip_frame(&self, cpu_usage: u32) -> (r: bool)
        ensures
            r == (cpu_usage > SKIP_LOAD && self.adaptive()),
    {
        cpu_usage > SKIP_LOAD && self.adaptive_refresh
    }

    /// Frame rate, average frame time and whether refresh is adaptive.
    pub fn get_performance_stats(&self) -> (r: (u64, u64, bool))
        requires
            self.wf(),
        ensures
            r.2 == self.adaptive(),
            r.0 == if self.frame_times()@.len() == 0 {
                0
            } else if seq_sum_u64(self.frame_times()@) == 0 {
                u64::MAX
            } else {
                (1_000_000_000 * (self.frame_times()@.len() as int) / seq_sum_u64(self.frame_times()@)) as u64
            },
            self.frame_times()@.len() == 0 ==> r.1 == 0,
            self.frame_times()@.len() > 0 ==> r.1 == seq_sum_u64(self.frame_times()@)
                / self.frame_times()@.len() as int,
    {
        (self.get_fps(), self.get_frame_time_ms(), self.adaptive_refresh)
    }

    pub fn toggle_adaptive_refresh(&mut self)
        ensures
            final(self).adaptive() == !old(self).adaptive(),
            final(self).frame_times() == old(self).frame_times(),
            final(self).loads() == old(self).loads(),
            final(self).frame_start() == old(self).frame_start(),
            final(self).target() == old(self).target(),
    {
        self.adaptive_refresh = !self.adaptive_refresh;
    }
}

/// A stock of empty vectors kept for reuse, at most `capacity` of them.
pub struct MemoryPool<T> {
    pool: Vec<Vec<T>>,
    capacity: usize,
}

impl<T> MemoryPool<T> {
    /// Number of vectors in stock.
    pub closed spec fn stock(&self) -> nat {
        self.pool@.len()
    }

    pub closed spec fn cap(&self) -> nat {
        self.capacity as nat
    }

    /// Every vector in stock is empty, and the stock is within capacity.
    pub closed spec fn wf(&self) -> bool {
        &&& self.pool@.len() <= self.capacity
        &&& forall|i: int| 0 <= i < self.pool@.len() ==> #[trigger] self.pool@[i]@.len() == 0
    }

    pub fn new(capacity: usize) -> (r: Self)
        ensures
            r.wf(),
            r.stock() == 0,
            r.cap() == capacity,
    {
        MemoryPool { pool: Vec::new(), capacity }
    }

    /// An empty vector: one from stock where there is one, else a new one.
    pub fn get(&mut self) -> (r: Vec<T>)
        requires
            old(self).wf(),
        ensures
            final(self).wf(),
            r@.len() == 0,
            final(self).cap() == old(self).cap(),
            final(self).stock() == if old(self).stock() > 0 {
                old(self).stock() - 1
            } else {
                0
            },
    {
        match self.pool.pop() {
            Some(v) => v,
            None => Vec::with_capacity(self.capacity),
        }
    }

    /// Takes `vec` back, emptied, where the stock is below capacity; else drops it.
    pub fn return_vec(&mut self, vec: Vec<T>)
        requires
            old(self).wf(),
        ensures
            final(self).wf(),
            final(self).cap() == old(self).cap(),
            final(self).stock() == if old(self).stock() < old(self).cap() {
                old(self).stock() + 1
            } else {
                old(self).stock()
            },
    {
        let mut vec = vec;
        if self.pool.len() < self.capacity {
            vec.clear();
            self.pool.push(vec);
        }
    }
}

/// The value of the last entry for `key`, if any.
pub open spec fn lookup(entries: Seq<(Seq<char>, Seq<char>)>, key: Seq<char>) -> Option<Seq<char>>
    decreases entries.len(),
{
    if entries.len() == 0 {
        None
    } else if entries.last().0 == key {
        Some(entries.last().1)
    } else {
        lookup(entries.drop_last(), key)
    }
}

/// Formatted strings by key, emptied whenever a new key would exceed `max_size`.
pub struct StringCache {
    cache: Vec<(String, String)>,
    max_size: usize,
}

impl View for StringCache {
    type V = Seq<(Seq<char>, Seq<char>)>;

    closed spec fn view(&self) -> Seq<(Seq<char>, Seq<char>)> {
        self.cache@.map_values(|e: (String, String)| (e.0@, e.1@))
    }
}

impl StringCache {
    pub closed spec fn max(&self) -> nat {
        self.max_size as nat
    }

    pub fn new(max_size: usize) -> (r: Self)
        ensures
            r@ == Seq::<(Seq<char>, Seq<char>)>::empty(),
            r.max() == max_size,
    {
        let r = StringCache { cache: Vec::new(), max_size };
        assert(r@ =~= Seq::<(Seq<char>, Seq<char>)>::empty());
        r
    }

    fn find(&self, key: &String) -> (r: Option<usize>)
        ensures
            r is None ==> lookup(self@, key@) is None,
            r matches Some(i) ==> i < self@.len() && lookup(self@, key@) == Some(self@[i as int].1),
    {
        let mut i: usize = self.cache.len();
        assert(self@.subrange(0, i as int) =~= self@);
        while i > 0
            invariant
                i <= self.cache.len(),
                lookup(self@, key@) == lookup(self@.subrange(0, i as int), key@),
            decreases i,
        {
            let ghost pre = self@.subrange(0, i as int);
            assert(pre.drop_last() =~= self@.subrange(0, i - 1));
            if self.cache[i - 1].0 == *key {
                return Some(i - 1);
            }
            i = i - 1;
        }
        None
    }

    /// The string cached for `key`; where there is none, the one `formatter` makes, which
    /// is cached first (after emptying the cache if it is full).
    pub fn get_or_format<F>(&mut self, key: &str, formatter: F) -> (r: &str)
        where
            F: FnOnce() -> String,
        requires
            formatter.requires(()),
        ensures
            lookup(old(self)@, key@) matches Some(v) ==> r@ == v && final(self)@ == old(self)@,
            lookup(old(self)@, key@) is None ==> exists|s: String|
                #[trigger] formatter.ensures((), s) && r@ == s@ && final(self)@ == (if old(
                    self,
                )@.len() >= old(self).max() {
                    Seq::<(Seq<char>, Seq<char>)>::empty()
                } else {
                    old(self)@
                }).push((key@, s@)),
            final(self).max() == old(self).max(),
    {
        let k = key.to_owned();
        match self.find(&k) {
            Some(i) => self.cache[i].1.as_str(),
            None => {
                if self.cache.len() >= self.max_size {
                    self.cache.clear();
                }
                let ghost mid = self@;
                let formatted = formatter();
                self.cache.push((k, formatted));
                assert(self@ =~= mid.push((key@, formatted@)));
                let last = self.cache.len() - 1;
                self.cache[last].1.as_str()
            },
        }
    }
}

} // verus!
