use vstd::arithmetic::div_mod::{lemma_div_is_ordered, lemma_fundamental_div_mod_converse};
use vstd::prelude::*;

use crate::raster::Point;
use crate::series::{keep_last, BoundedSeries};
use crate::SCALE;

verus! {

/// How a reading compares with its warning threshold.
#[derive(Clone, Copy, Debug, PartialEq, Eq)]
pub enum AlertLevel {
    Normal,
    /// Above 70% of the threshold.
    Elevated,
    /// Above the threshold.
    Critical,
}

pub open spec fn alert_spec(value: int, threshold: int) -> AlertLevel {
    if value > threshold {
        AlertLevel::Critical
    } else if 10 * value > 7 * threshold {
        AlertLevel::Elevated
    } else {
        AlertLevel::Normal
    }
}

pub fn alert_level(value: u32, threshold: u32) -> (r: AlertLevel)
    ensures
        r == alert_spec(value as int, threshold as int),
{
    if value > threshold {
        AlertLevel::Critical
    } else if 10 * (value as u64) > 7 * (threshold as u64) {
        AlertLevel::Elevated
    } else {
        AlertLevel::Normal
    }
}

/// Height, in thousandths of a cell, of a reading of `usage` thousandths of a percent in a
/// graph `height` cells high.
pub open spec fn level_of(usage: int, height: int) -> int {
    usage * height / 100
}

/// One step of smoothing: four fifths of the old level, one fifth of the new, rounded down.
pub open spec fn smooth(prev: int, target: int) -> int {
    (4 * prev + target) / 5
}

/// A scrolling graph of smoothed readings: one point per frame, as many as the graph is
/// wide, the newest on the right.
pub struct GraphTrace {
    levels: BoundedSeries<i32>,
    smoothed: i32,
    height: u16,
}

impl GraphTrace {
    /// Plotted levels, oldest first, in thousandths of a cell.
    pub closed spec fn levels(&self) -> Seq<i32> {
        self.levels@
    }

    pub closed spec fn level(&self) -> i32 {
        self.smoothed
    }

    pub closed spec fn width(&self) -> nat {
        self.levels.cap()
    }

    pub closed spec fn rows(&self) -> u16 {
        self.height
    }

    pub closed spec fn wf(&self) -> bool {
        &&& self.levels.wf()
        &&& 0 <= self.smoothed <= 1000 * self.height
        &&& self.levels.cap() <= u16::MAX
    }

    pub fn new(width: u16, height: u16) -> (r: Self)
        ensures
            r.wf(),
            r.levels() == Seq::<i32>::empty(),
            r.level() == 0,
            r.width() == width,
            r.rows() == height,
    {
        GraphTrace { levels: BoundedSeries::new(width as usize), smoothed: 0, height }
    }

    /// Adds a reading of `usage` thousandths of a percent: the level moves a fifth of the
    /// way towards it and is plotted as the newest point; the oldest point leaves once the
    /// graph is full.
    pub fn push(&mut self, usage: u32)
        requires
            old(self).wf(),
            usage <= 100_000,
        ensures
            final(self).wf(),
            final(self).width() == old(self).width(),
            final(self).rows() == old(self).rows(),
            final(self).level() == smooth(
                old(self).level() as int,
                level_of(usage as int, old(self).rows() as int),
            ),
            final(self).levels() == keep_last(
                old(self).levels().push(final(self).level()),
                old(self).width(),
            ),
    {
        let h: i64 = self.height as i64;
        assert(0 <= (usage as i64) * h <= 100_000 * h) by (nonlinear_arith)
            requires
                0 <= usage <= 100_000,
                0 <= h,
        ;
        let target: i64 = (usage as i64) * h / 100;
        proof {
            lemma_div_is_ordered((usage as i64) * h, 100_000 * h, 100);
            lemma_fundamental_div_mod_converse(100_000 * h, 100, 1000 * h, 0);
        }
        let next: i64 = (4 * (self.smoothed as i64) + target) / 5;
        proof {
            lemma_div_is_ordered(4 * (self.smoothed as i64) + target, 5000 * h, 5);
            lemma_fundamental_div_mod_converse(5000 * h, 5, 1000 * h, 0);
        }
        assert(0 <= next <= 1000 * h);
        self.smoothed = next as i32;
        self.levels.push(next as i32);
    }

    /// The points to draw: the `i`-th oldest level at column `i`.
    pub fn points(&self) -> (r: Vec<Point>)
        requires
            self.wf(),
        ensures
            r@.len() == self.levels().len(),
            forall|i: int|
                0 <= i < r@.len() ==> #[trigger] r@[i] == ((i * SCALE) as i32, self.levels()[i]),
    {
        let s = self.levels.to_vec();
        let mut r: Vec<Point> = Vec::new();
        let mut i: usize = 0;
        while i < s.len()
            invariant
                i <= s.len(),
                s@ == self.levels(),
                s.len() <= u16::MAX,
                r@.len() == i,
                forall|j: int| 0 <= j < i ==> #[trigger] r@[j] == ((j * SCALE) as i32, s@[j]),
            decreases s.len() - i,
        {
            r.push(((i as i32) * (SCALE as i32), s[i]));
            i = i + 1;
        }
        r
    }
}

} // verus!
