use vstd::prelude::*;

use crate::series::{keep_last, BoundedSeries};

verus! {

/// Number of high/low readings remembered for pattern detection.
pub const STATE_WINDOW: usize = 5;

/// Threshold above which the user is considered to load the machine, at first
/// (thousandths of a percent).
pub const INITIAL_USER_THRESHOLD: u32 = 75_000;

/// How often to sample next, in milliseconds, for a load in thousandths of a percent:
/// more often under heavy load.
pub open spec fn sampling_interval(usage: u32) -> u64 {
    if usage > 80_000 {
        100
    } else if usage > 50_000 {
        200
    } else {
        500
    }
}

pub open spec fn is_fluctuation(h: Seq<bool>) -> bool {
    h.len() == 3 && h[0] && !h[1] && h[2]
}

/// What one CPU reading reveals.
#[derive(Clone, Copy, Debug, PartialEq, Eq)]
pub struct CpuReading {
    /// When to sample next, in milliseconds.
    pub sampling_interval_ms: u64,
    /// Load above 90% for five readings or more in a row.
    pub sustained_high: bool,
    /// The remembered readings went high, low, high.
    pub fluctuation: bool,
    /// The user threshold after it was raised by this reading.
    pub raised_threshold: Option<u32>,
}

/// Watches successive CPU readings for sustained load, fluctuation, and a user who keeps
/// the machine busy (whose threshold is then raised by 5%).
pub struct CpuWatch {
    last_cpu_usage: u32,
    high_cpu_duration: u32,
    cpu_state_history: BoundedSeries<bool>,
    user_cpu_threshold: u32,
    high_cpu_count: u32,
}

impl CpuWatch {
    pub closed spec fn last(&self) -> u32 {
        self.last_cpu_usage
    }

    /// Readings above 90% in a row.
    pub closed spec fn high_run(&self) -> u32 {
        self.high_cpu_duration
    }

    /// Latest high/low readings (high: above 70%), oldest first.
    pub closed spec fn states(&self) -> Seq<bool> {
        self.cpu_state_history@
    }

    pub closed spec fn threshold(&self) -> u32 {
        self.user_cpu_threshold
    }

    /// Readings above the user threshold in a row.
    pub closed spec fn over_count(&self) -> u32 {
        self.high_cpu_count
    }

    pub closed spec fn wf(&self) -> bool {
        &&& self.cpu_state_history.wf()
        &&& self.cpu_state_history.cap() == STATE_WINDOW
    }

    pub fn new() -> (r: Self)
        ensures
            r.wf(),
            r.last() == 0,
            r.high_run() == 0,
            r.states() == Seq::<bool>::empty(),
            r.threshold() == INITIAL_USER_THRESHOLD,
            r.over_count() == 0,
    {
        CpuWatch {
            last_cpu_usage: 0,
            high_cpu_duration: 0,
            cpu_state_history: BoundedSeries::new(STATE_WINDOW),
            user_cpu_threshold: INITIAL_USER_THRESHOLD,
            high_cpu_count: 0,
        }
    }

    pub fn user_threshold(&self) -> (r: u32)
        ensures
            r == self.threshold(),
    {
        self.user_cpu_threshold
    }

    pub fn last_usage(&self) -> (r: u32)
        ensures
            r == self.last(),
    {
        self.last_cpu_usage
    }

    /// Takes in one reading (thousandths of a percent).
    pub fn observe(&mut self, usage: u32) -> (r: CpuReading)
        requires
            old(self).wf(),
        ensures
            final(self).wf(),
            final(self).last() == usage,
            r.sampling_interval_ms == sampling_interval(usage),
            final(self).high_run() == if usage > 90_000 {
                if old(self).high_run() < u32::MAX {
                    old(self).high_run() + 1
                } else {
                    u32::MAX as int
                }
            } else {
                0
            },
            r.sustained_high == (final(self).high_run() >= 5),
            ({
                let h = keep_last(old(self).states().push(usage > 70_000), STATE_WINDOW as nat);
                &&& r.fluctuation == is_fluctuation(h)
                &&& final(self).states() == if is_fluctuation(h) {
                    Seq::<bool>::empty()
                } else {
                    h
                }
            }),
            usage > old(self).threshold() && old(self).over_count() >= 9 ==> {
                &&& final(self).threshold() == if old(self).threshold() <= u32::MAX - 5_000 {
                    old(self).threshold() + 5_000
                } else {
                    u32::MAX as int
                }
                &&& final(self).over_count() == 0
                &&& r.raised_threshold == Some(final(self).threshold())
            },
            usage > old(self).threshold() && old(self).over_count() < 9 ==> {
                &&& final(self).threshold() == old(self).threshold()
                &&& final(self).over_count() == old(self).over_count() + 1
                &&& r.raised_threshold is None
            },
            usage <= old(self).threshold() ==> {
                &&& final(self).threshold() == old(self).threshold()
                &&& final(self).over_count() == 0
                &&& r.raised_threshold is None
            },
    {
        let interval: u64 = if usage > 80_000 {
            100
        } else if usage > 50_000 {
            200
        } else {
            500
        };
        if usage > 90_000 {
            self.high_cpu_duration = self.high_cpu_duration.saturating_add(1);
        } else {
            self.high_cpu_duration = 0;
        }
        let sustained = self.high_cpu_duration >= 5;
        self.cpu_state_history.push(usage > 70_000);
        let h = self.cpu_state_history.to_vec();
        let fluctuation = h.len() == 3 && h[0] && !h[1] && h[2];
        if fluctuation {
            self.cpu_state_history.clear();
        }
        let mut raised: Option<u32> = None;
        if usage > self.user_cpu_threshold {
            if self.high_cpu_count >= 9 {
                self.user_cpu_threshold = self.user_cpu_threshold.saturating_add(5_000);
                self.high_cpu_count = 0;
                raised = Some(self.user_cpu_threshold);
            } else {
                self.high_cpu_count = self.high_cpu_count + 1;
            }
        } else {
            self.high_cpu_count = 0;
        }
        self.last_cpu_usage = usage;
        CpuReading {
            sampling_interval_ms: interval,
            sustained_high: sustained,
            fluctuation,
            raised_threshold: raised,
        }
    }
}

/// A key as the input handler sees it.
#[derive(Clone, Copy, Debug, PartialEq, Eq)]
pub enum Key {
    Char(char),
    Up,
    Down,
    Esc,
    Other,
}

/// What a key press asks for.
#[derive(Clone, Copy, Debug, PartialEq, Eq)]
pub enum InputAction {
    Quit,
    /// The selection moved (or stayed at its end).
    Select(usize),
    /// Ask to kill the process at this position of the list.
    ConfirmKill(usize),
    Refresh,
    Help,
    Pause,
    SaveStats,
    ToggleAdaptive,
    Nothing,
}

pub open spec fn key_action(key: Key, selected: usize, len: usize) -> InputAction {
    match key {
        Key::Char(c) => if c == 'q' {
            InputAction::Quit
        } else if c == 'k' {
            if len > 0 && selected < len {
                InputAction::ConfirmKill(selected)
            } else {
                InputAction::Nothing
            }
        } else if c == 'r' {
            InputAction::Refresh
        } else if c == 'h' || c == '?' {
            InputAction::Help
        } else if c == 'p' {
            InputAction::Pause
        } else if c == 's' {
            InputAction::SaveStats
        } else if c == 'a' {
            InputAction::ToggleAdaptive
        } else {
            InputAction::Nothing
        },
        Key::Esc => InputAction::Quit,
        Key::Up => InputAction::Select(
            if selected > 0 {
                (selected - 1) as usize
            } else {
                selected
            },
        ),
        Key::Down => InputAction::Select(
            if len > 0 && selected < len - 1 {
                (selected + 1) as usize
            } else {
                selected
            },
        ),
        Key::Other => InputAction::Nothing,
    }
}

/// Decides what a key press does, with `selected` the position of the selected process in
/// a list of `len`: `q` and Esc quit, the arrows move the selection within the list, `k`
/// asks to kill the selected process, and `r`, `h`/`?`, `p`, `s`, `a` refresh, show help,
/// pause, save statistics and toggle adaptive refresh.
pub fn decide_key(key: Key, selected: usize, len: usize) -> (r: InputAction)
    ensures
        r == key_action(key, selected, len),
{
    match key {
        Key::Char(c) => {
            if c == 'q' {
                InputAction::Quit
            } else if c == 'k' {
                if len > 0 && selected < len {
                    InputAction::ConfirmKill(selected)
                } else {
                    InputAction::Nothing
                }
            } else if c == 'r' {
                InputAction::Refresh
            } else if c == 'h' || c == '?' {
                InputAction::Help
            } else if c == 'p' {
                InputAction::Pause
            } else if c == 's' {
                InputAction::SaveStats
            } else if c == 'a' {
                InputAction::ToggleAdaptive
            } else {
                InputAction::Nothing
            }
        },
        Key::Esc => InputAction::Quit,
        Key::Up => InputAction::Select(
            if selected > 0 {
                selected - 1
            } else {
                selected
            },
        ),
        Key::Down => InputAction::Select(
            if len > 0 && selected < len - 1 {
                selected + 1
            } else {
                selected
            },
        ),
        Key::Other => InputAction::Nothing,
    }
}

} // verus!
