//! Link quality: a sliding window of probe results, and the state of a line.
//!
//! A line goes down quickly and comes up slowly: a few good probes in the middle
//! of an outage do not bring it back.
use crate::config::{DaemonConfig, WHOLE};
use std::collections::VecDeque;
use vstd::prelude::*;

verus! {

/// The state of a line.
#[derive(Debug, Clone, Copy, PartialEq, Eq, Structural)]
pub enum LinkState {
    Up,
    Down,
}

impl LinkState {
    /// The state as it is shown: `UP` or `DOWN`.
    pub fn text(&self) -> (r: String)
        ensures
            r@ == match *self {
                LinkState::Up => "UP"@,
                LinkState::Down => "DOWN"@,
            },
    {
        match *self {
            LinkState::Up => "UP".to_owned(),
            LinkState::Down => "DOWN".to_owned(),
        }
    }
}

/// The smoothed round-trip time, held against the greatest acceptable one.
#[derive(Debug, Clone, Copy, PartialEq, Eq, Structural)]
pub enum RttVerdict {
    /// No probe has succeeded yet.
    Unknown,
    Normal,
    Over,
}

/// The quality estimator of one line.
pub struct LinkQualityEstimator {
    pub iface_name: String,
    pub state: LinkState,
    /// The last probe results, the oldest first.
    pub window: VecDeque<bool>,
    pub window_capacity: usize,
    /// The number of failures in the window.
    pub lost_count: usize,
    pub consecutive_timeouts: usize,
    pub consecutive_successes: usize,
    pub rtt_fail_count: usize,
    /// How often in a row the round-trip time was too long.
    pub rtt_over_count: usize,
    /// Whether no probe has been made yet.
    pub first_probe: bool,
    pub consecutive_fail_down: usize,
    /// Thresholds in billionths.
    pub loss_threshold_down: i64,
    pub loss_threshold_up: i64,
    pub recovery_success_count: usize,
}

/// An estimator as a mathematical value.
pub ghost struct LqeView {
    pub state: LinkState,
    pub window: Seq<bool>,
    pub capacity: usize,
    pub timeouts: usize,
    pub successes: usize,
    pub rtt_fail_count: usize,
    pub rtt_over_count: usize,
    pub first_probe: bool,
    pub fail_down: usize,
    pub loss_down: i64,
    pub loss_up: i64,
    pub recovery: usize,
}

impl View for LinkQualityEstimator {
    type V = LqeView;

    open spec fn view(&self) -> LqeView {
        LqeView {
            state: self.state,
            window: self.window@,
            capacity: self.window_capacity,
            timeouts: self.consecutive_timeouts,
            successes: self.consecutive_successes,
            rtt_fail_count: self.rtt_fail_count,
            rtt_over_count: self.rtt_over_count,
            first_probe: self.first_probe,
            fail_down: self.consecutive_fail_down,
            loss_down: self.loss_threshold_down,
            loss_up: self.loss_threshold_up,
            recovery: self.recovery_success_count,
        }
    }
}

/// The number of failures in a window.
pub open spec fn lost(window: Seq<bool>) -> nat
    decreases window.len(),
{
    if window.len() == 0 {
        0
    } else {
        lost(window.drop_last()) + (if window.last() {
            0nat
        } else {
            1nat
        })
    }
}

/// One more, up to the greatest number.
pub open spec fn counted(n: usize) -> usize {
    if n == usize::MAX {
        n
    } else {
        (n + 1) as usize
    }
}

/// The window with one more result; the oldest one goes when it is full.
pub open spec fn slide(window: Seq<bool>, capacity: usize, success: bool) -> Seq<bool> {
    if window.len() >= capacity && window.len() > 0 {
        window.drop_first().push(success)
    } else {
        window.push(success)
    }
}

/// Whether the share of failures in a window is above a threshold in billionths.
pub open spec fn loss_above(window: Seq<bool>, threshold: i64) -> bool {
    lost(window) * WHOLE > threshold * window.len()
}

impl LqeView {
    /// An estimator that has seen no probe.
    pub open spec fn fresh(config: DaemonConfig) -> LqeView {
        LqeView {
            state: LinkState::Down,
            window: Seq::empty(),
            capacity: config.window_size,
            timeouts: 0,
            successes: 0,
            rtt_fail_count: if config.rtt_fail_count >= 1 {
                config.rtt_fail_count
            } else {
                1
            },
            rtt_over_count: 0,
            first_probe: true,
            fail_down: config.consecutive_fail_down,
            loss_down: config.loss_threshold_down,
            loss_up: config.loss_threshold_up,
            recovery: config.recovery_success_count,
        }
    }

    /// The counters and the window after a probe, before the state is decided.
    pub open spec fn counting(self, success: bool, rtt: RttVerdict) -> LqeView {
        LqeView {
            window: slide(self.window, self.capacity, success),
            timeouts: if success {
                0
            } else {
                counted(self.timeouts)
            },
            successes: if success {
                counted(self.successes)
            } else {
                0
            },
            rtt_over_count: if rtt == RttVerdict::Over {
                counted(self.rtt_over_count)
            } else {
                0
            },
            ..self
        }
    }

    /// Whether a line that is up goes down: too many failures in a row, too many
    /// in a full window, or a round-trip time that was too long too often in a row.
    pub open spec fn goes_down(self) -> bool {
        ||| self.timeouts >= self.fail_down
        ||| self.window.len() >= self.capacity && loss_above(self.window, self.loss_down)
        ||| self.rtt_over_count >= self.rtt_fail_count
    }

    /// Whether a line that is down comes up: enough successes in a row, a loss that
    /// is not above the threshold, and a normal round-trip time.
    pub open spec fn comes_up(self, rtt: RttVerdict) -> bool {
        &&& self.successes >= self.recovery
        &&& !loss_above(self.window, self.loss_up)
        &&& rtt == RttVerdict::Normal
    }

    /// The estimator after a probe. The first probe decides alone.
    pub open spec fn next(self, success: bool, rtt: RttVerdict) -> LqeView {
        let c = self.counting(success, rtt);
        if self.first_probe {
            LqeView {
                first_probe: false,
                state: if success {
                    LinkState::Up
                } else {
                    self.state
                },
                ..c
            }
        } else if self.state == LinkState::Up {
            if c.goes_down() {
                LqeView { state: LinkState::Down, successes: 0, rtt_over_count: 0, ..c }
            } else {
                c
            }
        } else if c.comes_up(rtt) {
            LqeView { state: LinkState::Up, ..c }
        } else {
            c
        }
    }
}

proof fn lemma_lost_bounds(window: Seq<bool>)
    ensures
        lost(window) <= window.len(),
    decreases window.len(),
{
    if window.len() > 0 {
        lemma_lost_bounds(window.drop_last());
    }
}

proof fn lemma_lost_drop_first(window: Seq<bool>)
    requires
        window.len() > 0,
    ensures
        lost(window) == lost(window.drop_first()) + (if window[0] {
            0nat
        } else {
            1nat
        }),
    decreases window.len(),
{
    if window.len() == 1 {
        assert(window.drop_last() =~= Seq::empty());
        assert(window.drop_first() =~= Seq::empty());
    } else {
        lemma_lost_drop_first(window.drop_last());
        assert(window.drop_first().drop_last() =~= window.drop_last().drop_first());
    }
}

fn count(n: usize) -> (r: usize)
    ensures
        r == counted(n),
{
    if n == usize::MAX {
        n
    } else {
        n + 1
    }
}

impl LinkQualityEstimator {
    /// The number of failures is kept up to date.
    pub open spec fn wf(self) -> bool {
        self.lost_count == lost(self.window@)
    }

    /// An estimator that has seen no probe: the line counts as down.
    pub fn new(iface_name: String, config: &DaemonConfig) -> (r: LinkQualityEstimator)
        ensures
            r.wf(),
            r.iface_name@ == iface_name@,
            r@ == LqeView::fresh(*config),
            r@ == (LqeView {
                state: LinkState::Down,
                window: Seq::empty(),
                capacity: config.window_size,
                timeouts: 0,
                successes: 0,
                rtt_fail_count: if config.rtt_fail_count >= 1 {
                    config.rtt_fail_count
                } else {
                    1
                },
                rtt_over_count: 0,
                first_probe: true,
                fail_down: config.consecutive_fail_down,
                loss_down: config.loss_threshold_down,
                loss_up: config.loss_threshold_up,
                recovery: config.recovery_success_count,
            }),
    {
        LinkQualityEstimator {
            iface_name,
            state: LinkState::Down,
            window: VecDeque::new(),
            window_capacity: config.window_size,
            lost_count: 0,
            consecutive_timeouts: 0,
            consecutive_successes: 0,
            rtt_fail_count: if config.rtt_fail_count >= 1 {
                config.rtt_fail_count
            } else {
                1
            },
            rtt_over_count: 0,
            first_probe: true,
            consecutive_fail_down: config.consecutive_fail_down,
            loss_threshold_down: config.loss_threshold_down,
            loss_threshold_up: config.loss_threshold_up,
            recovery_success_count: config.recovery_success_count,
        }
    }

    /// The number of failures in the window, and the number of results in it.
    pub fn loss_counts(&self) -> (r: (usize, usize))
        requires
            self.wf(),
        ensures
            r.0 == lost(self@.window),
            r.1 == self@.window.len(),
    {
        (self.lost_count, self.window.len())
    }

    /// Whether the loss is above a threshold in billionths.
    fn is_loss_above(&self, threshold: i64) -> (r: bool)
        requires
            self.wf(),
        ensures
            r == loss_above(self@.window, threshold),
    {
        let n: usize = self.window.len();
        proof {
            lemma_lost_bounds(self.window@);
            let l = self.lost_count as int;
            let t = threshold as int;
            let m = n as int;
            assert(0 <= l * 1_000_000_000 <= 0xffff_ffff_ffff_ffff * 1_000_000_000)
                by (nonlinear_arith)
                requires
                    0 <= l <= 0xffff_ffff_ffff_ffff,
            ;
            assert(-0x8000_0000_0000_0000 * 0xffff_ffff_ffff_ffff <= t * m <= 0x8000_0000_0000_0000
                * 0xffff_ffff_ffff_ffff) by (nonlinear_arith)
                requires
                    -0x8000_0000_0000_0000 <= t <= 0x8000_0000_0000_0000,
                    0 <= m <= 0xffff_ffff_ffff_ffff,
            ;
        }
        self.lost_count as i128 * WHOLE as i128 > threshold as i128 * n as i128
    }

    /// Puts a result in the window.
    fn record(&mut self, success: bool)
        requires
            old(self).wf(),
            old(self).window@.len() < usize::MAX,
        ensures
            final(self).wf(),
            final(self)@ == (LqeView {
                window: slide(old(self)@.window, old(self)@.capacity, success),
                ..old(self)@
            }),
            final(self).iface_name == old(self).iface_name,
    {
        proof {
            lemma_lost_bounds(self.window@);
        }
        if self.window.len() >= self.window_capacity {
            let ghost before = self.window@;
            if let Some(evicted) = self.window.pop_front() {
                proof {
                    lemma_lost_drop_first(before);
                    assert(self.window@ =~= before.drop_first());
                }
                if !evicted {
                    self.lost_count = self.lost_count - 1;
                }
            }
        }
        proof {
            lemma_lost_bounds(self.window@);
        }
        let ghost mid = self.window@;
        self.window.push_back(success);
        if !success {
            self.lost_count = self.lost_count + 1;
        }
        assert(self.window@.drop_last() =~= mid);
    }

    /// Takes the result of a probe, and how the smoothed round-trip time stands
    /// after it. Gives the new state, and whether it is another one.
    pub fn update(&mut self, success: bool, rtt: RttVerdict) -> (r: (LinkState, bool))
        requires
            old(self).wf(),
            old(self).window@.len() < usize::MAX,
        ensures
            final(self).wf(),
            final(self)@ == old(self)@.next(success, rtt),
            final(self).iface_name == old(self).iface_name,
            r.0 == final(self).state,
            r.1 == (final(self).state != old(self).state),
            success ==> final(self).consecutive_timeouts == 0,
            !success ==> final(self).consecutive_timeouts == (if old(self).consecutive_timeouts
                < usize::MAX {
                old(self).consecutive_timeouts + 1
            } else {
                usize::MAX as int
            }),
            final(self).window@.last() == success,
    {
        let prev_state = self.state;
        self.record(success);
        if success {
            self.consecutive_timeouts = 0;
            self.consecutive_successes = count(self.consecutive_successes);
        } else {
            self.consecutive_timeouts = count(self.consecutive_timeouts);
            self.consecutive_successes = 0;
        }
        if rtt == RttVerdict::Over {
            self.rtt_over_count = count(self.rtt_over_count);
        } else {
            self.rtt_over_count = 0;
        }
        if self.first_probe {
            self.first_probe = false;
            if success {
                self.state = LinkState::Up;
            }
        } else {
            match self.state {
                LinkState::Up => {
                    let window_full = self.window.len() >= self.window_capacity;
                    let should_down = self.consecutive_timeouts >= self.consecutive_fail_down || (
                    window_full && self.is_loss_above(self.loss_threshold_down))
                        || self.rtt_over_count >= self.rtt_fail_count;
                    if should_down {
                        self.state = LinkState::Down;
                        self.consecutive_successes = 0;
                        self.rtt_over_count = 0;
                    }
                },
                LinkState::Down => {
                    let should_up = self.consecutive_successes >= self.recovery_success_count
                        && !self.is_loss_above(self.loss_threshold_up) && rtt
                        == RttVerdict::Normal;
                    if should_up {
                        self.state = LinkState::Up;
                    }
                },
            }
        }
        (self.state, self.state != prev_state)
    }
}

/// The window never holds more than its capacity (at least one result).
pub proof fn window_is_bounded(s: LqeView, success: bool, rtt: RttVerdict)
    requires
        s.window.len() <= s.capacity || s.window.len() <= 1,
    ensures
        s.next(success, rtt).window.len() <= s.capacity || s.next(success, rtt).window.len() <= 1,
        s.next(success, rtt).capacity == s.capacity,
{
}

/// The first probe decides alone: a success brings the line up at once, a
/// failure leaves it down.
pub proof fn first_probe_decides(s: LqeView, success: bool, rtt: RttVerdict)
    requires
        s.first_probe,
        s.state == LinkState::Down,
    ensures
        s.next(success, rtt).state == (if success {
            LinkState::Up
        } else {
            LinkState::Down
        }),
        !s.next(success, rtt).first_probe,
{
}

/// Any failure starts the count of successes anew, and never brings a line up.
pub proof fn failure_resets_recovery(s: LqeView, rtt: RttVerdict)
    requires
        s.recovery >= 1,
    ensures
        s.next(false, rtt).successes == 0,
        s.state == LinkState::Down ==> s.next(false, rtt).state == LinkState::Down,
{
}

/// The estimator after a list of probes.
pub open spec fn after(s: LqeView, probes: Seq<(bool, RttVerdict)>) -> LqeView
    decreases probes.len(),
{
    if probes.len() == 0 {
        s
    } else {
        after(s, probes.drop_last()).next(probes.last().0, probes.last().1)
    }
}

/// A line that went down does not come up before the wanted number of successes
/// in a row: whatever the probes are, fewer of them leave it down.
pub proof fn recovery_takes_enough_successes(s: LqeView, probes: Seq<(bool, RttVerdict)>)
    requires
        s.state == LinkState::Down,
        !s.first_probe,
        s.successes == 0,
        probes.len() < s.recovery,
    ensures
        after(s, probes).state == LinkState::Down,
        after(s, probes).successes <= probes.len(),
        after(s, probes).recovery == s.recovery,
        !after(s, probes).first_probe,
    decreases probes.len(),
{
    if probes.len() > 0 {
        recovery_takes_enough_successes(s, probes.drop_last());
    }
}

/// A line that just went down starts its recovery from zero.
pub proof fn going_down_starts_from_zero(s: LqeView, success: bool, rtt: RttVerdict)
    requires
        s.state == LinkState::Up,
        s.next(success, rtt).state == LinkState::Down,
    ensures
        s.next(success, rtt).successes == 0,
        !s.next(success, rtt).first_probe,
{
}

/// The rule of recovery: a line that is down comes up if and only if it has had
/// enough successes in a row, the loss in the window does not exceed the
/// threshold, and the round-trip time is normal. A loss just at the threshold is
/// no obstacle.
pub proof fn recovery_rule(s: LqeView, rtt: RttVerdict)
    requires
        s.state == LinkState::Down,
        !s.first_probe,
    ensures
        s.next(true, rtt).state == LinkState::Up <==> {
            &&& counted(s.successes) >= s.recovery
            &&& lost(slide(s.window, s.capacity, true)) * WHOLE <= s.loss_up * slide(
                s.window,
                s.capacity,
                true,
            ).len()
            &&& rtt == RttVerdict::Normal
        },
{
}

/// The given number of failures in a row brings a line down, and keeps it there,
/// whatever else holds.
pub proof fn failures_in_a_row_bring_down(s: LqeView, probes: Seq<(bool, RttVerdict)>)
    requires
        !s.first_probe,
        s.fail_down >= 1,
        s.recovery >= 1,
        forall|i: int| 0 <= i < probes.len() ==> !(#[trigger] probes[i]).0,
    ensures
        ({
            let a = after(s, probes);
            &&& probes.len() >= s.fail_down ==> a.state == LinkState::Down
            &&& a.timeouts >= probes.len() || a.timeouts == usize::MAX
            &&& a.fail_down == s.fail_down && a.recovery == s.recovery && !a.first_probe
        }),
    decreases probes.len(),
{
    if probes.len() > 0 {
        failures_in_a_row_bring_down(s, probes.drop_last());
        assert(!probes.last().0);
    }
}

/// The rule of failure: a line that is up goes down if and only if there were
/// enough failures in a row, or the loss in a full window exceeds the threshold,
/// or the round-trip time was too long often enough in a row.
pub proof fn failure_rule(s: LqeView, success: bool, rtt: RttVerdict)
    requires
        s.state == LinkState::Up,
        !s.first_probe,
    ensures
        s.next(success, rtt).state == LinkState::Down <==> {
            let window = slide(s.window, s.capacity, success);
            ||| (if success { 0 } else { counted(s.timeouts) }) >= s.fail_down
            ||| window.len() >= s.capacity && lost(window) * WHOLE > s.loss_down * window.len()
            ||| (if rtt == RttVerdict::Over { counted(s.rtt_over_count) } else { 0 })
                >= s.rtt_fail_count
        },
{
}

/// A single spike in the round-trip time brings no line down, unless one is
/// configured to be enough.
pub proof fn one_spike_is_not_enough(s: LqeView)
    requires
        s.state == LinkState::Up,
        s.rtt_over_count == 0,
        s.rtt_fail_count >= 2,
        s.fail_down >= 1,
        !loss_above(slide(s.window, s.capacity, true), s.loss_down),
    ensures
        s.next(true, RttVerdict::Over).state == LinkState::Up,
{
}

/// A normal round-trip time starts the count of long ones anew.
pub proof fn normal_rtt_resets_count(s: LqeView, success: bool)
    ensures
        s.next(success, RttVerdict::Normal).rtt_over_count == 0,
{
}

} // verus!
