//! What the estimator of a line makes of a whole list of probes.
use crate::config::DaemonConfig;
use crate::lqe::{after, lost, LinkState, LqeView, RttVerdict};
use vstd::prelude::*;

verus! {

/// A list of probes, the oldest first: whether each succeeded, and how the
/// round-trip time stood after it.
pub type Probes = Seq<(bool, RttVerdict)>;

/// Whether the last `k` probes of a list all failed.
pub open spec fn last_failed(probes: Probes, k: int) -> bool {
    &&& 0 <= k <= probes.len()
    &&& forall|i: int| probes.len() - k <= i < probes.len() ==> !(#[trigger] probes[i]).0
}

/// Whether the last `k` probes of a list all succeeded.
pub open spec fn last_succeeded(probes: Probes, k: int) -> bool {
    &&& 0 <= k <= probes.len()
    &&& forall|i: int| probes.len() - k <= i < probes.len() ==> (#[trigger] probes[i]).0
}

/// Whether the round-trip time was too long after each of the last `k` probes.
pub open spec fn last_too_long(probes: Probes, k: int) -> bool {
    &&& 0 <= k <= probes.len()
    &&& forall|i: int|
        probes.len() - k <= i < probes.len() ==> (#[trigger] probes[i]).1 == RttVerdict::Over
}

/// The number of results that are kept of a list of `n` probes: the last one
/// always, and no more than the window holds.
pub open spec fn kept(capacity: usize, n: nat) -> nat {
    if n <= 1 || capacity == 0 {
        if n == 0 {
            0
        } else {
            1
        }
    } else if n <= capacity {
        n
    } else {
        capacity as nat
    }
}

/// The results of the last `k` probes of a list.
pub open spec fn last_results(probes: Probes, k: nat) -> Seq<bool> {
    Seq::new(k, |i: int| probes[probes.len() - k + i].0)
}

/// The number of failures among some results.
pub open spec fn failures(results: Seq<bool>) -> nat {
    results.filter(|r: bool| !r).len()
}

/// One failure more or less in a window is counted as one.
pub proof fn losses_are_the_failures(window: Seq<bool>)
    ensures
        lost(window) == failures(window),
        lost(window) <= window.len(),
        lost(window) == 0 <==> forall|i: int| 0 <= i < window.len() ==> #[trigger] window[i],
    decreases window.len(),
{
    let f = |r: bool| !r;
    reveal(Seq::filter);
    if window.len() > 0 {
        let init = window.drop_last();
        losses_are_the_failures(init);
        assert forall|i: int| 0 <= i < init.len() implies init[i] == window[i] by {}
        assert(window.filter(f).len() == init.filter(f).len() + (if f(window.last()) {
            1nat
        } else {
            0nat
        }));
        if lost(window) == 0 {
            assert forall|i: int| 0 <= i < window.len() implies #[trigger] window[i] by {
                if i < init.len() {
                    assert(init[i]);
                }
            }
        }
        if forall|i: int| 0 <= i < window.len() ==> #[trigger] window[i] {
            assert(window[window.len() - 1]);
            assert forall|i: int| 0 <= i < init.len() implies #[trigger] init[i] by {
                assert(window[i]);
            }
        }
    }
}

/// A success ends the run of failures, and a failure makes it longer by one,
/// whatever the state of the line is.
pub proof fn every_probe_is_counted(s: LqeView, rtt: RttVerdict)
    ensures
        s.next(true, rtt).timeouts == 0,
        s.timeouts < usize::MAX ==> s.next(false, rtt).timeouts == s.timeouts + 1,
        s.timeouts == usize::MAX ==> s.next(false, rtt).timeouts == usize::MAX,
        s.next(false, rtt).successes == 0,
        s.next(true, rtt).successes == 0 || s.next(true, rtt).successes == s.successes + 1
            || s.next(true, rtt).successes == usize::MAX,
        s.next(true, rtt).successes == 0 ==> s.state == LinkState::Up && s.next(true, rtt).state
            == LinkState::Down,
{
}

/// A probe does not change what the estimator was set up with.
pub proof fn settings_stay(s: LqeView, probes: Probes)
    ensures
        after(s, probes).capacity == s.capacity,
        after(s, probes).fail_down == s.fail_down,
        after(s, probes).rtt_fail_count == s.rtt_fail_count,
        after(s, probes).loss_down == s.loss_down,
        after(s, probes).loss_up == s.loss_up,
        after(s, probes).recovery == s.recovery,
        probes.len() > 0 ==> !after(s, probes).first_probe,
        probes.len() == 0 ==> after(s, probes) == s,
    decreases probes.len(),
{
    if probes.len() > 0 {
        settings_stay(s, probes.drop_last());
    }
}

/// After any list of probes the count of failures in a row is the length of the
/// run of failures at the end of the list, up to the greatest number: that many
/// probes at the end failed, and the one before them succeeded.
pub proof fn timeouts_are_the_last_failures(s: LqeView, probes: Probes)
    requires
        s.timeouts == 0,
    ensures
        ({
            let t = after(s, probes).timeouts;
            &&& last_failed(probes, t as int)
            &&& t < probes.len() && t < usize::MAX ==> probes[probes.len() - 1 - t].0
        }),
    decreases probes.len(),
{
    if probes.len() > 0 {
        let init = probes.drop_last();
        timeouts_are_the_last_failures(s, init);
        let before = after(s, init);
        every_probe_is_counted(before, probes.last().1);
        let t = after(s, probes).timeouts;
        assert(probes[probes.len() - 1] == probes.last());
        assert forall|i: int| probes.len() - t <= i < probes.len() implies !(
        #[trigger] probes[i]).0 by {
            if i < init.len() {
                assert(init[i] == probes[i]);
            }
        }
        if !probes.last().0 && before.timeouts < usize::MAX && t < probes.len() {
            assert(init[init.len() - 1 - before.timeouts].0);
        }
    }
}

/// After any list of probes the count of successes in a row is a run of successes
/// at the end of the list. It is the whole run, unless the line went down within
/// it: then it is what came after.
pub proof fn successes_are_the_last_ones(s: LqeView, probes: Probes)
    requires
        s.successes == 0,
    ensures
        ({
            let c = after(s, probes).successes;
            &&& last_succeeded(probes, c as int)
            &&& c < probes.len() && c < usize::MAX ==> {
                let at = probes.len() - 1 - c;
                ||| !probes[at].0
                ||| after(s, probes.take(at)).state == LinkState::Up && after(
                    s,
                    probes.take(at + 1),
                ).state == LinkState::Down
            }
        }),
    decreases probes.len(),
{
    if probes.len() > 0 {
        let init = probes.drop_last();
        successes_are_the_last_ones(s, init);
        let before = after(s, init);
        every_probe_is_counted(before, probes.last().1);
        let c = after(s, probes).successes;
        assert(probes[probes.len() - 1] == probes.last());
        assert(probes.take(probes.len() - 1) =~= init);
        assert(probes.take(probes.len() as int) =~= probes);
        assert forall|i: int| probes.len() - c <= i < probes.len() implies (
        #[trigger] probes[i]).0 by {
            if i < init.len() {
                assert(init[i] == probes[i]);
            }
        }
        if c > 0 && c < probes.len() && c < usize::MAX {
            let at = probes.len() - 1 - c;
            assert(init.take(at) =~= probes.take(at));
            assert(init.take(at + 1) =~= probes.take(at + 1));
            assert(init[at] == probes[at]);
        }
    }
}

/// After any list of probes the count of long round-trip times in a row is a run
/// of them at the end of the list. It is the whole run, unless the line went down
/// within it: then it is what came after.
pub proof fn long_times_are_the_last_ones(s: LqeView, probes: Probes)
    requires
        s.rtt_over_count == 0,
    ensures
        ({
            let c = after(s, probes).rtt_over_count;
            &&& last_too_long(probes, c as int)
            &&& c < probes.len() && c < usize::MAX ==> {
                let at = probes.len() - 1 - c;
                ||| probes[at].1 != RttVerdict::Over
                ||| after(s, probes.take(at)).state == LinkState::Up && after(
                    s,
                    probes.take(at + 1),
                ).state == LinkState::Down
            }
        }),
    decreases probes.len(),
{
    if probes.len() > 0 {
        let init = probes.drop_last();
        long_times_are_the_last_ones(s, init);
        let c = after(s, probes).rtt_over_count;
        assert(probes[probes.len() - 1] == probes.last());
        assert(probes.take(probes.len() - 1) =~= init);
        assert(probes.take(probes.len() as int) =~= probes);
        assert forall|i: int| probes.len() - c <= i < probes.len() implies (
        #[trigger] probes[i]).1 == RttVerdict::Over by {
            if i < init.len() {
                assert(init[i] == probes[i]);
            }
        }
        if c > 0 && c < probes.len() && c < usize::MAX {
            let at = probes.len() - 1 - c;
            assert(init.take(at) =~= probes.take(at));
            assert(init.take(at + 1) =~= probes.take(at + 1));
            assert(init[at] == probes[at]);
        }
    }
}

/// The window holds the results of the last probes, the oldest first: as many as
/// it has room for.
pub proof fn window_is_the_last_results(s: LqeView, probes: Probes)
    requires
        s.window.len() == 0,
    ensures
        after(s, probes).window == last_results(probes, kept(s.capacity, probes.len())),
    decreases probes.len(),
{
    let n = kept(s.capacity, probes.len());
    if probes.len() > 0 {
        let init = probes.drop_last();
        window_is_the_last_results(s, init);
        settings_stay(s, init);
        let before = after(s, init);
        let m = kept(s.capacity, init.len());
        assert(after(s, probes).window.len() == n);
        assert forall|i: int| 0 <= i < n implies #[trigger] after(s, probes).window[i]
            == last_results(probes, n)[i] by {
            if i < n - 1 {
                assert(before.window[i + m + 1 - n] == last_results(init, m)[i + m + 1 - n]);
            }
        }
        assert(after(s, probes).window =~= last_results(probes, n));
    } else {
        assert(after(s, probes).window =~= last_results(probes, n));
    }
}

/// When a line goes down, told by its probes alone. A line that is up goes down
/// with a probe if and only if with it the last `fail_down` probes all failed, or
/// the window is full and the share of failures in it is above the threshold, or
/// the round-trip time has been too long as often in a row as is configured.
pub proof fn the_last_probes_bring_down(s: LqeView, probes: Probes, success: bool, rtt: RttVerdict)
    requires
        s.timeouts == 0,
        s.window.len() == 0,
        s.rtt_fail_count >= 1,
        probes.len() > 0,
        after(s, probes).state == LinkState::Up,
    ensures
        after(s, probes.push((success, rtt))).state == LinkState::Down <==> {
            let all = probes.push((success, rtt));
            let recent = last_results(all, kept(s.capacity, all.len()));
            ||| last_failed(all, s.fail_down as int)
            ||| all.len() >= s.capacity && failures(recent) * 1_000_000_000 > s.loss_down
                * recent.len()
            ||| rtt == RttVerdict::Over && after(s, probes).rtt_over_count + 1 >= s.rtt_fail_count
        },
{
    let all = probes.push((success, rtt));
    let recent = last_results(all, kept(s.capacity, all.len()));
    assert(all.drop_last() =~= probes);
    settings_stay(s, probes);
    window_is_the_last_results(s, all);
    losses_are_the_failures(recent);
    timeouts_are_the_last_failures(s, all);
    let t = after(s, all).timeouts;
    assert(last_failed(all, s.fail_down as int) <==> t >= s.fail_down) by {
        if t < s.fail_down && last_failed(all, s.fail_down as int) {
            assert(all[all.len() - 1 - t].0);
        }
        if t >= s.fail_down {
            assert(last_failed(all, t as int));
        }
    }
}

/// When a line comes up, told by its probes. A line that is down comes up with a
/// probe if and only if there were enough successes in a row since it went down,
/// the share of failures in the window is not above the threshold, and the
/// round-trip time is normal.
pub proof fn the_last_probes_bring_up(s: LqeView, probes: Probes, success: bool, rtt: RttVerdict)
    requires
        s.window.len() == 0,
        s.recovery >= 1,
        probes.len() > 0,
        after(s, probes).state == LinkState::Down,
    ensures
        after(s, probes.push((success, rtt))).state == LinkState::Up <==> {
            let all = probes.push((success, rtt));
            let recent = last_results(all, kept(s.capacity, all.len()));
            &&& success
            &&& after(s, probes).successes + 1 >= s.recovery
            &&& failures(recent) * 1_000_000_000 <= s.loss_up * recent.len()
            &&& rtt == RttVerdict::Normal
        },
{
    let all = probes.push((success, rtt));
    let recent = last_results(all, kept(s.capacity, all.len()));
    assert(all.drop_last() =~= probes);
    settings_stay(s, probes);
    window_is_the_last_results(s, all);
    losses_are_the_failures(recent);
}

/// A line starts down, and its first probe decides: a success brings it up at
/// once, a failure leaves it down.
pub proof fn how_a_line_starts(config: DaemonConfig, success: bool, rtt: RttVerdict)
    ensures
        ({
            let s = LqeView::fresh(config);
            &&& s.state == LinkState::Down
            &&& s.next(success, rtt).state == (if success {
                LinkState::Up
            } else {
                LinkState::Down
            })
            &&& s.next(success, rtt).window == seq![success]
        }),
{
    assert(LqeView::fresh(config).next(success, rtt).window =~= seq![success]);
}

/// A line goes down after just as many failures in a row as are configured, if the
/// window is not full by then and the round-trip times are normal: with fewer of
/// them it stays up.
pub proof fn as_many_failures_as_configured(config: DaemonConfig, probes: Probes, rtt: RttVerdict)
    requires
        probes.len() > 0,
        config.rtt_fail_count >= 1,
        probes.len() + 1 < config.window_size,
        rtt != RttVerdict::Over,
        after(LqeView::fresh(config), probes).state == LinkState::Up,
    ensures
        after(LqeView::fresh(config), probes.push((false, rtt))).state == LinkState::Down
            <==> last_failed(probes.push((false, rtt)), config.consecutive_fail_down as int),
        config.consecutive_fail_down >= 1 ==> after(
            LqeView::fresh(config),
            probes.push((true, rtt)),
        ).state == LinkState::Up,
{
    let s = LqeView::fresh(config);
    the_last_probes_bring_down(s, probes, false, rtt);
    the_last_probes_bring_down(s, probes, true, rtt);
    let all = probes.push((true, rtt));
    assert(all[all.len() - 1].0);
}

} // verus!
