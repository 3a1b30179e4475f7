//! Which configurations are accepted, and what a refusal says.
use crate::addr::{Ipv4Addr, SocketAddr};
use crate::config::{
    first_not_ipv4, first_problem, general_problem, is_default_line, line_problem, lines_problem,
    named_before, refuses, ConfigError, ConfigErrorView, DaemonConfig, InterfaceConfig,
};
use vstd::prelude::*;

verus! {

/// Whether the settings that are not about one line make sense: there is a line
/// and a slot for each, windows and counts are not empty, times are positive, and
/// shares lie between nothing and the whole.
pub open spec fn settings_make_sense(c: DaemonConfig) -> bool {
    &&& 1 <= c.interfaces@.len() <= 64
    &&& 1 <= c.window_size <= 1024
    &&& c.check_interval_ms >= 1
    &&& c.probe_timeout_ms >= 1
    &&& c.consecutive_fail_down >= 1
    &&& c.recovery_success_count >= 1
    &&& c.rtt_fail_count >= 1
    &&& c.max_rtt_ms > 0
    &&& 0 <= c.loss_threshold_down <= 1_000_000_000
    &&& 0 <= c.loss_threshold_up <= 1_000_000_000
}

/// Whether the line `i` makes sense: it has a name of its own, targets, all of
/// them IPv4, and a weight that the kernel can hold.
pub open spec fn line_makes_sense(lines: Seq<InterfaceConfig>, i: int) -> bool {
    &&& lines[i].name@.len() > 0
    &&& forall|j: int| 0 <= j < i ==> (#[trigger] lines[j]).name@ != lines[i].name@
    &&& lines[i].probe_targets@.len() > 0
    &&& 1 <= lines[i].weight <= 256
    &&& forall|k: int|
        0 <= k < lines[i].probe_targets@.len() ==> (#[trigger] lines[i].probe_targets@[k]).ip is V4
}

proof fn lemma_ipv4(targets: Seq<SocketAddr>, from: int)
    requires
        0 <= from <= targets.len(),
        forall|k: int| 0 <= k < from ==> (#[trigger] targets[k]).ip is V4,
    ensures
        match first_not_ipv4(targets, from) {
            None => forall|k: int| 0 <= k < targets.len() ==> (#[trigger] targets[k]).ip is V4,
            Some(t) => !(t.ip is V4) && exists|k: int|
                0 <= k < targets.len() && #[trigger] targets[k] == t && forall|j: int|
                    0 <= j < k ==> (#[trigger] targets[j]).ip is V4,
        },
    decreases targets.len() - from,
{
    if from < targets.len() {
        if targets[from].ip is V4 {
            lemma_ipv4(targets, from + 1);
        } else {
            assert(targets[from] == first_not_ipv4(targets, from)->0);
        }
    }
}

/// A line is refused if and only if it makes no sense, and the refusal tells what
/// is wrong with it.
pub proof fn lines_are_refused_for_a_reason(lines: Seq<InterfaceConfig>, i: int)
    requires
        0 <= i < lines.len(),
    ensures
        line_problem(lines, i) is None <==> line_makes_sense(lines, i),
        match line_problem(lines, i) {
            None => true,
            Some(ConfigErrorView::EmptyName) => lines[i].name@.len() == 0,
            Some(ConfigErrorView::DuplicateName(n)) => n == lines[i].name@ && exists|j: int|
                0 <= j < i && (#[trigger] lines[j]).name@ == n,
            Some(ConfigErrorView::NoProbeTarget(n)) => n == lines[i].name@
                && lines[i].probe_targets@.len() == 0,
            Some(ConfigErrorView::WeightOutOfRange(n, w)) => n == lines[i].name@ && w
                == lines[i].weight && (w == 0 || w > 256),
            Some(ConfigErrorView::TargetNotIpv4(n, t)) => n == lines[i].name@ && !(t.ip is V4)
                && lines[i].probe_targets@.contains(t),
            Some(_) => false,
        },
{
    lemma_ipv4(lines[i].probe_targets@, 0);
    if named_before(lines, i) {
        let j = choose|j: int| 0 <= j < i && (#[trigger] lines[j]).name@ == lines[i].name@;
        assert(lines[j].name@ == lines[i].name@);
    }
}

proof fn lemma_first_line(lines: Seq<InterfaceConfig>, from: int)
    requires
        0 <= from <= lines.len(),
        forall|i: int| #![trigger lines[i]] 0 <= i < from ==> line_makes_sense(lines, i),
    ensures
        match lines_problem(lines, from) {
            None => forall|i: int|
                #![trigger lines[i]]
                0 <= i < lines.len() ==> line_makes_sense(lines, i),
            Some(e) => exists|i: int|
                #![trigger lines[i]]
                0 <= i < lines.len() && line_problem(lines, i) == Some(e) && !line_makes_sense(
                    lines,
                    i,
                ) && forall|j: int| #![trigger lines[j]] 0 <= j < i ==> line_makes_sense(lines, j),
        },
    decreases lines.len() - from,
{
    if from < lines.len() {
        lines_are_refused_for_a_reason(lines, from);
        if line_problem(lines, from) is None {
            lemma_first_line(lines, from + 1);
        } else {
            assert(line_problem(lines, from) == lines_problem(lines, from));
            let e = lines_problem(lines, from)->0;
            let line = lines[from];
            assert(0 <= from < lines.len() && line_problem(lines, from) == Some(e)
                && !line_makes_sense(lines, from));
        }
    }
}

/// A configuration is accepted if and only if its settings make sense and every
/// line does.
pub proof fn what_is_accepted(c: DaemonConfig)
    ensures
        first_problem(c) is None <==> settings_make_sense(c) && forall|i: int|
            #![trigger c.interfaces@[i]]
            0 <= i < c.interfaces@.len() ==> line_makes_sense(c.interfaces@, i),
        !settings_make_sense(c) ==> first_problem(c) == general_problem(c),
        settings_make_sense(c) ==> (first_problem(c) matches Some(e) ==> exists|i: int|
            #![trigger c.interfaces@[i]]
            0 <= i < c.interfaces@.len() && line_problem(c.interfaces@, i) == Some(e)
                && forall|j: int|
                #![trigger c.interfaces@[j]]
                0 <= j < i ==> line_makes_sense(c.interfaces@, j)),
{
    lemma_first_line(c.interfaces@, 0);
}

/// What is wrong with the settings is told in a fixed order: the first thing that
/// makes no sense.
pub proof fn settings_are_refused_in_order(c: DaemonConfig)
    requires
        !settings_make_sense(c),
    ensures
        ({
            let n = c.interfaces@.len();
            let p = first_problem(c);
            &&& n == 0 <==> p == Some(ConfigErrorView::NoInterface)
            &&& n > 64 ==> p == Some(ConfigErrorView::TooManyInterfaces(n as usize))
            &&& 1 <= n <= 64 ==> {
                &&& c.window_size == 0 <==> p == Some(ConfigErrorView::ZeroWindow)
                &&& c.window_size > 1024 ==> p == Some(
                    ConfigErrorView::WindowTooLarge(c.window_size),
                )
                &&& 1 <= c.window_size <= 1024 ==> {
                    ||| c.check_interval_ms == 0 && p == Some(ConfigErrorView::ZeroCheckInterval)
                    ||| c.check_interval_ms > 0 && c.probe_timeout_ms == 0 && p == Some(
                        ConfigErrorView::ZeroProbeTimeout,
                    )
                    ||| c.check_interval_ms > 0 && c.probe_timeout_ms > 0 && counts_refused(c, p)
                }
            }
        }),
{
}

pub open spec fn counts_refused(c: DaemonConfig, p: Option<ConfigErrorView>) -> bool {
    ||| c.consecutive_fail_down == 0 && p == Some(ConfigErrorView::ZeroConsecutiveFailDown)
    ||| c.consecutive_fail_down > 0 && c.recovery_success_count == 0 && p == Some(
        ConfigErrorView::ZeroRecoverySuccessCount,
    )
    ||| c.consecutive_fail_down > 0 && c.recovery_success_count > 0 && {
        ||| c.rtt_fail_count == 0 && p == Some(ConfigErrorView::ZeroRttFailCount)
        ||| c.rtt_fail_count > 0 && c.max_rtt_ms <= 0 && p == Some(
            ConfigErrorView::MaxRttNotPositive,
        )
        ||| c.rtt_fail_count > 0 && c.max_rtt_ms > 0 && {
            let down_fits = 0 <= c.loss_threshold_down <= 1_000_000_000;
            ||| !down_fits && p == Some(ConfigErrorView::LossThresholdDownOutOfRange)
            ||| down_fits && p == Some(ConfigErrorView::LossThresholdUpOutOfRange)
        }
    }
}

/// A line of the default configuration stands alone: one gateway, no IPv6, the
/// least metric, no more weight than the others, two targets, and no tunnel.
pub proof fn what_a_default_line_is(line: InterfaceConfig, name: Seq<char>, gateway: Ipv4Addr)
    requires
        is_default_line(line, name, gateway),
    ensures
        line.name@ == name,
        line.gateway == Some(gateway),
        line.gateway6 is None,
        line.metric == 1,
        line.weight == 1,
        line.probe_targets@.len() == 2,
        line.probe_targets@[0].ip@ == seq![1u8, 1, 1, 1],
        line.probe_targets@[1].ip@ == seq![8u8, 8, 8, 8],
        line.probe_targets@[0].port == 443,
        line.probe_targets@[1].port == 443,
        line.underlay_targets@.len() == 0,
{
}

/// A configuration is refused with its first problem, and with nothing else.
pub proof fn refusals_tell_the_problem(r: Result<(), ConfigError>, c: DaemonConfig)
    requires
        refuses(r, first_problem(c)),
    ensures
        r is Ok <==> first_problem(c) is None,
        r matches Err(e) ==> first_problem(c) == Some(e@),
{
}

} // verus!
