//! What a probe says about a line, told by what happened to it.
use crate::errno::ErrorNumbers;
use crate::prober::{
    contains_text, first_success, local_error, race_result, verdict_of, ProbeEvent, ProbeSample,
};
use vstd::prelude::*;

verus! {

/// A probe is a success if and only if a packet has gone there and back: the
/// connection stands, or the other side has refused it. It is still open while
/// the connection is being made; in every other case it is a failure.
pub proof fn when_a_probe_succeeds(numbers: ErrorNumbers, ev: ProbeEvent)
    ensures
        (verdict_of(numbers, ev) matches Some(v) && v.success) <==> {
            ||| ev is Connected
            ||| ev matches ProbeEvent::Writable(None, _)
            ||| ev matches ProbeEvent::Writable(Some(e), _) && e == numbers.econnrefused
        },
        verdict_of(numbers, ev) is None <==> (ev matches ProbeEvent::ConnectFailed(e, _) && (e == 11
            || e == numbers.einprogress)),
{
}

/// A success has no error, and every failure has one, with the text that came
/// with it at its end. A probe that never came back, or never left for want of a
/// socket, took as long as the timeout.
pub proof fn what_a_failure_says(numbers: ErrorNumbers, ev: ProbeEvent, t: String)
    ensures
        verdict_of(numbers, ev) matches Some(v) ==> {
            &&& v.success <==> v.error_msg is None
            &&& v.rtt_is_timeout <==> ev is TimedOut || ev is SocketFailed
        },
        verdict_of(numbers, ProbeEvent::SocketFailed(t)) matches Some(v) && v.error_msg == Some(
            "Create socket failed: "@ + t@,
        ),
        verdict_of(numbers, ProbeEvent::HandoverFailed(t)) matches Some(v) && v.error_msg == Some(
            "Tokio from_std failed: "@ + t@,
        ),
        verdict_of(numbers, ProbeEvent::ErrorUnknown(t)) matches Some(v) && v.error_msg == Some(
            "take_error failed: "@ + t@,
        ),
        verdict_of(numbers, ProbeEvent::PollFailed(t)) matches Some(v) && v.error_msg == Some(
            "Poll writable error: "@ + t@,
        ),
        verdict_of(numbers, ProbeEvent::TimedOut) matches Some(v) && v.error_msg == Some(
            "Timeout (packet lost)"@,
        ),
{
}

/// The same of errors with a number.
pub proof fn what_a_numbered_failure_says(numbers: ErrorNumbers, e: i32, t: String)
    ensures
        e != 11 && e != numbers.einprogress ==> (verdict_of(
            numbers,
            ProbeEvent::ConnectFailed(e, t),
        ) matches Some(v) && v.error_msg == Some("Connect immediate error: "@ + t@)),
        e != numbers.econnrefused ==> (verdict_of(
            numbers,
            ProbeEvent::Writable(Some(e), t),
        ) matches Some(v) && v.error_msg == Some("Socket error: "@ + t@)),
{
}

proof fn lemma_first(samples: Seq<ProbeSample>, from: int)
    requires
        0 <= from <= samples.len(),
        forall|j: int| 0 <= j < from ==> !(#[trigger] samples[j]).success,
    ensures
        ({
            let k = first_success(samples, from);
            &&& from <= k <= samples.len()
            &&& k < samples.len() ==> samples[k].success
            &&& forall|j: int| 0 <= j < k ==> !(#[trigger] samples[j]).success
        }),
    decreases samples.len() - from,
{
    if from < samples.len() && !samples[from].success {
        lemma_first(samples, from + 1);
    }
}

/// The result of a race is one of the samples: the first that succeeded, if any
/// did, and else the first of all.
pub proof fn the_first_success_wins(samples: Seq<ProbeSample>)
    requires
        samples.len() > 0,
    ensures
        exists|k: int|
            0 <= k < samples.len() && race_result(samples) == #[trigger] samples[k] && {
                ||| samples[k].success && forall|j: int|
                    0 <= j < k ==> !(#[trigger] samples[j]).success
                ||| k == 0 && forall|j: int|
                    0 <= j < samples.len() ==> !(#[trigger] samples[j]).success
            },
        race_result(samples).success <==> exists|k: int|
            0 <= k < samples.len() && (#[trigger] samples[k]).success,
{
    lemma_first(samples, 0);
    let k = first_success(samples, 0);
    if k < samples.len() {
        assert(samples[k].success);
        assert(race_result(samples) == samples[k]);
    } else {
        assert(race_result(samples) == samples[0]);
    }
}

/// A text holds another one wherever that stands in it.
pub proof fn texts_are_found(before: Seq<char>, part: Seq<char>, behind: Seq<char>)
    ensures
        contains_text(before + part + behind, part),
{
    let all = before + part + behind;
    let n = before.len() as int;
    assert(all.subrange(n, n + part.len()) =~= part);
}

/// Whether a text is made of another one with something before and behind it.
pub open spec fn made_around(text: Seq<char>, part: Seq<char>) -> bool {
    exists|before: Seq<char>, behind: Seq<char>| text == #[trigger] (before + part + behind)
}

proof fn lemma_made_around(text: Seq<char>, part: Seq<char>)
    ensures
        contains_text(text, part) <==> made_around(text, part),
{
    if contains_text(text, part) {
        let i = choose|i: int|
            0 <= i && i + part.len() <= text.len() && #[trigger] text.subrange(i, i + part.len())
                == part;
        let before = text.take(i);
        let behind = text.skip(i + part.len());
        assert(text =~= before + part + behind);
    }
    if made_around(text, part) {
        let (before, behind) = choose|before: Seq<char>, behind: Seq<char>| text == #[trigger] (
        before + part + behind);
        texts_are_found(before, part, behind);
    }
}

/// An error is a local one if and only if it holds one of six phrases, wherever
/// it stands in the text.
pub proof fn what_counts_as_local(msg: Seq<char>)
    ensures
        local_error(msg) <==> {
            ||| made_around(msg, "No such device"@)
            ||| made_around(msg, "Network is unreachable"@)
            ||| made_around(msg, "Create socket failed"@)
            ||| made_around(msg, "Permission denied"@)
            ||| made_around(msg, "Cannot assign requested address"@)
            ||| made_around(msg, "Tokio from_std failed"@)
        },
{
    lemma_made_around(msg, "No such device"@);
    lemma_made_around(msg, "Network is unreachable"@);
    lemma_made_around(msg, "Create socket failed"@);
    lemma_made_around(msg, "Permission denied"@);
    lemma_made_around(msg, "Cannot assign requested address"@);
    lemma_made_around(msg, "Tokio from_std failed"@);
}

} // verus!
