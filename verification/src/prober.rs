//! Probing a line: what the outcome of a connection attempt says about it.
use crate::addr::{IpAddr, Ipv4Addr, SocketAddr};
use crate::errno::ErrorNumbers;
use vstd::prelude::*;
use vstd::string::*;

verus! {

/// "Resource temporarily unavailable": the attempt would have to wait.
pub const EAGAIN: i32 = 11;

/// The result of one probe.
pub struct ProbeSample {
    pub success: bool,
    /// The round-trip time in nanoseconds.
    pub rtt_ns: u64,
    pub target: SocketAddr,
    pub error_msg: Option<String>,
}

/// What happened to a connection attempt. Texts describe an error.
pub enum ProbeEvent {
    /// There is no socket.
    SocketFailed(String),
    /// The connection was there at once.
    Connected,
    /// The attempt failed with this error number.
    ConnectFailed(i32, String),
    /// The socket cannot be waited for.
    HandoverFailed(String),
    /// The socket can be written to; this is the error it has, if any.
    Writable(Option<i32>, String),
    /// The socket can be written to, but its error cannot be had.
    ErrorUnknown(String),
    /// Waiting failed.
    PollFailed(String),
    /// Nothing came back in time.
    TimedOut,
}

/// What a connection attempt says about the line.
pub struct Verdict {
    pub success: bool,
    /// Whether the timeout stands for the round-trip time.
    pub rtt_is_timeout: bool,
    pub error_msg: Option<String>,
}

/// What a connection attempt says about the line, as a mathematical value.
pub ghost struct VerdictView {
    pub success: bool,
    pub rtt_is_timeout: bool,
    pub error_msg: Option<Seq<char>>,
}

/// A text that may be absent.
pub open spec fn text_view(t: Option<String>) -> Option<Seq<char>> {
    match t {
        Some(s) => Some(s@),
        None => None,
    }
}

impl View for Verdict {
    type V = VerdictView;

    open spec fn view(&self) -> VerdictView {
        VerdictView {
            success: self.success,
            rtt_is_timeout: self.rtt_is_timeout,
            error_msg: text_view(self.error_msg),
        }
    }
}

pub open spec fn good() -> VerdictView {
    VerdictView { success: true, rtt_is_timeout: false, error_msg: None }
}

pub open spec fn bad(prefix: Seq<char>, text: Seq<char>) -> VerdictView {
    VerdictView { success: false, rtt_is_timeout: false, error_msg: Some(prefix + text) }
}

/// What an event says about the line; `None` if the answer has to be waited for.
/// A refusal is a success: the packet has gone there and back.
pub open spec fn verdict_of(numbers: ErrorNumbers, ev: ProbeEvent) -> Option<VerdictView> {
    match ev {
        ProbeEvent::SocketFailed(t) => Some(
            VerdictView { rtt_is_timeout: true, ..bad("Create socket failed: "@, t@) },
        ),
        ProbeEvent::Connected => Some(good()),
        ProbeEvent::ConnectFailed(e, t) => if e == numbers.einprogress || e == EAGAIN {
            None
        } else {
            Some(bad("Connect immediate error: "@, t@))
        },
        ProbeEvent::HandoverFailed(t) => Some(bad("Tokio from_std failed: "@, t@)),
        ProbeEvent::Writable(None, _) => Some(good()),
        ProbeEvent::Writable(Some(e), t) => if e == numbers.econnrefused {
            Some(good())
        } else {
            Some(bad("Socket error: "@, t@))
        },
        ProbeEvent::ErrorUnknown(t) => Some(bad("take_error failed: "@, t@)),
        ProbeEvent::PollFailed(t) => Some(bad("Poll writable error: "@, t@)),
        ProbeEvent::TimedOut => Some(
            VerdictView {
                success: false,
                rtt_is_timeout: true,
                error_msg: Some("Timeout (packet lost)"@),
            },
        ),
    }
}

fn joined(prefix: &str, text: &String) -> (r: String)
    ensures
        r@ == prefix@ + text@,
{
    let mut r = prefix.to_owned();
    r.append(text.as_str());
    r
}

fn success() -> (r: Verdict)
    ensures
        r@ == good(),
{
    Verdict { success: true, rtt_is_timeout: false, error_msg: None }
}

fn failure(prefix: &str, text: &String) -> (r: Verdict)
    ensures
        r@ == bad(prefix@, text@),
{
    Verdict { success: false, rtt_is_timeout: false, error_msg: Some(joined(prefix, text)) }
}

/// Judges an event of a connection attempt, on a system with these error numbers;
/// `None` to wait for the answer.
pub fn judge(numbers: ErrorNumbers, ev: &ProbeEvent) -> (r: Option<Verdict>)
    ensures
        match r {
            Some(v) => verdict_of(numbers, *ev) == Some(v@),
            None => verdict_of(numbers, *ev) is None,
        },
{
    match ev {
        ProbeEvent::SocketFailed(t) => {
            let mut v = failure("Create socket failed: ", t);
            v.rtt_is_timeout = true;
            Some(v)
        },
        ProbeEvent::Connected => Some(success()),
        ProbeEvent::ConnectFailed(e, t) => {
            if *e == numbers.einprogress || *e == EAGAIN {
                None
            } else {
                Some(failure("Connect immediate error: ", t))
            }
        },
        ProbeEvent::HandoverFailed(t) => Some(failure("Tokio from_std failed: ", t)),
        ProbeEvent::Writable(None, _) => Some(success()),
        ProbeEvent::Writable(Some(e), t) => {
            if *e == numbers.econnrefused {
                Some(success())
            } else {
                Some(failure("Socket error: ", t))
            }
        },
        ProbeEvent::ErrorUnknown(t) => Some(failure("take_error failed: ", t)),
        ProbeEvent::PollFailed(t) => Some(failure("Poll writable error: ", t)),
        ProbeEvent::TimedOut => Some(
            Verdict {
                success: false,
                rtt_is_timeout: true,
                error_msg: Some("Timeout (packet lost)".to_owned()),
            },
        ),
    }
}

/// The sample that a verdict makes, given what was measured.
pub fn probe_single_target(v: Verdict, target: SocketAddr, elapsed_ns: u64, timeout_ns: u64) -> (r:
    ProbeSample)
    ensures
        r.success == v.success,
        r.rtt_ns == (if v.rtt_is_timeout {
            timeout_ns
        } else {
            elapsed_ns
        }),
        r.target == target,
        text_view(r.error_msg) == text_view(v.error_msg),
{
    ProbeSample {
        success: v.success,
        rtt_ns: if v.rtt_is_timeout {
            timeout_ns
        } else {
            elapsed_ns
        },
        target,
        error_msg: v.error_msg,
    }
}

/// Several targets of one line are probed at the same time. The first success
/// decides; if there is none, the first failure stands for all.
pub struct Race {
    pub left: usize,
    pub first_fail: Option<ProbeSample>,
}

/// The result of a race: the first success in the order of arrival, else the
/// first failure.
pub open spec fn race_result(samples: Seq<ProbeSample>) -> ProbeSample
    recommends
        samples.len() > 0,
{
    if exists|i: int| 0 <= i < samples.len() && (#[trigger] samples[i]).success {
        samples[first_success(samples, 0)]
    } else {
        samples[0]
    }
}

/// The place of the first success; the length of the list if there is none.
pub open spec fn first_success(samples: Seq<ProbeSample>, from: int) -> int
    decreases samples.len() - from,
{
    if from >= samples.len() {
        samples.len() as int
    } else if samples[from].success {
        from
    } else {
        first_success(samples, from + 1)
    }
}

impl Race {
    /// Whether `seen` are the samples so far, all failures, and `left` are to come.
    pub open spec fn has_seen(self, seen: Seq<ProbeSample>) -> bool {
        &&& forall|i: int| 0 <= i < seen.len() ==> !(#[trigger] seen[i]).success
        &&& seen.len() == 0 <==> self.first_fail is None
        &&& self.first_fail matches Some(f) ==> f == seen[0]
    }

    /// A race between that many targets.
    pub fn new(targets: usize) -> (r: Race)
        ensures
            r.left == targets,
            r.first_fail is None,
            r.has_seen(Seq::empty()),
    {
        Race { left: targets, first_fail: None }
    }

    /// Takes the next sample; gives the result of the race once it is decided.
    pub fn take(&mut self, sample: ProbeSample) -> (r: Option<ProbeSample>)
        requires
            old(self).left > 0,
        ensures
            final(self).left == old(self).left - 1,
            r is Some == (sample.success || old(self).left == 1),
            r is None ==> final(self).first_fail is Some,
            forall|seen: Seq<ProbeSample>| #[trigger]
                old(self).has_seen(seen) ==> {
                    &&& r matches Some(s) ==> s == race_result(seen.push(sample))
                    &&& r is None ==> final(self).has_seen(seen.push(sample))
                },
    {
        self.left = self.left - 1;
        proof {
            assert forall|seen: Seq<ProbeSample>| #[trigger]
                old(self).has_seen(seen) && sample.success implies race_result(seen.push(sample))
                == sample by {
                let all = seen.push(sample);
                assert(all[seen.len() as int] == sample);
                lemma_first_success(all, 0, seen.len() as int);
            }
        }
        if sample.success {
            return Some(sample);
        }
        let ghost before = self.first_fail;
        let first = match self.first_fail.take() {
            Some(f) => f,
            None => sample,
        };
        proof {
            assert forall|seen: Seq<ProbeSample>| #[trigger] old(self).has_seen(seen) implies first
                == seen.push(sample)[0] && race_result(seen.push(sample)) == seen.push(
                sample,
            )[0] by {
                let all = seen.push(sample);
                assert forall|i: int| 0 <= i < all.len() implies !(#[trigger] all[i]).success by {
                    if i < seen.len() {
                        assert(all[i] == seen[i]);
                    }
                }
            }
        }
        if self.left == 0 {
            Some(first)
        } else {
            self.first_fail = Some(first);
            None
        }
    }
}

proof fn lemma_first_success(samples: Seq<ProbeSample>, from: int, k: int)
    requires
        0 <= from <= k < samples.len(),
        samples[k].success,
        forall|i: int| from <= i < k ==> !(#[trigger] samples[i]).success,
    ensures
        first_success(samples, from) == k,
    decreases k - from,
{
    if from < k {
        lemma_first_success(samples, from + 1, k);
    }
}

/// The sample of a line without targets.
pub fn no_target(timeout_ns: u64) -> (r: ProbeSample)
    ensures
        !r.success,
        r.rtt_ns == timeout_ns,
        r.target == (SocketAddr { ip: IpAddr::V4(Ipv4Addr { a: 0, b: 0, c: 0, d: 0 }), port: 0 }),
        text_view(r.error_msg) == Some("No targets configured"@),
{
    ProbeSample {
        success: false,
        rtt_ns: timeout_ns,
        target: SocketAddr { ip: IpAddr::V4(Ipv4Addr { a: 0, b: 0, c: 0, d: 0 }), port: 0 },
        error_msg: Some("No targets configured".to_owned()),
    }
}

/// Whether a text holds another one.
pub open spec fn contains_text(text: Seq<char>, part: Seq<char>) -> bool {
    exists|i: int|
        0 <= i && i + part.len() <= text.len() && #[trigger] text.subrange(i, i + part.len())
            == part
}

fn chars_of(s: &str) -> (r: Vec<char>)
    ensures
        r@ == s@,
{
    let n: usize = s.unicode_len();
    let mut out: Vec<char> = Vec::new();
    let mut i: usize = 0;
    while i < n
        invariant
            i <= n,
            n == s@.len(),
            out@ == s@.take(i as int),
        decreases n - i,
    {
        out.push(s.get_char(i));
        i += 1;
        assert(out@ =~= s@.take(i as int));
    }
    assert(out@ =~= s@);
    out
}

fn starts_at(text: &Vec<char>, part: &Vec<char>, at: usize) -> (r: bool)
    requires
        at + part@.len() <= text@.len(),
    ensures
        r == (text@.subrange(at as int, at + part@.len()) == part@),
{
    let ghost run = text@.subrange(at as int, at + part@.len());
    let mut j: usize = 0;
    while j < part.len()
        invariant
            j <= part@.len(),
            at + part@.len() <= text@.len(),
            run == text@.subrange(at as int, at + part@.len()),
            forall|k: int| 0 <= k < j ==> run[k] == part@[k],
        decreases part@.len() - j,
    {
        assert(run[j as int] == text@[at + j]);
        assert(at + j < text.len());
        if text[at + j] != part[j] {
            return false;
        }
        j += 1;
    }
    assert(run =~= part@);
    true
}

/// Whether a text holds another one.
pub fn text_contains(text: &str, part: &str) -> (r: bool)
    ensures
        r == contains_text(text@, part@),
{
    let t = chars_of(text);
    let p = chars_of(part);
    if p.len() > t.len() {
        return false;
    }
    let mut i: usize = 0;
    while i <= t.len() - p.len()
        invariant
            p@.len() <= t@.len(),
            i <= t@.len() - p@.len() + 1,
            t@ == text@,
            p@ == part@,
            forall|k: int|
                0 <= k < i ==> #[trigger] text@.subrange(k, k + part@.len()) != part@,
        decreases t@.len() - p@.len() + 1 - i,
    {
        if starts_at(&t, &p, i) {
            return true;
        }
        if i == t.len() - p.len() {
            return false;
        }
        i += 1;
    }
    false
}

/// Whether an error says that the packet never left this machine: the line may
/// be fine.
pub open spec fn local_error(msg: Seq<char>) -> bool {
    ||| contains_text(msg, "No such device"@)
    ||| contains_text(msg, "Network is unreachable"@)
    ||| contains_text(msg, "Create socket failed"@)
    ||| contains_text(msg, "Permission denied"@)
    ||| contains_text(msg, "Cannot assign requested address"@)
    ||| contains_text(msg, "Tokio from_std failed"@)
}

/// Whether an error says that the packet never left this machine.
pub fn is_local_probe_error(msg: &str) -> (r: bool)
    ensures
        r == local_error(msg@),
{
    text_contains(msg, "No such device") || text_contains(msg, "Network is unreachable")
        || text_contains(msg, "Create socket failed") || text_contains(msg, "Permission denied")
        || text_contains(msg, "Cannot assign requested address") || text_contains(
        msg,
        "Tokio from_std failed",
    )
}

/// A failure to get a socket, or to wait for it, always counts as local.
pub proof fn local_errors_are_recognised(t: String)
    ensures
        local_error(bad("Create socket failed: "@, t@).error_msg->0),
        local_error(bad("Tokio from_std failed: "@, t@).error_msg->0),
{
    reveal_strlit("Create socket failed: ");
    reveal_strlit("Create socket failed");
    reveal_strlit("Tokio from_std failed: ");
    reveal_strlit("Tokio from_std failed");
    let a = "Create socket failed: "@ + t@;
    assert(a.subrange(0int, 0int + "Create socket failed"@.len()) =~= "Create socket failed"@);
    let b = "Tokio from_std failed: "@ + t@;
    assert(b.subrange(0int, 0int + "Tokio from_std failed"@.len()) =~= "Tokio from_std failed"@);
}

} // verus!
