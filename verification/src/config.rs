//! The configuration and its rules.
use crate::addr::{IpAddr, Ipv4Addr, Ipv6Addr, SocketAddr};
use crate::netlink::route::PROBE_SLOT_MAX;
use vstd::prelude::*;
use vstd::string::*;

verus! {

/// A nexthop's weight, less one, is one byte.
pub const MAX_WEIGHT: u32 = 256;

/// The longest sliding window.
pub const MAX_WINDOW_SIZE: usize = 1024;

/// Loss thresholds are given in billionths: this is 100 %.
pub const WHOLE: i64 = 1_000_000_000;

/// How several active lines share one default route.
#[derive(Debug, Clone, Copy, PartialEq, Eq, Structural)]
pub enum EcmpMode {
    /// A multipath route. When a line comes or goes, the kernel may move the flows
    /// of all lines.
    Standard,
    /// A resilient nexthop group where it works, else a multipath route.
    Auto,
    /// A resilient nexthop group: only the flows of a failed line move.
    Resilient,
}

impl Default for EcmpMode {
    fn default() -> (r: EcmpMode)
        ensures
            r == EcmpMode::Standard,
    {
        EcmpMode::Standard
    }
}

/// The configuration of one line.
pub struct InterfaceConfig {
    pub name: String,
    /// None, or all zeros, for a point-to-point line.
    pub gateway: Option<Ipv4Addr>,
    /// With this, the line also carries an IPv6 default route.
    pub gateway6: Option<Ipv6Addr>,
    pub metric: u32,
    pub weight: u32,
    pub probe_targets: Vec<SocketAddr>,
    /// The peers of a tunnel.
    pub underlay_targets: Vec<Ipv4Addr>,
}

/// The configuration of the daemon.
pub struct DaemonConfig {
    pub check_interval_ms: u64,
    pub probe_timeout_ms: u64,
    pub window_size: usize,
    /// Above this loss, in billionths, a line goes down.
    pub loss_threshold_down: i64,
    /// Above this loss, in billionths, a line does not come up.
    pub loss_threshold_up: i64,
    pub consecutive_fail_down: usize,
    pub recovery_success_count: usize,
    /// The greatest acceptable round-trip time, in millionths of a millisecond.
    pub max_rtt_ms: i64,
    pub rtt_fail_count: usize,
    pub flush_conntrack_on_down: bool,
    pub flush_conntrack_on_switch: bool,
    pub conntrack_flush_min_interval_ms: u64,
    pub route_priority: u32,
    pub ecmp_mode: EcmpMode,
    pub remove_routes_on_exit: bool,
    pub interfaces: Vec<InterfaceConfig>,
}

/// Why a configuration is refused.
#[derive(Debug)]
pub enum ConfigError {
    NoInterface,
    TooManyInterfaces(usize),
    ZeroWindow,
    WindowTooLarge(usize),
    ZeroCheckInterval,
    ZeroProbeTimeout,
    ZeroConsecutiveFailDown,
    ZeroRecoverySuccessCount,
    ZeroRttFailCount,
    MaxRttNotPositive,
    LossThresholdDownOutOfRange,
    LossThresholdUpOutOfRange,
    EmptyName,
    DuplicateName(String),
    NoProbeTarget(String),
    WeightOutOfRange(String, u32),
    TargetNotIpv4(String, SocketAddr),
}

/// Why a configuration is refused, as a mathematical value.
pub ghost enum ConfigErrorView {
    NoInterface,
    TooManyInterfaces(usize),
    ZeroWindow,
    WindowTooLarge(usize),
    ZeroCheckInterval,
    ZeroProbeTimeout,
    ZeroConsecutiveFailDown,
    ZeroRecoverySuccessCount,
    ZeroRttFailCount,
    MaxRttNotPositive,
    LossThresholdDownOutOfRange,
    LossThresholdUpOutOfRange,
    EmptyName,
    DuplicateName(Seq<char>),
    NoProbeTarget(Seq<char>),
    WeightOutOfRange(Seq<char>, u32),
    TargetNotIpv4(Seq<char>, SocketAddr),
}

impl View for ConfigError {
    type V = ConfigErrorView;

    open spec fn view(&self) -> ConfigErrorView {
        match *self {
            ConfigError::NoInterface => ConfigErrorView::NoInterface,
            ConfigError::TooManyInterfaces(n) => ConfigErrorView::TooManyInterfaces(n),
            ConfigError::ZeroWindow => ConfigErrorView::ZeroWindow,
            ConfigError::WindowTooLarge(n) => ConfigErrorView::WindowTooLarge(n),
            ConfigError::ZeroCheckInterval => ConfigErrorView::ZeroCheckInterval,
            ConfigError::ZeroProbeTimeout => ConfigErrorView::ZeroProbeTimeout,
            ConfigError::ZeroConsecutiveFailDown => ConfigErrorView::ZeroConsecutiveFailDown,
            ConfigError::ZeroRecoverySuccessCount => ConfigErrorView::ZeroRecoverySuccessCount,
            ConfigError::ZeroRttFailCount => ConfigErrorView::ZeroRttFailCount,
            ConfigError::MaxRttNotPositive => ConfigErrorView::MaxRttNotPositive,
            ConfigError::LossThresholdDownOutOfRange => ConfigErrorView::LossThresholdDownOutOfRange,
            ConfigError::LossThresholdUpOutOfRange => ConfigErrorView::LossThresholdUpOutOfRange,
            ConfigError::EmptyName => ConfigErrorView::EmptyName,
            ConfigError::DuplicateName(s) => ConfigErrorView::DuplicateName(s@),
            ConfigError::NoProbeTarget(s) => ConfigErrorView::NoProbeTarget(s@),
            ConfigError::WeightOutOfRange(s, w) => ConfigErrorView::WeightOutOfRange(s@, w),
            ConfigError::TargetNotIpv4(s, t) => ConfigErrorView::TargetNotIpv4(s@, t),
        }
    }
}

/// The default metric of a line.
pub fn default_metric() -> (r: u32)
    ensures
        r == 1,
{
    1
}

/// The default weight of a line.
pub fn default_weight() -> (r: u32)
    ensures
        r == 1,
{
    1
}

/// The default probe targets: `1.1.1.1:443` and `8.8.8.8:443`.
pub open spec fn default_targets() -> Seq<SocketAddr> {
    seq![
        SocketAddr { ip: IpAddr::V4(Ipv4Addr { a: 1, b: 1, c: 1, d: 1 }), port: 443 },
        SocketAddr { ip: IpAddr::V4(Ipv4Addr { a: 8, b: 8, c: 8, d: 8 }), port: 443 },
    ]
}

/// The default probe targets.
pub fn default_probe_targets() -> (r: Vec<SocketAddr>)
    ensures
        r@ == default_targets(),
{
    let r: Vec<SocketAddr> = vec![
        SocketAddr { ip: IpAddr::V4(Ipv4Addr { a: 1, b: 1, c: 1, d: 1 }), port: 443 },
        SocketAddr { ip: IpAddr::V4(Ipv4Addr { a: 8, b: 8, c: 8, d: 8 }), port: 443 },
    ];
    assert(r@ =~= default_targets());
    r
}

/// A line of the default configuration.
pub open spec fn is_default_line(i: InterfaceConfig, name: Seq<char>, gateway: Ipv4Addr) -> bool {
    &&& i.name@ == name
    &&& i.gateway == Some(gateway)
    &&& i.gateway6 is None
    &&& i.metric == 1
    &&& i.weight == 1
    &&& i.probe_targets@ == default_targets()
    &&& i.underlay_targets@.len() == 0
}

fn default_line(name: &str, gateway: Ipv4Addr) -> (r: InterfaceConfig)
    ensures
        is_default_line(r, name@, gateway),
{
    InterfaceConfig {
        name: name.to_owned(),
        gateway: Some(gateway),
        gateway6: None,
        metric: default_metric(),
        weight: default_weight(),
        probe_targets: default_probe_targets(),
        underlay_targets: Vec::new(),
    }
}

impl Default for DaemonConfig {
    fn default() -> (r: DaemonConfig)
        ensures
            r.check_interval_ms == 500,
            r.probe_timeout_ms == 400,
            r.window_size == 10,
            r.loss_threshold_down == 500_000_000,
            r.loss_threshold_up == 100_000_000,
            r.consecutive_fail_down == 3,
            r.recovery_success_count == 5,
            r.max_rtt_ms == 1_500_000_000,
            r.rtt_fail_count == 3,
            r.flush_conntrack_on_down,
            r.flush_conntrack_on_switch,
            r.conntrack_flush_min_interval_ms == 10_000,
            r.route_priority == 0,
            r.ecmp_mode == EcmpMode::Standard,
            !r.remove_routes_on_exit,
            r.interfaces@.len() == 2,
            is_default_line(
                r.interfaces@[0],
                "wan1"@,
                Ipv4Addr { a: 192, b: 168, c: 1, d: 1 },
            ),
            is_default_line(
                r.interfaces@[1],
                "wan2"@,
                Ipv4Addr { a: 192, b: 168, c: 2, d: 1 },
            ),
            first_problem(r) is None,
    {
        let mut interfaces: Vec<InterfaceConfig> = Vec::new();
        interfaces.push(default_line("wan1", Ipv4Addr { a: 192, b: 168, c: 1, d: 1 }));
        interfaces.push(default_line("wan2", Ipv4Addr { a: 192, b: 168, c: 2, d: 1 }));
        proof {
            reveal_strlit("wan1");
            reveal_strlit("wan2");
            assert("wan1"@[3] != "wan2"@[3]);
            reveal_with_fuel(lines_problem, 3);
            reveal_with_fuel(first_not_ipv4, 3);
        }
        DaemonConfig {
            check_interval_ms: 500,
            probe_timeout_ms: 400,
            window_size: 10,
            loss_threshold_down: 500_000_000,
            loss_threshold_up: 100_000_000,
            consecutive_fail_down: 3,
            recovery_success_count: 5,
            max_rtt_ms: 1_500_000_000,
            rtt_fail_count: 3,
            flush_conntrack_on_down: true,
            flush_conntrack_on_switch: true,
            conntrack_flush_min_interval_ms: 10_000,
            route_priority: 0,
            ecmp_mode: EcmpMode::Standard,
            remove_routes_on_exit: false,
            interfaces,
        }
    }
}

/// The first problem with the settings that are not about one line.
pub open spec fn general_problem(c: DaemonConfig) -> Option<ConfigErrorView> {
    if c.interfaces@.len() == 0 {
        Some(ConfigErrorView::NoInterface)
    } else if c.interfaces@.len() > PROBE_SLOT_MAX {
        Some(ConfigErrorView::TooManyInterfaces(c.interfaces@.len() as usize))
    } else if c.window_size == 0 {
        Some(ConfigErrorView::ZeroWindow)
    } else if c.window_size > MAX_WINDOW_SIZE {
        Some(ConfigErrorView::WindowTooLarge(c.window_size))
    } else if c.check_interval_ms == 0 {
        Some(ConfigErrorView::ZeroCheckInterval)
    } else if c.probe_timeout_ms == 0 {
        Some(ConfigErrorView::ZeroProbeTimeout)
    } else if c.consecutive_fail_down == 0 {
        Some(ConfigErrorView::ZeroConsecutiveFailDown)
    } else if c.recovery_success_count == 0 {
        Some(ConfigErrorView::ZeroRecoverySuccessCount)
    } else if c.rtt_fail_count == 0 {
        Some(ConfigErrorView::ZeroRttFailCount)
    } else if c.max_rtt_ms <= 0 {
        Some(ConfigErrorView::MaxRttNotPositive)
    } else if !(0 <= c.loss_threshold_down <= WHOLE) {
        Some(ConfigErrorView::LossThresholdDownOutOfRange)
    } else if !(0 <= c.loss_threshold_up <= WHOLE) {
        Some(ConfigErrorView::LossThresholdUpOutOfRange)
    } else {
        None
    }
}

/// Whether an earlier line has the name of the line `i`.
pub open spec fn named_before(lines: Seq<InterfaceConfig>, i: int) -> bool {
    exists|j: int| 0 <= j < i && (#[trigger] lines[j]).name@ == lines[i].name@
}

/// The first target, from the place `from` on, that is no IPv4 address.
pub open spec fn first_not_ipv4(targets: Seq<SocketAddr>, from: int) -> Option<SocketAddr>
    decreases targets.len() - from,
{
    if from >= targets.len() {
        None
    } else if !(targets[from].ip is V4) {
        Some(targets[from])
    } else {
        first_not_ipv4(targets, from + 1)
    }
}

/// The first problem with the line `i`.
pub open spec fn line_problem(lines: Seq<InterfaceConfig>, i: int) -> Option<ConfigErrorView> {
    let line = lines[i];
    if line.name@.len() == 0 {
        Some(ConfigErrorView::EmptyName)
    } else if named_before(lines, i) {
        Some(ConfigErrorView::DuplicateName(line.name@))
    } else if line.probe_targets@.len() == 0 {
        Some(ConfigErrorView::NoProbeTarget(line.name@))
    } else if line.weight == 0 || line.weight > MAX_WEIGHT {
        Some(ConfigErrorView::WeightOutOfRange(line.name@, line.weight))
    } else {
        match first_not_ipv4(line.probe_targets@, 0) {
            Some(t) => Some(ConfigErrorView::TargetNotIpv4(line.name@, t)),
            None => None,
        }
    }
}

/// The first problem with the lines from the line `from` on.
pub open spec fn lines_problem(lines: Seq<InterfaceConfig>, from: int) -> Option<ConfigErrorView>
    decreases lines.len() - from,
{
    if from >= lines.len() {
        None
    } else {
        match line_problem(lines, from) {
            Some(e) => Some(e),
            None => lines_problem(lines, from + 1),
        }
    }
}

/// The first problem with a configuration: the general settings come first, then
/// the lines in their order.
pub open spec fn first_problem(c: DaemonConfig) -> Option<ConfigErrorView> {
    match general_problem(c) {
        Some(e) => Some(e),
        None => lines_problem(c.interfaces@, 0),
    }
}

/// Whether a result is the refusal for a problem, or none where there is none.
pub open spec fn refuses(r: Result<(), ConfigError>, p: Option<ConfigErrorView>) -> bool {
    match r {
        Ok(_) => p is None,
        Err(e) => p == Some(e@),
    }
}

fn has_earlier_name(lines: &Vec<InterfaceConfig>, i: usize) -> (r: bool)
    requires
        i < lines@.len(),
    ensures
        r == named_before(lines@, i as int),
{
    let mut j: usize = 0;
    while j < i
        invariant
            j <= i < lines@.len(),
            forall|k: int| 0 <= k < j ==> (#[trigger] lines@[k]).name@ != lines@[i as int].name@,
        decreases i - j,
    {
        if lines[j].name == lines[i].name {
            return true;
        }
        j += 1;
    }
    false
}

fn find_not_ipv4(targets: &Vec<SocketAddr>) -> (r: Option<SocketAddr>)
    ensures
        r == first_not_ipv4(targets@, 0),
{
    let mut i: usize = 0;
    while i < targets.len()
        invariant
            i <= targets@.len(),
            first_not_ipv4(targets@, 0) == first_not_ipv4(targets@, i as int),
        decreases targets@.len() - i,
    {
        if !targets[i].is_ipv4() {
            return Some(targets[i]);
        }
        i += 1;
    }
    None
}

fn check_line(lines: &Vec<InterfaceConfig>, i: usize) -> (r: Result<(), ConfigError>)
    requires
        i < lines@.len(),
    ensures
        refuses(r, line_problem(lines@, i as int)),
{
    let line = &lines[i];
    if line.name.as_str().is_empty() {
        return Err(ConfigError::EmptyName);
    }
    if has_earlier_name(lines, i) {
        return Err(ConfigError::DuplicateName(line.name.clone()));
    }
    if line.probe_targets.len() == 0 {
        return Err(ConfigError::NoProbeTarget(line.name.clone()));
    }
    if line.weight == 0 || line.weight > MAX_WEIGHT {
        return Err(ConfigError::WeightOutOfRange(line.name.clone(), line.weight));
    }
    match find_not_ipv4(&line.probe_targets) {
        Some(t) => Err(ConfigError::TargetNotIpv4(line.name.clone(), t)),
        None => Ok(()),
    }
}

impl DaemonConfig {
    /// Checks the settings that are not about one line.
    fn check_general(&self) -> (r: Result<(), ConfigError>)
        ensures
            refuses(r, general_problem(*self)),
    {
        if self.interfaces.len() == 0 {
            return Err(ConfigError::NoInterface);
        }
        if self.interfaces.len() > PROBE_SLOT_MAX as usize {
            return Err(ConfigError::TooManyInterfaces(self.interfaces.len()));
        }
        if self.window_size == 0 {
            return Err(ConfigError::ZeroWindow);
        }
        if self.window_size > MAX_WINDOW_SIZE {
            return Err(ConfigError::WindowTooLarge(self.window_size));
        }
        if self.check_interval_ms == 0 {
            return Err(ConfigError::ZeroCheckInterval);
        }
        if self.probe_timeout_ms == 0 {
            return Err(ConfigError::ZeroProbeTimeout);
        }
        if self.consecutive_fail_down == 0 {
            return Err(ConfigError::ZeroConsecutiveFailDown);
        }
        if self.recovery_success_count == 0 {
            return Err(ConfigError::ZeroRecoverySuccessCount);
        }
        if self.rtt_fail_count == 0 {
            return Err(ConfigError::ZeroRttFailCount);
        }
        if self.max_rtt_ms <= 0 {
            return Err(ConfigError::MaxRttNotPositive);
        }
        if self.loss_threshold_down < 0 || self.loss_threshold_down > WHOLE {
            return Err(ConfigError::LossThresholdDownOutOfRange);
        }
        if self.loss_threshold_up < 0 || self.loss_threshold_up > WHOLE {
            return Err(ConfigError::LossThresholdUpOutOfRange);
        }
        Ok(())
    }

    /// Checks the configuration, and tells the first problem.
    pub fn validate(&self) -> (r: Result<(), ConfigError>)
        ensures
            refuses(r, first_problem(*self)),
    {
        if let Err(e) = self.check_general() {
            return Err(e);
        }
        let mut i: usize = 0;
        while i < self.interfaces.len()
            invariant
                i <= self.interfaces@.len(),
                general_problem(*self) is None,
                lines_problem(self.interfaces@, 0) == lines_problem(self.interfaces@, i as int),
            decreases self.interfaces@.len() - i,
        {
            if let Err(e) = check_line(&self.interfaces, i) {
                return Err(e);
            }
            i += 1;
        }
        Ok(())
    }
}

/// What a configuration that is not refused guarantees to the rest: there is a
/// slot for each line, names tell the lines apart, every line can be probed over
/// IPv4, and weights fit in a message.
pub proof fn valid_configuration(c: DaemonConfig)
    requires
        first_problem(c) is None,
    ensures
        1 <= c.interfaces@.len() <= PROBE_SLOT_MAX,
        1 <= c.window_size <= MAX_WINDOW_SIZE,
        0 <= c.loss_threshold_down <= WHOLE,
        0 <= c.loss_threshold_up <= WHOLE,
        forall|i: int, j: int|
            #![trigger c.interfaces@[i], c.interfaces@[j]]
            0 <= i < j < c.interfaces@.len() ==> c.interfaces@[i].name@ != c.interfaces@[j].name@,
        forall|i: int|
            #![trigger c.interfaces@[i]]
            0 <= i < c.interfaces@.len() ==> {
                &&& 1 <= c.interfaces@[i].weight <= MAX_WEIGHT
                &&& c.interfaces@[i].name@.len() > 0
                &&& c.interfaces@[i].probe_targets@.len() > 0
                &&& forall|k: int|
                    0 <= k < c.interfaces@[i].probe_targets@.len() ==> (
                    #[trigger] c.interfaces@[i].probe_targets@[k]).ip is V4
            },
{
    let lines = c.interfaces@;
    assert forall|i: int| 0 <= i < lines.len() implies line_problem(lines, i) is None by {
        lemma_no_line_problem(lines, 0, i);
    }
    assert forall|i: int| #![trigger lines[i]] 0 <= i < lines.len() implies {
        &&& 1 <= lines[i].weight <= MAX_WEIGHT
        &&& lines[i].name@.len() > 0
        &&& lines[i].probe_targets@.len() > 0
        &&& forall|k: int|
            0 <= k < lines[i].probe_targets@.len() ==> (#[trigger] lines[i].probe_targets@[k]).ip
                is V4
    } by {
        assert(line_problem(lines, i) is None);
        assert forall|k: int| 0 <= k < lines[i].probe_targets@.len() implies (
        #[trigger] lines[i].probe_targets@[k]).ip is V4 by {
            lemma_all_ipv4(lines[i].probe_targets@, 0, k);
        }
    }
    assert forall|i: int, j: int|
        #![trigger lines[i], lines[j]]
        0 <= i < j < lines.len() implies lines[i].name@ != lines[j].name@ by {
        assert(line_problem(lines, j) is None);
    }
}

proof fn lemma_no_line_problem(lines: Seq<InterfaceConfig>, from: int, i: int)
    requires
        0 <= from <= i < lines.len(),
        lines_problem(lines, from) is None,
    ensures
        line_problem(lines, i) is None,
    decreases i - from,
{
    if from < i {
        lemma_no_line_problem(lines, from + 1, i);
    }
}

proof fn lemma_all_ipv4(targets: Seq<SocketAddr>, from: int, k: int)
    requires
        0 <= from <= k < targets.len(),
        first_not_ipv4(targets, from) is None,
    ensures
        targets[k].ip is V4,
    decreases k - from,
{
    if from < k {
        lemma_all_ipv4(targets, from + 1, k);
    }
}

} // verus!
