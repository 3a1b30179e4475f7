use mwan4::addr::{IpAddr, Ipv4Addr, Ipv6Addr, SocketAddr};
use mwan4::config::{
    default_metric, default_probe_targets, default_weight, ConfigError, DaemonConfig, EcmpMode,
    InterfaceConfig, MAX_WEIGHT, MAX_WINDOW_SIZE, WHOLE,
};

#[test]
fn test_default_config_valid() {
    let cfg = DaemonConfig::default();
    assert!(cfg.validate().is_ok());
    assert_eq!(cfg.interfaces.len(), 2);
}

#[test]
fn test_invalid_config() {
    let mut cfg = DaemonConfig::default();
    cfg.interfaces.clear();
    assert!(cfg.validate().is_err());

    let mut cfg2 = DaemonConfig::default();
    cfg2.window_size = 0;
    assert!(cfg2.validate().is_err());

    let mut cfg3 = DaemonConfig::default();
    cfg3.window_size = MAX_WINDOW_SIZE + 1;
    assert!(cfg3.validate().is_err());

    let mut cfg4 = DaemonConfig::default();
    cfg4.window_size = MAX_WINDOW_SIZE;
    assert!(cfg4.validate().is_ok());
}

#[test]
fn test_probe_timeout_must_be_positive() {
    let mut cfg = DaemonConfig::default();
    cfg.probe_timeout_ms = 0;
    assert!(cfg.validate().is_err());
}

#[test]
fn test_zero_counters_rejected() {
    let mut cfg = DaemonConfig::default();
    cfg.consecutive_fail_down = 0;
    assert!(cfg.validate().is_err());

    let mut cfg2 = DaemonConfig::default();
    cfg2.recovery_success_count = 0;
    assert!(cfg2.validate().is_err());
}

#[test]
fn test_weight_range_enforced() {
    let mut cfg = DaemonConfig::default();
    cfg.interfaces[0].weight = 0;
    assert!(cfg.validate().is_err());

    let mut cfg2 = DaemonConfig::default();
    cfg2.interfaces[0].weight = MAX_WEIGHT + 1;
    assert!(cfg2.validate().is_err());

    let mut cfg3 = DaemonConfig::default();
    cfg3.interfaces[0].weight = MAX_WEIGHT;
    assert!(cfg3.validate().is_ok());
}

#[test]
fn test_ipv6_probe_target_rejected() {
    let mut cfg = DaemonConfig::default();
    let target = SocketAddr::new(
        IpAddr::V6(Ipv6Addr::new(0x2606, 0x4700, 0, 0, 0, 0, 0, 0x1111)),
        443,
    );
    cfg.interfaces[0].probe_targets = vec![target];
    assert!(cfg.validate().is_err());
    assert!(matches!(
        cfg.validate(),
        Err(ConfigError::TargetNotIpv4(n, t)) if n == "wan1" && t == target
    ));
}

#[test]
fn test_duplicate_interface_rejected() {
    let mut cfg = DaemonConfig::default();
    cfg.interfaces[1].name = "wan1".to_string();
    assert!(cfg.validate().is_err());
}

#[test]
fn test_default_timeout_shorter_than_interval() {
    let cfg = DaemonConfig::default();
    assert!(cfg.probe_timeout_ms <= cfg.check_interval_ms);
}

#[test]
fn routes_stay_at_exit_by_default() {
    assert!(!DaemonConfig::default().remove_routes_on_exit);
    assert_eq!(DaemonConfig::default().ecmp_mode, EcmpMode::Standard);
    assert_eq!(EcmpMode::default(), EcmpMode::Standard);
}

#[test]
fn defaults_have_their_values() {
    let cfg = DaemonConfig::default();
    assert_eq!(cfg.check_interval_ms, 500);
    assert_eq!(cfg.probe_timeout_ms, 400);
    assert_eq!(cfg.window_size, 10);
    assert_eq!(cfg.loss_threshold_down, WHOLE / 2);
    assert_eq!(cfg.loss_threshold_up, WHOLE / 10);
    assert_eq!(cfg.consecutive_fail_down, 3);
    assert_eq!(cfg.recovery_success_count, 5);
    assert_eq!(cfg.max_rtt_ms, 1_500_000_000);
    assert_eq!(cfg.rtt_fail_count, 3);
    assert_eq!(cfg.conntrack_flush_min_interval_ms, 10_000);
    assert_eq!(cfg.route_priority, 0);
    assert!(cfg.flush_conntrack_on_down && cfg.flush_conntrack_on_switch);
    assert_eq!(cfg.interfaces[0].name, "wan1");
    assert_eq!(cfg.interfaces[0].gateway, Some(Ipv4Addr::new(192, 168, 1, 1)));
    assert_eq!(cfg.interfaces[1].name, "wan2");
    assert_eq!(cfg.interfaces[1].gateway, Some(Ipv4Addr::new(192, 168, 2, 1)));
    assert_eq!(default_metric(), 1);
    assert_eq!(default_weight(), 1);
    assert_eq!(
        default_probe_targets(),
        vec![
            SocketAddr::new(IpAddr::V4(Ipv4Addr::new(1, 1, 1, 1)), 443),
            SocketAddr::new(IpAddr::V4(Ipv4Addr::new(8, 8, 8, 8)), 443),
        ]
    );
}

fn line(name: &str) -> InterfaceConfig {
    InterfaceConfig {
        name: name.to_string(),
        gateway: None,
        gateway6: None,
        metric: 1,
        weight: 1,
        probe_targets: default_probe_targets(),
        underlay_targets: Vec::new(),
    }
}

#[test]
fn every_error_has_its_cause() {
    let mut cfg = DaemonConfig::default();
    cfg.interfaces = Vec::new();
    assert!(matches!(cfg.validate(), Err(ConfigError::NoInterface)));

    cfg.interfaces = (0..65).map(|i| line(&format!("w{i}"))).collect();
    assert!(matches!(cfg.validate(), Err(ConfigError::TooManyInterfaces(65))));
    cfg.interfaces.pop();
    assert!(cfg.validate().is_ok());

    let mut c = DaemonConfig::default();
    c.window_size = 0;
    assert!(matches!(c.validate(), Err(ConfigError::ZeroWindow)));
    c.window_size = 1025;
    assert!(matches!(c.validate(), Err(ConfigError::WindowTooLarge(1025))));

    let mut c = DaemonConfig::default();
    c.check_interval_ms = 0;
    assert!(matches!(c.validate(), Err(ConfigError::ZeroCheckInterval)));

    let mut c = DaemonConfig::default();
    c.probe_timeout_ms = 0;
    assert!(matches!(c.validate(), Err(ConfigError::ZeroProbeTimeout)));

    let mut c = DaemonConfig::default();
    c.consecutive_fail_down = 0;
    assert!(matches!(c.validate(), Err(ConfigError::ZeroConsecutiveFailDown)));

    let mut c = DaemonConfig::default();
    c.recovery_success_count = 0;
    assert!(matches!(c.validate(), Err(ConfigError::ZeroRecoverySuccessCount)));

    let mut c = DaemonConfig::default();
    c.rtt_fail_count = 0;
    assert!(matches!(c.validate(), Err(ConfigError::ZeroRttFailCount)));

    let mut c = DaemonConfig::default();
    c.max_rtt_ms = 0;
    assert!(matches!(c.validate(), Err(ConfigError::MaxRttNotPositive)));

    let mut c = DaemonConfig::default();
    c.loss_threshold_down = -1;
    assert!(matches!(c.validate(), Err(ConfigError::LossThresholdDownOutOfRange)));
    c.loss_threshold_down = WHOLE + 1;
    assert!(matches!(c.validate(), Err(ConfigError::LossThresholdDownOutOfRange)));
    c.loss_threshold_down = WHOLE;
    assert!(c.validate().is_ok());

    let mut c = DaemonConfig::default();
    c.loss_threshold_up = WHOLE + 1;
    assert!(matches!(c.validate(), Err(ConfigError::LossThresholdUpOutOfRange)));
    c.loss_threshold_up = 0;
    assert!(c.validate().is_ok());

    let mut c = DaemonConfig::default();
    c.interfaces[1].name = String::new();
    assert!(matches!(c.validate(), Err(ConfigError::EmptyName)));

    let mut c = DaemonConfig::default();
    c.interfaces[1].name = "wan1".to_string();
    assert!(matches!(c.validate(), Err(ConfigError::DuplicateName(n)) if n == "wan1"));

    let mut c = DaemonConfig::default();
    c.interfaces[1].probe_targets = Vec::new();
    assert!(matches!(c.validate(), Err(ConfigError::NoProbeTarget(n)) if n == "wan2"));

    let mut c = DaemonConfig::default();
    c.interfaces[1].weight = 257;
    assert!(matches!(c.validate(), Err(ConfigError::WeightOutOfRange(n, 257)) if n == "wan2"));
}

#[test]
fn the_first_problem_is_told() {
    let mut c = DaemonConfig::default();
    c.window_size = 0;
    c.interfaces[0].weight = 0;
    assert!(matches!(c.validate(), Err(ConfigError::ZeroWindow)));
    c.window_size = 10;
    c.interfaces[1].name = String::new();
    assert!(matches!(c.validate(), Err(ConfigError::WeightOutOfRange(_, 0))));
}
