use mwan4::config::DaemonConfig;
use mwan4::lqe::{LinkQualityEstimator, LinkState, RttVerdict};

/// A line with the smoothed round-trip time that goes with it.
struct Line {
    lqe: LinkQualityEstimator,
    rtt: Option<f64>,
    max_rtt: f64,
}

impl Line {
    fn new(cfg: &DaemonConfig) -> Line {
        Line {
            lqe: LinkQualityEstimator::new("wan1".into(), cfg),
            rtt: None,
            max_rtt: cfg.max_rtt_ms as f64 / 1e6,
        }
    }

    fn update(&mut self, success: bool, rtt_ms: u64) -> (LinkState, bool) {
        if success {
            let s = rtt_ms as f64;
            self.rtt = Some(match self.rtt {
                None => s,
                Some(r) => 0.2 * s + 0.8 * r,
            });
        }
        let verdict = match self.rtt {
            Some(r) if r <= self.max_rtt => RttVerdict::Normal,
            Some(_) => RttVerdict::Over,
            None => RttVerdict::Unknown,
        };
        self.lqe.update(success, verdict)
    }
}

#[test]
fn test_initial_fast_bootstrap() {
    let cfg = DaemonConfig::default();
    let mut line = Line::new(&cfg);
    assert_eq!(line.lqe.state, LinkState::Down);

    let (state, changed) = line.update(true, 20);
    assert_eq!(state, LinkState::Up);
    assert!(changed);
}

#[test]
fn a_failed_first_probe_leaves_the_line_down() {
    let cfg = DaemonConfig::default();
    let mut line = Line::new(&cfg);
    assert_eq!(line.update(false, 0), (LinkState::Down, false));
    // The second probe no longer decides alone.
    assert_eq!(line.update(true, 20), (LinkState::Down, false));
}

#[test]
fn test_down_on_consecutive_timeouts() {
    let cfg = DaemonConfig::default();
    let mut line = Line::new(&cfg);
    line.update(true, 20);
    assert_eq!(line.lqe.state, LinkState::Up);

    line.update(false, 600);
    line.update(false, 600);
    assert_eq!(line.lqe.state, LinkState::Up);

    let (state, changed) = line.update(false, 600);
    assert_eq!(state, LinkState::Down);
    assert!(changed);
}

#[test]
fn test_hysteresis_recovery_5_consecutive_successes() {
    let cfg = DaemonConfig::default();
    let mut line = Line::new(&cfg);
    line.update(true, 20);

    line.update(false, 600);
    line.update(false, 600);
    line.update(false, 600);
    assert_eq!(line.lqe.state, LinkState::Down);

    for _ in 0..4 {
        let (state, _) = line.update(true, 25);
        assert_eq!(state, LinkState::Down);
    }

    let mut recovered = false;
    for _ in 0..10 {
        let (state, changed) = line.update(true, 25);
        if state == LinkState::Up && changed {
            recovered = true;
            break;
        }
    }
    assert!(recovered);
}

#[test]
fn test_down_on_window_loss_rate() {
    let cfg = DaemonConfig::default();
    let mut line = Line::new(&cfg);
    line.update(true, 20);
    assert_eq!(line.lqe.state, LinkState::Up);

    for _ in 0..4 {
        line.update(true, 20);
    }

    line.update(false, 600);
    line.update(true, 20);
    line.update(false, 600);
    line.update(false, 600);
    line.update(true, 20);
    line.update(false, 600);
    line.update(false, 600);

    let (lost, len) = line.lqe.loss_counts();
    if lost as f64 / len as f64 > 0.50 {
        assert_eq!(line.lqe.state, LinkState::Down);
    }
}

#[test]
fn loss_above_the_threshold_in_a_full_window_brings_down() {
    let mut cfg = DaemonConfig::default();
    cfg.window_size = 4;
    let mut line = Line::new(&cfg);
    line.update(true, 20);
    line.update(false, 0);
    line.update(false, 0);
    // Two of three are lost, but the window is not full.
    assert_eq!(line.lqe.state, LinkState::Up);
    line.update(true, 20);
    // Two of four: just at the threshold.
    assert_eq!(line.lqe.loss_counts(), (2, 4));
    assert_eq!(line.lqe.state, LinkState::Up);
    line.update(false, 0);
    // Three of four.
    assert_eq!(line.lqe.loss_counts(), (3, 4));
    assert_eq!(line.lqe.state, LinkState::Down);
}

#[test]
fn test_down_on_rtt_exceeding_max() {
    let mut cfg = DaemonConfig::default();
    cfg.max_rtt_ms = 100_000_000;
    let mut line = Line::new(&cfg);

    line.update(true, 20);
    assert_eq!(line.lqe.state, LinkState::Up);

    let mut went_down = false;
    for _ in 0..10 {
        let (state, _) = line.update(true, 300);
        if state == LinkState::Down {
            went_down = true;
            break;
        }
    }
    assert!(went_down);
}

#[test]
fn test_rtt_hysteresis_prevents_single_spike() {
    let mut cfg = DaemonConfig::default();
    cfg.max_rtt_ms = 100_000_000;
    cfg.rtt_fail_count = 3;
    let mut line = Line::new(&cfg);

    line.update(true, 20);
    assert_eq!(line.lqe.state, LinkState::Up);

    let mut samples_to_down = 0usize;
    for i in 1..=20 {
        let (state, _) = line.update(true, 300);
        if state == LinkState::Down {
            samples_to_down = i;
            break;
        }
    }
    assert!(samples_to_down >= 3, "went down after {samples_to_down} samples");
}

#[test]
fn test_rtt_hysteresis_resets_on_recovery() {
    let mut cfg = DaemonConfig::default();
    cfg.max_rtt_ms = 100_000_000;
    cfg.rtt_fail_count = 2;
    let mut line = Line::new(&cfg);

    line.update(true, 20);
    line.update(true, 300);
    line.update(true, 300);
    line.update(true, 10);
    line.update(true, 300);

    assert_eq!(line.lqe.state, LinkState::Up);
}

#[test]
fn test_recovery_loss_threshold_is_configurable() {
    let mut cfg = DaemonConfig::default();
    cfg.loss_threshold_up = 900_000_000;
    let mut line = Line::new(&cfg);

    line.update(true, 20);
    line.update(false, 600);
    line.update(false, 600);
    line.update(false, 600);
    assert_eq!(line.lqe.state, LinkState::Down);

    let mut recovered = false;
    for _ in 0..5 {
        let (state, _) = line.update(true, 25);
        if state == LinkState::Up {
            recovered = true;
            break;
        }
    }
    assert!(recovered);
}

#[test]
fn a_loss_just_at_the_threshold_does_not_hold_up_recovery() {
    let cfg = DaemonConfig::default();
    let mut line = Line::new(&cfg);
    line.update(false, 0);
    for i in 1..=9 {
        let (state, _) = line.update(true, 20);
        // One of ten lost is exactly the ten per cent that are allowed.
        assert_eq!(state, if i == 9 { LinkState::Up } else { LinkState::Down }, "probe {i}");
    }
    assert_eq!(line.lqe.loss_counts(), (1, 10));
}

#[test]
fn a_failure_starts_the_recovery_anew() {
    let mut cfg = DaemonConfig::default();
    cfg.loss_threshold_up = 1_000_000_000;
    let mut line = Line::new(&cfg);
    line.update(false, 0);
    for _ in 0..4 {
        line.update(true, 20);
    }
    line.update(false, 0);
    assert_eq!(line.lqe.consecutive_successes, 0);
    for _ in 0..4 {
        assert_eq!(line.update(true, 20).0, LinkState::Down);
    }
    assert_eq!(line.update(true, 20), (LinkState::Up, true));
}

#[test]
fn a_slow_line_does_not_recover() {
    let mut cfg = DaemonConfig::default();
    cfg.loss_threshold_up = 1_000_000_000;
    let mut lqe = LinkQualityEstimator::new("wan1".into(), &cfg);
    lqe.update(false, RttVerdict::Unknown);
    for _ in 0..20 {
        assert_eq!(lqe.update(true, RttVerdict::Over).0, LinkState::Down);
    }
    assert_eq!(lqe.update(true, RttVerdict::Normal), (LinkState::Up, true));
}

#[test]
fn states_have_a_text() {
    assert_eq!(LinkState::Up.text(), "UP");
    assert_eq!(LinkState::Down.text(), "DOWN");
}
