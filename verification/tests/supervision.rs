use arbiter::supervision::{RestartPolicy, SupervisionDecision, Supervisor};
use arbiter::time::Duration;

#[test]
fn immediate_policy_stops_after_max_restarts() {
    let mut supervisor = Supervisor::new(RestartPolicy::Immediate { max_restarts: 2 });

    assert_eq!(supervisor.record_failure(), SupervisionDecision::RestartAfter(Duration::zero()));
    assert_eq!(supervisor.record_failure(), SupervisionDecision::RestartAfter(Duration::zero()));
    assert_eq!(supervisor.record_failure(), SupervisionDecision::Stop);

    let stats = supervisor.stats();
    assert_eq!(stats.total_failures, 3);
    assert_eq!(stats.total_restarts, 2);
    assert_eq!(stats.consecutive_failures, 3);
}

#[test]
fn backoff_policy_caps_delay_and_resets_after_success() {
    let mut supervisor = Supervisor::new(RestartPolicy::ExponentialBackoff {
        max_restarts: 4,
        base_delay: Duration::from_millis(10),
        max_delay: Duration::from_millis(25),
    });

    assert_eq!(
        supervisor.record_failure(),
        SupervisionDecision::RestartAfter(Duration::from_millis(10))
    );
    assert_eq!(
        supervisor.record_failure(),
        SupervisionDecision::RestartAfter(Duration::from_millis(20))
    );
    assert_eq!(
        supervisor.record_failure(),
        SupervisionDecision::RestartAfter(Duration::from_millis(25))
    );

    supervisor.record_success();
    assert_eq!(supervisor.stats().consecutive_failures, 0);
    assert_eq!(
        supervisor.record_failure(),
        SupervisionDecision::RestartAfter(Duration::from_millis(10))
    );
}

#[test]
fn never_policy_always_stops_but_counts_failures() {
    let mut supervisor = Supervisor::new(RestartPolicy::Never);
    assert_eq!(supervisor.record_failure(), SupervisionDecision::Stop);
    assert_eq!(supervisor.record_failure(), SupervisionDecision::Stop);
    let stats = supervisor.stats();
    assert_eq!(stats.total_failures, 2);
    assert_eq!(stats.total_restarts, 0);
    assert_eq!(supervisor.policy(), RestartPolicy::Never);
}

#[test]
fn fixed_delay_policy_restarts_with_its_delay_until_budget_spent() {
    let delay = Duration::from_secs(2);
    let mut supervisor = Supervisor::new(RestartPolicy::FixedDelay { max_restarts: 1, delay });
    assert_eq!(supervisor.record_failure(), SupervisionDecision::RestartAfter(delay));
    assert_eq!(supervisor.record_failure(), SupervisionDecision::Stop);
    supervisor.record_success();
    assert_eq!(supervisor.record_failure(), SupervisionDecision::RestartAfter(delay));
    assert_eq!(supervisor.stats().total_restarts, 2);
    assert_eq!(supervisor.stats().total_failures, 3);
}

#[test]
fn backoff_doubles_per_failure_below_the_cap() {
    let mut supervisor = Supervisor::new(RestartPolicy::ExponentialBackoff {
        max_restarts: 5,
        base_delay: Duration::from_millis(1),
        max_delay: Duration::from_secs(60),
    });
    for expected in [1u64, 2, 4, 8, 16] {
        assert_eq!(
            supervisor.record_failure(),
            SupervisionDecision::RestartAfter(Duration::from_millis(expected))
        );
    }
    assert_eq!(supervisor.record_failure(), SupervisionDecision::Stop);
}

#[test]
fn backoff_saturates_at_the_longest_span() {
    let mut supervisor = Supervisor::new(RestartPolicy::ExponentialBackoff {
        max_restarts: 100,
        base_delay: Duration::from_secs(u64::MAX),
        max_delay: Duration::from_secs(u64::MAX),
    });
    assert_eq!(supervisor.record_failure(), SupervisionDecision::RestartAfter(Duration::from_secs(u64::MAX)));
    assert_eq!(supervisor.record_failure(), SupervisionDecision::RestartAfter(Duration::from_secs(u64::MAX)));
}

#[test]
fn default_policy_never_restarts() {
    assert_eq!(RestartPolicy::default(), RestartPolicy::Never);
}
