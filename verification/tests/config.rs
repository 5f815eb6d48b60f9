use rand::rngs::StdRng;
use rand::RngCore;
use rand::SeedableRng;
use rand_distr::Distribution;
use rand_distr::Exp;
use simnet::config::Config;
use simnet::config::Exponential;
use simnet::config::Latency;
use simnet::config::Link;
use simnet::config::LinkState;
use simnet::config::MessageLoss;
use simnet::config::Ratio;
use simnet::time::SimDuration;

fn latency(min_ms: u64, max_ms: u64) -> Latency {
    Latency {
        min_message_latency: SimDuration::from_millis(min_ms),
        max_message_latency: SimDuration::from_millis(max_ms),
        latency_distribution: Exponential { rate: Ratio::whole(5) },
    }
}

fn loss(fail: (u64, u64), repair: (u64, u64)) -> MessageLoss {
    MessageLoss {
        fail_rate: Ratio::new(fail.0, fail.1).unwrap(),
        repair_rate: Ratio::new(repair.0, repair.1).unwrap(),
    }
}

#[test]
fn default_config_runs_ten_seconds_in_ticks_of_a_millisecond() {
    let config = Config::default();
    assert_eq!(config.tick, SimDuration::from_millis(1));
    assert_eq!(config.tick.nanos, 1_000_000);
    assert_eq!(config.duration, SimDuration::from_secs(10));
    assert_eq!(config.duration.nanos, 10_000 * config.tick.nanos);
    assert_eq!(config.steps(), 10_000);
}

#[test]
fn default_config_starts_no_later_than_now() {
    let before = std::time::SystemTime::now();
    let config = Config::default();
    let after = std::time::SystemTime::now();
    assert!(before <= config.epoch);
    assert!(config.epoch <= after);
}

#[test]
fn default_latency_is_zero_to_a_hundred_at_rate_five() {
    let latency = Latency::default();
    assert_eq!(latency.min_message_latency, SimDuration::from_millis(0));
    assert_eq!(latency.max_message_latency, SimDuration::from_millis(100));
    assert_eq!(latency.latency_distribution.rate, Ratio { numer: 5, denom: 1 });
}

#[test]
fn default_loss_never_fails_and_repairs_at_once() {
    let loss = MessageLoss::default();
    assert_eq!(loss.fail_rate, Ratio { numer: 0, denom: 1 });
    assert_eq!(loss.repair_rate, Ratio { numer: 1, denom: 1 });
    for draw in [0, 1, 12345, u64::MAX / 2, u64::MAX - 1, u64::MAX] {
        assert_eq!(loss.step(LinkState::Up, draw), LinkState::Up);
        assert_eq!(loss.step(LinkState::Down, draw), LinkState::Up);
    }
}

#[test]
fn a_link_starts_up_and_unconfigured() {
    assert_eq!(LinkState::default(), LinkState::Up);
    let link = Link::default();
    assert!(link.latency.is_none());
    assert!(link.message_loss.is_none());
}

#[test]
fn link_hands_out_the_parts_that_were_configured() {
    let mut link = Link::default();
    link.latency = Some(Latency::default());
    link.message_loss = Some(MessageLoss::default());
    assert_eq!(*link.latency(), Latency::default());
    assert_eq!(*link.message_loss(), MessageLoss::default());
}

#[test]
fn link_parts_change_in_place() {
    let mut link = Link { latency: Some(latency(0, 100)), message_loss: Some(loss((0, 1), (1, 1))) };
    link.latency_mut().max_message_latency = SimDuration::from_millis(7);
    link.message_loss_mut().fail_rate = Ratio { numer: 1, denom: 4 };
    assert_eq!(link.latency().max_message_latency.nanos, 7_000_000);
    assert_eq!(link.latency().min_message_latency.nanos, 0);
    assert_eq!(link.message_loss().fail_rate, Ratio { numer: 1, denom: 4 });
    assert_eq!(link.message_loss().repair_rate, Ratio { numer: 1, denom: 1 });
}

#[test]
fn delay_is_the_sample_brought_within_the_bounds() {
    let latency = latency(10, 100);
    assert_eq!(latency.delay(SimDuration::from_millis(0)), SimDuration::from_millis(10));
    assert_eq!(latency.delay(SimDuration::from_nanos(9_999_999)), SimDuration::from_millis(10));
    assert_eq!(latency.delay(SimDuration::from_millis(10)), SimDuration::from_millis(10));
    assert_eq!(latency.delay(SimDuration::from_millis(25)), SimDuration::from_millis(25));
    assert_eq!(latency.delay(SimDuration::from_millis(100)), SimDuration::from_millis(100));
    assert_eq!(latency.delay(SimDuration::from_nanos(100_000_001)), SimDuration::from_millis(100));
    assert_eq!(latency.delay(SimDuration::from_nanos(u128::MAX)), SimDuration::from_millis(100));
}

#[test]
fn delay_with_equal_bounds_is_that_bound() {
    let latency = latency(40, 40);
    for sample in [0, 39, 40, 41, 1_000] {
        assert_eq!(latency.delay(SimDuration::from_millis(sample)), SimDuration::from_millis(40));
    }
}

#[test]
fn sampled_delays_stay_within_the_bounds() {
    let latency = Latency::default();
    let rate = latency.latency_distribution.rate;
    let exp = Exp::new(rate.numer as f64 / rate.denom as f64).unwrap();
    let mut rng = StdRng::seed_from_u64(7);
    let mut clipped = 0;
    for _ in 0..10_000 {
        let millis: f64 = exp.sample(&mut rng) * 1_000.0;
        let sample = SimDuration::from_nanos((millis * 1_000_000.0) as u128);
        let delay = latency.delay(sample);
        assert!(latency.min_message_latency.nanos <= delay.nanos);
        assert!(delay.nanos <= latency.max_message_latency.nanos);
        if delay != sample {
            clipped += 1;
        }
    }
    assert!(clipped > 0);
}

fn sampled_run(seed: u64) -> (Vec<SimDuration>, Vec<LinkState>) {
    let latency = latency(1, 50);
    let loss = loss((1, 10), (1, 2));
    let exp = Exp::new(5.0).unwrap();
    let mut rng = StdRng::seed_from_u64(seed);
    let mut delays = Vec::new();
    let mut states = Vec::new();
    let mut state = LinkState::default();
    for _ in 0..500 {
        let millis: f64 = exp.sample(&mut rng) * 100.0;
        delays.push(latency.delay(SimDuration::from_nanos((millis * 1_000_000.0) as u128)));
        state = loss.step(state, rng.next_u64());
        states.push(state);
    }
    (delays, states)
}

#[test]
fn the_same_seed_gives_the_same_delays_and_link_states() {
    assert_eq!(sampled_run(99), sampled_run(99));
    assert_ne!(sampled_run(99), sampled_run(100));
}

#[test]
fn ratio_needs_a_positive_denominator() {
    assert_eq!(Ratio::new(1, 0), None);
    assert_eq!(Ratio::new(0, 0), None);
    assert_eq!(Ratio::new(3, 4), Some(Ratio { numer: 3, denom: 4 }));
    assert_eq!(Ratio::whole(5), Ratio { numer: 5, denom: 1 });
}

#[test]
fn an_event_occurs_where_the_draw_lies_below_the_ratio() {
    let half = Ratio { numer: 1, denom: 2 };
    assert!(half.occurs(0));
    assert!(half.occurs((1 << 63) - 1));
    assert!(!half.occurs(1 << 63));
    assert!(!half.occurs(u64::MAX));
    let quarter = Ratio { numer: 1, denom: 4 };
    assert!(quarter.occurs((1 << 62) - 1));
    assert!(!quarter.occurs(1 << 62));
    let never = Ratio { numer: 0, denom: 9 };
    assert!(!never.occurs(0));
    let always = Ratio { numer: 9, denom: 9 };
    assert!(always.occurs(u64::MAX));
    let largest = Ratio { numer: u64::MAX, denom: u64::MAX };
    assert!(largest.occurs(u64::MAX));
}

#[test]
fn a_step_fails_a_healthy_link_and_repairs_a_failed_one() {
    let loss = loss((1, 4), (1, 2));
    assert_eq!(loss.step(LinkState::Up, 0), LinkState::Down);
    assert_eq!(loss.step(LinkState::Up, (1 << 62) - 1), LinkState::Down);
    assert_eq!(loss.step(LinkState::Up, 1 << 62), LinkState::Up);
    assert_eq!(loss.step(LinkState::Down, (1 << 63) - 1), LinkState::Up);
    assert_eq!(loss.step(LinkState::Down, 1 << 63), LinkState::Down);
    assert_eq!(loss.step(LinkState::Down, u64::MAX), LinkState::Down);
}

#[test]
fn the_share_of_steps_spent_down_settles_at_the_stationary_value() {
    let loss = loss((1, 4), (1, 2));
    let mut rng = StdRng::seed_from_u64(2024);
    let mut state = LinkState::default();
    let steps = 400_000;
    let mut down = 0;
    for _ in 0..steps {
        state = loss.step(state, rng.next_u64());
        if state == LinkState::Down {
            down += 1;
        }
    }
    let share = down as f64 / steps as f64;
    let expected = 0.25 / (0.25 + 0.5);
    assert!((share - expected).abs() < 0.01, "share {share}");
}

#[test]
fn elapsed_time_is_ticks_times_the_tick() {
    let config = Config::default();
    assert_eq!(config.elapsed(0), Some(SimDuration::from_nanos(0)));
    assert_eq!(config.elapsed(3), Some(SimDuration::from_millis(3)));
    assert_eq!(config.elapsed(10_000), Some(config.duration));
    assert_eq!(config.elapsed(u64::MAX), Some(SimDuration::from_nanos(u64::MAX as u128 * 1_000_000)));
}

#[test]
fn elapsed_time_beyond_the_counter_is_none() {
    let mut config = Config::default();
    config.tick = SimDuration::from_nanos(u128::MAX);
    assert_eq!(config.elapsed(1), Some(SimDuration::from_nanos(u128::MAX)));
    assert_eq!(config.elapsed(2), None);
    config.tick = SimDuration::from_nanos(1 << 64);
    assert_eq!(config.elapsed(u64::MAX), Some(SimDuration::from_nanos((u64::MAX as u128) << 64)));
}

#[test]
fn steps_count_the_whole_ticks_of_the_run() {
    let mut config = Config::default();
    config.duration = SimDuration::from_millis(10);
    config.tick = SimDuration::from_millis(3);
    assert_eq!(config.steps(), 3);
    config.tick = SimDuration::from_millis(11);
    assert_eq!(config.steps(), 0);
}

#[test]
fn spans_are_counted_in_nanoseconds() {
    assert_eq!(SimDuration::from_nanos(17).nanos, 17);
    assert_eq!(SimDuration::from_millis(2).nanos, 2_000_000);
    assert_eq!(SimDuration::from_secs(2).nanos, 2_000_000_000);
    assert_eq!(SimDuration::from_millis(u64::MAX).nanos, u64::MAX as u128 * 1_000_000);
    assert_eq!(SimDuration::from_secs(u64::MAX).nanos, u64::MAX as u128 * 1_000_000_000);
    assert_eq!(SimDuration::from_millis(4).checked_times(5), Some(SimDuration::from_millis(20)));
    assert_eq!(SimDuration::from_nanos(u128::MAX / 2 + 1).checked_times(2), None);
}
