//! Parameters of a simulation run and of the links between its hosts.

use crate::time::SimDuration;
use std::time::SystemTime;
use vstd::prelude::*;

verus! {

/// `std::time::SystemTime`, a point of wall-clock time that is only carried
/// through.
#[verifier::external_type_specification]
#[verifier::external_body]
pub struct ExSystemTime(SystemTime);

/// `SystemTime::now` reads the machine's clock, so nothing is claimed of the
/// instant that it returns.
pub assume_specification[ SystemTime::now ]() -> (now: SystemTime);

/// A non-negative rational number, `numer / denom`.
///
/// It stands for a rate or a probability without rounding.
#[derive(Clone, Copy, Debug, PartialEq, Eq, Structural)]
pub struct Ratio {
    pub numer: u64,
    pub denom: u64,
}

impl Ratio {
    /// A ratio has a value where its denominator is positive.
    pub open spec fn wf(self) -> bool {
        self.denom > 0
    }

    /// A probability lies between zero and one.
    pub open spec fn is_probability(self) -> bool {
        self.wf() && self.numer <= self.denom
    }

    /// The probability of what never takes place.
    pub open spec fn spec_is_zero(self) -> bool {
        self.wf() && self.numer == 0
    }

    /// The probability of what always takes place.
    pub open spec fn spec_is_one(self) -> bool {
        self.wf() && self.numer == self.denom
    }

    /// Whether an event of this probability takes place on `draw`, a value
    /// drawn uniformly from all of `u64`: it does where the draw, as a
    /// fraction of two to the 64th, lies below the ratio.
    pub open spec fn spec_occurs(self, draw: u64) -> bool {
        draw * self.denom < self.numer * 0x1_0000_0000_0000_0000
    }

    /// The ratio `numer / denom`, or `None` where `denom` is zero.
    pub fn new(numer: u64, denom: u64) -> (ratio: Option<Ratio>)
        ensures
            ratio == if denom > 0 {
                Some(Ratio { numer, denom })
            } else {
                None
            },
    {
        if denom > 0 {
            Some(Ratio { numer, denom })
        } else {
            None
        }
    }

    /// The ratio of a whole number to one.
    pub fn whole(value: u64) -> (ratio: Ratio)
        ensures
            ratio == (Ratio { numer: value, denom: 1 }),
            ratio.wf(),
    {
        Ratio { numer: value, denom: 1 }
    }

    /// Whether an event of this probability takes place on `draw`.
    #[verifier::when_used_as_spec(spec_occurs)]
    pub fn occurs(self, draw: u64) -> (hit: bool)
        ensures
            hit == self.spec_occurs(draw),
    {
        assert(draw * self.denom <= u128::MAX) by (nonlinear_arith)
            requires
                draw <= u64::MAX,
                self.denom <= u64::MAX,
        ;
        assert(self.numer * 0x1_0000_0000_0000_0000 <= u128::MAX) by (nonlinear_arith)
            requires
                self.numer <= u64::MAX,
        ;
        (draw as u128) * (self.denom as u128) < (self.numer as u128) * 0x1_0000_0000_0000_0000u128
    }
}

/// An event of probability zero takes place on no draw, one of probability
/// one on every draw.
pub proof fn lemma_certain_and_impossible(ratio: Ratio, draw: u64)
    requires
        ratio.wf(),
    ensures
        ratio.spec_is_zero() ==> !ratio.occurs(draw),
        ratio.spec_is_one() ==> ratio.occurs(draw),
{
    if ratio.spec_is_one() {
        assert(draw * ratio.denom < ratio.denom * 0x1_0000_0000_0000_0000) by (nonlinear_arith)
            requires
                ratio.denom > 0,
                draw < 0x1_0000_0000_0000_0000,
        ;
    }
}

/// Parameters of a whole run.
#[derive(Clone, Copy)]
pub struct Config {
    /// How long the simulation runs.
    pub duration: SimDuration,
    /// How much simulated time passes with each step of the scheduler.
    pub tick: SimDuration,
    /// The instant at which the simulation starts: simulated time is
    /// measured from it.
    pub epoch: SystemTime,
}

impl Config {
    /// Time advances only where a tick has a length.
    pub open spec fn wf(&self) -> bool {
        self.tick.nanos > 0
    }

    /// The simulated time that has passed after `ticks` steps.
    pub open spec fn spec_elapsed(&self, ticks: u64) -> int {
        ticks * self.tick.nanos
    }

    /// The simulated time since the epoch after `ticks` steps, or `None`
    /// where it is more than a span can hold.
    pub fn elapsed(&self, ticks: u64) -> (at: Option<SimDuration>)
        ensures
            match at {
                Some(d) => d.nanos == self.spec_elapsed(ticks),
                None => self.spec_elapsed(ticks) > u128::MAX,
            },
    {
        proof {
            vstd::arithmetic::mul::lemma_mul_is_commutative(ticks as int, self.tick.nanos as int);
        }
        self.tick.checked_times(ticks)
    }

    /// The number of whole ticks that fit into the run.
    pub fn steps(&self) -> (count: u128)
        requires
            self.wf(),
        ensures
            count == self.duration.nanos / self.tick.nanos,
    {
        self.duration.nanos / self.tick.nanos
    }
}

impl Default for Config {
    /// Ten seconds in ticks of one millisecond, starting now.
    fn default() -> (config: Config)
        ensures
            config.duration.nanos == 10_000_000_000,
            config.tick.nanos == 1_000_000,
            config.duration.nanos == 10_000 * config.tick.nanos,
            config.wf(),
    {
        Config {
            duration: SimDuration::from_secs(10),
            tick: SimDuration::from_millis(1),
            epoch: SystemTime::now(),
        }
    }
}

/// The shape of an exponential distribution: its rate, which is zero or
/// more.
#[derive(Clone, Copy, Debug, PartialEq, Eq, Structural)]
pub struct Exponential {
    pub rate: Ratio,
}

/// Configures link behavior: a link without a part behaves as if that part
/// did nothing.
#[derive(Clone, Copy)]
pub struct Link {
    /// Message latency between two hosts.
    pub latency: Option<Latency>,
    /// How often the link fails and comes back.
    pub message_loss: Option<MessageLoss>,
}

/// Configures latency behavior between two hosts.
#[derive(Clone, Copy, Debug, PartialEq, Eq, Structural)]
pub struct Latency {
    /// Minimum latency.
    pub min_message_latency: SimDuration,
    /// Maximum latency.
    pub max_message_latency: SimDuration,
    /// Probability distribution of latency within the range above.
    pub latency_distribution: Exponential,
}

/// Configures how often a link fails and how soon it comes back.
#[derive(Clone, Copy, Debug, PartialEq, Eq, Structural)]
pub struct MessageLoss {
    /// Probability that a healthy link fails in a step.
    pub fail_rate: Ratio,
    /// Probability that a failed link returns in a step.
    pub repair_rate: Ratio,
}

/// Whether a link carries messages.
#[derive(Clone, Copy, Debug, PartialEq, Eq, Structural)]
pub enum LinkState {
    /// The link is healthy.
    Up,
    /// The link has failed and carries nothing.
    Down,
}

impl Default for LinkState {
    /// A link starts out healthy.
    fn default() -> (state: LinkState)
        ensures
            state == LinkState::Up,
    {
        LinkState::Up
    }
}

impl Default for Link {
    /// A link with neither part configured.
    fn default() -> (link: Link)
        ensures
            link.latency.is_none(),
            link.message_loss.is_none(),
    {
        Link { latency: None, message_loss: None }
    }
}

impl Link {
    /// The latency part, which must have been configured.
    pub fn latency(&self) -> (latency: &Latency)
        requires
            self.latency.is_some(),
        ensures
            *latency == self.latency.unwrap(),
    {
        self.latency.as_ref().expect("`Latency` missing")
    }

    /// The latency part, to be changed in place; it must have been
    /// configured.
    pub fn latency_mut(&mut self) -> (latency: &mut Latency)
        requires
            old(self).latency.is_some(),
        ensures
            *latency == old(self).latency.unwrap(),
            final(self).latency == Some(*final(latency)),
            final(self).message_loss == old(self).message_loss,
    {
        match &mut self.latency {
            Some(latency) => latency,
            None => vstd::pervasive::unreached(),
        }
    }

    /// The loss part, which must have been configured.
    pub fn message_loss(&self) -> (loss: &MessageLoss)
        requires
            self.message_loss.is_some(),
        ensures
            *loss == self.message_loss.unwrap(),
    {
        self.message_loss.as_ref().expect("`MessageLoss` missing")
    }

    /// The loss part, to be changed in place; it must have been configured.
    pub fn message_loss_mut(&mut self) -> (loss: &mut MessageLoss)
        requires
            old(self).message_loss.is_some(),
        ensures
            *loss == old(self).message_loss.unwrap(),
            final(self).message_loss == Some(*final(loss)),
            final(self).latency == old(self).latency,
    {
        match &mut self.message_loss {
            Some(loss) => loss,
            None => vstd::pervasive::unreached(),
        }
    }
}

impl Latency {
    /// The bounds are in order and the distribution has a rate.
    pub open spec fn wf(&self) -> bool {
        &&& self.min_message_latency.nanos <= self.max_message_latency.nanos
        &&& self.latency_distribution.rate.wf()
    }

    /// Zero to a hundred milliseconds, at a rate of five.
    pub open spec fn spec_default() -> Latency {
        Latency {
            min_message_latency: SimDuration { nanos: 0 },
            max_message_latency: SimDuration { nanos: 100_000_000 },
            latency_distribution: Exponential { rate: Ratio { numer: 5, denom: 1 } },
        }
    }

    /// `sample` where it lies within the bounds, else the bound that it
    /// lies beyond.
    pub open spec fn spec_delay(&self, sample: SimDuration) -> SimDuration {
        if sample.nanos < self.min_message_latency.nanos {
            self.min_message_latency
        } else if sample.nanos > self.max_message_latency.nanos {
            self.max_message_latency
        } else {
            sample
        }
    }

    /// The transit delay of a message for which `sample` was drawn from the
    /// distribution: the sample, brought within the bounds.
    #[verifier::when_used_as_spec(spec_delay)]
    pub fn delay(&self, sample: SimDuration) -> (delay: SimDuration)
        ensures
            delay == self.spec_delay(sample),
            self.wf() ==> self.min_message_latency.nanos <= delay.nanos
                <= self.max_message_latency.nanos,
    {
        if sample.nanos < self.min_message_latency.nanos {
            self.min_message_latency
        } else if sample.nanos > self.max_message_latency.nanos {
            self.max_message_latency
        } else {
            sample
        }
    }
}

impl Default for Latency {
    /// Zero to a hundred milliseconds, at a rate of five.
    fn default() -> (latency: Latency)
        ensures
            latency == Latency::spec_default(),
            latency.wf(),
    {
        Latency {
            min_message_latency: SimDuration::from_millis(0),
            max_message_latency: SimDuration::from_millis(100),
            latency_distribution: Exponential { rate: Ratio::whole(5) },
        }
    }
}

impl MessageLoss {
    /// Both rates are probabilities.
    pub open spec fn wf(&self) -> bool {
        self.fail_rate.is_probability() && self.repair_rate.is_probability()
    }

    /// A link that never fails, and that would return at once if it did.
    pub open spec fn spec_default() -> MessageLoss {
        MessageLoss {
            fail_rate: Ratio { numer: 0, denom: 1 },
            repair_rate: Ratio { numer: 1, denom: 1 },
        }
    }

    /// The state of a link one step after it was in `state`, where `draw`
    /// was drawn uniformly from all of `u64` for this step.
    pub open spec fn spec_step(&self, state: LinkState, draw: u64) -> LinkState {
        match state {
            LinkState::Up => if self.fail_rate.occurs(draw) {
                LinkState::Down
            } else {
                LinkState::Up
            },
            LinkState::Down => if self.repair_rate.occurs(draw) {
                LinkState::Up
            } else {
                LinkState::Down
            },
        }
    }

    /// One step of the link's availability: a healthy link fails with the
    /// probability `fail_rate`, a failed one returns with the probability
    /// `repair_rate`, and otherwise the link stays as it is.
    #[verifier::when_used_as_spec(spec_step)]
    pub fn step(&self, state: LinkState, draw: u64) -> (next: LinkState)
        ensures
            next == self.spec_step(state, draw),
    {
        match state {
            LinkState::Up => if self.fail_rate.occurs(draw) {
                LinkState::Down
            } else {
                LinkState::Up
            },
            LinkState::Down => if self.repair_rate.occurs(draw) {
                LinkState::Up
            } else {
                LinkState::Down
            },
        }
    }

    /// The share of steps that the link spends down in the long run, as a
    /// numerator and a denominator: the fail rate over the sum of the two
    /// rates.
    pub open spec fn down_share(&self) -> (int, int) {
        let fail = self.fail_rate.numer * self.repair_rate.denom;
        let repair = self.repair_rate.numer * self.fail_rate.denom;
        (fail, fail + repair)
    }

    /// The probability, as a numerator and a denominator, that the link is
    /// down after a step before which it was down with the probability
    /// `down.0 / down.1`: it stayed down, or it was up and failed.
    pub open spec fn next_down(&self, down: (int, int)) -> (int, int) {
        let stays = (self.repair_rate.denom - self.repair_rate.numer) * self.fail_rate.denom;
        let fails = self.fail_rate.numer * self.repair_rate.denom;
        (
            down.0 * stays + (down.1 - down.0) * fails,
            down.1 * (self.fail_rate.denom * self.repair_rate.denom),
        )
    }

    /// The state of a link after one step for each of `draws`, in order.
    pub open spec fn run(&self, state: LinkState, draws: Seq<u64>) -> LinkState
        decreases draws.len(),
    {
        if draws.len() == 0 {
            state
        } else {
            self.step(self.run(state, draws.drop_last()), draws.last())
        }
    }
}

impl Default for MessageLoss {
    /// A link that never fails.
    fn default() -> (loss: MessageLoss)
        ensures
            loss == MessageLoss::spec_default(),
            loss.wf(),
    {
        MessageLoss { fail_rate: Ratio::whole(0), repair_rate: Ratio::whole(1) }
    }
}

/// A delay lies within the bounds of the latency that it was drawn for,
/// whatever the sample was.
pub proof fn lemma_delay_within_bounds(latency: Latency, sample: SimDuration)
    requires
        latency.wf(),
    ensures
        latency.min_message_latency.nanos <= latency.delay(sample).nanos
            <= latency.max_message_latency.nanos,
{
}

/// Delays and link states are decided by the configuration and by what was
/// drawn: two runs that agree in these agree in every delay and in the state
/// in which the link ends.
pub proof fn lemma_draws_replay(
    first: Link,
    second: Link,
    sample_first: SimDuration,
    sample_second: SimDuration,
    draws_first: Seq<u64>,
    draws_second: Seq<u64>,
)
    requires
        first == second,
        sample_first == sample_second,
        draws_first == draws_second,
        first.latency.is_some(),
        first.message_loss.is_some(),
    ensures
        first.latency.unwrap().delay(sample_first) == second.latency.unwrap().delay(sample_second),
        first.message_loss.unwrap().run(LinkState::Up, draws_first)
            == second.message_loss.unwrap().run(LinkState::Up, draws_second),
{
}

/// A link whose fail rate is zero stays up whatever is drawn, and so does a
/// link with the default loss.
pub proof fn lemma_never_fails(loss: MessageLoss, draws: Seq<u64>)
    requires
        loss.fail_rate.spec_is_zero(),
    ensures
        loss.run(LinkState::Up, draws) == LinkState::Up,
        MessageLoss::spec_default().run(LinkState::Up, draws) == LinkState::Up,
    decreases draws.len(),
{
    if draws.len() > 0 {
        lemma_never_fails(loss, draws.drop_last());
        lemma_certain_and_impossible(loss.fail_rate, draws.last());
        lemma_certain_and_impossible(MessageLoss::spec_default().fail_rate, draws.last());
    }
}

/// The probability of being down moves towards the long-run share: with
/// each step its distance from that share is multiplied by one minus the
/// fail rate minus the repair rate. So the share is stationary, a link that
/// is down with that probability being down with the same probability one
/// step later. Fractions are compared numerator times the other
/// denominator, and the factor is written over the product of the two
/// rates' denominators.
pub proof fn lemma_down_share_attracts(loss: MessageLoss, down: (int, int))
    ensures
        ({
            let share = loss.down_share();
            let next = loss.next_down(down);
            let scale = loss.fail_rate.denom * loss.repair_rate.denom;
            let factor = scale - loss.fail_rate.numer * loss.repair_rate.denom
                - loss.repair_rate.numer * loss.fail_rate.denom;
            next.0 * share.1 - share.0 * next.1 == factor * (down.0 * share.1 - share.0 * down.1)
        }),
        loss.next_down(loss.down_share()).0 * loss.down_share().1 == loss.down_share().0
            * loss.next_down(loss.down_share()).1,
{
    let fail = loss.fail_rate.numer * loss.repair_rate.denom;
    let repair = loss.repair_rate.numer * loss.fail_rate.denom;
    let scale = loss.fail_rate.denom * loss.repair_rate.denom;
    let stays = (loss.repair_rate.denom - loss.repair_rate.numer) * loss.fail_rate.denom;
    assert(stays == scale - repair) by (nonlinear_arith)
        requires
            stays == (loss.repair_rate.denom - loss.repair_rate.numer) * loss.fail_rate.denom,
            repair == loss.repair_rate.numer * loss.fail_rate.denom,
            scale == loss.fail_rate.denom * loss.repair_rate.denom,
    ;
    lemma_attraction(fail, repair, scale, down.0, down.1);
    lemma_attraction(fail, repair, scale, fail, fail + repair);
}

/// The algebra behind the attraction of the long-run share, with the rates
/// written over a common denominator `scale`.
proof fn lemma_attraction(fail: int, repair: int, scale: int, n: int, d: int)
    ensures
        (n * (scale - repair) + (d - n) * fail) * (fail + repair) - fail * (d * scale) == (scale
            - fail - repair) * (n * (fail + repair) - fail * d),
{
    let factor = scale - fail - repair;
    let sum = fail + repair;
    let moved = n * factor;
    let kept = d * fail;
    assert(n * (scale - repair) + (d - n) * fail == moved + kept) by (nonlinear_arith)
        requires
            factor == scale - fail - repair,
            moved == n * factor,
            kept == d * fail,
    ;
    assert((moved + kept) * sum == moved * sum + kept * sum) by (nonlinear_arith);
    assert(fail * (d * scale) == kept * scale) by (nonlinear_arith)
        requires
            kept == d * fail,
    ;
    assert(kept * sum - kept * scale == -(kept * factor)) by (nonlinear_arith)
        requires
            factor == scale - sum,
    ;
    assert(moved * sum == factor * (n * sum)) by (nonlinear_arith)
        requires
            moved == n * factor,
    ;
    assert(kept * factor == factor * (fail * d)) by (nonlinear_arith)
        requires
            kept == d * fail,
    ;
    assert(factor * (n * sum - fail * d) == factor * (n * sum) - factor * (fail * d))
        by (nonlinear_arith);
}

/// A failed link whose repair rate is one is up again after the next step.
pub proof fn lemma_repairs_at_once(loss: MessageLoss, draw: u64)
    requires
        loss.repair_rate.spec_is_one(),
    ensures
        loss.step(LinkState::Down, draw) == LinkState::Up,
{
    lemma_certain_and_impossible(loss.repair_rate, draw);
}

} // verus!
