//! Redelivery policies of a subscription.
use vstd::prelude::*;

use crate::time;
use crate::time::Duration;
use crate::topics::topic_name::{TopicName, TopicNameView};

verus! {

/// How long redelivery of a message waits.
#[derive(Debug, Copy, Clone)]
pub struct RetryPolicy {
    /// The shortest wait between two deliveries of a message.
    pub minimum_backoff: Duration,
    /// The longest wait between two deliveries of a message.
    pub maximum_backoff: Duration,
}

/// Two to the power of `exponent`.
pub open spec fn power_of_two(exponent: nat) -> nat
    decreases exponent,
{
    if exponent == 0 {
        1
    } else {
        2 * power_of_two((exponent - 1) as nat)
    }
}

/// How often the wait before a delivery attempt was doubled: not before the first attempt, and
/// not more than twenty times.
pub open spec fn doublings(delivery_attempt: u16) -> nat {
    if delivery_attempt <= 1 {
        0
    } else if delivery_attempt <= 21 {
        (delivery_attempt - 1) as nat
    } else {
        20
    }
}

/// The wait before a delivery attempt in nanoseconds: the shortest wait doubled for each attempt,
/// up to the longest one.
pub open spec fn backoff_nanos(minimum: nat, maximum: nat, delivery_attempt: u16) -> nat {
    let wait = minimum * power_of_two(doublings(delivery_attempt));
    if wait <= maximum {
        wait
    } else {
        maximum
    }
}

/// The powers of two below the twenty-first fit in 32 bits.
proof fn lemma_power_of_two_bound(exponent: nat)
    requires
        exponent <= 20,
    ensures
        1 <= power_of_two(exponent) <= 1_048_576,
{
    reveal_with_fuel(power_of_two, 21);
}

impl RetryPolicy {
    /// The wait before a delivery attempt: `min(maximum, minimum * 2^(attempt - 1))`.
    pub fn calculate_backoff(&self, delivery_attempt: u16) -> (d: Duration)
        ensures
            d@ == backoff_nanos(self.minimum_backoff@, self.maximum_backoff@, delivery_attempt),
    {
        let before: u16 = delivery_attempt.saturating_sub(1);
        let exponent: u16 = if before <= 20 {
            before
        } else {
            20
        };
        assert(exponent == doublings(delivery_attempt));
        let mut factor: u32 = 1;
        let mut i: u16 = 0;
        while i < exponent
            invariant
                i <= exponent <= 20,
                factor == power_of_two(i as nat),
            decreases exponent - i,
        {
            proof {
                lemma_power_of_two_bound(i as nat);
            }
            factor = factor * 2;
            i += 1;
        }
        let longest: u128 = self.maximum_backoff.as_nanos();
        assert(longest <= time::MAX_DURATION_NANOS);
        self.minimum_backoff.saturating_mul(factor).min(self.maximum_backoff)
    }
}

/// Where messages go that were delivered too often.
#[derive(Debug)]
pub struct DeadLetterPolicy {
    /// The topic that they are published to.
    pub dead_letter_topic: TopicName,
    /// How often a message is delivered before.
    pub max_delivery_attempts: i32,
}

impl Clone for DeadLetterPolicy {
    fn clone(&self) -> (p: DeadLetterPolicy)
        ensures
            p == *self,
    {
        DeadLetterPolicy {
            dead_letter_topic: self.dead_letter_topic.clone(),
            max_delivery_attempts: self.max_delivery_attempts,
        }
    }
}

/// A wait is never longer than the longest one, and never shorter than the shortest one.
pub proof fn law_backoff_stays_in_bounds(minimum: nat, maximum: nat, delivery_attempt: u16)
    requires
        minimum <= maximum,
    ensures
        minimum <= backoff_nanos(minimum, maximum, delivery_attempt) <= maximum,
{
    lemma_power_of_two_bound(doublings(delivery_attempt));
    let p = power_of_two(doublings(delivery_attempt));
    assert(minimum <= minimum * p) by (nonlinear_arith)
        requires
            p >= 1,
    ;
}

/// A larger exponent gives a larger power.
proof fn lemma_power_of_two_grows(a: nat, b: nat)
    requires
        a <= b,
    ensures
        power_of_two(a) <= power_of_two(b),
    decreases b,
{
    if a < b {
        lemma_power_of_two_grows(a, (b - 1) as nat);
    }
}

/// A later attempt never waits less than an earlier one.
pub proof fn law_backoff_never_shrinks(minimum: nat, maximum: nat, attempt: u16, later: u16)
    requires
        attempt <= later,
    ensures
        backoff_nanos(minimum, maximum, attempt) <= backoff_nanos(minimum, maximum, later),
{
    lemma_power_of_two_grows(doublings(attempt), doublings(later));
    let p = power_of_two(doublings(attempt));
    let q = power_of_two(doublings(later));
    assert(minimum * p <= minimum * q) by (nonlinear_arith)
        requires
            p <= q,
    ;
}

/// Until the longest wait is reached each attempt doubles the wait of the one before.
pub proof fn law_backoff_doubles(minimum: nat, maximum: nat, attempt: u16)
    requires
        1 <= attempt <= 20,
        backoff_nanos(minimum, maximum, (attempt + 1) as u16) < maximum,
    ensures
        backoff_nanos(minimum, maximum, (attempt + 1) as u16) == 2 * backoff_nanos(
            minimum,
            maximum,
            attempt,
        ),
{
    let p = power_of_two(doublings(attempt));
    assert(doublings((attempt + 1) as u16) == doublings(attempt) + 1);
    assert(power_of_two(doublings(attempt) + 1) == 2 * p);
    assert(minimum * (2 * p) == 2 * (minimum * p)) by (nonlinear_arith);
}

/// A retry policy with its waits in nanoseconds.
pub struct RetryPolicyView {
    pub minimum_backoff: nat,
    pub maximum_backoff: nat,
}

impl View for RetryPolicy {
    type V = RetryPolicyView;

    open spec fn view(&self) -> RetryPolicyView {
        RetryPolicyView {
            minimum_backoff: self.minimum_backoff@,
            maximum_backoff: self.maximum_backoff@,
        }
    }
}

/// A dead letter policy by what it names.
pub struct DeadLetterPolicyView {
    pub dead_letter_topic: TopicNameView,
    pub max_delivery_attempts: i32,
}

impl View for DeadLetterPolicy {
    type V = DeadLetterPolicyView;

    open spec fn view(&self) -> DeadLetterPolicyView {
        DeadLetterPolicyView {
            dead_letter_topic: self.dead_letter_topic@,
            max_delivery_attempts: self.max_delivery_attempts,
        }
    }
}

} // verus!
