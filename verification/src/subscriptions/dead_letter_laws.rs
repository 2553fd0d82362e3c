//! What a dead letter tells of the message that it stands for.
use vstd::prelude::*;

use crate::message_data;
use crate::subscriptions::ack::Delivery;
use crate::subscriptions::info::SubscriptionInfo;
use crate::subscriptions::state;
use crate::subscriptions::state::{Condemned, SubscriptionState};
use crate::subscriptions::state_laws;
use crate::subscriptions::timing_laws;
use crate::text;
use crate::time;
use crate::time_laws;
use crate::topics::topic_message::TopicMessage;

verus! {

/// Whether the attribute is one of the four that tell where a dead letter comes from.
pub open spec fn tells_the_source(k: Seq<char>) -> bool {
    ||| k == "CloudPubSubDeadLetterSourceDeliveryCount"@
    ||| k == "CloudPubSubDeadLetterSourceSubscription"@
    ||| k == "CloudPubSubDeadLetterSourceSubscriptionProject"@
    ||| k == "CloudPubSubDeadLetterSourceTopicPublishTime"@
}

/// Whether the message has the attribute.
pub open spec fn has_attribute(m: TopicMessage, k: Seq<char>) -> bool {
    m.attributes matches Some(a) && a@.contains_key(k)
}

/// The value of an attribute of the message.
pub open spec fn attribute(m: TopicMessage, k: Seq<char>) -> Seq<char> {
    m.attributes->0@[k]
}

/// No two of the four attributes have the same name.
proof fn lemma_four_names()
    ensures
        "CloudPubSubDeadLetterSourceDeliveryCount"@.len() == 40,
        "CloudPubSubDeadLetterSourceSubscription"@.len() == 39,
        "CloudPubSubDeadLetterSourceSubscriptionProject"@.len() == 46,
        "CloudPubSubDeadLetterSourceTopicPublishTime"@.len() == 43,
{
    reveal_strlit("CloudPubSubDeadLetterSourceDeliveryCount");
    reveal_strlit("CloudPubSubDeadLetterSourceSubscription");
    reveal_strlit("CloudPubSubDeadLetterSourceSubscriptionProject");
    reveal_strlit("CloudPubSubDeadLetterSourceTopicPublishTime");
}

/// A dead letter carries the bytes of its message and every attribute of it, with the same value,
/// but for the four that tell where it comes from; it has no other attribute but those four, and no
/// ordering key.
pub proof fn law_dead_letter_carries_its_message(
    letter: TopicMessage,
    info: SubscriptionInfo,
    c: Condemned,
    now: nat,
    k: Seq<char>,
)
    requires
        state::is_dead_letter(letter, info, c, now),
    ensures
        message_data::bytes_held(letter.data) == message_data::bytes_held(c.message.data),
        letter.ordering_key is None,
        tells_the_source(k) ==> has_attribute(letter, k),
        !tells_the_source(k) ==> has_attribute(letter, k) == has_attribute(*c.message, k),
        !tells_the_source(k) && has_attribute(letter, k) ==> attribute(letter, k) == attribute(
            *c.message,
            k,
        ),
{
    lemma_four_names();
}

/// A dead letter tells how often its message was delivered, from which subscription of which project
/// it comes, and when it was published: its number reads back as one less than the attempt that was
/// refused, and its time as the time of publication, to the millisecond.
pub proof fn law_dead_letter_tells_its_source(
    letter: TopicMessage,
    info: SubscriptionInfo,
    c: Condemned,
    now: nat,
)
    requires
        state::is_dead_letter(letter, info, c, now),
        c.attempt >= 1,
        0 <= c.message.published_at@ < time_laws::YEAR_10000,
    ensures
        ({
            let count = attribute(letter, "CloudPubSubDeadLetterSourceDeliveryCount"@);
            let published = attribute(letter, "CloudPubSubDeadLetterSourceTopicPublishTime"@);
            &&& text::all_digits(count)
            &&& text::digits_value(count) == c.attempt - 1
            &&& attribute(letter, "CloudPubSubDeadLetterSourceSubscription"@)
                == info.name@.subscription_id
            &&& attribute(letter, "CloudPubSubDeadLetterSourceSubscriptionProject"@)
                == info.name@.project_id
            &&& published.len() == 29
            &&& time_laws::millis_read(published) == c.message.published_at@ / 1_000_000
        }),
{
    lemma_four_names();
    text::lemma_decimal_value((c.attempt - 1) as nat);
    let publish_time = attribute(letter, "CloudPubSubDeadLetterSourceTopicPublishTime"@);
    time_laws::law_rfc3339_reads_back(
        publish_time,
        time::from_epoch_on(c.message.published_at@),
    );
}

/// A message that comes back becomes a dead letter exactly where it was delivered as often as the
/// policy allows; the letter then counts as many deliveries, and the subscription holds neither the
/// message nor a note of its attempts any more. Nothing else changes but the count of dead letters
/// and that its ordering key is free.
pub proof fn law_last_attempt_makes_a_dead_letter(st: SubscriptionState, d: Delivery, now: nat)
    requires
        1 <= timing_laws::times_delivered(st, d.message) < u16::MAX,
    ensures
        ({
            let n = timing_laws::times_delivered(st, d.message);
            let letters = state::condemned(st, seq![d], now);
            let after = state::all_requeued(st, seq![d], now);
            &&& timing_laws::delivers_again(st, n) ==> letters.len() == 0
            &&& !timing_laws::delivers_again(st, n) ==> {
                &&& letters.len() == 1
                &&& letters[0].message == d.message
                &&& letters[0].attempt == n + 1
                &&& after.backlog == st.backlog
                &&& after.queues == st.queues
                &&& after.retries == st.retries
                &&& after.outstanding == st.outstanding
                &&& after.attempts == st.attempts.remove(d.message.id.value)
                &&& if st.info.enable_message_ordering && d.message.ordering_key is Some {
                    after.in_flight == st.in_flight.remove(d.message.ordering_key->0@)
                } else {
                    after.in_flight == st.in_flight
                }
                &&& st.counters.dead_lettered < u64::MAX ==> after.counters.dead_lettered
                    == st.counters.dead_lettered + 1
            }
        }),
{
    reveal_with_fuel(state::condemned, 2);
    reveal_with_fuel(state::all_requeued, 2);
    let one = seq![d];
    assert(one.drop_last() =~= Seq::<Delivery>::empty());
    assert(one.last() == d);
    assert(state_laws::attempt_for(st, d.message) == timing_laws::times_delivered(st, d.message) + 1);
}

/// Every dead letter that a return makes is that of a message which came back.
pub proof fn law_dead_letters_come_from_returns(
    st: SubscriptionState,
    returned: Seq<Delivery>,
    now: nat,
    i: int,
)
    requires
        0 <= i < state::condemned(st, returned, now).len(),
    ensures
        state::condemned(st, returned, now).len() <= returned.len(),
        st.info.dead_letter_policy is Some,
        state::condemned(st, returned, now)[i].attempt
            > st.info.dead_letter_policy->0.max_delivery_attempts,
        exists|j: int|
            0 <= j < returned.len() && (#[trigger] returned[j]).message == state::condemned(
                st,
                returned,
                now,
            )[i].message,
    decreases returned.len(),
{
    let all = state::condemned(st, returned, now);
    if returned.len() > 0 {
        let before = returned.drop_last();
        let letters = state::condemned(st, before, now);
        if i < letters.len() {
            law_dead_letters_come_from_returns(st, before, now, i);
            assert(all[i] == letters[i]);
            let j = choose|j: int|
                0 <= j < before.len() && (#[trigger] before[j]).message == letters[i].message;
            assert(returned[j].message == all[i].message);
        } else {
            if letters.len() > 0 {
                law_dead_letters_come_from_returns(st, before, now, 0);
            }
            assert(returned[returned.len() - 1].message == all[i].message);
        }
    }
}

} // verus!
