//! What is published is what is received.
use std::sync::Arc;
use vstd::prelude::*;

use crate::api::proto::{PubsubMessage, ReceivedMessage};
use crate::api::publisher;
use crate::api::resources;
use crate::message_data;
use crate::subscriptions::ack::Delivery;
use crate::text;
use crate::time::{Instant, SystemTime};
use crate::topics::topic;
use crate::topics::topic::TopicState;
use crate::topics::topic_message::TopicMessage;

verus! {

/// A message is received as it was published: with the same bytes, attributes and ordering key, with
/// the id that its publisher was told of, and with the time of its publication. Its ack id reads back
/// as that of its delivery, and it tells which delivery it is.
pub proof fn law_message_is_received_as_published(
    request: Seq<PubsubMessage>,
    messages: Seq<TopicMessage>,
    published: Seq<Arc<TopicMessage>>,
    ids: Seq<String>,
    t: TopicState,
    wall: SystemTime,
    now: Instant,
    i: int,
    d: Delivery,
    r: ReceivedMessage,
)
    requires
        publisher::are_messages_of(messages, request),
        topic::are_published(published, messages, t, wall, now),
        publisher::are_ids_of(ids, published),
        0 <= i < request.len(),
        d.message == published[i],
        resources::is_received(r, d),
    ensures
        ids.len() == request.len(),
        r.message.data@ == request[i].data@,
        r.message.attributes@ == request[i].attributes@,
        r.message.ordering_key@ == request[i].ordering_key@,
        r.message.message_id@ == ids[i]@,
        r.message.publish_time matches Some(time) && time.seconds * 1_000_000_000 + time.nanos
            == wall@ && 0 <= time.nanos < 1_000_000_000,
        text::number_read(r.ack_id@) == Some(d.ack_id as nat),
        r.delivery_attempt == d.delivery_attempt,
{
    text::law_decimal_reads_back(d.ack_id);
    assert(publisher::is_message_of(messages[i], request[i]));
    assert(topic::is_published(
        *published[i],
        messages[i],
        t,
        t.next_message_id + i,
        wall,
        now,
    ));
    assert(ids[i]@ == text::decimal(published[i].id.value as nat));
    if request[i].ordering_key@.len() == 0 {
        assert(request[i].ordering_key@ =~= Seq::<char>::empty());
    }
}

/// Of the messages of one request, and of requests one after the other, each message gets an id that
/// is one more than that of the message before it.
pub proof fn law_ids_count_up(
    messages: Seq<TopicMessage>,
    published: Seq<Arc<TopicMessage>>,
    t: TopicState,
    wall: SystemTime,
    now: Instant,
    i: int,
)
    requires
        topic::are_published(published, messages, t, wall, now),
        t.next_message_id + messages.len() <= u32::MAX,
        0 <= i < messages.len(),
    ensures
        published[i].id.value == published[0].id.value + i,
        published[0].id.value == t.internal_id * 0x1_0000_0000 + t.next_message_id,
        topic::after_publish(t, messages).next_message_id == t.next_message_id + messages.len(),
{
    assert(topic::is_published(
        *published[i],
        messages[i],
        t,
        t.next_message_id + i,
        wall,
        now,
    ));
    assert(topic::is_published(
        *published[0],
        messages[0],
        t,
        t.next_message_id + 0,
        wall,
        now,
    ));
}

/// A topic counts each message that is published to it, and each byte of its data, as far as it can
/// count; nothing else of the topic changes but the number of its next message.
pub proof fn law_topic_counts_what_is_published(
    t: TopicState,
    messages: Seq<TopicMessage>,
    m: TopicMessage,
)
    requires
        t.published_count + messages.len() + 1 <= u64::MAX,
        t.published_bytes + topic::data_bytes(messages) + message_data::bytes_held(m.data).len()
            <= u64::MAX,
    ensures
        ({
            let before = topic::after_publish(t, messages);
            let after = topic::after_publish(t, messages.push(m));
            &&& topic::after_publish(t, Seq::empty()) == t
            &&& after.published_count == before.published_count + 1
            &&& after.published_bytes == before.published_bytes + message_data::bytes_held(
                m.data,
            ).len()
            &&& after.info == t.info
            &&& after.internal_id == t.internal_id
            &&& after.subscriptions == t.subscriptions
        }),
{
    assert(messages.push(m).drop_last() =~= messages);
    assert(messages.push(m).last() == m);
}

} // verus!
