//! Delivered messages, the ids they are acknowledged by and the deadlines they are held to.
use std::sync::Arc;
use vstd::prelude::*;

use crate::text;
use crate::time::Instant;
use crate::topics::topic_message::{share, TopicMessage};

verus! {

/// The id by which a delivered message is acknowledged.
#[derive(Debug, PartialEq, Eq, Structural, Hash, Copy, Clone)]
pub struct AckId {
    pub value: u64,
}

/// Why a text is no [`AckId`].
#[derive(Debug, PartialEq, Eq, Structural, Copy, Clone)]
pub enum AckIdParseError {
    /// The text is no number that an id can have.
    Malformed,
}

impl AckId {
    /// The id with this value.
    pub fn new(value: u64) -> (id: AckId)
        ensures
            id.value == value,
    {
        AckId { value }
    }

    /// Reads an id from its decimal text.
    pub fn parse(raw: &str) -> (r: Result<AckId, AckIdParseError>)
        ensures
            match r {
                Ok(id) => text::number_read(raw@) == Some(id.value as nat),
                Err(AckIdParseError::Malformed) => text::number_read(raw@) is None,
            },
    {
        match text::parse_number(raw) {
            Some(value) => Ok(AckId { value }),
            None => Err(AckIdParseError::Malformed),
        }
    }

    /// The id in decimal digits.
    pub fn to_string(&self) -> (s: String)
        ensures
            s@ == text::decimal(self.value as nat),
    {
        text::decimal_string(self.value)
    }
}

/// The time by which a delivered message is to be acknowledged.
#[derive(Debug, Copy, Clone)]
pub struct AckDeadline {
    pub time: Instant,
}

impl AckDeadline {
    /// The deadline at this time.
    pub fn new(time: &Instant) -> (d: AckDeadline)
        ensures
            d.time == *time,
    {
        AckDeadline { time: *time }
    }
}

/// A message that was delivered and not acknowledged yet.
#[derive(Debug)]
pub struct PulledMessage {
    pub message: Arc<TopicMessage>,
    pub ack_id: AckId,
    pub deadline: AckDeadline,
    pub delivery_attempt: u16,
}

/// A delivered message with its deadline as nanoseconds of the monotonic clock.
pub struct Delivery {
    pub message: Arc<TopicMessage>,
    pub ack_id: u64,
    pub deadline: nat,
    pub delivery_attempt: u16,
}

impl View for PulledMessage {
    type V = Delivery;

    open spec fn view(&self) -> Delivery {
        Delivery {
            message: self.message,
            ack_id: self.ack_id.value,
            deadline: self.deadline.time@,
            delivery_attempt: self.delivery_attempt,
        }
    }
}

impl PulledMessage {
    /// The delivery of a message.
    pub fn new(
        message: Arc<TopicMessage>,
        ack_id: AckId,
        deadline: AckDeadline,
        delivery_attempt: u16,
    ) -> (m: PulledMessage)
        ensures
            m == (PulledMessage { message, ack_id, deadline, delivery_attempt }),
    {
        PulledMessage { message, ack_id, deadline, delivery_attempt }
    }

    /// The message.
    pub fn message(&self) -> (m: &Arc<TopicMessage>)
        ensures
            *m == self.message,
    {
        &self.message
    }

    /// The id by which to acknowledge it.
    pub fn ack_id(&self) -> (id: AckId)
        ensures
            id == self.ack_id,
    {
        self.ack_id
    }

    /// The deadline.
    pub fn deadline(&self) -> (d: AckDeadline)
        ensures
            d == self.deadline,
    {
        self.deadline
    }

    /// How many times the message was delivered, this time included.
    pub fn delivery_attempt(&self) -> (n: u16)
        ensures
            n == self.delivery_attempt,
    {
        self.delivery_attempt
    }
}

impl Clone for PulledMessage {
    fn clone(&self) -> (m: PulledMessage)
        ensures
            m == *self,
    {
        PulledMessage {
            message: share(&self.message),
            ack_id: self.ack_id,
            deadline: self.deadline,
            delivery_attempt: self.delivery_attempt,
        }
    }
}

/// A new deadline for a delivered message, or its return without one.
#[derive(Debug, Copy, Clone)]
pub struct DeadlineModification {
    pub ack_id: AckId,
    /// The new deadline; none returns the message at once.
    pub new_deadline: Option<AckDeadline>,
}

/// A modification with its deadline as nanoseconds of the monotonic clock.
pub struct Modification {
    pub ack_id: u64,
    pub new_deadline: Option<nat>,
}

impl View for DeadlineModification {
    type V = Modification;

    open spec fn view(&self) -> Modification {
        Modification {
            ack_id: self.ack_id.value,
            new_deadline: match self.new_deadline {
                Some(d) => Some(d.time@),
                None => None,
            },
        }
    }
}

impl DeadlineModification {
    /// Moves the deadline.
    pub fn new(ack_id: AckId, deadline: AckDeadline) -> (m: DeadlineModification)
        ensures
            m == (DeadlineModification { ack_id, new_deadline: Some(deadline) }),
    {
        DeadlineModification { ack_id, new_deadline: Some(deadline) }
    }

    /// Returns the message.
    pub fn nack(ack_id: AckId) -> (m: DeadlineModification)
        ensures
            m == (DeadlineModification { ack_id, new_deadline: None }),
    {
        DeadlineModification { ack_id, new_deadline: None }
    }
}

/// Which of the ids of a request named a delivered message, in the order of the request.
#[derive(Debug)]
pub struct AckOutcome {
    pub valid: Vec<AckId>,
    pub invalid: Vec<AckId>,
}

impl Default for AckOutcome {
    fn default() -> (o: AckOutcome)
        ensures
            o.valid@.len() == 0,
            o.invalid@.len() == 0,
    {
        AckOutcome { valid: Vec::new(), invalid: Vec::new() }
    }
}

/// An ack id reads back from its text.
pub proof fn law_ack_id_reads_back(id: AckId)
    ensures
        text::number_read(text::decimal(id.value as nat)) == Some(id.value as nat),
{
    text::law_decimal_reads_back(id.value);
}

} // verus!
