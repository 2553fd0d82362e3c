# Deltio

An in-memory Pub/Sub emulator whose behaviour is stated in contracts and proved with Verus.

- `src/` is the library: names, time, filters, topics, subscriptions, the request handlers of the
  publisher and the subscriber, paging and metrics. It does no I/O, reads no clock and starts no
  thread: the time is an argument, and what is to be done next is a result.
- `tests/` runs the library on concrete values.
- `app/` is the program: it listens for gRPC and HTTP, converts messages, reads the clock, wakes
  those who wait, and holds the library behind a lock.

## Where to start reading

- `src/subscriptions/state.rs` models a subscription: what is posted, pulled, acknowledged, given
  back, expired, retried and dead-lettered. `subscription_actor.rs` is the code that does it.
- `src/subscriptions/delivery_laws.rs` and `state_laws.rs` state what holds of every subscription:
  no message is lost, and keys are delivered one message at a time. `run_laws.rs` and
  `publish_order_laws.rs` state what holds over any run of requests: counters are totals, and the
  messages of a key are delivered in the order in which they were published.
- `src/subscriptions/filter_text_laws.rs` states what filters mean that are put together from others.
- `src/api/service_laws.rs` states what every request keeps of the service as a whole, and
  `round_trip_laws.rs` that what is written is read back.
- `src/message_data.rs`, `src/text.rs`, `src/subscriptions/filter.rs` and
  `src/topics/topic_message.rs` hold the few calls out of the library whose contracts are believed
  rather than proved.

Push subscriptions are kept, listed and told of in the metrics. The program does not send their
messages out over HTTP; they can be pulled like those of any other subscription.
