//! Subscriptions: how messages are filtered, delivered, acknowledged and delivered again.
pub mod ack;
pub mod dead_letter_laws;
pub mod delivery_laws;
pub mod effect_laws;
pub mod figure_laws;
pub mod filter;
pub mod filter_laws;
pub mod filter_text_laws;
pub mod info;
pub mod key_order_laws;
pub mod key_queues;
pub mod outstanding;
pub mod policies;
pub mod publish_order_laws;
pub mod request;
pub mod retry_queue;
pub mod run_laws;
pub mod state;
pub mod state_laws;
pub mod stats;
pub mod subscription_actor;
pub mod subscription_manager;
pub mod subscription_name;
pub mod timing_laws;
pub mod wakeup_laws;
