//! Topics and the messages published to them.
pub mod stats;
pub mod topic;
pub mod topic_manager;
pub mod topic_message;
pub mod topic_name;
pub mod topic_order;
