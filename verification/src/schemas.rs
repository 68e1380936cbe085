//! Record shapes carried by the upstream feed.

pub mod book_diff;
pub mod common;
pub mod fill;
pub mod l4_snapshot;
pub mod misc_events;
pub mod order_status;
pub mod system_action;
pub mod trades;
pub mod twap_status;
