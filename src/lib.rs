//! Incremental synchronisation of paginated timelines into per-identity
//! ordered partitions, and ordered relay of undelivered records downstream.
//!
//! Fetching and sending are left to the caller: a `PollSession` names each
//! page request and ingests each answer, and a `DrainSession` names each
//! record to send and takes back what became of it. Every decision in
//! between, and every change to the store and the cursors, is made here.
pub mod config;
pub mod laws;
pub mod layout;
pub mod lease;
pub mod poll;
pub mod push;
pub mod record;
pub mod slots;
pub mod state;
pub mod store;
pub mod telegram;
pub mod time;
pub mod timeline;
pub mod users;

pub use config::{
    included_poll_configs, included_push_configs, Archive, Args, Config, Export, PollConfig,
    PushConfig, Sync,
};
pub use poll::{ingest_page, page_query, resume_token, PollError, PollSession};
pub use lease::Leases;
pub use push::{DrainOutcome, DrainSession, SendResult};
pub use record::{parse_record_id, Tweet};
pub use state::{FetchCursor, StateTracker};
pub use store::{Direction, Partition, RecordStore, StoreError};
pub use telegram::{channel_for, Message};
pub use time::{millis_to_rfc3339, timestamp_from_str};
pub use timeline::{Page, PageResponse, PaginationToken, Timeline};
pub use users::{Data, User};
