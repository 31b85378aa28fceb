//! Plain data carried through the system.
//!
//! `DocInfo` is the document row of the durable store; the Telegram types
//! mirror the webhook payload that drives the bot. Serialization lives with
//! the host layer, which keeps mirror types and converts.

use vstd::prelude::*;

verus! {

/// One ingested document, as recorded in the durable documents table.
/// Created once per distinct URL; `chunk_count` chunks were embedded for it,
/// keyed `"{id}-0"` through `"{id}-{chunk_count - 1}"`.
pub struct DocInfo {
    pub id: String,
    pub url: String,
    pub created_at: String,
    pub bucket_path: String,
    pub content_type: String,
    pub size: usize,
    pub title: String,
    pub summary: String,
    pub chunk_count: usize,
}

/// A Telegram update delivered to the webhook.
pub struct Update {
    pub update_id: i64,
    pub message: Option<Message>,
}

/// A Telegram message.
pub struct Message {
    pub message_id: i64,
    pub chat: Chat,
    pub text: Option<String>,
    pub from: Option<User>,
}

/// A Telegram chat.
pub struct Chat {
    pub id: i64,
    pub first_name: Option<String>,
    pub title: Option<String>,
    pub username: Option<String>,
    pub type_field: Option<String>,
}

/// A Telegram user.
pub struct User {
    pub id: i64,
    pub first_name: Option<String>,
    pub last_name: Option<String>,
    pub username: Option<String>,
}

} // verus!
