//! The inbound update notification schema: the messages the transport
//! layer receives and hands to the handler logic. The transport decodes
//! the wire format into these plain values outside the library.

use vstd::prelude::*;

verus! {

/// The conversation an update belongs to; its id is the partition key.
#[derive(Debug, Clone)]
pub struct Chat {
    pub id: i64,
    pub chat_type: String,
    pub first_name: Option<String>,
    pub last_name: Option<String>,
    pub username: Option<String>,
}

/// A document attachment carried by a message.
#[derive(Debug, Clone)]
pub struct Document {
    pub file_id: String,
    pub file_name: Option<String>,
    pub mime_type: Option<String>,
    pub thumb: Option<PhotoSize>,
    pub file_size: Option<i64>,
}

/// One size variant of a photo attachment.
#[derive(Debug, Clone)]
pub struct PhotoSize {
    pub file_id: String,
    pub file_size: Option<i64>,
    pub width: i64,
    pub height: i64,
}

/// The sender of a message.
#[derive(Debug, Clone)]
pub struct User {
    pub id: i64,
    pub is_bot: bool,
    pub first_name: String,
    pub last_name: Option<String>,
    pub username: Option<String>,
    pub language_code: Option<String>,
}

/// One received message, possibly carrying an image as a document or as a
/// set of photo size variants.
#[derive(Debug, Clone)]
pub struct Message {
    pub message_id: i64,
    pub from: Option<User>,
    pub chat: Chat,
    pub date: i64,
    pub text: Option<String>,
    pub photo: Option<Vec<PhotoSize>>,
    pub document: Option<Document>,
}

/// A remote file handle, resolved from a file id.
#[derive(Debug, Clone)]
pub struct File {
    pub file_id: String,
    pub file_size: Option<i64>,
    pub file_path: Option<String>,
}

/// The response to a file resolution call.
#[derive(Debug, Clone)]
pub struct GetFileResponse {
    pub ok: bool,
    pub result: File,
}

/// One inbound update notification.
#[derive(Debug, Clone)]
pub struct Update {
    pub update_id: i64,
    pub message: Message,
}

/// The generic envelope every remote call answers with.
#[derive(Debug, Clone)]
pub struct ApiResult<T> {
    pub ok: bool,
    pub result: T,
}

} // verus!
