//! The persisted post: id, username, body and creation time, with a
//! mathematical view used by every contract that speaks of stored data.

use vstd::prelude::*;

verus! {

/// A persisted post.
#[derive(Debug)]
pub struct Message {
    /// Unique, assigned by the store on insert.
    pub id: u64,
    /// Non-empty text supplied by the client.
    pub username: String,
    /// Non-empty text supplied by the client.
    pub body: String,
    /// Assigned by the store at insert time (server clock), seconds of
    /// epoch offset.
    pub created_at: i64,
}

/// The mathematical value of a [`Message`].
pub struct MessageView {
    pub id: u64,
    pub username: Seq<char>,
    pub body: Seq<char>,
    pub created_at: i64,
}

impl View for Message {
    type V = MessageView;

    open spec fn view(&self) -> MessageView {
        MessageView {
            id: self.id,
            username: self.username@,
            body: self.body@,
            created_at: self.created_at,
        }
    }
}

impl Clone for Message {
    fn clone(&self) -> (r: Self)
        ensures
            r@ == self@,
    {
        Message {
            id: self.id,
            username: self.username.clone(),
            body: self.body.clone(),
            created_at: self.created_at,
        }
    }
}

/// The views of a sequence of messages.
pub open spec fn views_of(ms: Seq<Message>) -> Seq<MessageView> {
    ms.map_values(|m: Message| m@)
}

} // verus!
