use vstd::prelude::*;

verus! {

/// One chat message: when it was written, by whom, and the text.
pub struct ChatMessage {
    pub timestamp: i64,
    pub user: String,
    pub message: String,
}

impl ChatMessage {
    /// A new message stamped with the clock.
    pub fn create(user: String, message: String) -> (r: ChatMessage)
        ensures
            r.user@ == user@,
            r.message@ == message@,
    {
        ChatMessage { timestamp: crate::log::now_timestamp_micros(), user, message }
    }

    /// A message with a caller-chosen timestamp.
    pub fn with_timestamp(timestamp: i64, user: String, message: String) -> (r: ChatMessage)
        ensures
            r.timestamp == timestamp,
            r.user@ == user@,
            r.message@ == message@,
    {
        ChatMessage { timestamp, user, message }
    }

    pub fn get_timestamp(&self) -> (r: i64)
        ensures
            r == self.timestamp,
    {
        self.timestamp
    }

    pub fn get_user(&self) -> (r: String)
        ensures
            r@ == self.user@,
    {
        self.user.clone()
    }

    pub fn get_message(&self) -> (r: String)
        ensures
            r@ == self.message@,
    {
        self.message.clone()
    }
}

} // verus!
