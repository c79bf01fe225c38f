//! A single conversation message: a role tag plus text content.

use vstd::prelude::*;

use crate::text::str_eq;

verus! {

/// One message of a conversation ledger. The role is one of `"user"`,
/// `"assistant"` or `"system"`; the content is arbitrary text.
pub struct ChatMessage {
    pub role: String,
    pub content: String,
}

/// The mathematical value of a message: its role and content as
/// character sequences.
#[verifier::ext_equal]
pub ghost struct MsgView {
    pub role: Seq<char>,
    pub content: Seq<char>,
}

/// The views of a message sequence.
pub open spec fn msg_views(s: Seq<ChatMessage>) -> Seq<MsgView> {
    s.map_values(|m: ChatMessage| m@)
}

impl View for ChatMessage {
    type V = MsgView;

    open spec fn view(&self) -> MsgView {
        MsgView { role: self.role@, content: self.content@ }
    }
}

impl Clone for ChatMessage {
    fn clone(&self) -> (r: Self)
        ensures
            r@ == self@,
    {
        ChatMessage { role: self.role.clone(), content: self.content.clone() }
    }
}

impl ChatMessage {
    /// A message with role `"user"`.
    pub fn user(content: String) -> (m: ChatMessage)
        ensures
            m.role@ == "user"@,
            m.content@ == content@,
    {
        ChatMessage { role: String::from_str("user"), content }
    }

    /// A message with role `"assistant"`.
    pub fn assistant(content: String) -> (m: ChatMessage)
        ensures
            m.role@ == "assistant"@,
            m.content@ == content@,
    {
        ChatMessage { role: String::from_str("assistant"), content }
    }

    /// A message with role `"system"`.
    pub fn system(content: String) -> (m: ChatMessage)
        ensures
            m.role@ == "system"@,
            m.content@ == content@,
    {
        ChatMessage { role: String::from_str("system"), content }
    }

    /// True iff this message carries the given role.
    pub fn has_role(&self, role: &str) -> (b: bool)
        ensures
            b == (self.role@ == role@),
    {
        str_eq(self.role.as_str(), role)
    }
}

} // verus!
