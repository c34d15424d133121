//! Chat messages: who said something and what was said.
use vstd::prelude::*;

verus! {

/// The author of a chat message, as the provider APIs name it.
#[derive(PartialEq, Eq, Structural, Clone, Copy, Debug)]
pub enum MessageType {
    System,
    User,
    Assistant,
}

impl MessageType {
    /// The role name used on the wire for this message type.
    pub fn to_string(&self) -> (r: String)
        ensures
            self is System ==> r@ == "system"@,
            self is User ==> r@ == "user"@,
            self is Assistant ==> r@ == "assistant"@,
    {
        match self {
            MessageType::System => String::from_str("system"),
            MessageType::User => String::from_str("user"),
            MessageType::Assistant => String::from_str("assistant"),
        }
    }
}

/// One chat message. The content is kept as UTF-8 bytes, the same encoding
/// the text buffer and the wire use.
#[derive(Clone, Debug)]
pub struct Message {
    pub message_type: MessageType,
    pub content: Vec<u8>,
}

impl Message {
    pub fn new(message_type: MessageType, content: Vec<u8>) -> (r: Message)
        ensures
            r.message_type == message_type,
            r.content@ == content@,
    {
        Message { message_type, content }
    }
}

/// Whether two message lists carry the same roles and contents.
pub open spec fn same_messages(a: Seq<Message>, b: Seq<Message>) -> bool {
    &&& a.len() == b.len()
    &&& forall|i: int|
        0 <= i < a.len() ==> #[trigger] a[i].message_type == b[i].message_type && a[i].content@
            == b[i].content@
}

/// A field-for-field copy of a message list, fit to hand to a worker.
pub fn clone_messages(msgs: &Vec<Message>) -> (r: Vec<Message>)
    ensures
        same_messages(msgs@, r@),
{
    let mut r: Vec<Message> = Vec::new();
    let mut i: usize = 0;
    while i < msgs.len()
        invariant
            i <= msgs@.len(),
            r@.len() == i,
            forall|j: int|
                0 <= j < i ==> #[trigger] r@[j].message_type == msgs@[j].message_type
                    && r@[j].content@ == msgs@[j].content@,
        decreases msgs@.len() - i,
    {
        let m = &msgs[i];
        let mut content: Vec<u8> = Vec::new();
        let mut k: usize = 0;
        while k < m.content.len()
            invariant
                k <= m.content@.len(),
                content@ == m.content@.take(k as int),
            decreases m.content@.len() - k,
        {
            content.push(m.content[k]);
            k = k + 1;
        }
        proof {
            assert(content@ =~= m.content@);
        }
        r.push(Message { message_type: m.message_type, content });
        i = i + 1;
    }
    r
}

} // verus!
