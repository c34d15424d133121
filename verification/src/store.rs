//! The shapes persisted conversations take, the text they render to, and
//! the small framing and search-box logic around them. The database and
//! socket work stays with the caller.
use vstd::prelude::*;
use vstd::string::{StrSliceExecFns, StringSliceAdditionalSpecFns};
use vstd::utf8::valid_utf8;

use crate::message::{Message as ChatMessage, MessageType};
use crate::text::{boundary, next_snap, prev_snap};

verus! {

/// Who wrote a stored message.
#[derive(PartialEq, Eq, Structural, Clone, Copy, Debug)]
pub enum Role {
    Assistant,
    User,
}

impl Role {
    /// Parses a stored role name, case-insensitively.
    pub fn try_from(role: &str) -> (r: Result<Role, ()>)
        ensures
            ({
                let low = crate::config::ascii_lower(role.spec_bytes());
                &&& (low == vstd::utf8::encode_utf8("assistant"@) ==> r == Ok::<Role, ()>(
                    Role::Assistant,
                ))
                &&& (low == vstd::utf8::encode_utf8("user"@) ==> r == Ok::<Role, ()>(Role::User))
                &&& (low != vstd::utf8::encode_utf8("assistant"@) && low
                    != vstd::utf8::encode_utf8("user"@) ==> r is Err)
            }),
    {
        let bytes = role.as_bytes_vec();
        let low = crate::config::ascii_lower_exec(&bytes);
        let assistant = "assistant".as_bytes_vec();
        let user = "user".as_bytes_vec();
        proof {
            reveal_strlit("assistant");
            reveal_strlit("user");
            vstd::utf8::is_ascii_chars_encode_utf8("assistant"@);
            vstd::utf8::is_ascii_chars_encode_utf8("user"@);
            assert(vstd::utf8::encode_utf8("assistant"@).len() == 9);
            assert(vstd::utf8::encode_utf8("user"@).len() == 4);
        }
        if crate::http::bytes_eq(&low, &assistant) {
            Ok(Role::Assistant)
        } else if crate::http::bytes_eq(&low, &user) {
            Ok(Role::User)
        } else {
            Err(())
        }
    }

    /// The stored spelling of the role.
    pub fn to_string(&self) -> (r: String)
        ensures
            self is Assistant ==> r@ == "Assistant"@,
            self is User ==> r@ == "User"@,
    {
        match self {
            Role::Assistant => String::from_str("Assistant"),
            Role::User => String::from_str("User"),
        }
    }
}

/// One stored message row.
#[derive(Clone, Debug)]
pub struct Message {
    pub message_id: i64,
    pub content: Vec<u8>,
    pub role: Role,
    pub created_at: Vec<u8>,
}

/// One stored conversation row.
#[derive(Clone, Debug)]
pub struct Conversation {
    pub conversation_id: i64,
    pub title: Vec<u8>,
    pub created_at: Vec<u8>,
}

/// One stored thread row, linking two messages in a conversation.
#[derive(Debug)]
pub struct Thread {
    pub thread_id: i64,
    pub previous_message_id: i64,
    pub next_message_id: i64,
    pub conversation_id: i64,
    pub created_at: Vec<u8>,
}

/// The rendering of one stored message in a history dump.
pub open spec fn spec_history_part(m: Message) -> Seq<u8> {
    vstd::utf8::encode_utf8("\n"@) + m.content@ + vstd::utf8::encode_utf8("\n\n========\n"@)
}

/// The renderings of stored messages, newest first.
pub open spec fn spec_history_parts(ms: Seq<Message>) -> Seq<u8>
    decreases ms.len(),
{
    if ms.len() == 0 {
        Seq::<u8>::empty()
    } else {
        spec_history_part(ms.last()) + spec_history_parts(ms.drop_last())
    }
}

/// The full history text of a loaded conversation: a banner, then each
/// message newest first between separators.
pub open spec fn spec_conversation_string(ms: Seq<Message>) -> Seq<u8> {
    vstd::utf8::encode_utf8("\n\n\n======== MESSAGE HISTORY ========\n"@) + spec_history_parts(ms)
}

/// Taking one message off the front of the list appends its rendering at
/// the end of the history text.
proof fn lemma_history_parts_cons(x: Message, rest: Seq<Message>)
    ensures
        spec_history_parts(seq![x] + rest) == spec_history_parts(rest) + spec_history_part(x),
    decreases rest.len(),
{
    let whole = seq![x] + rest;
    if rest.len() == 0 {
        assert(whole.last() == x);
        assert(whole.drop_last() =~= Seq::<Message>::empty());
        assert(spec_history_parts(Seq::<Message>::empty()) =~= Seq::<u8>::empty());
        assert(spec_history_parts(whole) =~= spec_history_part(x));
        assert(spec_history_parts(rest) + spec_history_part(x) =~= spec_history_part(x));
    } else {
        assert(whole.last() == rest.last());
        assert(whole.drop_last() =~= seq![x] + rest.drop_last());
        lemma_history_parts_cons(x, rest.drop_last());
        assert(spec_history_parts(whole) =~= spec_history_parts(rest) + spec_history_part(x));
    }
}

/// Renders a loaded conversation for the editor, newest message first.
pub fn get_conversation_string(messages: &Vec<Message>) -> (r: Vec<u8>)
    ensures
        r@ == spec_conversation_string(messages@),
{
    let mut r: Vec<u8> = Vec::new();
    crate::http::push_str_bytes(&mut r, "\n\n\n======== MESSAGE HISTORY ========\n");
    let mut i: usize = messages.len();
    while i > 0
        invariant
            i <= messages@.len(),
            r@ == vstd::utf8::encode_utf8("\n\n\n======== MESSAGE HISTORY ========\n"@)
                + spec_history_parts(messages@.skip(i as int)),
        decreases i,
    {
        proof {
            assert(messages@.skip(i - 1) =~= seq![messages@[i - 1]] + messages@.skip(i as int));
            lemma_history_parts_cons(messages@[i - 1], messages@.skip(i as int));
        }
        crate::http::push_str_bytes(&mut r, "\n");
        crate::http::push_vec_bytes(&mut r, &messages[i - 1].content);
        crate::http::push_str_bytes(&mut r, "\n\n========\n");
        proof {
            assert(r@ =~= vstd::utf8::encode_utf8("\n\n\n======== MESSAGE HISTORY ========\n"@)
                + spec_history_parts(messages@.skip(i - 1)));
        }
        i = i - 1;
    }
    proof {
        assert(messages@.skip(0int) =~= messages@);
        assert(messages@.skip(messages@.len() as int) =~= Seq::<Message>::empty());
        assert(r@ + Seq::<u8>::empty() =~= r@);
    }
    r
}

/// Builds the outgoing message list for a submission: the loaded history
/// in order (stored roles mapped to wire roles) with the new user message
/// at the end.
/// Whether the first `k` outgoing messages mirror the loaded rows: same
/// contents, stored roles mapped to their wire roles.
pub open spec fn outgoing_matches(r: Seq<ChatMessage>, loaded: Seq<Message>, k: int) -> bool {
    forall|j: int|
        0 <= j < k ==> ((#[trigger] r[j]).content@ == loaded[j].content@ && (loaded[j].role
            is User ==> r[j].message_type is User) && (loaded[j].role is Assistant
            ==> r[j].message_type is Assistant))
}

pub fn assemble_outgoing_messages(loaded: &Vec<Message>, user_message: Vec<u8>) -> (r: Vec<
    ChatMessage,
>)
    ensures
        r@.len() == loaded@.len() + 1,
        outgoing_matches(r@, loaded@, loaded@.len() as int),
        r@.last().message_type is User,
        r@.last().content@ == user_message@,
{
    let mut r: Vec<ChatMessage> = Vec::new();
    let mut i: usize = 0;
    while i < loaded.len()
        invariant
            i <= loaded@.len(),
            r@.len() == i,
            outgoing_matches(r@, loaded@, i as int),
        decreases loaded@.len() - i,
    {
        let m = &loaded[i];
        let t = match m.role {
            Role::User => MessageType::User,
            Role::Assistant => MessageType::Assistant,
        };
        let nm = ChatMessage::new(t, crate::text::copy_bytes(&m.content));
        let ghost before = r@;
        r.push(nm);
        proof {
            assert forall|j: int| 0 <= j < i + 1 implies ((#[trigger] r@[j]).content@
                == loaded@[j].content@ && (loaded@[j].role is User ==> r@[j].message_type is User)
                && (loaded@[j].role is Assistant ==> r@[j].message_type is Assistant)) by {
                if j < i {
                    assert(r@[j] == before[j]);
                    assert(outgoing_matches(before, loaded@, i as int));
                    assert((#[trigger] before[j]).content@ == loaded@[j].content@);
                } else {
                    assert(r@[j] == nm);
                    assert(nm.content@ == loaded@[i as int].content@);
                }
            }
        }
        i = i + 1;
    }
    let ghost body = r@;
    r.push(ChatMessage::new(MessageType::User, user_message));
    proof {
        assert forall|j: int| 0 <= j < loaded@.len() implies ((#[trigger] r@[j]).content@
            == loaded@[j].content@ && (loaded@[j].role is User ==> r@[j].message_type is User) && (
        loaded@[j].role is Assistant ==> r@[j].message_type is Assistant)) by {
            assert(r@[j] == body[j]);
            assert((#[trigger] body[j]).content@ == loaded@[j].content@);
        }
    }
    r
}

/// A file-search request for the companion indexing service.
#[derive(Debug)]
pub struct DeweyRequest {
    pub k: usize,
    pub query: Vec<u8>,
    pub filters: Vec<Vec<u8>>,
}

/// One file-search hit: a path and the matching byte span.
#[derive(Debug)]
pub struct DeweyResponseItem {
    pub filepath: Vec<u8>,
    pub subset: (u64, u64),
}

/// The file-search response.
#[derive(Debug)]
pub struct DeweyResponse {
    pub results: Vec<DeweyResponseItem>,
}

/// The big-endian four-byte rendering of `n`.
pub open spec fn be32(n: int) -> Seq<u8> {
    seq![
        ((n / 0x1000000) % 256) as u8,
        ((n / 0x10000) % 256) as u8,
        ((n / 0x100) % 256) as u8,
        (n % 256) as u8,
    ]
}

/// Frames a payload for the indexing service's socket: its length as four
/// big-endian bytes, then the payload itself.
pub fn frame_payload(request: &Vec<u8>) -> (r: Vec<u8>)
    requires
        request@.len() <= u32::MAX,
    ensures
        r@ == be32(request@.len() as int) + request@,
{
    let n: u32 = request.len() as u32;
    let mut r: Vec<u8> = Vec::new();
    r.push(((n / 0x1000000) % 256) as u8);
    r.push(((n / 0x10000) % 256) as u8);
    r.push(((n / 0x100) % 256) as u8);
    r.push((n % 256) as u8);
    crate::http::push_vec_bytes(&mut r, request);
    proof {
        assert(r@ =~= be32(request@.len() as int) + request@);
    }
    r
}

/// The value of four big-endian bytes.
pub open spec fn be32_value(b: Seq<u8>) -> int {
    b[0] * 0x1000000 + b[1] * 0x10000 + b[2] * 0x100 + b[3]
}

/// Reads a four-byte big-endian length prefix.
pub fn read_be32(b: &Vec<u8>) -> (r: Option<u32>)
    ensures
        r is Some <==> b@.len() >= 4,
        r is Some ==> r->Some_0 as int == be32_value(b@),
{
    if b.len() < 4 {
        return None;
    }
    let v: u32 = (b[0] as u32) * 0x1000000 + (b[1] as u32) * 0x10000 + (b[2] as u32) * 0x100 + (
    b[3] as u32);
    Some(v)
}

/// The search bar of the directory views: a byte buffer, a cursor, and the
/// width the viewport allows.
pub struct SearchBox {
    pub content: Vec<u8>,
    pub cursor: usize,
    pub max_width: usize,
}

impl SearchBox {
    /// The search bar's invariant: well-formed UTF-8 with the cursor at a
    /// character boundary within it.
    pub open spec fn wf(&self) -> bool {
        &&& valid_utf8(self.content@)
        &&& self.cursor <= self.content@.len()
        &&& boundary(self.content@, self.cursor as int)
    }

    pub fn new(max_width: usize) -> (r: SearchBox)
        ensures
            r.wf(),
            r.content@ == Seq::<u8>::empty(),
            r.cursor == 0,
            r.max_width == max_width,
    {
        SearchBox { content: Vec::new(), cursor: 0, max_width }
    }

    /// Types one character at the end of the search text, when the width
    /// allows; the cursor follows the text end.
    pub fn push_char(&mut self, c: char)
        requires
            old(self).wf(),
        ensures
            final(self).wf(),
            ({
                let fits = old(self).content@.len() < old(self).max_width && old(self).cursor
                    == old(self).content@.len();
                &&& (fits ==> final(self).content@ == old(self).content@
                    + vstd::utf8::encode_utf8(seq![c]) && final(self).cursor
                    == final(self).content@.len())
                &&& (!fits ==> *final(self) == *old(self))
            }),
            final(self).max_width == old(self).max_width,
    {
        if self.content.len() < self.max_width && self.cursor == self.content.len() {
            let enc = crate::text::encode_char(c);
            let ghost s = self.content@;
            let mut tail = enc;
            self.content.append(&mut tail);
            proof {
                vstd::utf8::valid_utf8_concat(s, vstd::utf8::encode_utf8(seq![c]));
                vstd::utf8::is_char_boundary_start_end_of_seq(self.content@);
                crate::text::lemma_boundary_is_char_boundary(
                    self.content@,
                    self.content@.len() as int,
                );
            }
            self.cursor = self.content.len();
        }
    }

    /// Deletes the character before the cursor, when one stands there.
    pub fn backspace(&mut self)
        requires
            old(self).wf(),
        ensures
            final(self).wf(),
            ({
                let s = old(self).content@;
                let cur = old(self).cursor as int;
                if cur > 0 {
                    let lo = prev_snap(s, cur - 1);
                    &&& final(self).content@ == s.subrange(0, lo) + s.subrange(cur, s.len() as int)
                    &&& final(self).cursor == lo
                } else {
                    *final(self) == *old(self)
                }
            }),
            final(self).max_width == old(self).max_width,
    {
        if self.cursor > 0 {
            let ghost s = self.content@;
            let n = self.content.len();
            let lo = {
                let mut o = self.cursor - 1;
                while o > 0 && !boundary_at(&self.content, o)
                    invariant
                        o <= s.len(),
                        s == self.content@,
                        o < old(self).cursor,
                        self.cursor == old(self).cursor,
                        prev_snap(s, old(self).cursor - 1) == prev_snap(s, o as int),
                    decreases o,
                {
                    o = o - 1;
                }
                o
            };
            let hi = self.cursor;
            let mut rest: Vec<u8> = Vec::new();
            let mut j: usize = 0;
            while j < lo
                invariant
                    j <= lo <= n,
                    n == self.content@.len(),
                    s == self.content@,
                    rest@ == s.take(j as int),
                decreases lo - j,
            {
                rest.push(self.content[j]);
                j = j + 1;
            }
            let mut k: usize = hi;
            while k < n
                invariant
                    hi <= k <= n,
                    lo <= hi,
                    n == self.content@.len(),
                    s == self.content@,
                    rest@ == s.take(lo as int) + s.subrange(hi as int, k as int),
                decreases n - k,
            {
                proof {
                    assert(rest@.push(s[k as int]) =~= s.take(lo as int) + s.subrange(
                        hi as int,
                        k + 1,
                    ));
                }
                rest.push(self.content[k]);
                k = k + 1;
            }
            proof {
                assert(rest@ =~= s.subrange(0, lo as int) + s.subrange(hi as int, s.len() as int));
                crate::text::lemma_boundary_is_char_boundary(s, hi as int);
                vstd::utf8::valid_utf8_split(s, hi as int);
                let front = s.subrange(0, hi as int);
                assert(boundary(front, lo as int)) by {
                    assert(lo < hi ==> front[lo as int] == s[lo as int]);
                }
                crate::text::lemma_boundary_is_char_boundary(front, lo as int);
                vstd::utf8::valid_utf8_split(front, lo as int);
                assert(front.subrange(0, lo as int) =~= s.subrange(0, lo as int));
                vstd::utf8::valid_utf8_concat(
                    s.subrange(0, lo as int),
                    s.subrange(hi as int, s.len() as int),
                );
                assert(boundary(rest@, lo as int)) by {
                    if lo < rest@.len() {
                        assert(rest@[lo as int] == s[hi as int]);
                    }
                }
            }
            self.content = rest;
            self.cursor = lo;
        }
    }

    /// Moves the cursor one character left.
    pub fn left(&mut self)
        requires
            old(self).wf(),
        ensures
            final(self).wf(),
            final(self).content == old(self).content,
            final(self).max_width == old(self).max_width,
            old(self).cursor > 0 ==> final(self).cursor as int == prev_snap(
                old(self).content@,
                old(self).cursor - 1,
            ),
            old(self).cursor == 0 ==> final(self).cursor == 0,
    {
        if self.cursor > 0 {
            let ghost s = self.content@;
            let mut o = self.cursor - 1;
            while o > 0 && !boundary_at(&self.content, o)
                invariant
                    o <= s.len(),
                    s == self.content@,
                    prev_snap(s, old(self).cursor - 1) == prev_snap(s, o as int),
                decreases o,
            {
                o = o - 1;
            }
            self.cursor = o;
        }
    }

    /// Moves the cursor one character right, stopping at the end.
    pub fn right(&mut self)
        requires
            old(self).wf(),
        ensures
            final(self).wf(),
            final(self).content == old(self).content,
            final(self).max_width == old(self).max_width,
            old(self).cursor < old(self).content@.len() ==> final(self).cursor as int == next_snap(
                old(self).content@,
                old(self).cursor + 1,
            ),
            old(self).cursor >= old(self).content@.len() ==> final(self).cursor == old(
                self,
            ).cursor,
    {
        if self.cursor < self.content.len() {
            let ghost s = self.content@;
            let n = self.content.len();
            let mut o = self.cursor + 1;
            while o < n && !boundary_at(&self.content, o)
                invariant
                    o <= n,
                    n == self.content@.len(),
                    s == self.content@,
                    next_snap(s, old(self).cursor + 1) == next_snap(s, o as int),
                decreases n - o,
            {
                o = o + 1;
            }
            self.cursor = o;
        }
    }
}

/// Whether `offset` is a boundary of `v`, as [`boundary`] defines it.
fn boundary_at(v: &Vec<u8>, offset: usize) -> (r: bool)
    ensures
        r == boundary(v@, offset as int),
{
    if offset == 0 || offset >= v.len() {
        true
    } else {
        let b = v[offset];
        proof {
            vstd::utf8::utf8_byte_ranges_bitwise(b);
        }
        (b & 0xC0) != 0x80
    }
}

/// The conversation titles that `load` lines of the picker text select.
pub open spec fn spec_picker_ops(lines: Seq<Seq<u8>>) -> Seq<Seq<u8>>
    decreases lines.len(),
{
    if lines.len() == 0 {
        Seq::<Seq<u8>>::empty()
    } else {
        let first = spec_picker_op(lines[0]);
        match first {
            Some(title) => seq![title] + spec_picker_ops(lines.drop_first()),
            None => spec_picker_ops(lines.drop_first()),
        }
    }
}

/// The title one picker line selects: a line of the form `load <title>`,
/// with the title running to the next whitespace.
pub open spec fn spec_picker_op(line: Seq<u8>) -> Option<Seq<u8>> {
    let t = crate::http::trim_ws(line);
    if t.len() == 0 || t[0] == 0x23 {
        None
    } else if starts_with_word(t, vstd::utf8::encode_utf8("load"@)) {
        let rest = crate::http::trim_ws(t.subrange(4, t.len() as int));
        let stop = first_ws(rest, 0);
        if rest.len() == 0 {
            None
        } else {
            Some(rest.subrange(0, stop))
        }
    } else {
        None
    }
}

/// Whether `s` starts with the word `w` followed by whitespace or the end.
pub open spec fn starts_with_word(s: Seq<u8>, w: Seq<u8>) -> bool {
    crate::sse::starts_with(s, w) && (s.len() == w.len() || crate::text::is_ws(
        s[w.len() as int],
    ))
}

/// The index of the first ASCII whitespace byte at or after `from`.
pub open spec fn first_ws(s: Seq<u8>, from: int) -> int
    decreases s.len() - from,
{
    if from < 0 || from >= s.len() {
        s.len() as int
    } else if crate::text::is_ws(s[from]) {
        from
    } else {
        first_ws(s, from + 1)
    }
}

/// Reads the `load` operations out of the picker text the user edited:
/// one selected title per `load <title>` line, comment lines skipped.
pub fn parse_picker_operations(lines: &Vec<Vec<u8>>) -> (r: Vec<Vec<u8>>)
    ensures
        r@.map_values(|t: Vec<u8>| t@) == spec_picker_ops(lines@.map_values(|l: Vec<u8>| l@)),
{
    let ghost model = lines@.map_values(|l: Vec<u8>| l@);
    let mut r: Vec<Vec<u8>> = Vec::new();
    let mut i: usize = 0;
    proof {
        assert(model.subrange(0, model.len() as int) =~= model);
        assert(r@.map_values(|t: Vec<u8>| t@) =~= Seq::<Seq<u8>>::empty());
        assert(r@.map_values(|t: Vec<u8>| t@) + spec_picker_ops(model) =~= spec_picker_ops(model));
    }
    while i < lines.len()
        invariant
            i <= lines@.len(),
            model == lines@.map_values(|l: Vec<u8>| l@),
            spec_picker_ops(model) == r@.map_values(|t: Vec<u8>| t@) + spec_picker_ops(
                model.subrange(i as int, model.len() as int),
            ),
        decreases lines@.len() - i,
    {
        let ghost seg = model.subrange(i as int, model.len() as int);
        proof {
            assert(seg[0] == model[i as int]);
            assert(model[i as int] == lines@[i as int]@);
            assert(seg.drop_first() =~= model.subrange(i + 1, model.len() as int));
        }
        match picker_op(&lines[i]) {
            Some(title) => {
                proof {
                    assert(r@.push(title).map_values(|t: Vec<u8>| t@) =~= r@.map_values(
                        |t: Vec<u8>| t@,
                    ).push(title@));
                    assert(r@.map_values(|t: Vec<u8>| t@) + (seq![title@] + spec_picker_ops(
                        seg.drop_first(),
                    )) =~= r@.map_values(|t: Vec<u8>| t@).push(title@) + spec_picker_ops(
                        seg.drop_first(),
                    ));
                }
                r.push(title);
            },
            None => {},
        }
        i = i + 1;
    }
    proof {
        assert(model.subrange(model.len() as int, model.len() as int) =~= Seq::<Seq<u8>>::empty());
        assert(r@.map_values(|t: Vec<u8>| t@) + Seq::<Seq<u8>>::empty() =~= r@.map_values(
            |t: Vec<u8>| t@,
        ));
    }
    r
}

/// Reads the selected title off one picker line, as [`spec_picker_op`]
/// says.
pub fn picker_op(line: &Vec<u8>) -> (r: Option<Vec<u8>>)
    ensures
        r is Some <==> spec_picker_op(line@) is Some,
        r is Some ==> r->Some_0@ == spec_picker_op(line@)->Some_0,
{
    let t = crate::http::trim_ws_exec(line);
    if t.len() == 0 || t[0] == 0x23 {
        return None;
    }
    let load_word = "load".as_bytes_vec();
    if !crate::sse::starts_with_bytes(&t, &load_word) {
        return None;
    }
    proof {
        reveal_strlit("load");
        vstd::utf8::is_ascii_chars_encode_utf8("load"@);
        assert(vstd::utf8::encode_utf8("load"@).len() == 4);
    }
    if t.len() > 4 && !crate::text::byte_is_ws(t[4]) {
        return None;
    }
    let mut tailrun: Vec<u8> = Vec::new();
    let mut i: usize = 4;
    while i < t.len()
        invariant
            4 <= i <= t@.len(),
            tailrun@ == t@.subrange(4, i as int),
        decreases t@.len() - i,
    {
        proof {
            assert(tailrun@.push(t@[i as int]) =~= t@.subrange(4, i + 1));
        }
        tailrun.push(t[i]);
        i = i + 1;
    }
    let rest = crate::http::trim_ws_exec(&tailrun);
    if rest.len() == 0 {
        return None;
    }
    let ghost restm = rest@;
    let mut stop: usize = 0;
    while stop < rest.len() && !crate::text::byte_is_ws(rest[stop])
        invariant
            stop <= rest@.len(),
            first_ws(restm, 0) == first_ws(restm, stop as int),
            restm == rest@,
        decreases rest@.len() - stop,
    {
        stop = stop + 1;
    }
    let mut title: Vec<u8> = Vec::new();
    let mut j: usize = 0;
    while j < stop
        invariant
            j <= stop <= rest@.len(),
            title@ == rest@.subrange(0, j as int),
        decreases stop - j,
    {
        proof {
            assert(title@.push(rest@[j as int]) =~= rest@.subrange(0, j + 1));
        }
        title.push(rest[j]);
        j = j + 1;
    }
    Some(title)
}


/// The picker accepts exactly one `load` operation: none selected or more
/// than one selected both come to nothing.
pub fn pick_single_operation(ops: Vec<Vec<u8>>) -> (r: Option<Vec<u8>>)
    ensures
        ops@.len() == 1 ==> (r matches Some(t) && t@ == ops@[0]@),
        ops@.len() != 1 ==> r is None,
{
    let mut ops = ops;
    if ops.len() == 1 {
        ops.pop()
    } else {
        None
    }
}

} // verus!
