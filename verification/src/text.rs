//! A paged, visually wrapped text buffer over UTF-8 bytes.
//!
//! The buffer owns raw content bytes plus a table of visual-line lengths, a
//! page offset, and a viewport size. Every offset handed to the content is
//! snapped to a UTF-8 character boundary, so no operation can cut a code
//! point in half or step outside the content, whatever state the length
//! table is in.
use vstd::prelude::*;
use vstd::string::{StrSliceExecFns, StringSliceAdditionalSpecFns};
use vstd::utf8::{
    is_char_boundary, is_continuation_byte, valid_utf8, valid_utf8_concat, valid_utf8_split,
    is_char_boundary_iff_not_is_continuation_byte, is_char_boundary_start_end_of_seq,
    valid_first_scalar, length_of_first_scalar, take_first_scalar, pop_first_scalar,
    partial_valid_utf8_extend_ascii_block, partial_valid_utf8, is_leading_byte_width_1,
};

verus! {

/// An ASCII whitespace byte: space, tab, newline, form feed, or carriage return.
pub open spec fn is_ws(b: u8) -> bool {
    b == 0x20 || b == 0x09 || b == 0x0a || b == 0x0c || b == 0x0d
}

/// A byte position at which `s` may be cut: the ends, or any byte that is
/// not a UTF-8 continuation byte. On valid UTF-8 content this coincides
/// with [`is_char_boundary`] (see [`lemma_boundary_is_char_boundary`]).
pub open spec fn boundary(s: Seq<u8>, i: int) -> bool {
    i <= 0 || i >= s.len() || !is_continuation_byte(s[i])
}

/// On valid UTF-8 content, `boundary` agrees with vstd's `is_char_boundary`.
pub proof fn lemma_boundary_is_char_boundary(s: Seq<u8>, i: int)
    requires
        valid_utf8(s),
        0 <= i <= s.len(),
    ensures
        boundary(s, i) == is_char_boundary(s, i),
{
    if i == 0 || i == s.len() {
        is_char_boundary_start_end_of_seq(s);
    } else {
        is_char_boundary_iff_not_is_continuation_byte(s, i);
    }
}

/// The greatest boundary of `s` at or before `i`.
pub open spec fn prev_snap(s: Seq<u8>, i: int) -> int
    recommends
        i <= s.len(),
    decreases i,
{
    if i <= 0 {
        0
    } else if boundary(s, i) {
        i
    } else {
        prev_snap(s, i - 1)
    }
}

/// The least boundary of `s` at or after `i` (at most the length of `s`).
pub open spec fn next_snap(s: Seq<u8>, i: int) -> int
    recommends
        0 <= i,
    decreases s.len() - i,
{
    if i >= s.len() {
        s.len() as int
    } else if boundary(s, i) {
        i
    } else {
        next_snap(s, i + 1)
    }
}

/// The distance from `i` to the next ASCII whitespace byte of `s`, or to
/// the end of `s` if none follows.
pub open spec fn ws_dist_fwd(s: Seq<u8>, i: int) -> int
    recommends
        0 <= i,
    decreases s.len() - i,
{
    if i >= s.len() {
        0
    } else if is_ws(s[i]) {
        0
    } else {
        1 + ws_dist_fwd(s, i + 1)
    }
}

/// The distance back from `i` to just after the nearest preceding ASCII
/// whitespace byte of `s`, or all the way to the start if none precedes.
pub open spec fn ws_dist_back(s: Seq<u8>, i: int) -> int
    recommends
        i <= s.len(),
    decreases i,
{
    if i <= 0 {
        0
    } else if is_ws(s[i - 1]) {
        0
    } else {
        1 + ws_dist_back(s, i - 1)
    }
}

/// Scanning backward from `j`, the nearest position that is both a
/// boundary and an ASCII whitespace byte, or the start of the content.
pub open spec fn word_begin(s: Seq<u8>, j: int) -> int
    recommends
        j < s.len(),
    decreases j,
{
    if j <= 0 {
        0
    } else if boundary(s, j) && is_ws(s[j]) {
        j
    } else {
        word_begin(s, j - 1)
    }
}

/// `s` with its trailing ASCII whitespace bytes removed.
pub open spec fn trim_end_ws(s: Seq<u8>) -> Seq<u8>
    decreases s.len(),
{
    if s.len() == 0 {
        s
    } else if is_ws(s.last()) {
        trim_end_ws(s.drop_last())
    } else {
        s
    }
}

/// The sum of the first `k` entries of a length table.
pub open spec fn sum_prefix(s: Seq<usize>, k: int) -> int
    decreases k,
{
    if k <= 0 {
        0
    } else {
        sum_prefix(s, k - 1) + s[k - 1]
    }
}

pub proof fn lemma_sum_prefix_nonneg(s: Seq<usize>, k: int)
    requires
        k <= s.len(),
    ensures
        sum_prefix(s, k) >= 0,
    decreases k,
{
    if k > 0 {
        lemma_sum_prefix_nonneg(s, k - 1);
    }
}

/// The byte width of the character whose encoding starts with `b`, read
/// from the leading byte's bit pattern.
pub open spec fn char_len(b: u8) -> int {
    if b < 0x80 {
        1
    } else if b < 0xe0 {
        2
    } else if b < 0xf0 {
        3
    } else {
        4
    }
}

/// The byte width of the character starting at `b`, as [`char_len`] gives it.
pub fn char_len_exec(b: u8) -> (r: usize)
    ensures
        r as int == char_len(b),
{
    if b < 0x80 {
        1
    } else if b < 0xe0 {
        2
    } else if b < 0xf0 {
        3
    } else {
        4
    }
}

/// Stepping over one character of valid UTF-8 content from a character
/// boundary stays within the content and lands on a character boundary.
pub proof fn lemma_scalar_step(s: Seq<u8>, i: int)
    requires
        valid_utf8(s),
        is_char_boundary(s, i),
        0 <= i < s.len(),
    ensures
        1 <= char_len(s[i]),
        i + char_len(s[i]) <= s.len(),
        is_char_boundary(s, i + char_len(s[i])),
        !is_continuation_byte(s[i]),
{
    valid_utf8_split(s, i);
    let rest = s.subrange(i, s.len() as int);
    assert(valid_utf8(rest));
    assert(rest.len() > 0);
    assert(valid_first_scalar(rest));
    let l = length_of_first_scalar(rest);
    assert(rest[0] == s[i]);
    assert(char_len(s[i]) == l);
    assert(i + l <= s.len());
    is_char_boundary_iff_not_is_continuation_byte(s, i);
    if i + l == s.len() {
        is_char_boundary_start_end_of_seq(s);
    } else {
        let rest2 = pop_first_scalar(rest);
        assert(valid_utf8(rest2));
        assert(rest2.len() > 0);
        assert(valid_first_scalar(rest2));
        assert(rest2[0] == rest[l] == s[i + l]);
        assert(!is_continuation_byte(s[i + l]));
        is_char_boundary_iff_not_is_continuation_byte(s, i + l);
    }
}

/// The visual-line lengths of `s` wrapped to width `w`, scanning from byte
/// `i` with `start` the first byte of the current line and `col` the bytes
/// accumulated on it: a line breaks after an explicit newline (whose byte
/// counts toward the line it ends) or before the character that would
/// reach column `w - 2`; a final (possibly empty) length is always
/// recorded.
pub open spec fn wrap_from(s: Seq<u8>, w: int, i: int, start: int, col: int) -> Seq<int>
    decreases s.len() - i,
{
    if i < 0 || i >= s.len() {
        seq![s.len() - start]
    } else if s[i] == 0x0a {
        seq![i + 1 - start] + wrap_from(s, w, i + 1, i + 1, 0)
    } else {
        let l = if i + char_len(s[i]) <= s.len() {
            char_len(s[i])
        } else {
            s.len() - i
        };
        if col >= w - 2 {
            seq![i - start] + wrap_from(s, w, i + l, i, l)
        } else {
            wrap_from(s, w, i + l, start, col + l)
        }
    }
}

/// The visual-line lengths of `s` wrapped to viewport width `w`.
pub open spec fn wrap_lengths(s: Seq<u8>, w: int) -> Seq<int> {
    wrap_from(s, w, 0, 0, 0)
}

/// Two length tables that agree on their first `k` entries have equal
/// `k`-prefix sums.
pub proof fn lemma_sum_prefix_agree(s1: Seq<usize>, s2: Seq<usize>, k: int)
    requires
        k <= s1.len(),
        k <= s2.len(),
        forall|j: int| 0 <= j < k ==> s1[j] == s2[j],
    ensures
        sum_prefix(s1, k) == sum_prefix(s2, k),
    decreases k,
{
    if k > 0 {
        lemma_sum_prefix_agree(s1, s2, k - 1);
    }
}

/// Appending one line length keeps the length table consistent: prefix
/// sums below the new entry are unchanged, the full sum grows by the new
/// entry, and every prefix sum still lands on a character boundary.
proof fn lemma_push_line(s: Seq<u8>, lengths: Seq<usize>, v: usize, start: int)
    requires
        sum_prefix(lengths, lengths.len() as int) == start,
        forall|k: int| 0 <= k <= lengths.len() ==> is_char_boundary(s, sum_prefix(lengths, k)),
        is_char_boundary(s, start + v),
    ensures
        sum_prefix(lengths.push(v), lengths.len() as int + 1) == start + v,
        forall|k: int|
            0 <= k <= lengths.len() + 1 ==> is_char_boundary(s, sum_prefix(lengths.push(v), k)),
        lengths.push(v).map_values(|x: usize| x as int) =~= lengths.map_values(|x: usize| x as int)
            + seq![v as int],
{
    let p = lengths.push(v);
    assert forall|k: int| 0 <= k <= lengths.len() implies sum_prefix(p, k) == sum_prefix(
        lengths,
        k,
    ) by {
        lemma_sum_prefix_agree(lengths, p, k);
    }
    assert(sum_prefix(p, lengths.len() as int + 1) == sum_prefix(p, lengths.len() as int) + v);
}

/// The bytes of `s` with every tab byte replaced by four spaces.
pub open spec fn expand_tabs(s: Seq<u8>) -> Seq<u8>
    decreases s.len(),
{
    if s.len() == 0 {
        Seq::<u8>::empty()
    } else {
        (if s[0] == 0x09 {
            seq![0x20u8, 0x20u8, 0x20u8, 0x20u8]
        } else {
            seq![s[0]]
        }) + expand_tabs(s.drop_first())
    }
}

/// Tab expansion distributes over concatenation.
pub proof fn lemma_expand_tabs_concat(a: Seq<u8>, b: Seq<u8>)
    ensures
        expand_tabs(a + b) == expand_tabs(a) + expand_tabs(b),
    decreases a.len(),
{
    if a.len() == 0 {
        assert(a + b =~= b);
        assert(expand_tabs(a) + expand_tabs(b) =~= expand_tabs(b));
    } else {
        lemma_expand_tabs_concat(a.drop_first(), b);
        assert((a + b).drop_first() =~= a.drop_first() + b);
        assert(expand_tabs(a + b) =~= expand_tabs(a) + expand_tabs(b));
    }
}

/// Tab expansion leaves a tab-free byte sequence unchanged.
pub proof fn lemma_expand_tabs_identity(s: Seq<u8>)
    requires
        forall|i: int| 0 <= i < s.len() ==> s[i] != 0x09,
    ensures
        expand_tabs(s) == s,
    decreases s.len(),
{
    if s.len() > 0 {
        lemma_expand_tabs_identity(s.drop_first());
        assert(expand_tabs(s) =~= s);
    }
}

/// Tab expansion preserves UTF-8 validity: a tab is a one-byte character,
/// and its four-space replacement is valid on its own.
pub proof fn lemma_expand_tabs_valid(s: Seq<u8>)
    requires
        valid_utf8(s),
    ensures
        valid_utf8(expand_tabs(s)),
    decreases s.len(),
{
    if s.len() == 0 {
    } else {
        let head = take_first_scalar(s);
        let tail = pop_first_scalar(s);
        let len1 = length_of_first_scalar(s);
        assert(1 <= len1 <= s.len());
        assert(s =~= head + tail);
        lemma_expand_tabs_concat(head, tail);
        assert(valid_utf8(tail)) by {
            assert(valid_first_scalar(s) && valid_utf8(pop_first_scalar(s)));
        }
        lemma_expand_tabs_valid(tail);
        let ehead = expand_tabs(head);
        assert(valid_utf8(ehead)) by {
            if s[0] == 0x09 {
                assert(len1 == 1);
                assert(head =~= seq![0x09u8]);
                let sp = seq![0x20u8, 0x20u8, 0x20u8, 0x20u8];
                assert(ehead =~= sp) by {
                    assert(head.drop_first() =~= Seq::<u8>::empty());
                    assert(ehead =~= sp + expand_tabs(Seq::<u8>::empty()));
                }
                assert(forall|i: int| 0 <= i < 4 ==> #[trigger] is_leading_byte_width_1(sp[i]));
                assert(sp.subrange(0, 0) =~= Seq::<u8>::empty());
                assert(partial_valid_utf8(sp, 0));
                partial_valid_utf8_extend_ascii_block(sp, 0, 4);
                assert(sp.subrange(0, 4) =~= sp);
            } else {
                assert(forall|i: int| 0 <= i < head.len() ==> #[trigger] head[i] != 0x09) by {
                    assert(head[0] == s[0] && s[0] != 0x09);
                    assert(forall|i: int|
                        1 <= i < head.len() ==> vstd::utf8::is_continuation_byte(
                            #[trigger] head[i],
                        ));
                }
                lemma_expand_tabs_identity(head);
                assert(valid_utf8(head)) by {
                    assert(valid_first_scalar(s));
                    assert(valid_first_scalar(head)) by {
                        assert(head.len() == len1);
                        assert(forall|i: int| 0 <= i < len1 ==> head[i] == s[i]);
                    }
                    assert(length_of_first_scalar(head) == len1);
                    assert(pop_first_scalar(head) =~= Seq::<u8>::empty());
                    assert(valid_utf8(Seq::<u8>::empty()));
                }
            }
        }
        valid_utf8_concat(ehead, expand_tabs(tail));
        assert(expand_tabs(s) =~= ehead + expand_tabs(tail));
    }
}

/// Replaces each tab byte with four spaces, leaving other bytes alone.
pub fn expand_tabs_exec(s: &Vec<u8>) -> (r: Vec<u8>)
    ensures
        r@ == expand_tabs(s@),
{
    let mut r: Vec<u8> = Vec::new();
    let mut i: usize = 0;
    while i < s.len()
        invariant
            i <= s@.len(),
            r@ == expand_tabs(s@.take(i as int)),
        decreases s@.len() - i,
    {
        proof {
            let b = s@[i as int];
            lemma_expand_tabs_concat(s@.take(i as int), seq![b]);
            assert(s@.take(i + 1) =~= s@.take(i as int) + seq![b]);
            assert(seq![b].drop_first() =~= Seq::<u8>::empty());
            assert(expand_tabs(Seq::<u8>::empty()) =~= Seq::<u8>::empty());
            assert(expand_tabs(seq![b]) =~= if b == 0x09 {
                seq![0x20u8, 0x20u8, 0x20u8, 0x20u8]
            } else {
                seq![b]
            });
        }
        if s[i] == 0x09 {
            r.push(0x20);
            r.push(0x20);
            r.push(0x20);
            r.push(0x20);
            proof {
                assert(r@ =~= expand_tabs(s@.take(i + 1)));
            }
        } else {
            r.push(s[i]);
            proof {
                assert(r@ =~= expand_tabs(s@.take(i + 1)));
            }
        }
        i = i + 1;
    }
    proof {
        assert(s@.take(s@.len() as int) =~= s@);
    }
    r
}

/// The UTF-8 encoding of a single character, as a byte vector.
pub fn encode_char(c: char) -> (r: Vec<u8>)
    ensures
        r@ == vstd::utf8::encode_utf8(seq![c]),
        valid_utf8(r@),
        1 <= r@.len() <= 4,
{
    proof {
        vstd::utf8::char_is_scalar(c);
        vstd::utf8::encode_utf8_valid_utf8(seq![c]);
        assert(seq![c].drop_first() =~= Seq::<char>::empty());
        assert(vstd::utf8::encode_utf8(Seq::<char>::empty()) =~= Seq::<u8>::empty());
        assert(vstd::utf8::encode_utf8(seq![c]) =~= vstd::utf8::encode_scalar(c as u32));
    }
    let u = c as u32;
    let mut r: Vec<u8> = Vec::new();
    if u < 0x80 {
        proof {
            assert((u & 0x7F) == u) by (bit_vector)
                requires
                    u < 0x80,
            ;
        }
        r.push((u & 0x7F) as u8);
    } else if u < 0x800 {
        r.push(0xC0 | ((u >> 6) & 0x1F) as u8);
        r.push(0x80 | (u & 0x3F) as u8);
    } else if u < 0x10000 {
        r.push(0xE0 | ((u >> 12) & 0x0F) as u8);
        r.push(0x80 | ((u >> 6) & 0x3F) as u8);
        r.push(0x80 | (u & 0x3F) as u8);
    } else {
        r.push(0xF0 | ((u >> 18) & 0x7) as u8);
        r.push(0x80 | ((u >> 12) & 0x3F) as u8);
        r.push(0x80 | ((u >> 6) & 0x3F) as u8);
        r.push(0x80 | (u & 0x3F) as u8);
    }
    proof {
        assert(r@ =~= vstd::utf8::encode_scalar(u));
    }
    r
}

/// The flat byte offset of `(line, offset-within-line)` against a length
/// table and a content length: the prefix of `lengths` before `line` is
/// summed, `offset` added, and the result capped at `clen`.
pub open spec fn flat_over(lengths: Seq<usize>, clen: int, line: int, offset: int) -> int {
    let k = if line <= lengths.len() {
        line
    } else {
        lengths.len() as int
    };
    let raw = offset + sum_prefix(lengths, k);
    if raw > clen {
        clen
    } else {
        raw
    }
}

/// The byte span `[begin, end)` that `delete_word` at `(line, column)`
/// removes from `w`: from the snapped-back flat offset of the position,
/// back to the nearest preceding whitespace byte that is itself a boundary
/// (or to the start); empty when the flat offset is zero.
pub open spec fn delete_word_span(w: WrappedText, line: int, column: int) -> (int, int) {
    let s = w.content@;
    let e0 = prev_snap(s, w.spec_flat(line, column));
    if e0 == 0 {
        (0int, 0int)
    } else {
        (word_begin(s, e0 - 1), e0)
    }
}

/// A fresh copy of a byte vector.
pub fn copy_bytes(v: &Vec<u8>) -> (r: Vec<u8>)
    ensures
        r@ == v@,
{
    let mut r: Vec<u8> = Vec::new();
    let mut i: usize = 0;
    while i < v.len()
        invariant
            i <= v@.len(),
            r@ == v@.take(i as int),
        decreases v@.len() - i,
    {
        r.push(v[i]);
        i = i + 1;
    }
    proof {
        assert(r@ =~= v@);
    }
    r
}

/// The number of times `b` occurs in `s`.
pub open spec fn count_byte(s: Seq<u8>, b: u8) -> int
    decreases s.len(),
{
    if s.len() == 0 {
        0
    } else {
        (if s[0] == b {
            1int
        } else {
            0int
        }) + count_byte(s.drop_first(), b)
    }
}

/// Counts the occurrences of `b` in `v`.
pub fn count_byte_exec(v: &Vec<u8>, b: u8) -> (r: usize)
    ensures
        r as int == count_byte(v@, b),
{
    let ghost whole = v@;
    let mut r: usize = 0;
    let mut i: usize = 0;
    proof {
        assert(v@.subrange(0, v@.len() as int) =~= v@);
    }
    while i < v.len()
        invariant
            i <= v@.len(),
            r <= i,
            r as int + count_byte(v@.subrange(i as int, v@.len() as int), b) == count_byte(v@, b),
        decreases v@.len() - i,
    {
        proof {
            let rest = v@.subrange(i as int, v@.len() as int);
            assert(rest[0] == v@[i as int]);
            assert(rest.drop_first() =~= v@.subrange(i + 1, v@.len() as int));
        }
        if v[i] == b {
            r = r + 1;
        }
        i = i + 1;
    }
    proof {
        assert(v@.subrange(v@.len() as int, v@.len() as int) =~= Seq::<u8>::empty());
    }
    r
}

/// Whether a byte is ASCII whitespace, as [`is_ws`] defines it.
pub fn byte_is_ws(b: u8) -> (r: bool)
    ensures
        r == is_ws(b),
{
    b == 0x20 || b == 0x09 || b == 0x0a || b == 0x0c || b == 0x0d
}

/// A text buffer holding wrapped content. `line_lengths` records, for each
/// visual line, how many bytes it spans, counting the newline byte that ends
/// it (if any); after a `rewrap` the entries sum to the content length.
#[derive(Debug)]
pub struct WrappedText {
    pub content: Vec<u8>,
    pub line_lengths: Vec<usize>,
    pub page: usize,
    pub width: usize,
    pub height: usize,
}

impl WrappedText {
    /// The buffer's one invariant: its content is well-formed UTF-8.
    pub open spec fn wf(&self) -> bool {
        valid_utf8(self.content@)
    }

    pub fn new() -> (t: WrappedText)
        ensures
            t.wf(),
            t.content@ == Seq::<u8>::empty(),
            t.line_lengths@ == seq![0usize],
            t.page == 0,
            t.width == 0,
            t.height == 0,
    {
        let mut lengths: Vec<usize> = Vec::new();
        lengths.push(0);
        proof {
            assert(lengths@ =~= seq![0usize]);
        }
        WrappedText { content: Vec::new(), line_lengths: lengths, page: 0, width: 0, height: 0 }
    }

    /// Whether `offset` may cut the content: true at the ends and at any
    /// byte that starts a character.
    pub fn is_byte_boundary(&self, offset: usize) -> (r: bool)
        ensures
            r == boundary(self.content@, offset as int),
    {
        if offset == 0 || offset >= self.content.len() {
            true
        } else {
            let b = self.content[offset];
            proof {
                vstd::utf8::utf8_byte_ranges_bitwise(b);
            }
            (b & 0xC0) != 0x80
        }
    }

    /// The nearest boundary at or before `offset` (with `offset` first
    /// clamped to the content length).
    pub fn find_prev_byte_boundary(&self, offset: usize) -> (r: usize)
        ensures
            r as int == prev_snap(
                self.content@,
                if offset <= self.content@.len() {
                    offset as int
                } else {
                    self.content@.len() as int
                },
            ),
            r <= offset,
            r <= self.content@.len(),
            boundary(self.content@, r as int),
    {
        let n = self.content.len();
        let ghost c0: int = if offset <= n { offset as int } else { n as int };
        let mut o = if offset > n { n } else { offset };
        while o > 0 && !self.is_byte_boundary(o)
            invariant
                o <= n,
                n == self.content@.len(),
                o <= offset,
                prev_snap(self.content@, c0) == prev_snap(self.content@, o as int),
            decreases o,
        {
            o = o - 1;
        }
        o
    }

    /// The nearest boundary at or after `offset` (with `offset` first
    /// clamped to the content length).
    pub fn find_next_byte_boundary(&self, offset: usize) -> (r: usize)
        ensures
            r as int == next_snap(
                self.content@,
                if offset <= self.content@.len() {
                    offset as int
                } else {
                    self.content@.len() as int
                },
            ),
            r <= self.content@.len(),
            offset <= r || r == self.content@.len(),
            boundary(self.content@, r as int),
    {
        let n = self.content.len();
        let ghost c0: int = if offset <= n { offset as int } else { n as int };
        let mut o = if offset > n { n } else { offset };
        while o < n && !self.is_byte_boundary(o)
            invariant
                o <= n,
                n == self.content@.len(),
                offset <= o || o == n,
                next_snap(self.content@, c0) == next_snap(self.content@, o as int),
            decreases n - o,
        {
            o = o + 1;
        }
        o
    }

    /// Deletes the word before the position `(line, column)` names: the
    /// position is flattened and snapped backward, and the deletion runs
    /// from there back to the nearest preceding whitespace byte that is
    /// itself a boundary (or to the start). The removed bytes are returned
    /// so the caller can inspect them (for example, for a deleted
    /// newline).
    pub fn delete_word(&mut self, line: usize, column: usize) -> (r: Vec<u8>)
        requires
            old(self).wf(),
        ensures
            final(self).wf(),
            ({
                let s = old(self).content@;
                let (begin, end) = delete_word_span(*old(self), line as int, column as int);
                final(self).content@ == s.subrange(0, begin) + s.subrange(end, s.len() as int)
                    && r@ == s.subrange(begin, end)
            }),
            final(self).line_lengths == old(self).line_lengths,
            final(self).page == old(self).page,
            final(self).width == old(self).width,
            final(self).height == old(self).height,
    {
        let ghost s = self.content@;
        let n = self.content.len();
        let e0 = self.get_flat(line, column, true);
        if e0 == 0 {
            proof {
                assert(s.subrange(0, 0) + s.subrange(0, s.len() as int) =~= s);
                assert(s.subrange(0, 0) =~= Seq::<u8>::empty());
            }
            return Vec::new();
        }
        let end = e0;
        let ghost e = end as int;
        let mut begin = end - 1;
        while begin > 0 && !(self.is_byte_boundary(begin) && byte_is_ws(self.content[begin]))
            invariant
                begin < end <= n,
                n == self.content@.len(),
                s == self.content@,
                word_begin(s, e - 1) == word_begin(s, begin as int),
            decreases begin,
        {
            begin = begin - 1;
        }
        proof {
            assert(word_begin(s, e - 1) == begin as int);
            assert(boundary(s, begin as int));
        }
        let mut r: Vec<u8> = Vec::new();
        let mut i: usize = begin;
        while i < end
            invariant
                begin <= i <= end <= n,
                n == self.content@.len(),
                s == self.content@,
                r@ == s.subrange(begin as int, i as int),
            decreases end - i,
        {
            proof {
                assert(r@.push(s[i as int]) =~= s.subrange(begin as int, i + 1));
            }
            r.push(self.content[i]);
            i = i + 1;
        }
        let mut rest: Vec<u8> = Vec::new();
        let mut j: usize = 0;
        while j < begin
            invariant
                j <= begin <= n,
                n == self.content@.len(),
                s == self.content@,
                rest@ == s.take(j as int),
            decreases begin - j,
        {
            rest.push(self.content[j]);
            j = j + 1;
        }
        let mut k: usize = end;
        while k < n
            invariant
                end <= k <= n,
                n == self.content@.len(),
                s == self.content@,
                e == end as int,
                rest@ == s.take(begin as int) + s.subrange(e, k as int),
            decreases n - k,
        {
            proof {
                assert(rest@.push(s[k as int]) =~= s.take(begin as int) + s.subrange(e, k + 1));
            }
            rest.push(self.content[k]);
            k = k + 1;
        }
        proof {
            assert(rest@ =~= s.subrange(0, begin as int) + s.subrange(e, s.len() as int));
            lemma_boundary_is_char_boundary(s, e);
            valid_utf8_split(s, e);
            let front = s.subrange(0, e);
            assert(boundary(front, begin as int)) by {
                assert(begin < e ==> front[begin as int] == s[begin as int]);
            }
            lemma_boundary_is_char_boundary(front, begin as int);
            valid_utf8_split(front, begin as int);
            assert(front.subrange(0, begin as int) =~= s.subrange(0, begin as int));
            valid_utf8_concat(s.subrange(0, begin as int), s.subrange(e, s.len() as int));
        }
        self.content = rest;
        r
    }

    /// The bytes shown for the current page: from the start of the
    /// `page`-th visual line (snapped backward to a character boundary)
    /// through the end of the content, with trailing ASCII whitespace
    /// trimmed.
    pub fn display(&self) -> (r: Vec<u8>)
        ensures
            r@ == trim_end_ws(
                self.content@.subrange(
                    prev_snap(self.content@, self.spec_flat(self.page as int, 0)),
                    self.content@.len() as int,
                ),
            ),
    {
        let ghost s = self.content@;
        let begin = self.get_flat(self.page, 0, true);
        let n = self.content.len();
        let mut end = n;
        while end > begin && byte_is_ws(self.content[end - 1])
            invariant
                begin <= end <= n,
                n == self.content@.len(),
                s == self.content@,
                trim_end_ws(s.subrange(begin as int, n as int)) == trim_end_ws(
                    s.subrange(begin as int, end as int),
                ),
            decreases end,
        {
            proof {
                let cur = s.subrange(begin as int, end as int);
                assert(cur.drop_last() =~= s.subrange(begin as int, end - 1));
            }
            end = end - 1;
        }
        proof {
            let cur = s.subrange(begin as int, end as int);
            assert(trim_end_ws(cur) == cur);
        }
        let mut r: Vec<u8> = Vec::new();
        let mut i: usize = begin;
        while i < end
            invariant
                begin <= i <= end <= n,
                n == self.content@.len(),
                s == self.content@,
                r@ == s.subrange(begin as int, i as int),
            decreases end - i,
        {
            proof {
                assert(r@.push(s[i as int]) =~= s.subrange(begin as int, i + 1));
            }
            r.push(self.content[i]);
            i = i + 1;
        }
        r
    }

    /// The raw content length in bytes.
    pub fn len(&self) -> (r: usize)
        ensures
            r == self.content@.len(),
    {
        self.content.len()
    }

    /// The flat byte offset of `(line, offset-within-line)`, capped at the
    /// content length, before snapping to a boundary.
    pub open spec fn spec_flat(&self, line: int, offset: int) -> int {
        flat_over(self.line_lengths@, self.content@.len() as int, line, offset)
    }

    /// Flattens a (visual line, column) pair to a byte offset into the
    /// content by summing the line lengths before `line` and adding
    /// `offset`, capping at the content length, then snapping to the nearest
    /// character boundary (backward when `previous_byte_boundary` is set,
    /// else forward).
    pub fn get_flat(&self, line: usize, offset: usize, previous_byte_boundary: bool) -> (r: usize)
        ensures
            r <= self.content@.len(),
            boundary(self.content@, r as int),
            previous_byte_boundary ==> r as int == prev_snap(
                self.content@,
                self.spec_flat(line as int, offset as int),
            ),
            !previous_byte_boundary ==> r as int == next_snap(
                self.content@,
                self.spec_flat(line as int, offset as int),
            ),
    {
        let n = self.content.len();
        let mut off: usize = if offset > n { n } else { offset };
        let mut l: usize = 0;
        let end = if line > self.line_lengths.len() { self.line_lengths.len() } else { line };
        proof {
            lemma_sum_prefix_nonneg(self.line_lengths@, end as int);
        }
        while l < end
            invariant
                l <= end,
                end <= self.line_lengths@.len(),
                n == self.content@.len(),
                off <= n,
                off as int == if offset + sum_prefix(self.line_lengths@, l as int) > n {
                    n as int
                } else {
                    offset + sum_prefix(self.line_lengths@, l as int)
                },
            decreases end - l,
        {
            let add = self.line_lengths[l];
            if n - off < add {
                off = n;
            } else {
                off = off + add;
            }
            l = l + 1;
        }
        if previous_byte_boundary {
            self.find_prev_byte_boundary(off)
        } else {
            self.find_next_byte_boundary(off)
        }
    }

    /// Inserts `substring` at the position `(line, column)` names: the pair
    /// is flattened to a byte offset, snapped forward to a character
    /// boundary (an offset past the end appends), and the text — tabs
    /// expanded to four spaces — is spliced in there. The length table is
    /// left for the next `rewrap` to rebuild.
    pub fn insert(&mut self, substring: &str, line: usize, column: usize)
        requires
            old(self).wf(),
        ensures
            final(self).wf(),
            ({
                let s = old(self).content@;
                let o = next_snap(s, old(self).spec_flat(line as int, column as int));
                final(self).content@ == s.subrange(0, o) + expand_tabs(substring.spec_bytes())
                    + s.subrange(o, s.len() as int)
            }),
            final(self).line_lengths == old(self).line_lengths,
            final(self).page == old(self).page,
            final(self).width == old(self).width,
            final(self).height == old(self).height,
    {
        let text = substring.as_bytes_vec();
        proof {
            vstd::utf8::encode_utf8_valid_utf8(substring@);
        }
        self.insert_bytes(&text, line, column);
    }

    /// Inserts raw UTF-8 `text` at the position `(line, column)` names,
    /// exactly as [`WrappedText::insert`] does for a string slice.
    pub fn insert_bytes(&mut self, text: &Vec<u8>, line: usize, column: usize)
        requires
            old(self).wf(),
            valid_utf8(text@),
        ensures
            final(self).wf(),
            ({
                let s = old(self).content@;
                let o = next_snap(s, old(self).spec_flat(line as int, column as int));
                final(self).content@ == s.subrange(0, o) + expand_tabs(text@) + s.subrange(
                    o,
                    s.len() as int,
                )
            }),
            final(self).line_lengths == old(self).line_lengths,
            final(self).page == old(self).page,
            final(self).width == old(self).width,
            final(self).height == old(self).height,
    {
        let sanitized = expand_tabs_exec(text);
        let offset = self.get_flat(line, column, false);
        let n = self.content.len();
        let ghost s = self.content@;
        let ghost o = offset as int;
        let mut result: Vec<u8> = Vec::new();
        let mut i: usize = 0;
        while i < offset
            invariant
                i <= offset <= n,
                n == self.content@.len(),
                result@ == self.content@.take(i as int),
            decreases offset - i,
        {
            result.push(self.content[i]);
            i = i + 1;
        }
        let mut j: usize = 0;
        while j < sanitized.len()
            invariant
                j <= sanitized@.len(),
                offset <= n == self.content@.len(),
                result@ == self.content@.take(offset as int) + sanitized@.take(j as int),
            decreases sanitized@.len() - j,
        {
            proof {
                assert(result@.push(sanitized@[j as int]) =~= self.content@.take(offset as int)
                    + sanitized@.take(j + 1));
            }
            result.push(sanitized[j]);
            j = j + 1;
        }
        let mut k: usize = offset;
        while k < n
            invariant
                offset <= k <= n,
                n == self.content@.len(),
                result@ == self.content@.take(offset as int) + sanitized@
                    + self.content@.subrange(offset as int, k as int),
            decreases n - k,
        {
            proof {
                assert(result@.push(self.content@[k as int]) =~= self.content@.take(offset as int)
                    + sanitized@ + self.content@.subrange(offset as int, k + 1));
            }
            result.push(self.content[k]);
            k = k + 1;
        }
        proof {
            assert(result@ =~= s.subrange(0, o) + expand_tabs(text@) + s.subrange(
                o,
                s.len() as int,
            ));
            lemma_boundary_is_char_boundary(s, o);
            valid_utf8_split(s, o);
            lemma_expand_tabs_valid(text@);
            valid_utf8_concat(s.subrange(0, o), expand_tabs(text@));
            valid_utf8_concat(
                s.subrange(0, o) + expand_tabs(text@),
                s.subrange(o, s.len() as int),
            );
        }
        self.content = result;
    }

    /// Appends raw UTF-8 `text`, unaltered, to the end of the content.
    pub fn append_bytes(&mut self, text: &Vec<u8>)
        requires
            old(self).wf(),
            valid_utf8(text@),
        ensures
            final(self).wf(),
            final(self).content@ == old(self).content@ + text@,
            final(self).line_lengths == old(self).line_lengths,
            final(self).page == old(self).page,
            final(self).width == old(self).width,
            final(self).height == old(self).height,
    {
        let ghost s = self.content@;
        let mut j: usize = 0;
        let mut buf: Vec<u8> = Vec::new();
        while j < text.len()
            invariant
                j <= text@.len(),
                buf@ == text@.take(j as int),
            decreases text@.len() - j,
        {
            buf.push(text[j]);
            j = j + 1;
        }
        proof {
            assert(buf@ =~= text@);
        }
        self.content.append(&mut buf);
        proof {
            valid_utf8_concat(s, text@);
        }
    }

    /// Records the viewport size the buffer is shown in.
    pub fn set_window_size(&mut self, width: usize, height: usize)
        ensures
            final(self).width == width,
            final(self).height == height,
            final(self).content == old(self).content,
            final(self).line_lengths == old(self).line_lengths,
            final(self).page == old(self).page,
    {
        self.width = width;
        self.height = height;
    }

    /// The screen row plus the page offset, as a line index for
    /// flattening; an overflowing sum saturates, which flattens alike
    /// because both run past the length table.
    pub fn flat_line_index(&self, row: usize, page: usize) -> (r: usize)
        ensures
            forall|clen: int, off: int|
                flat_over(self.line_lengths@, clen, r as int, off) == #[trigger] flat_over(
                    self.line_lengths@,
                    clen,
                    row + page,
                    off,
                ),
    {
        let table_len = self.line_lengths.len();
        if row <= usize::MAX - page {
            row + page
        } else {
            proof {
                assert(table_len as int == self.line_lengths@.len());
                assert forall|clen: int, off: int|
                    flat_over(self.line_lengths@, clen, usize::MAX as int, off) == #[trigger]
                    flat_over(self.line_lengths@, clen, row + page, off) by {
                    assert(self.line_lengths@.len() <= usize::MAX);
                    assert(row + page > usize::MAX);
                }
            }
            usize::MAX
        }
    }

    /// Moves the page up by one viewport height, stopping at the top.
    pub fn page_up(&mut self)
        ensures
            final(self).page == if old(self).page >= old(self).height {
                (old(self).page - old(self).height) as int
            } else {
                0
            },
            final(self).content == old(self).content,
            final(self).line_lengths == old(self).line_lengths,
            final(self).width == old(self).width,
            final(self).height == old(self).height,
    {
        if self.page >= self.height {
            self.page = self.page - self.height;
        } else {
            self.page = 0;
        }
    }

    /// The largest useful page index: the first visual line of the last
    /// full viewport window (viewport borders take two rows).
    pub open spec fn spec_max_page(&self) -> int {
        let rows = if self.height >= 2 { self.height - 2 } else { 0 };
        if self.line_lengths@.len() > rows {
            self.line_lengths@.len() - rows
        } else {
            0
        }
    }

    /// Moves the page down by one viewport height, stopping at the final
    /// window.
    pub fn page_down(&mut self)
        ensures
            final(self).page == if old(self).page + old(self).height
                <= old(self).spec_max_page() {
                old(self).page + old(self).height
            } else {
                old(self).spec_max_page()
            },
            final(self).content == old(self).content,
            final(self).line_lengths == old(self).line_lengths,
            final(self).width == old(self).width,
            final(self).height == old(self).height,
    {
        let rows = if self.height >= 2 { self.height - 2 } else { 0 };
        let max_page = if self.line_lengths.len() > rows {
            self.line_lengths.len() - rows
        } else {
            0
        };
        if self.page <= max_page && max_page - self.page >= self.height {
            self.page = self.page + self.height;
        } else {
            self.page = max_page;
        }
    }

    /// The distance from the position just after `(line, column)` to the
    /// next ASCII whitespace byte, or to the end of the content if none
    /// follows.
    pub fn next_whitespace_distance(&self, line: usize, column: usize) -> (r: usize)
        requires
            column < usize::MAX,
        ensures
            r as int == ws_dist_fwd(
                self.content@,
                next_snap(self.content@, self.spec_flat(line as int, column + 1)),
            ),
    {
        let offset = self.get_flat(line, column + 1, false);
        let ghost start = offset as int;
        let n = self.content.len();
        let mut d: usize = 0;
        while offset + d < n && !byte_is_ws(self.content[offset + d])
            invariant
                offset + d <= n,
                n == self.content@.len(),
                ws_dist_fwd(self.content@, start) == d + ws_dist_fwd(
                    self.content@,
                    start + d,
                ),
                start + d == offset + d,
            decreases n - offset - d,
        {
            d = d + 1;
        }
        d
    }

    /// The distance back from the position just after `(line, column)` to
    /// the nearest preceding ASCII whitespace byte; if none precedes it,
    /// the full distance back to the start of the content.
    pub fn prev_whitespace_distance(&self, line: usize, column: usize) -> (r: usize)
        requires
            column < usize::MAX,
        ensures
            r as int == ws_dist_back(
                self.content@,
                next_snap(self.content@, self.spec_flat(line as int, column + 1)),
            ),
    {
        let offset = self.get_flat(line, column + 1, false);
        let ghost start = offset as int;
        let mut d: usize = 0;
        while d < offset && !byte_is_ws(self.content[offset - d - 1])
            invariant
                d <= offset,
                offset <= self.content@.len(),
                ws_dist_back(self.content@, start) == d + ws_dist_back(
                    self.content@,
                    start - d,
                ),
                start == offset as int,
            decreases offset - d,
        {
            d = d + 1;
        }
        d
    }

    /// Rebuilds the visual-line length table for the given viewport width.
    /// The content itself is untouched. A line breaks after an explicit
    /// newline or before the character that would reach column
    /// `viewport_width - 2`; a trailing (possibly empty) length is always
    /// recorded so the cursor has a resting position after a final break.
    /// Afterwards the table is consistent with the content: the entries sum
    /// to the content length and every line boundary is a character
    /// boundary.
    pub fn rewrap(&mut self, viewport_width: usize)
        requires
            old(self).wf(),
        ensures
            final(self).wf(),
            final(self).content == old(self).content,
            final(self).page == old(self).page,
            final(self).width == old(self).width,
            final(self).height == old(self).height,
            final(self).line_lengths@.map_values(|v: usize| v as int) == wrap_lengths(
                old(self).content@,
                viewport_width as int,
            ),
            final(self).line_lengths@.len() >= 1,
            sum_prefix(final(self).line_lengths@, final(self).line_lengths@.len() as int)
                == old(self).content@.len(),
            forall|k: int|
                0 <= k <= final(self).line_lengths@.len() ==> is_char_boundary(
                    old(self).content@,
                    sum_prefix(final(self).line_lengths@, k),
                ),
    {
        let ghost s = self.content@;
        let ghost w = viewport_width as int;
        let w2 = if viewport_width >= 2 { viewport_width - 2 } else { 0 };
        let n = self.content.len();
        let mut lengths: Vec<usize> = Vec::new();
        let mut i: usize = 0;
        let mut start: usize = 0;
        let mut col: usize = 0;
        proof {
            is_char_boundary_start_end_of_seq(s);
        }
        while i < n
            invariant
                start <= i <= n,
                col == i - start,
                n == s.len(),
                s == self.content@,
                valid_utf8(s),
                w == viewport_width as int,
                w2 as int == if w >= 2 {
                    w - 2
                } else {
                    0
                },
                is_char_boundary(s, i as int),
                is_char_boundary(s, start as int),
                wrap_lengths(s, w) == lengths@.map_values(|v: usize| v as int) + wrap_from(
                    s,
                    w,
                    i as int,
                    start as int,
                    col as int,
                ),
                sum_prefix(lengths@, lengths@.len() as int) == start,
                forall|k: int|
                    0 <= k <= lengths@.len() ==> is_char_boundary(s, sum_prefix(lengths@, k)),
            decreases n - i,
        {
            let b = self.content[i];
            proof {
                lemma_scalar_step(s, i as int);
            }
            if b == 0x0a {
                proof {
                    lemma_push_line(s, lengths@, (i + 1 - start) as usize, start as int);
                    let f = |x: usize| x as int;
                    let tail = wrap_from(s, w, i + 1, i + 1, 0);
                    assert(wrap_from(s, w, i as int, start as int, col as int) =~= seq![
                        i + 1 - start as int,
                    ] + tail);
                    assert(lengths@.map_values(f) + (seq![i + 1 - start as int] + tail)
                        =~= (lengths@.map_values(f) + seq![i + 1 - start as int]) + tail);
                }
                lengths.push(i + 1 - start);
                i = i + 1;
                start = i;
                col = 0;
            } else if col >= w2 {
                let l = char_len_exec(b);
                proof {
                    lemma_push_line(s, lengths@, (i - start) as usize, start as int);
                    let f = |x: usize| x as int;
                    let tail = wrap_from(s, w, i + l, i as int, l as int);
                    assert(wrap_from(s, w, i as int, start as int, col as int) =~= seq![
                        i - start as int,
                    ] + tail);
                    assert(lengths@.map_values(f) + (seq![i - start as int] + tail)
                        =~= (lengths@.map_values(f) + seq![i - start as int]) + tail);
                }
                lengths.push(i - start);
                start = i;
                col = l;
                i = i + l;
            } else {
                let l = char_len_exec(b);
                proof {
                    assert(wrap_from(s, w, i as int, start as int, col as int) == wrap_from(
                        s,
                        w,
                        i + l,
                        start as int,
                        col + l,
                    ));
                }
                col = col + l;
                i = i + l;
            }
        }
        proof {
            is_char_boundary_start_end_of_seq(s);
            lemma_push_line(s, lengths@, (n - start) as usize, start as int);
            assert(wrap_from(s, w, n as int, start as int, col as int) =~= seq![
                n - start as int,
            ]);
        }
        lengths.push(n - start);
        self.line_lengths = lengths;
    }

    /// Empties the content and resets the length table to one empty line.
    pub fn clear(&mut self)
        ensures
            final(self).wf(),
            final(self).content@ == Seq::<u8>::empty(),
            final(self).line_lengths@ == seq![0usize],
            final(self).page == old(self).page,
            final(self).width == old(self).width,
            final(self).height == old(self).height,
    {
        self.content = Vec::new();
        let mut lengths: Vec<usize> = Vec::new();
        lengths.push(0);
        proof {
            assert(lengths@ =~= seq![0usize]);
        }
        self.line_lengths = lengths;
    }
}


/// Trimming trailing whitespace leaves a prefix of the original bytes.
pub proof fn lemma_trim_is_prefix(x: Seq<u8>)
    ensures
        trim_end_ws(x) == x.take(trim_end_ws(x).len() as int),
        trim_end_ws(x).len() <= x.len(),
    decreases x.len(),
{
    if x.len() == 0 {
        assert(trim_end_ws(x) =~= x.take(trim_end_ws(x).len() as int));
    } else if is_ws(x.last()) {
        lemma_trim_is_prefix(x.drop_last());
        assert(x.drop_last().take(trim_end_ws(x.drop_last()).len() as int) =~= x.take(
            trim_end_ws(x.drop_last()).len() as int,
        ));
    } else {
        assert(trim_end_ws(x) =~= x.take(trim_end_ws(x).len() as int));
    }
}

/// Trimming trailing whitespace keeps everything up to the last
/// non-whitespace byte.
pub proof fn lemma_trim_keeps_nonws(x: Seq<u8>, j: int)
    requires
        0 <= j < x.len(),
        !is_ws(x[j]),
    ensures
        trim_end_ws(x).len() >= j + 1,
    decreases x.len(),
{
    if is_ws(x.last()) {
        assert(j < x.len() - 1);
        assert(x.drop_last()[j] == x[j]);
        lemma_trim_keeps_nonws(x.drop_last(), j);
    }
}

/// Law: inserted text shows on the display. An insert splices the
/// (tab-expanded) text between a prefix and a suffix of the old content at
/// a character boundary; `rewrap` leaves the content untouched; and the
/// display of the first page is the whole content with only trailing
/// whitespace trimmed. So whenever some non-whitespace byte follows the
/// insertion point, the displayed bytes contain the inserted text
/// verbatim, at the insertion offset.
pub proof fn lemma_display_contains_inserted(pre: Seq<u8>, t: Seq<u8>, post: Seq<u8>)
    requires
        exists|j: int| 0 <= j < post.len() && !is_ws(post[j]),
    ensures
        trim_end_ws(pre + t + post).len() >= pre.len() + t.len(),
        trim_end_ws(pre + t + post).subrange(pre.len() as int, pre.len() as int + t.len() as int) == t,
{
    let x = pre + t + post;
    let j = choose|j: int| 0 <= j < post.len() && !is_ws(post[j]);
    let g = pre.len() + t.len() + j;
    assert(x[g] == post[j]);
    lemma_trim_keeps_nonws(x, g);
    lemma_trim_is_prefix(x);
    assert(trim_end_ws(x).subrange(pre.len() as int, pre.len() as int + t.len() as int) =~= t);
}

/// Law: the display of the first page is the whole content, trimmed of
/// trailing whitespace: flattening `(0, 0)` gives offset zero, which snaps
/// to itself.
pub proof fn lemma_first_page_shows_content(w: WrappedText)
    requires
        w.page == 0,
    ensures
        trim_end_ws(
            w.content@.subrange(
                prev_snap(w.content@, w.spec_flat(w.page as int, 0)),
                w.content@.len() as int,
            ),
        ) == trim_end_ws(w.content@),
{
    assert(w.spec_flat(0, 0) == 0) by {
        assert(sum_prefix(w.line_lengths@, 0) == 0);
    }
    assert(prev_snap(w.content@, 0) == 0);
    assert(w.content@.subrange(0, w.content@.len() as int) =~= w.content@);
}

/// Scanning backward over non-whitespace bytes reaches the start.
proof fn lemma_word_begin_nonws(s: Seq<u8>, k: int)
    requires
        0 <= k < s.len(),
        forall|i: int| 0 <= i <= k ==> !is_ws(#[trigger] s[i]),
    ensures
        word_begin(s, k) == 0,
    decreases k,
{
    if k > 0 {
        lemma_word_begin_nonws(s, k - 1);
    }
}

/// Law: deleting a word undoes inserting it. With a buffer holding a
/// freshly inserted word of non-whitespace ASCII followed by one space —
/// whatever the length table says, since the word sits on the first line —
/// `delete_word` at the word's end removes exactly the word's bytes.
pub proof fn lemma_delete_word_inverts_insert(w: WrappedText, word: Seq<u8>)
    requires
        w.content@ == word + seq![0x20u8],
        word.len() > 0,
        forall|i: int| 0 <= i < word.len() ==> !is_ws(#[trigger] word[i]) && word[i] < 0x80,
    ensures
        ({
            let (begin, end) = delete_word_span(w, 0, word.len() as int);
            &&& begin == 0
            &&& end == word.len()
            &&& w.content@.subrange(begin, end) == word
        }),
{
    let s = w.content@;
    assert(s.len() == word.len() + 1);
    assert(w.spec_flat(0, word.len() as int) == word.len()) by {
        assert(sum_prefix(w.line_lengths@, 0) == 0);
    }
    assert(s[word.len() as int] == 0x20);
    assert(boundary(s, word.len() as int)) by {
        assert(!vstd::utf8::is_continuation_byte(0x20u8));
    }
    assert(prev_snap(s, word.len() as int) == word.len());
    assert(forall|i: int| 0 <= i < word.len() ==> s[i] == #[trigger] word[i]);
    lemma_word_begin_nonws(s, word.len() - 1);
    assert(s.subrange(0, word.len() as int) =~= word);
}

} // verus!
