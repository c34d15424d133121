//! The chat session: two panes (transcript and input), the Normal/Insert
//! mode machine, and the per-tick update pipeline that the render loop
//! drives. Everything here is pure state manipulation; polling the
//! keyboard, drawing, and network work stay with the caller.
use vstd::prelude::*;
use vstd::string::{StrSliceExecFns, StringSliceAdditionalSpecFns};
use vstd::utf8::valid_utf8;

use crate::message::{clone_messages, same_messages, Message, MessageType};
use crate::text::{next_snap, prev_snap, WrappedText};

verus! {

/// The interaction mode: browsing the transcript, or editing the input.
#[derive(PartialEq, Eq, Structural, Clone, Copy, Debug)]
pub enum ChatInputMode {
    Normal,
    Insert,
}

/// Which top-level view the application shows next.
#[derive(PartialEq, Eq, Structural, Clone, Copy, Debug)]
pub enum WindowView {
    Chat,
    Directory,
    Load,
    Exit,
}

/// The view that a view switch moves to from `v`.
pub open spec fn spec_window_next(v: WindowView) -> WindowView {
    match v {
        WindowView::Chat => WindowView::Directory,
        WindowView::Directory => WindowView::Chat,
        WindowView::Load => WindowView::Exit,
        WindowView::Exit => WindowView::Exit,
    }
}

impl WindowView {
    /// The view that a view switch moves to.
    pub fn next(&self) -> (r: WindowView)
        ensures
            r == spec_window_next(*self),
    {
        match self {
            WindowView::Chat => WindowView::Directory,
            WindowView::Directory => WindowView::Chat,
            WindowView::Load => WindowView::Exit,
            WindowView::Exit => WindowView::Exit,
        }
    }
}

/// The state behind the chat view: the transcript pane, the input pane,
/// their cursors, the queued updates a tick applies, and the message list.
pub struct ChatState {
    pub input_wrapped: WrappedText,
    pub chat_wrapped: WrappedText,
    pub input_mode: ChatInputMode,
    pub pending_changes: bool,
    pub chat_messages: Vec<Message>,
    pub input_cursor: (usize, usize),
    pub chat_cursor: (usize, usize),
    pub pending_page_up: bool,
    pub pending_chat_update: Vec<u8>,
    pub pending_deletions: usize,
    pub next_window: WindowView,
    pub stream_in_flight: bool,
    pub generation: u64,
}

/// Clamps a cursor against a pane, as the mode dictates: the row is held to
/// the last visual line and the viewport's bottom margin; the column is
/// held to the current line's length, less one in Insert mode below the
/// first row (the append position is reserved for the first row only).
pub fn clamp_pair(cursor: (usize, usize), w: &WrappedText, insert_mode: bool) -> (r: (
    usize,
    usize,
))
    ensures
        r == spec_clamp_pair(cursor, *w, insert_mode),
{
    let llen = w.line_lengths.len();
    if llen == 0 {
        return (0, 0);
    }
    let mut new_row = cursor.0;
    if new_row > llen - 1 {
        new_row = llen - 1;
    }
    let margin = if w.height >= 2 { w.height - 2 } else { 0 };
    if new_row > margin {
        new_row = margin;
    }
    let line_index = if new_row <= usize::MAX - w.page && new_row + w.page < llen {
        new_row + w.page
    } else {
        llen - 1
    };
    let len_here = w.line_lengths[line_index];
    let col_bound = if len_here > 0 {
        if insert_mode && cursor.0 > 0 {
            len_here - 1
        } else {
            len_here
        }
    } else {
        0
    };
    let new_col = if cursor.1 > col_bound {
        col_bound
    } else {
        cursor.1
    };
    (new_row, new_col)
}

/// What [`clamp_pair`] returns.
pub open spec fn spec_clamp_pair(cursor: (usize, usize), w: WrappedText, insert_mode: bool) -> (
    usize,
    usize,
) {
    let llen = w.line_lengths@.len() as int;
    if llen == 0 {
        (0usize, 0usize)
    } else {
        let margin: int = if w.height >= 2 {
            w.height - 2
        } else {
            0
        };
        let r1: int = if cursor.0 <= llen - 1 {
            cursor.0 as int
        } else {
            llen - 1
        };
        let new_row: int = if r1 <= margin {
            r1
        } else {
            margin
        };
        let line_index: int = if new_row + w.page < llen {
            new_row + w.page
        } else {
            llen - 1
        };
        let len_here = w.line_lengths@[line_index] as int;
        let col_bound: int = if len_here > 0 {
            if insert_mode && cursor.0 > 0 {
                len_here - 1
            } else {
                len_here
            }
        } else {
            0
        };
        let new_col: int = if cursor.1 <= col_bound {
            cursor.1 as int
        } else {
            col_bound
        };
        (new_row as usize, new_col as usize)
    }
}

/// The paging-overflow rule for one pane: if the cursor row passes the
/// viewport's bottom margin, the page advances by the overflow (never past
/// the final window) and the row pins to the last visible row; if the row
/// sits at the top while a page-up is pending, the page retreats instead;
/// a pane shorter than the viewport rests at page zero.
pub open spec fn spec_overflow(row: int, page: int, llen: int, h: int, pending_up: bool) -> (
    int,
    int,
) {
    let margin: int = if h >= 2 {
        h - 2
    } else {
        0
    };
    if row >= margin {
        let diff = row - margin + 1;
        let cap: int = if llen >= margin {
            llen - margin
        } else {
            0
        };
        let new_page: int = if page + diff <= cap {
            page + diff
        } else {
            cap
        };
        let new_row: int = if margin >= 1 {
            margin - 1
        } else {
            0
        };
        (new_row, new_page)
    } else if row == 0 && pending_up && page > 0 {
        (row, page - 1)
    } else if llen < margin {
        (row, 0)
    } else {
        (row, page)
    }
}

/// Applies [`spec_overflow`] to a cursor row and page.
pub fn overflow_pair(row: usize, page: usize, llen: usize, h: usize, pending_up: bool) -> (r: (
    usize,
    usize,
))
    ensures
        (r.0 as int, r.1 as int) == spec_overflow(
            row as int,
            page as int,
            llen as int,
            h as int,
            pending_up,
        ),
{
    let margin = if h >= 2 {
        h - 2
    } else {
        0
    };
    if row >= margin {
        let base = row - margin;
        let cap = if llen >= margin {
            llen - margin
        } else {
            0
        };
        let new_page = if page < cap && cap - page - 1 >= base {
            page + base + 1
        } else {
            cap
        };
        let new_row = if margin >= 1 {
            margin - 1
        } else {
            0
        };
        (new_row, new_page)
    } else if row == 0 && pending_up && page > 0 {
        (row, page - 1)
    } else if llen < margin {
        (row, 0)
    } else {
        (row, page)
    }
}

impl ChatState {
    /// The session invariant: both panes hold well-formed UTF-8, as does
    /// the queued transcript update.
    pub open spec fn wf(&self) -> bool {
        &&& self.input_wrapped.wf()
        &&& self.chat_wrapped.wf()
        &&& valid_utf8(self.pending_chat_update@)
    }

    pub fn new() -> (r: ChatState)
        ensures
            r.wf(),
            r.input_mode is Normal,
            r.chat_messages@ == Seq::<Message>::empty(),
            r.input_wrapped.content@ == Seq::<u8>::empty(),
            r.chat_wrapped.content@ == Seq::<u8>::empty(),
            r.pending_chat_update@ == Seq::<u8>::empty(),
            r.pending_deletions == 0,
            !r.pending_page_up,
            !r.pending_changes,
            r.input_cursor == (0usize, 0usize),
            r.chat_cursor == (0usize, 0usize),
            r.next_window is Chat,
            !r.stream_in_flight,
            r.generation == 0,
    {
        ChatState {
            input_wrapped: WrappedText::new(),
            chat_wrapped: WrappedText::new(),
            input_mode: ChatInputMode::Normal,
            pending_changes: false,
            chat_messages: Vec::new(),
            input_cursor: (0, 0),
            chat_cursor: (0, 0),
            pending_page_up: false,
            pending_chat_update: Vec::new(),
            pending_deletions: 0,
            next_window: WindowView::Chat,
            stream_in_flight: false,
            generation: 0,
        }
    }

    /// Rewraps the focused pane to the given viewport width.
    pub fn rewrap(&mut self, viewport_width: usize)
        requires
            old(self).wf(),
        ensures
            final(self).wf(),
            old(self).input_mode is Normal ==> final(self).input_wrapped == old(
                self,
            ).input_wrapped && final(self).chat_wrapped.line_lengths@.map_values(
                |v: usize| v as int,
            ) == crate::text::wrap_lengths(
                old(self).chat_wrapped.content@,
                viewport_width as int,
            ) && final(self).chat_wrapped.content == old(self).chat_wrapped.content,
            old(self).input_mode is Insert ==> final(self).chat_wrapped == old(self).chat_wrapped
                && final(self).input_wrapped.line_lengths@.map_values(|v: usize| v as int)
                == crate::text::wrap_lengths(
                old(self).input_wrapped.content@,
                viewport_width as int,
            ) && final(self).input_wrapped.content == old(self).input_wrapped.content,
            final(self).input_mode == old(self).input_mode,
            final(self).chat_messages == old(self).chat_messages,
            final(self).input_cursor == old(self).input_cursor,
            final(self).chat_cursor == old(self).chat_cursor,
            final(self).pending_chat_update == old(self).pending_chat_update,
            final(self).pending_deletions == old(self).pending_deletions,
            final(self).pending_page_up == old(self).pending_page_up,
            final(self).pending_changes == old(self).pending_changes,
            final(self).next_window == old(self).next_window,
            final(self).stream_in_flight == old(self).stream_in_flight,
            final(self).generation == old(self).generation,
    {
        match self.input_mode {
            ChatInputMode::Normal => self.chat_wrapped.rewrap(viewport_width),
            ChatInputMode::Insert => self.input_wrapped.rewrap(viewport_width),
        }
    }

    /// Clamps the focused pane's cursor to its pane, leaving the other
    /// pane's cursor alone.
    pub fn clamp_cursor(&mut self)
        ensures
            old(self).input_mode is Normal ==> final(self).chat_cursor == spec_clamp_pair(
                old(self).chat_cursor,
                old(self).chat_wrapped,
                false,
            ) && final(self).input_cursor == old(self).input_cursor,
            old(self).input_mode is Insert ==> final(self).input_cursor == spec_clamp_pair(
                old(self).input_cursor,
                old(self).input_wrapped,
                true,
            ) && final(self).chat_cursor == old(self).chat_cursor,
            final(self).input_wrapped == old(self).input_wrapped,
            final(self).chat_wrapped == old(self).chat_wrapped,
            final(self).input_mode == old(self).input_mode,
            final(self).chat_messages == old(self).chat_messages,
            final(self).pending_chat_update == old(self).pending_chat_update,
            final(self).pending_deletions == old(self).pending_deletions,
            final(self).pending_page_up == old(self).pending_page_up,
            final(self).pending_changes == old(self).pending_changes,
            final(self).next_window == old(self).next_window,
            final(self).stream_in_flight == old(self).stream_in_flight,
            final(self).generation == old(self).generation,
    {
        match self.input_mode {
            ChatInputMode::Normal => {
                self.chat_cursor = clamp_pair(self.chat_cursor, &self.chat_wrapped, false);
            },
            ChatInputMode::Insert => {
                self.input_cursor = clamp_pair(self.input_cursor, &self.input_wrapped, true);
            },
        }
    }

    /// Applies the paging-overflow rule to the focused pane and clears the
    /// pending page-up flag.
    pub fn apply_page_overflow(&mut self)
        ensures
            !final(self).pending_page_up,
            old(self).input_mode is Normal ==> ({
                let (row, page) = spec_overflow(
                    old(self).chat_cursor.0 as int,
                    old(self).chat_wrapped.page as int,
                    old(self).chat_wrapped.line_lengths@.len() as int,
                    old(self).chat_wrapped.height as int,
                    old(self).pending_page_up,
                );
                &&& final(self).chat_cursor.0 == row
                &&& final(self).chat_cursor.1 == old(self).chat_cursor.1
                &&& final(self).chat_wrapped.page == page
                &&& final(self).chat_wrapped.content == old(self).chat_wrapped.content
                &&& final(self).chat_wrapped.line_lengths == old(self).chat_wrapped.line_lengths
                &&& final(self).chat_wrapped.width == old(self).chat_wrapped.width
                &&& final(self).chat_wrapped.height == old(self).chat_wrapped.height
                &&& final(self).input_wrapped == old(self).input_wrapped
                &&& final(self).input_cursor == old(self).input_cursor
            }),
            old(self).input_mode is Insert ==> ({
                let (row, page) = spec_overflow(
                    old(self).input_cursor.0 as int,
                    old(self).input_wrapped.page as int,
                    old(self).input_wrapped.line_lengths@.len() as int,
                    old(self).input_wrapped.height as int,
                    old(self).pending_page_up,
                );
                &&& final(self).input_cursor.0 == row
                &&& final(self).input_cursor.1 == old(self).input_cursor.1
                &&& final(self).input_wrapped.page == page
                &&& final(self).input_wrapped.content == old(self).input_wrapped.content
                &&& final(self).input_wrapped.line_lengths == old(self).input_wrapped.line_lengths
                &&& final(self).input_wrapped.width == old(self).input_wrapped.width
                &&& final(self).input_wrapped.height == old(self).input_wrapped.height
                &&& final(self).chat_wrapped == old(self).chat_wrapped
                &&& final(self).chat_cursor == old(self).chat_cursor
            }),
            final(self).input_mode == old(self).input_mode,
            final(self).chat_messages == old(self).chat_messages,
            final(self).pending_chat_update == old(self).pending_chat_update,
            final(self).pending_deletions == old(self).pending_deletions,
            final(self).pending_changes == old(self).pending_changes,
            final(self).next_window == old(self).next_window,
            final(self).stream_in_flight == old(self).stream_in_flight,
            final(self).generation == old(self).generation,
    {
        match self.input_mode {
            ChatInputMode::Normal => {
                let (row, page) = overflow_pair(
                    self.chat_cursor.0,
                    self.chat_wrapped.page,
                    self.chat_wrapped.line_lengths.len(),
                    self.chat_wrapped.height,
                    self.pending_page_up,
                );
                self.chat_cursor = (row, self.chat_cursor.1);
                self.chat_wrapped.page = page;
            },
            ChatInputMode::Insert => {
                let (row, page) = overflow_pair(
                    self.input_cursor.0,
                    self.input_wrapped.page,
                    self.input_wrapped.line_lengths.len(),
                    self.input_wrapped.height,
                    self.pending_page_up,
                );
                self.input_cursor = (row, self.input_cursor.1);
                self.input_wrapped.page = page;
            },
        }
        self.pending_page_up = false;
    }

    /// If a transcript update is queued, appends it to the transcript
    /// pane's raw content, rewraps the transcript to the given width, and
    /// clears the queue.
    pub fn apply_pending_update(&mut self, viewport_width: usize)
        requires
            old(self).wf(),
        ensures
            final(self).wf(),
            old(self).pending_chat_update@.len() == 0 ==> *final(self) == *old(self),
            old(self).pending_chat_update@.len() > 0 ==> ({
                &&& final(self).chat_wrapped.content@ == old(self).chat_wrapped.content@ + old(
                    self,
                ).pending_chat_update@
                &&& final(self).chat_wrapped.line_lengths@.map_values(|v: usize| v as int)
                    == crate::text::wrap_lengths(
                    final(self).chat_wrapped.content@,
                    viewport_width as int,
                )
                &&& final(self).pending_chat_update@ == Seq::<u8>::empty()
                &&& final(self).input_wrapped == old(self).input_wrapped
                &&& final(self).input_mode == old(self).input_mode
                &&& final(self).chat_messages == old(self).chat_messages
                &&& final(self).input_cursor == old(self).input_cursor
                &&& final(self).chat_cursor == old(self).chat_cursor
                &&& final(self).pending_deletions == old(self).pending_deletions
                &&& final(self).pending_page_up == old(self).pending_page_up
                &&& final(self).pending_changes == old(self).pending_changes
                &&& final(self).next_window == old(self).next_window
            }),
    {
        if self.pending_chat_update.len() > 0 {
            let update = &self.pending_chat_update;
            let mut j: usize = 0;
            let mut buf: Vec<u8> = Vec::new();
            while j < update.len()
                invariant
                    j <= update@.len(),
                    buf@ == update@.take(j as int),
                    update == &self.pending_chat_update,
                decreases update@.len() - j,
            {
                buf.push(update[j]);
                j = j + 1;
            }
            proof {
                assert(buf@ =~= self.pending_chat_update@);
            }
            self.chat_wrapped.append_bytes(&buf);
            self.chat_wrapped.rewrap(viewport_width);
            self.pending_chat_update = Vec::new();
        }
    }

    /// Applies the batched backspaces: the deletion range ends at the
    /// cursor's flat offset (snapped backward) and runs back by the queued
    /// count, clamped to the start of the content and widened backward to a
    /// character boundary; the cursor steps back once and the input pane is
    /// rewrapped.
    pub fn apply_pending_deletions(&mut self, viewport_width: usize)
        requires
            old(self).wf(),
        ensures
            final(self).wf(),
            final(self).pending_deletions == 0,
            ({
                let w = old(self).input_wrapped;
                let s = w.content@;
                let upper = prev_snap(
                    s,
                    w.spec_flat(
                        old(self).input_cursor.0 + w.page,
                        old(self).input_cursor.1 as int,
                    ),
                );
                let pend: int = if upper < old(self).pending_deletions {
                    upper
                } else {
                    old(self).pending_deletions as int
                };
                let lower = prev_snap(s, upper - pend);
                &&& (pend > 0 ==> final(self).input_wrapped.content@ == s.subrange(0, lower)
                    + s.subrange(upper, s.len() as int))
                &&& (pend == 0 ==> final(self).input_wrapped.content@ == s)
                &&& (pend > 0 ==> final(self).input_cursor == (
                    if old(self).input_cursor.0 > 0 && old(self).input_cursor.1 == 0 {
                        ((old(self).input_cursor.0 - 1) as usize, usize::MAX as usize)
                    } else if old(self).input_cursor.1 > 0 {
                        (
                            old(self).input_cursor.0,
                            (old(self).input_cursor.1 - 1) as usize,
                        )
                    } else {
                        old(self).input_cursor
                    }
                ))
                &&& (pend == 0 ==> final(self).input_cursor == old(self).input_cursor)
                &&& final(self).input_wrapped.line_lengths@.map_values(|v: usize| v as int)
                    == crate::text::wrap_lengths(
                    final(self).input_wrapped.content@,
                    viewport_width as int,
                )
            }),
            final(self).chat_wrapped == old(self).chat_wrapped,
            final(self).chat_cursor == old(self).chat_cursor,
            final(self).input_mode == old(self).input_mode,
            final(self).chat_messages == old(self).chat_messages,
            final(self).pending_chat_update == old(self).pending_chat_update,
            final(self).pending_page_up == old(self).pending_page_up,
            final(self).pending_changes == old(self).pending_changes,
            final(self).next_window == old(self).next_window,
            final(self).stream_in_flight == old(self).stream_in_flight,
            final(self).generation == old(self).generation,
    {
        let ghost s = self.input_wrapped.content@;
        let row = self.input_cursor.0;
        let page = self.input_wrapped.page;
        let line = if row <= usize::MAX - page {
            row + page
        } else {
            usize::MAX
        };
        let table_len = self.input_wrapped.line_lengths.len();
        proof {
            // An overflowing row + page and usize::MAX flatten alike: both
            // exceed the length-table size, so the same prefix is summed.
            let w = self.input_wrapped;
            assert(table_len as int == w.line_lengths@.len());
            assert(w.spec_flat(line as int, self.input_cursor.1 as int) == w.spec_flat(
                row + page,
                self.input_cursor.1 as int,
            ));
        }
        let upper = self.input_wrapped.get_flat(line, self.input_cursor.1, true);
        if upper < self.pending_deletions {
            self.pending_deletions = upper;
        }
        if self.pending_deletions > 0 {
            let raw_lower = upper - self.pending_deletions;
            let lower = self.input_wrapped.find_prev_byte_boundary(raw_lower);
            self.delete_input_range(lower, upper);
            if self.input_cursor.0 > 0 && self.input_cursor.1 == 0 {
                self.input_cursor = (self.input_cursor.0 - 1, usize::MAX);
            } else if self.input_cursor.1 > 0 {
                self.input_cursor = (self.input_cursor.0, self.input_cursor.1 - 1);
            }
            self.pending_deletions = 0;
        }
        self.input_wrapped.rewrap(viewport_width);
    }

    /// Removes the byte range `lower..upper` from the input pane's content.
    fn delete_input_range(&mut self, lower: usize, upper: usize)
        requires
            old(self).wf(),
            lower <= upper <= old(self).input_wrapped.content@.len(),
            crate::text::boundary(old(self).input_wrapped.content@, lower as int),
            crate::text::boundary(old(self).input_wrapped.content@, upper as int),
        ensures
            final(self).wf(),
            final(self).input_wrapped.content@ == old(self).input_wrapped.content@.subrange(
                0,
                lower as int,
            ) + old(self).input_wrapped.content@.subrange(
                upper as int,
                old(self).input_wrapped.content@.len() as int,
            ),
            final(self).input_wrapped.line_lengths == old(self).input_wrapped.line_lengths,
            final(self).input_wrapped.page == old(self).input_wrapped.page,
            final(self).input_wrapped.width == old(self).input_wrapped.width,
            final(self).input_wrapped.height == old(self).input_wrapped.height,
            final(self).chat_wrapped == old(self).chat_wrapped,
            final(self).input_mode == old(self).input_mode,
            final(self).chat_messages == old(self).chat_messages,
            final(self).input_cursor == old(self).input_cursor,
            final(self).chat_cursor == old(self).chat_cursor,
            final(self).pending_chat_update == old(self).pending_chat_update,
            final(self).pending_deletions == old(self).pending_deletions,
            final(self).pending_page_up == old(self).pending_page_up,
            final(self).pending_changes == old(self).pending_changes,
            final(self).next_window == old(self).next_window,
            final(self).stream_in_flight == old(self).stream_in_flight,
            final(self).generation == old(self).generation,
    {
        let ghost s = self.input_wrapped.content@;
        let n = self.input_wrapped.content.len();
        let mut rest: Vec<u8> = Vec::new();
        let mut j: usize = 0;
        while j < lower
            invariant
                j <= lower <= n,
                n == self.input_wrapped.content@.len(),
                s == self.input_wrapped.content@,
                rest@ == s.take(j as int),
            decreases lower - j,
        {
            rest.push(self.input_wrapped.content[j]);
            j = j + 1;
        }
        let mut k: usize = upper;
        while k < n
            invariant
                upper <= k <= n,
                n == self.input_wrapped.content@.len(),
                s == self.input_wrapped.content@,
                lower <= upper,
                rest@ == s.take(lower as int) + s.subrange(upper as int, k as int),
            decreases n - k,
        {
            proof {
                assert(rest@.push(s[k as int]) =~= s.take(lower as int) + s.subrange(
                    upper as int,
                    k + 1,
                ));
            }
            rest.push(self.input_wrapped.content[k]);
            k = k + 1;
        }
        proof {
            assert(rest@ =~= s.subrange(0, lower as int) + s.subrange(upper as int, s.len() as int));
            crate::text::lemma_boundary_is_char_boundary(s, upper as int);
            vstd::utf8::valid_utf8_split(s, upper as int);
            let front = s.subrange(0, upper as int);
            assert(crate::text::boundary(front, lower as int)) by {
                assert(lower < upper ==> front[lower as int] == s[lower as int]);
            }
            crate::text::lemma_boundary_is_char_boundary(front, lower as int);
            vstd::utf8::valid_utf8_split(front, lower as int);
            assert(front.subrange(0, lower as int) =~= s.subrange(0, lower as int));
            vstd::utf8::valid_utf8_concat(
                s.subrange(0, lower as int),
                s.subrange(upper as int, s.len() as int),
            );
        }
        self.input_wrapped.content = rest;
    }
}

/// The separator drawn in the transcript between messages.
pub open spec fn separator_bytes() -> Seq<u8> {
    vstd::utf8::encode_utf8("\n───\n"@)
}

/// How `submit_message` relates the state before (`o`) and after (`n`) and
/// its returned snapshot. While a reply is already streaming, submission
/// is disabled and nothing changes. Otherwise empty input changes nothing
/// but still clears the input pane; and non-empty input appends the user
/// message and an empty in-flight assistant message, queues the transcript
/// update with separators, marks the stream in flight under a fresh
/// generation, and returns a snapshot mirroring the new list.
pub open spec fn spec_submit_rel(o: ChatState, n: ChatState, r: Option<Vec<Message>>) -> bool {
    if o.stream_in_flight {
        &&& n == o
        &&& r is None
    } else {
        &&& n.input_wrapped.content@ == Seq::<u8>::empty()
        &&& n.input_wrapped.line_lengths@ == seq![0usize]
        &&& n.input_wrapped.page == o.input_wrapped.page
        &&& n.input_wrapped.width == o.input_wrapped.width
        &&& n.input_wrapped.height == o.input_wrapped.height
        &&& n.chat_wrapped == o.chat_wrapped
        &&& n.input_mode == o.input_mode
        &&& n.input_cursor == o.input_cursor
        &&& n.chat_cursor == o.chat_cursor
        &&& n.pending_deletions == o.pending_deletions
        &&& n.pending_page_up == o.pending_page_up
        &&& n.pending_changes == o.pending_changes
        &&& n.next_window == o.next_window
        &&& (o.input_wrapped.content@.len() == 0 ==> r is None && n.chat_messages
            == o.chat_messages && n.pending_chat_update == o.pending_chat_update
            && n.stream_in_flight == o.stream_in_flight && n.generation == o.generation)
        &&& (o.input_wrapped.content@.len() > 0 ==> n.stream_in_flight && n.generation
            == spec_next_generation(o.generation))
        &&& (o.input_wrapped.content@.len() > 0 ==> ({
            let input = o.input_wrapped.content@;
            let oldm = o.chat_messages@;
            let newm = n.chat_messages@;
            &&& newm.len() == oldm.len() + 2
            &&& (forall|i: int| 0 <= i < oldm.len() ==> newm[i] == oldm[i])
            &&& newm[oldm.len() as int].message_type is User
            &&& newm[oldm.len() as int].content@ == input
            &&& newm[oldm.len() as int + 1].message_type is Assistant
            &&& newm[oldm.len() as int + 1].content@ == Seq::<u8>::empty()
            &&& n.pending_chat_update@ == (if oldm.len() >= 1 {
                separator_bytes()
            } else {
                Seq::<u8>::empty()
            }) + input + separator_bytes()
            &&& r is Some
            &&& same_messages(newm, r->Some_0@)
        }))
    }
}

/// The generation tag after one more submission; the counter cycles at the
/// machine limit.
pub open spec fn spec_next_generation(g: u64) -> u64 {
    if g < u64::MAX {
        (g + 1) as u64
    } else {
        0
    }
}

impl ChatState {
    /// Submits the input pane's content as a user message, as
    /// [`spec_submit_rel`] describes: the messages and the transcript queue
    /// grow, the input clears, and the returned snapshot goes to the
    /// worker. Submission is disabled while a reply is already streaming.
    pub fn submit_message(&mut self) -> (r: Option<Vec<Message>>)
        requires
            old(self).wf(),
        ensures
            final(self).wf(),
            spec_submit_rel(*old(self), *final(self), r),
    {
        if self.stream_in_flight {
            return None;
        }
        if self.input_wrapped.len() > 0 {
            let input_copy = crate::text::copy_bytes(&self.input_wrapped.content);
            let ghost had_history = self.chat_messages@.len() >= 1;
            self.chat_messages.push(Message::new(MessageType::User, input_copy));
            let mut pending: Vec<u8> = Vec::new();
            if self.chat_messages.len() > 1 {
                let mut sep1 = "\n───\n".as_bytes_vec();
                pending.append(&mut sep1);
            }
            let mut body = crate::text::copy_bytes(&self.input_wrapped.content);
            pending.append(&mut body);
            let mut sep2 = "\n───\n".as_bytes_vec();
            pending.append(&mut sep2);
            proof {
                vstd::utf8::encode_utf8_valid_utf8("\n───\n"@);
                let input = old(self).input_wrapped.content@;
                let lead: Seq<u8> = if had_history {
                    separator_bytes()
                } else {
                    Seq::<u8>::empty()
                };
                assert(pending@ =~= lead + input + separator_bytes());
                if had_history {
                    vstd::utf8::valid_utf8_concat(separator_bytes(), input);
                    vstd::utf8::valid_utf8_concat(separator_bytes() + input, separator_bytes());
                    assert(pending@ =~= (separator_bytes() + input) + separator_bytes());
                } else {
                    assert(lead + input =~= input);
                    vstd::utf8::valid_utf8_concat(input, separator_bytes());
                    assert(pending@ =~= input + separator_bytes());
                }
            }
            self.pending_chat_update = pending;
            self.chat_messages.push(Message::new(MessageType::Assistant, Vec::new()));
            let snapshot = clone_messages(&self.chat_messages);
            self.input_wrapped.clear();
            self.stream_in_flight = true;
            self.generation = if self.generation < u64::MAX {
                self.generation + 1
            } else {
                0
            };
            Some(snapshot)
        } else {
            self.input_wrapped.clear();
            None
        }
    }

    /// Folds a streamed delta into the session: the in-flight assistant
    /// message (the last in the list) grows by the delta, the delta is
    /// queued for the transcript pane, and the transcript cursor drops to
    /// the bottom. A delta tagged with a stale generation belongs to an
    /// abandoned request and is discarded.
    pub fn receive_delta(&mut self, delta: &Vec<u8>, generation: u64)
        requires
            old(self).wf(),
            valid_utf8(delta@),
            old(self).chat_messages@.len() > 0,
        ensures
            final(self).wf(),
            generation != old(self).generation ==> *final(self) == *old(self),
            generation == old(self).generation ==> ({
                let oldm = old(self).chat_messages@;
                let newm = final(self).chat_messages@;
                &&& final(self).pending_chat_update@ == delta@
                &&& newm.len() == oldm.len()
                &&& (forall|i: int| 0 <= i < oldm.len() - 1 ==> newm[i] == oldm[i])
                &&& newm.last().message_type == oldm.last().message_type
                &&& newm.last().content@ == oldm.last().content@ + delta@
                &&& final(self).chat_cursor.0 as int == old(
                    self,
                ).chat_wrapped.line_lengths@.len()
                &&& final(self).chat_cursor.1 == old(self).chat_cursor.1
            }),
            final(self).chat_wrapped == old(self).chat_wrapped,
            final(self).input_wrapped == old(self).input_wrapped,
            final(self).input_mode == old(self).input_mode,
            final(self).input_cursor == old(self).input_cursor,
            final(self).pending_deletions == old(self).pending_deletions,
            final(self).pending_page_up == old(self).pending_page_up,
            final(self).pending_changes == old(self).pending_changes,
            final(self).next_window == old(self).next_window,
            final(self).stream_in_flight == old(self).stream_in_flight,
            final(self).generation == old(self).generation,
    {
        if generation != self.generation {
            return ;
        }
        let popped = self.chat_messages.pop();
        let mut last = match popped {
            Some(m) => m,
            None => Message::new(MessageType::Assistant, Vec::new()),
        };
        let ghost before = last.content@;
        let ghost role = last.message_type;
        let mut i: usize = 0;
        while i < delta.len()
            invariant
                i <= delta@.len(),
                last.message_type == role,
                last.content@ == before + delta@.take(i as int),
            decreases delta@.len() - i,
        {
            proof {
                assert((before + delta@.take(i as int)).push(delta@[i as int]) =~= before
                    + delta@.take(i + 1));
            }
            last.content.push(delta[i]);
            i = i + 1;
        }
        proof {
            assert(before + delta@.take(delta@.len() as int) =~= before + delta@);
        }
        proof {
            assert(last.content@ == old(self).chat_messages@.last().content@ + delta@);
        }
        self.chat_messages.push(last);
        proof {
            let oldm = old(self).chat_messages@;
            let newm = self.chat_messages@;
            assert(newm.len() == oldm.len());
            assert(newm.last() == last);
            assert(forall|i: int| 0 <= i < oldm.len() - 1 ==> newm[i] == oldm[i]);
        }
        self.pending_chat_update = crate::text::copy_bytes(delta);
        self.chat_cursor = (self.chat_wrapped.line_lengths.len(), self.chat_cursor.1);
    }

    /// Marks the in-flight reply finished, re-enabling submission. The
    /// caller invokes this when the worker's channel closes.
    pub fn stream_done(&mut self)
        ensures
            *final(self) == (ChatState { stream_in_flight: false, ..*old(self) }),
    {
        self.stream_in_flight = false;
    }

    /// Pastes clipboard text into the input pane at the cursor, then moves
    /// the cursor down by the number of pasted newlines and out to the
    /// viewport width (the next clamp pulls it back).
    pub fn paste(&mut self, clip: &str)
        requires
            old(self).wf(),
        ensures
            final(self).wf(),
            ({
                let w = old(self).input_wrapped;
                let s = w.content@;
                let t = crate::text::expand_tabs(clip.spec_bytes());
                let o = next_snap(
                    s,
                    w.spec_flat(
                        old(self).input_cursor.0 + w.page,
                        old(self).input_cursor.1 as int,
                    ),
                );
                &&& final(self).input_wrapped.content@ == s.subrange(0, o) + t + s.subrange(
                    o,
                    s.len() as int,
                )
                &&& final(self).input_wrapped.line_lengths == w.line_lengths
                &&& final(self).input_wrapped.page == w.page
                &&& final(self).input_wrapped.width == w.width
                &&& final(self).input_wrapped.height == w.height
            }),
            ({
                let lines = crate::text::count_byte(clip.spec_bytes(), 0x0a);
                let moved = old(self).input_cursor.0 + lines;
                &&& final(self).input_cursor.0 as int == (if moved <= usize::MAX {
                    moved
                } else {
                    usize::MAX as int
                })
                &&& final(self).input_cursor.1 == old(self).input_wrapped.width
            }),
            final(self).pending_changes,
            final(self).chat_wrapped == old(self).chat_wrapped,
            final(self).chat_cursor == old(self).chat_cursor,
            final(self).input_mode == old(self).input_mode,
            final(self).chat_messages == old(self).chat_messages,
            final(self).pending_chat_update == old(self).pending_chat_update,
            final(self).pending_deletions == old(self).pending_deletions,
            final(self).pending_page_up == old(self).pending_page_up,
            final(self).next_window == old(self).next_window,
            final(self).stream_in_flight == old(self).stream_in_flight,
            final(self).generation == old(self).generation,
    {
        let text = clip.as_bytes_vec();
        let lines = crate::text::count_byte_exec(&text, 0x0a);
        let line = self.input_wrapped.flat_line_index(self.input_cursor.0, self.input_wrapped.page);
        proof {
            vstd::utf8::encode_utf8_valid_utf8(clip@);
        }
        self.input_wrapped.insert_bytes(&text, line, self.input_cursor.1);
        let new_row = if self.input_cursor.0 <= usize::MAX - lines {
            self.input_cursor.0 + lines
        } else {
            usize::MAX
        };
        self.input_cursor = (new_row, self.input_wrapped.width);
        self.pending_changes = true;
    }
}

/// A keyboard key the session reacts to.
#[derive(Clone, Copy, Debug)]
pub enum Key {
    Char(char),
    Enter,
    Esc,
    Backspace,
    Left,
    Right,
    Up,
    Down,
    Tab,
}

/// One key press with its modifiers.
#[derive(Clone, Copy, Debug)]
pub struct KeyInput {
    pub code: Key,
    pub shift: bool,
    pub ctrl: bool,
}

/// What the render loop should do after a key press: keep ticking, leave
/// the chat view, or hand the snapshot to a new worker.
pub enum KeyOutcome {
    Continue,
    Leave,
    Submit(Vec<Message>),
}

impl ChatState {
    /// Reacts to one key press in Normal mode: view switches, entering
    /// Insert mode, transcript cursor motion and paging, and submission.
    pub fn handle_normal_key(&mut self, key: KeyInput) -> (r: KeyOutcome)
        requires
            old(self).wf(),
        ensures
            final(self).wf(),
            key.code is Tab ==> (*final(self) == (ChatState {
                next_window: spec_window_next(old(self).next_window),
                ..*old(self)
            }) && r is Leave),
            key.code matches Key::Char(c) ==> {
                if c == 'q' {
                    *final(self) == (ChatState { next_window: WindowView::Exit, ..*old(self) })
                        && r is Leave
                } else if c == 'i' || c == 'a' {
                    *final(self) == (ChatState { input_mode: ChatInputMode::Insert, ..*old(self) })
                        && r is Continue
                } else if c == 'l' {
                    *final(self) == (ChatState { next_window: WindowView::Load, ..*old(self) })
                        && r is Leave
                } else {
                    *final(self) == *old(self) && r is Continue
                }
            },
            key.code is Enter ==> ({
                let will_submit = old(self).input_wrapped.content@.len() > 0 && !old(
                    self,
                ).stream_in_flight;
                &&& (!will_submit ==> spec_submit_rel(
                    *old(self),
                    *final(self),
                    None::<Vec<Message>>,
                ) && r is Continue)
                &&& (will_submit ==> r is Submit && spec_submit_rel(
                    *old(self),
                    *final(self),
                    Some(r->Submit_0),
                ))
            }),
            key.code is Left ==> (*final(self) == (ChatState {
                chat_cursor: (
                    old(self).chat_cursor.0,
                    if old(self).chat_cursor.1 > 0 {
                        (old(self).chat_cursor.1 - 1) as usize
                    } else {
                        0
                    },
                ),
                ..*old(self)
            }) && r is Continue),
            key.code is Right ==> (*final(self) == (ChatState {
                chat_cursor: (
                    old(self).chat_cursor.0,
                    if old(self).chat_cursor.1 < usize::MAX {
                        (old(self).chat_cursor.1 + 1) as usize
                    } else {
                        usize::MAX
                    },
                ),
                ..*old(self)
            }) && r is Continue),
            key.code is Up && key.shift ==> (r is Continue && *final(self) == (ChatState {
                chat_wrapped: (WrappedText {
                    page: (if old(self).chat_wrapped.page >= old(self).chat_wrapped.height {
                        (old(self).chat_wrapped.page - old(self).chat_wrapped.height) as int
                    } else {
                        0int
                    }) as usize,
                    ..old(self).chat_wrapped
                }),
                ..*old(self)
            })),
            key.code is Up && !key.shift ==> (r is Continue && (old(self).chat_cursor.0 > 0
                ==> *final(self) == (ChatState {
                chat_cursor: (
                    (old(self).chat_cursor.0 - 1) as usize,
                    old(self).chat_cursor.1,
                ),
                ..*old(self)
            })) && (old(self).chat_cursor.0 == 0 ==> *final(self) == (ChatState {
                pending_page_up: true,
                ..*old(self)
            }))),
            key.code is Down && key.shift ==> (r is Continue && *final(self) == (ChatState {
                chat_wrapped: (WrappedText {
                    page: (if old(self).chat_wrapped.page + old(self).chat_wrapped.height <= old(
                        self,
                    ).chat_wrapped.spec_max_page() {
                        old(self).chat_wrapped.page + old(self).chat_wrapped.height
                    } else {
                        old(self).chat_wrapped.spec_max_page()
                    }) as usize,
                    ..old(self).chat_wrapped
                }),
                chat_cursor: (old(self).chat_wrapped.height, old(self).chat_cursor.1),
                ..*old(self)
            })),
            key.code is Down && !key.shift ==> (r is Continue && *final(self) == (ChatState {
                chat_cursor: (
                    if old(self).chat_cursor.0 < usize::MAX {
                        (old(self).chat_cursor.0 + 1) as usize
                    } else {
                        usize::MAX
                    },
                    old(self).chat_cursor.1,
                ),
                ..*old(self)
            })),
            key.code is Esc || key.code is Backspace ==> *final(self) == *old(self) && r
                is Continue,
    {
        match key.code {
            Key::Tab => {
                self.next_window = self.next_window.next();
                KeyOutcome::Leave
            },
            Key::Char(c) => {
                if c == 'q' {
                    self.next_window = WindowView::Exit;
                    KeyOutcome::Leave
                } else if c == 'i' || c == 'a' {
                    self.input_mode = ChatInputMode::Insert;
                    KeyOutcome::Continue
                } else if c == 'l' {
                    self.next_window = WindowView::Load;
                    KeyOutcome::Leave
                } else {
                    KeyOutcome::Continue
                }
            },
            Key::Enter => {
                match self.submit_message() {
                    Some(snapshot) => KeyOutcome::Submit(snapshot),
                    None => KeyOutcome::Continue,
                }
            },
            Key::Left => {
                if self.chat_cursor.1 > 0 {
                    self.chat_cursor = (self.chat_cursor.0, self.chat_cursor.1 - 1);
                }
                KeyOutcome::Continue
            },
            Key::Right => {
                if self.chat_cursor.1 < usize::MAX {
                    self.chat_cursor = (self.chat_cursor.0, self.chat_cursor.1 + 1);
                }
                KeyOutcome::Continue
            },
            Key::Up => {
                if key.shift {
                    self.chat_wrapped.page_up();
                } else if self.chat_cursor.0 > 0 {
                    self.chat_cursor = (self.chat_cursor.0 - 1, self.chat_cursor.1);
                } else {
                    self.pending_page_up = true;
                }
                KeyOutcome::Continue
            },
            Key::Down => {
                if key.shift {
                    self.chat_wrapped.page_down();
                    self.chat_cursor = (self.chat_wrapped.height, self.chat_cursor.1);
                } else if self.chat_cursor.0 < usize::MAX {
                    self.chat_cursor = (self.chat_cursor.0 + 1, self.chat_cursor.1);
                }
                KeyOutcome::Continue
            },
            Key::Esc => KeyOutcome::Continue,
            Key::Backspace => KeyOutcome::Continue,
        }
    }
}

/// The newline string encodes to the single newline byte.
pub proof fn lemma_newline_bytes()
    ensures
        vstd::utf8::encode_utf8("\n"@) =~= seq![0x0au8],
{
    reveal_strlit("\n");
    let chars = "\n"@;
    assert(chars.len() == 1);
    assert(chars[0] == '\n');
    assert(chars.drop_first() =~= Seq::<char>::empty());
    assert(vstd::utf8::encode_utf8(Seq::<char>::empty()) =~= Seq::<u8>::empty());
    assert('\n' as u32 == 0x0a);
    assert((0x0au32 & 0x7F) as u8 == 0x0au8) by (bit_vector);
    assert(vstd::utf8::encode_scalar(0x0a) =~= seq![0x0au8]);
}

/// The effect of typing `c` in Insert mode: the character (a tab expands
/// to four spaces) is inserted at the cursor's flat position; at or past
/// the right margin a newline is inserted after it and the cursor wraps to
/// the next row, else the cursor steps right.
pub open spec fn spec_typed_char(o: ChatState, n: ChatState, c: char) -> bool {
    let w = o.input_wrapped;
    let s = w.content@;
    let enc = crate::text::expand_tabs(vstd::utf8::encode_utf8(seq![c]));
    let line = o.input_cursor.0 + w.page;
    let col = o.input_cursor.1 as int;
    let o1 = next_snap(s, w.spec_flat(line, col));
    let s1 = s.subrange(0, o1) + enc + s.subrange(o1, s.len() as int);
    let wrap_margin: int = if w.width >= 3 {
        w.width - 3
    } else {
        0
    };
    &&& (col < wrap_margin ==> n.input_wrapped.content@ == s1 && n.input_cursor == (
        o.input_cursor.0,
        (col + 1) as usize,
    ))
    &&& (col >= wrap_margin ==> ({
        let o2 = next_snap(
            s1,
            crate::text::flat_over(w.line_lengths@, s1.len() as int, line, col),
        );
        let nl = vstd::utf8::encode_utf8("\n"@);
        &&& n.input_wrapped.content@ == s1.subrange(0, o2) + nl + s1.subrange(
            o2,
            s1.len() as int,
        )
        &&& n.input_cursor == (
            (if o.input_cursor.0 < usize::MAX {
                o.input_cursor.0 + 1
            } else {
                usize::MAX as int
            }) as usize,
            1usize,
        )
    }))
    &&& n.input_wrapped.line_lengths == w.line_lengths
    &&& n.input_wrapped.page == w.page
    &&& n.input_wrapped.width == w.width
    &&& n.input_wrapped.height == w.height
    &&& n.pending_changes
    &&& n.input_mode == o.input_mode
    &&& n.chat_wrapped == o.chat_wrapped
    &&& n.chat_cursor == o.chat_cursor
    &&& n.chat_messages == o.chat_messages
    &&& n.pending_chat_update == o.pending_chat_update
    &&& n.pending_deletions == o.pending_deletions
    &&& n.pending_page_up == o.pending_page_up
    &&& n.next_window == o.next_window
    &&& n.stream_in_flight == o.stream_in_flight
    &&& n.generation == o.generation
}

/// The effect of deleting a word at the input cursor: the span that
/// `delete_word` names is removed, and if it held a newline the cursor
/// column jumps to the viewport width (the next clamp pulls it back).
pub open spec fn spec_deleted_word(o: ChatState, n: ChatState) -> bool {
    let w = o.input_wrapped;
    let s = w.content@;
    let (begin, end) = crate::text::delete_word_span(
        w,
        o.input_cursor.0 as int,
        o.input_cursor.1 as int,
    );
    let removed = s.subrange(begin, end);
    &&& n.input_wrapped.content@ == s.subrange(0, begin) + s.subrange(end, s.len() as int)
    &&& n.input_wrapped.line_lengths == w.line_lengths
    &&& n.input_wrapped.page == w.page
    &&& n.input_wrapped.width == w.width
    &&& n.input_wrapped.height == w.height
    &&& n.input_cursor == (
        o.input_cursor.0,
        if crate::text::count_byte(removed, 0x0a) > 0 {
            w.width
        } else {
            o.input_cursor.1
        },
    )
    &&& n.chat_wrapped == o.chat_wrapped
    &&& n.chat_cursor == o.chat_cursor
    &&& n.input_mode == o.input_mode
    &&& n.chat_messages == o.chat_messages
    &&& n.pending_chat_update == o.pending_chat_update
    &&& n.pending_deletions == o.pending_deletions
    &&& n.pending_page_up == o.pending_page_up
    &&& n.pending_changes == o.pending_changes
    &&& n.next_window == o.next_window
    &&& n.stream_in_flight == o.stream_in_flight
    &&& n.generation == o.generation
}

impl ChatState {
    /// Types one character into the input pane, as [`spec_typed_char`]
    /// describes.
    pub fn typed_char(&mut self, c: char)
        requires
            old(self).wf(),
        ensures
            final(self).wf(),
            spec_typed_char(*old(self), *final(self), c),
    {
        let enc = crate::text::encode_char(c);
        let line = self.input_wrapped.flat_line_index(
            self.input_cursor.0,
            self.input_wrapped.page,
        );
        let wrap_margin = if self.input_wrapped.width >= 3 {
            self.input_wrapped.width - 3
        } else {
            0
        };
        self.input_wrapped.insert_bytes(&enc, line, self.input_cursor.1);
        if self.input_cursor.1 >= wrap_margin {
            let nl = "\n".as_bytes_vec();
            proof {
                vstd::utf8::encode_utf8_valid_utf8("\n"@);
                lemma_newline_bytes();
            }
            self.insert_input_raw(&nl, line, self.input_cursor.1);
            let new_row = if self.input_cursor.0 < usize::MAX {
                self.input_cursor.0 + 1
            } else {
                usize::MAX
            };
            self.input_cursor = (new_row, 1);
        } else {
            self.input_cursor = (self.input_cursor.0, self.input_cursor.1 + 1);
        }
        self.pending_changes = true;
    }

    /// Deletes the word before the input cursor, as [`spec_deleted_word`]
    /// describes.
    pub fn delete_word_at_cursor(&mut self)
        requires
            old(self).wf(),
        ensures
            final(self).wf(),
            spec_deleted_word(*old(self), *final(self)),
    {
        let removed = self.input_wrapped.delete_word(self.input_cursor.0, self.input_cursor.1);
        if crate::text::count_byte_exec(&removed, 0x0a) > 0 {
            self.input_cursor = (self.input_cursor.0, self.input_wrapped.width);
        }
    }
}

impl ChatState {
    /// Reacts to one key press in Insert mode: typed characters (with an
    /// automatic soft break near the right margin), newlines, batched
    /// backspaces, word deletion, word motion, and plain cursor motion.
    /// Pasting is a separate entry point, [`ChatState::paste`], since the
    /// clipboard lives with the caller.
    #[verifier::rlimit(60)]
    pub fn handle_insert_key(&mut self, key: KeyInput)
        requires
            old(self).wf(),
        ensures
            final(self).wf(),
            key.code is Esc ==> *final(self) == (ChatState {
                input_mode: ChatInputMode::Normal,
                ..*old(self)
            }),
            key.code matches Key::Char(c) ==> if !key.ctrl {
                spec_typed_char(*old(self), *final(self), c)
            } else {
                if c == 'w' {
                    spec_deleted_word(*old(self), *final(self))
                } else {
                    *final(self) == *old(self)
                }
            },
            key.code is Enter ==> ({
                let w = old(self).input_wrapped;
                let s = w.content@;
                let line = old(self).input_cursor.0 + w.page;
                let o = next_snap(s, w.spec_flat(line, old(self).input_cursor.1 as int));
                let nl = vstd::utf8::encode_utf8("\n"@);
                &&& final(self).input_wrapped.content@ == s.subrange(0, o) + nl + s.subrange(
                    o,
                    s.len() as int,
                )
                &&& final(self).input_cursor == (
                    (if old(self).input_cursor.0 < usize::MAX {
                        old(self).input_cursor.0 + 1
                    } else {
                        usize::MAX as int
                    }) as usize,
                    0usize,
                )
                &&& final(self).pending_changes
                &&& final(self).input_wrapped.line_lengths == w.line_lengths
                &&& final(self).chat_wrapped == old(self).chat_wrapped
                &&& final(self).chat_messages == old(self).chat_messages
            }),
            key.code is Backspace ==> *final(self) == (ChatState {
                pending_deletions: (if old(self).input_wrapped.content@.len() > 0 && old(
                    self,
                ).pending_deletions < usize::MAX {
                    old(self).pending_deletions + 1
                } else {
                    old(self).pending_deletions as int
                }) as usize,
                ..*old(self)
            }),
            key.code is Up ==> *final(self) == (if old(self).input_cursor.0 > 0 {
                ChatState {
                    input_cursor: (
                        (old(self).input_cursor.0 - 1) as usize,
                        old(self).input_cursor.1,
                    ),
                    ..*old(self)
                }
            } else {
                ChatState { pending_page_up: true, ..*old(self) }
            }),
            key.code is Down ==> *final(self) == (ChatState {
                input_cursor: (
                    (if old(self).input_cursor.0 < usize::MAX {
                        old(self).input_cursor.0 + 1
                    } else {
                        usize::MAX as int
                    }) as usize,
                    old(self).input_cursor.1,
                ),
                ..*old(self)
            }),
            key.code is Left && !key.ctrl ==> *final(self) == (ChatState {
                input_cursor: (
                    old(self).input_cursor.0,
                    (if old(self).input_cursor.1 > 0 {
                        old(self).input_cursor.1 - 1
                    } else {
                        0int
                    }) as usize,
                ),
                ..*old(self)
            }),
            key.code is Left && key.ctrl ==> spec_word_left(*old(self), *final(self)),
            key.code is Right && !key.ctrl ==> *final(self) == (ChatState {
                input_cursor: (
                    old(self).input_cursor.0,
                    (if old(self).input_cursor.1 < usize::MAX {
                        old(self).input_cursor.1 + 1
                    } else {
                        usize::MAX as int
                    }) as usize,
                ),
                ..*old(self)
            }),
            key.code is Right && key.ctrl ==> spec_word_right(*old(self), *final(self)),
            key.code is Tab ==> *final(self) == *old(self),
            final(self).next_window == old(self).next_window,
            final(self).stream_in_flight == old(self).stream_in_flight,
            final(self).generation == old(self).generation,
    {
        match key.code {
            Key::Esc => {
                self.input_mode = ChatInputMode::Normal;
            },
            Key::Char(c) => {
                if key.ctrl {
                    if c == 'w' {
                        self.delete_word_at_cursor();
                    }
                } else {
                    self.typed_char(c);
                }
            },
            Key::Enter => {
                let line = self.input_wrapped.flat_line_index(
                    self.input_cursor.0,
                    self.input_wrapped.page,
                );
                let nl = "\n".as_bytes_vec();
                proof {
                    vstd::utf8::encode_utf8_valid_utf8("\n"@);
                    lemma_newline_bytes();
                }
                self.insert_input_raw(&nl, line, self.input_cursor.1);
                let new_row = if self.input_cursor.0 < usize::MAX {
                    self.input_cursor.0 + 1
                } else {
                    usize::MAX
                };
                self.input_cursor = (new_row, 0);
                self.pending_changes = true;
            },
            Key::Backspace => {
                if self.input_wrapped.len() > 0 && self.pending_deletions < usize::MAX {
                    self.pending_deletions = self.pending_deletions + 1;
                }
            },
            Key::Up => {
                if self.input_cursor.0 > 0 {
                    self.input_cursor = (self.input_cursor.0 - 1, self.input_cursor.1);
                } else {
                    self.pending_page_up = true;
                }
            },
            Key::Down => {
                if self.input_cursor.0 < usize::MAX {
                    self.input_cursor = (self.input_cursor.0 + 1, self.input_cursor.1);
                }
            },
            Key::Left => {
                if key.ctrl {
                    self.word_left();
                } else {
                    if self.input_cursor.1 > 0 {
                        self.input_cursor = (self.input_cursor.0, self.input_cursor.1 - 1);
                    }
                }
            },
            Key::Right => {
                if key.ctrl {
                    self.word_right();
                } else {
                    if self.input_cursor.1 < usize::MAX {
                        self.input_cursor = (self.input_cursor.0, self.input_cursor.1 + 1);
                    }
                }
            },
            Key::Tab => {},
        }
    }

    /// Inserts raw UTF-8 bytes into the input pane; tabs are left alone
    /// because the bytes come from the session itself, never the user.
    fn insert_input_raw(&mut self, text: &Vec<u8>, line: usize, column: usize)
        requires
            old(self).wf(),
            valid_utf8(text@),
            forall|i: int| 0 <= i < text@.len() ==> text@[i] != 0x09,
        ensures
            final(self).wf(),
            ({
                let s = old(self).input_wrapped.content@;
                let o = next_snap(
                    s,
                    old(self).input_wrapped.spec_flat(line as int, column as int),
                );
                final(self).input_wrapped.content@ == s.subrange(0, o) + text@ + s.subrange(
                    o,
                    s.len() as int,
                )
            }),
            final(self).input_wrapped.line_lengths == old(self).input_wrapped.line_lengths,
            final(self).input_wrapped.page == old(self).input_wrapped.page,
            final(self).input_wrapped.width == old(self).input_wrapped.width,
            final(self).input_wrapped.height == old(self).input_wrapped.height,
            final(self).chat_wrapped == old(self).chat_wrapped,
            final(self).input_mode == old(self).input_mode,
            final(self).chat_messages == old(self).chat_messages,
            final(self).input_cursor == old(self).input_cursor,
            final(self).chat_cursor == old(self).chat_cursor,
            final(self).pending_chat_update == old(self).pending_chat_update,
            final(self).pending_deletions == old(self).pending_deletions,
            final(self).pending_page_up == old(self).pending_page_up,
            final(self).pending_changes == old(self).pending_changes,
            final(self).next_window == old(self).next_window,
            final(self).stream_in_flight == old(self).stream_in_flight,
            final(self).generation == old(self).generation,
    {
        proof {
            crate::text::lemma_expand_tabs_identity(text@);
        }
        self.input_wrapped.insert_bytes(text, line, column);
    }
}

/// The effect of word motion to the left: the column falls back past the
/// preceding whitespace run; landing on column zero below the first row
/// retreats a row (the clamp pulls the column in); the plain one-step
/// decrement then applies.
pub open spec fn spec_word_left(o: ChatState, n: ChatState) -> bool {
    let w = o.input_wrapped;
    let s = w.content@;
    let row = o.input_cursor.0;
    let col = o.input_cursor.1;
    if col < usize::MAX {
        let d = crate::text::ws_dist_back(s, next_snap(s, w.spec_flat(row as int, col + 1)));
        let c1: int = if d <= col {
            col - d
        } else {
            0
        };
        let back_row = row > 0 && c1 == 0;
        let r2: int = if back_row {
            row - 1
        } else {
            row as int
        };
        let c2: int = if back_row {
            usize::MAX as int
        } else {
            c1
        };
        let c3: int = if c2 > 0 {
            c2 - 1
        } else {
            c2
        };
        n == (ChatState { input_cursor: (r2 as usize, c3 as usize), ..o })
    } else {
        n == (ChatState { input_cursor: (row, (col - 1) as usize), ..o })
    }
}

/// The effect of word motion to the right: the column advances past the
/// next whitespace run; running off the current visual line steps down a
/// row to column one; the plain one-step increment then applies.
pub open spec fn spec_word_right(o: ChatState, n: ChatState) -> bool {
    let w = o.input_wrapped;
    let s = w.content@;
    let row = o.input_cursor.0;
    let col = o.input_cursor.1;
    if col < usize::MAX {
        let d = crate::text::ws_dist_fwd(s, next_snap(s, w.spec_flat(row as int, col + 1)));
        let c1: int = if col + d <= usize::MAX {
            col + d
        } else {
            usize::MAX as int
        };
        let crossed = row + w.page < w.line_lengths@.len() && c1 >= w.line_lengths@[row + w.page];
        let r2: int = if crossed {
            if row < usize::MAX {
                row + 1
            } else {
                usize::MAX as int
            }
        } else {
            row as int
        };
        let c2: int = if crossed {
            1
        } else {
            c1
        };
        let c3: int = if c2 < usize::MAX {
            c2 + 1
        } else {
            c2
        };
        n == (ChatState { input_cursor: (r2 as usize, c3 as usize), ..o })
    } else {
        n == o
    }
}

impl ChatState {
    /// Moves the input cursor one word to the left, as [`spec_word_left`]
    /// describes.
    pub fn word_left(&mut self)
        requires
            old(self).wf(),
        ensures
            final(self).wf(),
            spec_word_left(*old(self), *final(self)),
    {
        if self.input_cursor.1 < usize::MAX {
            let d = self.input_wrapped.prev_whitespace_distance(
                self.input_cursor.0,
                self.input_cursor.1,
            );
            let col = self.input_cursor.1;
            let c1 = if d <= col {
                col - d
            } else {
                0
            };
            self.input_cursor = (self.input_cursor.0, c1);
            if self.input_cursor.0 > 0 && self.input_cursor.1 == 0 {
                self.input_cursor = (self.input_cursor.0 - 1, usize::MAX);
            }
        }
        if self.input_cursor.1 > 0 {
            self.input_cursor = (self.input_cursor.0, self.input_cursor.1 - 1);
        }
    }

    /// Moves the input cursor one word to the right, as [`spec_word_right`]
    /// describes.
    pub fn word_right(&mut self)
        requires
            old(self).wf(),
        ensures
            final(self).wf(),
            spec_word_right(*old(self), *final(self)),
    {
        if self.input_cursor.1 < usize::MAX {
            let d = self.input_wrapped.next_whitespace_distance(
                self.input_cursor.0,
                self.input_cursor.1,
            );
            let col = self.input_cursor.1;
            let c1 = if col <= usize::MAX - d {
                col + d
            } else {
                usize::MAX
            };
            self.input_cursor = (self.input_cursor.0, c1);
            let row = self.input_cursor.0;
            let page = self.input_wrapped.page;
            let llen = self.input_wrapped.line_lengths.len();
            if row <= usize::MAX - page && row + page < llen
                && c1 >= self.input_wrapped.line_lengths[row + page] {
                let r2 = if row < usize::MAX {
                    row + 1
                } else {
                    usize::MAX
                };
                self.input_cursor = (r2, 1);
            }
        }
        if self.input_cursor.1 < usize::MAX {
            self.input_cursor = (self.input_cursor.0, self.input_cursor.1 + 1);
        }
    }
}

/// The keyboard poll timeout for the render loop: short while a reply is
/// streaming, longer after five seconds of silence.
pub fn poll_timeout_ms(millis_since_last_delta: u64) -> (r: u64)
    ensures
        millis_since_last_delta < 5000 ==> r == 5,
        millis_since_last_delta >= 5000 ==> r == 25,
{
    if millis_since_last_delta < 5000 {
        5
    } else {
        25
    }
}


/// A base byte run with each delta appended in turn, as the repeated
/// `receive_delta` calls of one streamed reply grow the in-flight
/// assistant message.
pub open spec fn fold_append(base: Seq<u8>, deltas: Seq<Seq<u8>>) -> Seq<u8>
    decreases deltas.len(),
{
    if deltas.len() == 0 {
        base
    } else {
        fold_append(base + deltas[0], deltas.drop_first())
    }
}

/// Law: a streamed reply ends as the concatenation of its deltas.
/// `submit_message` leaves the in-flight assistant message empty, and each
/// `receive_delta` appends one delta to it; so after any run of deltas the
/// assistant message holds exactly their concatenation.
pub proof fn lemma_streamed_reply_concatenation(base: Seq<u8>, deltas: Seq<Seq<u8>>)
    ensures
        fold_append(base, deltas) == base + deltas.flatten(),
    decreases deltas.len(),
{
    if deltas.len() == 0 {
        assert(deltas.flatten() =~= Seq::<u8>::empty());
        assert(base + Seq::<u8>::empty() =~= base);
    } else {
        lemma_streamed_reply_concatenation(base + deltas[0], deltas.drop_first());
        assert(deltas.flatten() == deltas[0] + deltas.drop_first().flatten()) by {
            assert(deltas.first() == deltas[0]);
        }
        assert((base + deltas[0]) + deltas.drop_first().flatten() =~= base + (deltas[0]
            + deltas.drop_first().flatten()));
    }
}

} // verus!
