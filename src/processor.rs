use vstd::prelude::*;
use vstd::slice::slice_to_vec;
use vstd::utf8::*;

use crate::model::{
    backslashes_before, blank, comma_step, comment_step, cursor_ok, finish, lemma_step_cursor, run, step, initial_state, is_escaped_at,
    CommentType, ScanState, BACKSLASH, QUOTE, CLOSE_BRACE, CLOSE_BRACKET, COMMA, CR, LF, SLASH, SPACE, STAR,
    TAB,
};

verus! {

/// Appends `src[start..end]` to `dst`.
fn extend_from_range(dst: &mut Vec<u8>, src: &Vec<u8>, start: usize, end: usize)
    requires
        start <= end <= src@.len(),
    ensures
        final(dst)@ == old(dst)@ + src@.subrange(start as int, end as int),
{
    let mut k: usize = start;
    while k < end
        invariant
            start <= k <= end <= src@.len(),
            dst@ == old(dst)@ + src@.subrange(start as int, k as int),
        decreases end - k,
    {
        dst.push(src[k]);
        k += 1;
        assert(dst@ =~= old(dst)@ + src@.subrange(start as int, k as int));
    }
}

/// Appends `src[start..end]` to `dst` with every byte that is not whitespace
/// replaced by a space.
fn blank_into(dst: &mut Vec<u8>, src: &Vec<u8>, start: usize, end: usize)
    requires
        start <= end <= src@.len(),
    ensures
        final(dst)@ == old(dst)@ + blank(src@.subrange(start as int, end as int), true),
{
    let mut k: usize = start;
    while k < end
        invariant
            start <= k <= end <= src@.len(),
            dst@ == old(dst)@ + blank(src@.subrange(start as int, k as int), true),
        decreases end - k,
    {
        let byte = src[k];
        if byte == SPACE || byte == TAB || byte == CR || byte == LF {
            dst.push(byte);
        } else {
            dst.push(SPACE);
        }
        k += 1;
        assert(dst@ =~= old(dst)@ + blank(src@.subrange(start as int, k as int), true));
    }
}

/// Relies on String::from_utf8_lossy: valid UTF-8 comes back as the same text.
#[verifier::external_body]
fn text_from_bytes(v: &Vec<u8>) -> (r: String)
    ensures
        valid_utf8(v@) ==> encode_utf8(r@) == v@,
{
    String::from_utf8_lossy(v).into_owned()
}

/// Single-pass scanner that strips comments, and optionally trailing commas,
/// from a JSON text.
pub struct JsonProcessor {
    bytes: Vec<u8>,
    len: usize,
    index: usize,
    offset: usize,
    is_inside_string: bool,
    is_inside_comment: CommentType,
    buffer: Vec<u8>,
    result: Vec<u8>,
    comma_index: Option<usize>,
    whitespace: bool,
    trailing_commas: bool,
}

impl JsonProcessor {
    /// The input bytes being scanned.
    pub closed spec fn input(&self) -> Seq<u8> {
        self.bytes@
    }

    /// Whether removed spans are blanked rather than deleted.
    pub closed spec fn keeps_whitespace(&self) -> bool {
        self.whitespace
    }

    /// Whether trailing commas are stripped too.
    pub closed spec fn strips_commas(&self) -> bool {
        self.trailing_commas
    }

    /// The scanner state this processor stands for.
    pub closed spec fn state(&self) -> ScanState {
        ScanState {
            index: self.index as int,
            offset: self.offset as int,
            in_string: self.is_inside_string,
            mode: self.is_inside_comment,
            buffer: self.buffer@,
            result: self.result@,
            comma: self.comma_index is Some,
        }
    }

    /// The cached length matches the input.
    pub closed spec fn consistent(&self) -> bool {
        self.len == self.bytes@.len()
    }

    /// The processor is consistent and its cursor is in bounds.
    pub open spec fn wf(&self) -> bool {
        self.consistent() && cursor_ok(self.input(), self.state())
    }

    /// Both processors scan the same input with the same options.
    pub open spec fn same_setup(&self, other: &JsonProcessor) -> bool {
        self.input() == other.input() && self.keeps_whitespace() == other.keeps_whitespace()
            && self.strips_commas() == other.strips_commas()
    }

    /// Create a new processor with the given options
    pub fn new(input: String, whitespace: bool, trailing_commas: bool) -> (p: Self)
        ensures
            p.wf(),
            p.input() == encode_utf8(input@),
            p.state() == initial_state(),
            p.keeps_whitespace() == whitespace,
            p.strips_commas() == trailing_commas,
    {
        let bytes = slice_to_vec(input.as_str().as_bytes());
        let len = bytes.len();
        JsonProcessor {
            bytes,
            len,
            index: 0,
            offset: 0,
            is_inside_string: false,
            is_inside_comment: CommentType::Outside,
            buffer: Vec::with_capacity(len),
            result: Vec::with_capacity(len),
            comma_index: None,
            whitespace,
            trailing_commas,
        }
    }

    /// Flush bytes from offset to end into buffer
    pub fn flush_to_buffer(&mut self, end: usize)
        requires
            old(self).consistent(),
            end <= old(self).input().len(),
        ensures
            final(self).consistent(),
            final(self).same_setup(old(self)),
            old(self).state().offset < end ==> final(self).state() == (ScanState {
                buffer: old(self).state().buffer + old(self).input().subrange(
                    old(self).state().offset,
                    end as int,
                ),
                ..old(self).state()
            }),
            old(self).state().offset >= end ==> final(self).state() == old(self).state(),
    {
        if self.offset < end {
            extend_from_range(&mut self.buffer, &self.bytes, self.offset, end);
        }
    }

    /// Flush bytes from offset to end into result
    pub fn flush_to_result(&mut self, end: usize)
        requires
            old(self).consistent(),
            end <= old(self).input().len(),
        ensures
            final(self).consistent(),
            final(self).same_setup(old(self)),
            old(self).state().offset < end ==> final(self).state() == (ScanState {
                result: old(self).state().result + old(self).input().subrange(
                    old(self).state().offset,
                    end as int,
                ),
                ..old(self).state()
            }),
            old(self).state().offset >= end ==> final(self).state() == old(self).state(),
    {
        if self.offset < end {
            extend_from_range(&mut self.result, &self.bytes, self.offset, end);
        }
    }

    /// Strip a range and append to buffer
    pub fn strip_and_append_to_buffer(&mut self, start: usize, end: usize)
        requires
            old(self).consistent(),
            start <= end <= old(self).input().len(),
        ensures
            final(self).consistent(),
            final(self).same_setup(old(self)),
            final(self).state() == (ScanState {
                buffer: old(self).state().buffer + blank(
                    old(self).input().subrange(start as int, end as int),
                    old(self).keeps_whitespace(),
                ),
                ..old(self).state()
            }),
    {
        if self.whitespace {
            blank_into(&mut self.buffer, &self.bytes, start, end);
        } else {
            // Without whitespace preservation the span is dropped entirely.
            assert(self.buffer@ + Seq::empty() =~= self.buffer@);
        }
    }

    /// Check if current position is an escaped quote
    pub fn is_escaped(&self) -> (r: bool)
        requires
            self.wf(),
        ensures
            r == is_escaped_at(self.input(), self.state().index),
    {
        let mut backslash_count: usize = 0;
        let mut idx: usize = self.index;
        while idx > 0 && self.bytes[idx - 1] == BACKSLASH
            invariant
                idx <= self.index <= self.bytes@.len(),
                backslash_count == self.index - idx,
                backslash_count + backslashes_before(self.bytes@, idx as int) == backslashes_before(
                    self.bytes@,
                    self.index as int,
                ),
            decreases idx,
        {
            backslash_count += 1;
            idx -= 1;
        }
        backslash_count % 2 == 1
    }
    /// Handle entering/exiting comments. Returns true when a comment starts or
    /// ends at the cursor.
    pub fn handle_comment_transition(&mut self, current: u8, next: Option<u8>) -> (r: bool)
        requires
            old(self).wf(),
            old(self).state().index < old(self).input().len(),
            current == old(self).input()[old(self).state().index],
            next == (if old(self).state().index + 1 < old(self).input().len() {
                Some(old(self).input()[old(self).state().index + 1])
            } else {
                None::<u8>
            }),
        ensures
            final(self).consistent(),
            final(self).same_setup(old(self)),
            r == comment_step(old(self).input(), old(self).keeps_whitespace(), old(self).state()) is Some,
            r ==> (ScanState { index: final(self).state().index + 1, ..final(self).state() })
                == comment_step(old(self).input(), old(self).keeps_whitespace(), old(self).state()).unwrap(),
            !r ==> final(self).state() == old(self).state(),
            final(self).state().index < old(self).input().len(),
    {
        if self.is_inside_comment == CommentType::Outside && current == SLASH && next == Some(SLASH) {
            // Enter single-line comment
            self.flush_to_buffer(self.index);
            self.offset = self.index;
            self.is_inside_comment = CommentType::Single;
            self.index += 1;  // Skip second '/'
            true
        } else if self.is_inside_comment == CommentType::Single && current == CR && next == Some(LF) {
            // Exit single-line comment via \r\n
            self.index += 2;
            self.is_inside_comment = CommentType::Outside;
            self.strip_and_append_to_buffer(self.offset, self.index);
            self.offset = self.index;
            self.index -= 1;  // Will be incremented by main loop
            true
        } else if self.is_inside_comment == CommentType::Single && current == LF {
            // Exit single-line comment via \n
            self.index += 1;
            self.is_inside_comment = CommentType::Outside;
            self.strip_and_append_to_buffer(self.offset, self.index);
            self.offset = self.index;
            self.index -= 1;  // Will be incremented by main loop
            true
        } else if self.is_inside_comment == CommentType::Outside && current == SLASH && next == Some(
            STAR,
        ) {
            // Enter multiline comment
            self.flush_to_buffer(self.index);
            self.offset = self.index;
            self.is_inside_comment = CommentType::Multi;
            self.index += 1;  // Skip '*'
            true
        } else if self.is_inside_comment == CommentType::Multi && current == STAR && next == Some(
            SLASH,
        ) {
            // Exit multiline comment
            self.index += 2;
            self.is_inside_comment = CommentType::Outside;
            self.strip_and_append_to_buffer(self.offset, self.index);
            self.offset = self.index;
            self.index -= 1;  // Will be incremented by main loop
            true
        } else {
            false
        }
    }

    /// Handle trailing comma detection and stripping
    pub fn handle_trailing_comma(&mut self, current: u8)
        requires
            old(self).wf(),
            old(self).state().index < old(self).input().len(),
            current == old(self).input()[old(self).state().index],
        ensures
            final(self).wf(),
            final(self).same_setup(old(self)),
            final(self).state() == comma_step(
                old(self).input(),
                old(self).keeps_whitespace(),
                old(self).state(),
            ),
    {
        if self.comma_index.is_some() {
            if current == CLOSE_BRACE || current == CLOSE_BRACKET {
                // Strip trailing comma
                self.flush_to_buffer(self.index);
                // Strip the first byte (the comma) from buffer
                if !self.buffer.is_empty() {
                    if self.whitespace {
                        self.result.push(SPACE);
                    }
                    let ghost pre = self.result@;
                    extend_from_range(&mut self.result, &self.buffer, 1, self.buffer.len());
                    assert(self.buffer@.subrange(1, self.buffer@.len() as int) =~= self.buffer@.drop_first());
                    if self.whitespace {
                        assert(pre =~= old(self).result@ + seq![SPACE]);
                    } else {
                        assert(pre =~= old(self).result@ + Seq::<u8>::empty());
                    }
                }
                self.buffer.clear();
                self.offset = self.index;
                self.comma_index = None;
            } else if !(current == SPACE || current == TAB || current == CR || current == LF) {
                // Hit non-whitespace after comma; comma is not trailing
                self.flush_to_buffer(self.index);
                self.offset = self.index;
                self.comma_index = None;
            }
        } else if current == COMMA {
            // Flush buffer and record comma position
            self.result.append(&mut self.buffer);
            self.flush_to_result(self.index);
            self.buffer.clear();
            self.offset = self.index;
            self.comma_index = Some(self.index);
        }
    }
    /// Process a single byte position
    pub fn process_byte(&mut self)
        requires
            old(self).wf(),
            old(self).state().index < old(self).input().len(),
        ensures
            final(self).consistent(),
            final(self).same_setup(old(self)),
            (ScanState { index: final(self).state().index + 1, ..final(self).state() }) == step(
                old(self).input(),
                old(self).keeps_whitespace(),
                old(self).strips_commas(),
                old(self).state(),
            ),
            final(self).state().index < old(self).input().len(),
    {
        let current = self.bytes[self.index];
        let next = if self.index + 1 < self.len {
            Some(self.bytes[self.index + 1])
        } else {
            None
        };

        // Handle string boundaries
        if self.is_inside_comment == CommentType::Outside && current == QUOTE && !self.is_escaped() {
            self.is_inside_string = !self.is_inside_string;
        }

        // Skip processing when inside a string
        if self.is_inside_string {
            return;
        }

        // Handle comment transitions
        if self.handle_comment_transition(current, next) {
            return;
        }

        // Handle trailing commas
        if self.trailing_commas && self.is_inside_comment == CommentType::Outside {
            self.handle_trailing_comma(current);
        }
    }

    /// Process the entire input and return the result
    pub fn process(self) -> (r: String)
        requires
            self.wf(),
        ensures
            valid_utf8(
                finish(
                    self.input(),
                    self.keeps_whitespace(),
                    run(self.input(), self.keeps_whitespace(), self.strips_commas(), self.state()),
                ),
            ) ==> encode_utf8(r@) == finish(
                self.input(),
                self.keeps_whitespace(),
                run(self.input(), self.keeps_whitespace(), self.strips_commas(), self.state()),
            ),
    {
        let ghost start = self;
        let mut p = self;
        while p.index < p.len
            invariant
                p.wf(),
                p.same_setup(&start),
                run(p.input(), p.keeps_whitespace(), p.strips_commas(), p.state())
                    == run(start.input(), start.keeps_whitespace(), start.strips_commas(), start.state()),
            decreases p.input().len() - p.state().index,
        {
            proof {
                lemma_step_cursor(p.input(), p.keeps_whitespace(), p.strips_commas(), p.state());
            }
            p.process_byte();
            p.index += 1;
        }
        p.finalize()
    }

    /// Finalize processing and return the result
    pub fn finalize(self) -> (r: String)
        requires
            self.wf(),
            self.state().index == self.input().len(),
        ensures
            valid_utf8(finish(self.input(), self.keeps_whitespace(), self.state())) ==> encode_utf8(r@)
                == finish(self.input(), self.keeps_whitespace(), self.state()),
    {
        let ghost start = self;
        let mut p = self;
        if p.is_inside_comment == CommentType::Single {
            p.strip_and_append_to_buffer(p.offset, p.len);
        } else {
            p.flush_to_buffer(p.len);
        }
        p.result.append(&mut p.buffer);
        assert(p.result@ =~= finish(start.input(), start.keeps_whitespace(), start.state()));
        text_from_bytes(&p.result)
    }
}

} // verus!
