use vstd::prelude::*;

verus! {

pub const QUOTE: u8 = 34;
pub const BACKSLASH: u8 = 92;
pub const SLASH: u8 = 47;
pub const STAR: u8 = 42;
pub const CR: u8 = 13;
pub const LF: u8 = 10;
pub const SPACE: u8 = 32;
pub const TAB: u8 = 9;
pub const COMMA: u8 = 44;
pub const CLOSE_BRACE: u8 = 125;
pub const CLOSE_BRACKET: u8 = 93;

/// Which kind of comment the scanner is currently inside, if any.
#[derive(PartialEq, Eq, Structural, Clone, Copy, Debug)]
pub enum CommentType {
    Outside,
    Single,
    Multi,
}

/// The scanner's state between two steps: cursor, mode, string flag,
/// pending buffer, output buffer and whether a trailing-comma candidate is open.
pub ghost struct ScanState {
    pub index: int,
    pub offset: int,
    pub in_string: bool,
    pub mode: CommentType,
    pub buffer: Seq<u8>,
    pub result: Seq<u8>,
    pub comma: bool,
}

/// Space, tab, carriage return or line feed.
pub open spec fn is_json_ws(b: u8) -> bool {
    b == SPACE || b == TAB || b == CR || b == LF
}

/// What a removed span contributes to the output: nothing, or (when
/// positions are preserved) a space for each byte that is not already whitespace.
pub open spec fn blank(span: Seq<u8>, whitespace: bool) -> Seq<u8> {
    if whitespace {
        span.map_values(|b: u8| if is_json_ws(b) { b } else { SPACE })
    } else {
        Seq::empty()
    }
}

/// The number of consecutive backslashes right before position `i`.
pub open spec fn backslashes_before(input: Seq<u8>, i: int) -> nat
    decreases i,
{
    if 0 < i <= input.len() && input[i - 1] == BACKSLASH {
        1 + backslashes_before(input, i - 1)
    } else {
        0
    }
}

/// A quote at position `i` is escaped when an odd run of backslashes precedes it.
pub open spec fn is_escaped_at(input: Seq<u8>, i: int) -> bool {
    backslashes_before(input, i) % 2 == 1
}

/// The byte after position `i`, if there is one.
pub open spec fn next_is(input: Seq<u8>, i: int, b: u8) -> bool {
    i + 1 < input.len() && input[i + 1] == b
}

/// The state before the first byte: cursor at the start, nothing staged.
pub open spec fn initial_state() -> ScanState {
    ScanState {
        index: 0,
        offset: 0,
        in_string: false,
        mode: CommentType::Outside,
        buffer: Seq::empty(),
        result: Seq::empty(),
        comma: false,
    }
}

/// Entering a comment at the cursor: the pending span moves to the buffer and
/// the comment starts at the cursor; the two opening bytes are consumed.
pub open spec fn enter_comment(input: Seq<u8>, s: ScanState, mode: CommentType) -> ScanState {
    ScanState {
        buffer: s.buffer + input.subrange(s.offset, s.index),
        offset: s.index,
        mode,
        index: s.index + 2,
        ..s
    }
}

/// Leaving a comment whose span ends at `end`: the span is blanked into the
/// buffer and scanning resumes at `next`.
pub open spec fn exit_comment(
    input: Seq<u8>,
    whitespace: bool,
    s: ScanState,
    end: int,
    next: int,
) -> ScanState {
    ScanState {
        buffer: s.buffer + blank(input.subrange(s.offset, end), whitespace),
        offset: end,
        mode: CommentType::Outside,
        index: next,
        ..s
    }
}

/// Comment detection at the cursor, outside a string. `None` when no comment
/// starts or ends here; otherwise the state after the transition.
pub open spec fn comment_step(input: Seq<u8>, whitespace: bool, s: ScanState) -> Option<
    ScanState,
> {
    let i = s.index;
    let cur = input[i];
    if s.mode == CommentType::Outside && cur == SLASH && next_is(input, i, SLASH) {
        Some(enter_comment(input, s, CommentType::Single))
    } else if s.mode == CommentType::Single && cur == CR && next_is(input, i, LF) {
        Some(exit_comment(input, whitespace, s, i + 2, i + 2))
    } else if s.mode == CommentType::Single && cur == LF {
        Some(exit_comment(input, whitespace, s, i + 1, i + 1))
    } else if s.mode == CommentType::Outside && cur == SLASH && next_is(input, i, STAR) {
        Some(enter_comment(input, s, CommentType::Multi))
    } else if s.mode == CommentType::Multi && cur == STAR && next_is(input, i, SLASH) {
        Some(exit_comment(input, whitespace, s, i + 2, i + 2))
    } else {
        None
    }
}

/// Trailing-comma handling for the byte at the cursor (the cursor is not moved).
pub open spec fn comma_step(input: Seq<u8>, whitespace: bool, s: ScanState) -> ScanState {
    let i = s.index;
    let cur = input[i];
    if s.comma {
        if cur == CLOSE_BRACE || cur == CLOSE_BRACKET {
            let staged = s.buffer + input.subrange(s.offset, i);
            ScanState {
                result: if staged.len() > 0 {
                    s.result + (if whitespace {
                        seq![SPACE]
                    } else {
                        Seq::empty()
                    }) + staged.drop_first()
                } else {
                    s.result
                },
                buffer: Seq::empty(),
                offset: i,
                comma: false,
                ..s
            }
        } else if !is_json_ws(cur) {
            ScanState {
                buffer: s.buffer + input.subrange(s.offset, i),
                offset: i,
                comma: false,
                ..s
            }
        } else {
            s
        }
    } else if cur == COMMA {
        ScanState {
            result: s.result + s.buffer + input.subrange(s.offset, i),
            buffer: Seq::empty(),
            offset: i,
            comma: true,
            ..s
        }
    } else {
        s
    }
}

/// One step of the scanner on the byte at the cursor; the cursor moves past
/// every byte that was consumed.
pub open spec fn step(input: Seq<u8>, whitespace: bool, trailing_commas: bool, s: ScanState) -> ScanState {
    let i = s.index;
    let toggled = s.mode == CommentType::Outside && input[i] == QUOTE && !is_escaped_at(input, i);
    let s1 = if toggled {
        ScanState { in_string: !s.in_string, ..s }
    } else {
        s
    };
    if s1.in_string {
        ScanState { index: i + 1, ..s1 }
    } else if comment_step(input, whitespace, s1) is Some {
        comment_step(input, whitespace, s1).unwrap()
    } else if trailing_commas && s1.mode == CommentType::Outside {
        ScanState { index: i + 1, ..comma_step(input, whitespace, s1) }
    } else {
        ScanState { index: i + 1, ..s1 }
    }
}

/// Steps the scanner until the cursor reaches the end of the input.
pub open spec fn run(input: Seq<u8>, whitespace: bool, trailing_commas: bool, s: ScanState) -> ScanState
    decreases input.len() - s.index,
{
    if 0 <= s.index < input.len() {
        let t = step(input, whitespace, trailing_commas, s);
        if t.index > s.index {
            run(input, whitespace, trailing_commas, t)
        } else {
            t
        }
    } else {
        s
    }
}

/// The output once the input is exhausted: an open single-line comment is
/// closed at the end and blanked; anything else pending is kept as it is.
pub open spec fn finish(input: Seq<u8>, whitespace: bool, s: ScanState) -> Seq<u8> {
    let tail = input.subrange(s.offset, input.len() as int);
    if s.mode == CommentType::Single {
        s.result + s.buffer + blank(tail, whitespace)
    } else {
        s.result + s.buffer + tail
    }
}

/// The bytes that stripping comments (and, if asked, trailing commas) from
/// `input` produces.
pub open spec fn stripped(input: Seq<u8>, whitespace: bool, trailing_commas: bool) -> Seq<u8> {
    finish(input, whitespace, run(input, whitespace, trailing_commas, initial_state()))
}

/// The cursor invariant of every reachable state.
pub open spec fn cursor_ok(input: Seq<u8>, s: ScanState) -> bool {
    0 <= s.offset <= s.index <= input.len()
}

/// Every step keeps the cursor in bounds and moves it forward.
pub proof fn lemma_step_cursor(input: Seq<u8>, whitespace: bool, trailing_commas: bool, s: ScanState)
    requires
        cursor_ok(input, s),
        s.index < input.len(),
    ensures
        cursor_ok(input, step(input, whitespace, trailing_commas, s)),
        step(input, whitespace, trailing_commas, s).index > s.index,
{
}

} // verus!
