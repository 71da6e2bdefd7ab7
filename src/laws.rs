use vstd::prelude::*;

use vstd::utf8::{
    is_char_boundary_iff_not_is_continuation_byte, is_char_boundary_start_end_of_seq,
    is_continuation_byte, partial_valid_utf8_extend_ascii_block, pop_first_scalar, valid_utf8,
    valid_utf8_concat, valid_utf8_split,
};

use crate::model::{
    blank, comment_step, cursor_ok, is_json_ws, finish, initial_state, is_escaped_at, lemma_step_cursor, run,
    step, stripped, CommentType, ScanState, COMMA, QUOTE, SLASH, SPACE, STAR,
};

verus! {

/// A `/` directly followed by `/` or `*` stands at position `i`.
pub open spec fn comment_opener_at(input: Seq<u8>, i: int) -> bool {
    0 <= i && i + 1 < input.len() && input[i] == SLASH && (input[i + 1] == SLASH || input[i + 1]
        == STAR)
}

/// Running the scanner from a state with a valid cursor ends with the cursor
/// at the end of the input.
pub proof fn lemma_run_reaches_end(input: Seq<u8>, whitespace: bool, trailing_commas: bool, s: ScanState)
    requires
        cursor_ok(input, s),
    ensures
        cursor_ok(input, run(input, whitespace, trailing_commas, s)),
        run(input, whitespace, trailing_commas, s).index == input.len(),
    decreases input.len() - s.index,
{
    if s.index < input.len() {
        lemma_step_cursor(input, whitespace, trailing_commas, s);
        lemma_run_reaches_end(input, whitespace, trailing_commas, step(input, whitespace, trailing_commas, s));
    }
}

/// In whitespace mode every byte consumed so far stands for exactly one byte
/// of result, buffer or pending span, and an open comma candidate has
/// staged at least the comma.
spec fn length_kept(s: ScanState) -> bool {
    &&& s.result.len() + s.buffer.len() + (s.index - s.offset) == s.index
    &&& s.comma ==> s.buffer.len() + (s.index - s.offset) >= 1
}

proof fn lemma_run_length(input: Seq<u8>, trailing_commas: bool, s: ScanState)
    requires
        cursor_ok(input, s),
        length_kept(s),
    ensures
        length_kept(run(input, true, trailing_commas, s)),
    decreases input.len() - s.index,
{
    if s.index < input.len() {
        lemma_step_cursor(input, true, trailing_commas, s);
        let t = step(input, true, trailing_commas, s);
        assert(length_kept(t));
        lemma_run_length(input, trailing_commas, t);
    }
}

/// With whitespace preservation on, the output is exactly as long as the
/// input: comments are blanked byte for byte and a trailing comma becomes a
/// space.
pub proof fn lemma_whitespace_keeps_length(input: Seq<u8>, trailing_commas: bool)
    ensures
        stripped(input, true, trailing_commas).len() == input.len(),
{
    lemma_run_reaches_end(input, true, trailing_commas, initial_state());
    lemma_run_length(input, trailing_commas, initial_state());
}

/// The scan from `s` adds no position before its cursor.
proof fn lemma_string_positions_before(
    input: Seq<u8>,
    whitespace: bool,
    trailing_commas: bool,
    s: ScanState,
    acc: Set<int>,
    p: int,
)
    requires
        p < s.index,
    ensures
        string_positions_from(input, whitespace, trailing_commas, s, acc).contains(p)
            == acc.contains(p),
    decreases input.len() - s.index,
{
    if 0 <= s.index < input.len() {
        let t = step(input, whitespace, trailing_commas, s);
        let acc2 = if reads_in_string(input, s) {
            acc.insert(s.index)
        } else {
            acc
        };
        if t.index > s.index {
            lemma_string_positions_before(input, whitespace, trailing_commas, t, acc2, p);
        }
    }
}

/// Without trailing-comma stripping, a scan that meets comment openers only
/// inside strings leaves everything pending from the start.
proof fn lemma_run_plain(input: Seq<u8>, whitespace: bool, s: ScanState, acc: Set<int>)
    requires
        forall|i: int|
            #[trigger] comment_opener_at(input, i) && i >= s.index ==> string_positions_from(
                input,
                whitespace,
                false,
                s,
                acc,
            ).contains(i),
        forall|p: int| #[trigger] acc.contains(p) ==> p < s.index,
        cursor_ok(input, s),
        s.offset == 0,
        s.buffer.len() == 0,
        s.result.len() == 0,
        s.mode == CommentType::Outside,
    ensures
        ({
            let t = run(input, whitespace, false, s);
            t.offset == 0 && t.buffer.len() == 0 && t.result.len() == 0 && t.mode
                == CommentType::Outside
        }),
    decreases input.len() - s.index,
{
    if s.index < input.len() {
        lemma_step_cursor(input, whitespace, false, s);
        let i = s.index;
        let t = step(input, whitespace, false, s);
        let acc2 = if reads_in_string(input, s) {
            acc.insert(s.index)
        } else {
            acc
        };
        if comment_opener_at(input, i) {
            lemma_string_positions_before(input, whitespace, false, t, acc2, i);
            assert(reads_in_string(input, s));
        }
        assert forall|j: int|
            #[trigger] comment_opener_at(input, j) && j >= t.index implies string_positions_from(
            input,
            whitespace,
            false,
            t,
            acc2,
        ).contains(j) by {
            assert(comment_opener_at(input, j) && j >= s.index);
        }
        lemma_run_plain(input, whitespace, t, acc2);
    }
}

/// An input whose comment-like sequences all lie inside string literals
/// comes back unchanged, whether or not removed spans would be blanked.
pub proof fn lemma_no_comments_unchanged(input: Seq<u8>, whitespace: bool)
    requires
        forall|i: int| #[trigger]
            comment_opener_at(input, i) ==> string_positions(input, whitespace, false).contains(i),
    ensures
        stripped(input, whitespace, false) == input,
{
    lemma_run_reaches_end(input, whitespace, false, initial_state());
    lemma_run_plain(input, whitespace, initial_state(), Set::empty());
    let t = run(input, whitespace, false, initial_state());
    assert(finish(input, whitespace, t) =~= input);
}

/// Inside a string, every byte but a closing quote passes through: the step
/// only moves the cursor past it, so it stays in the pending span verbatim,
/// whatever comment or comma it resembles.
pub proof fn lemma_string_bytes_pass_through(
    input: Seq<u8>,
    whitespace: bool,
    trailing_commas: bool,
    s: ScanState,
)
    requires
        cursor_ok(input, s),
        s.index < input.len(),
        s.in_string,
        s.mode == CommentType::Outside,
        !(input[s.index] == QUOTE && !is_escaped_at(input, s.index)),
    ensures
        step(input, whitespace, trailing_commas, s) == (ScanState { index: s.index + 1, ..s }),
{
}

/// An escaped quote inside a string does not end the string.
pub proof fn lemma_escaped_quote_stays_in_string(
    input: Seq<u8>,
    whitespace: bool,
    trailing_commas: bool,
    s: ScanState,
)
    requires
        cursor_ok(input, s),
        s.index < input.len(),
        s.in_string,
        s.mode == CommentType::Outside,
        input[s.index] == QUOTE,
        is_escaped_at(input, s.index),
    ensures
        step(input, whitespace, trailing_commas, s).in_string,
{
}

/// Position `k` starts a character of `input`, or is its end.
spec fn starts_char(input: Seq<u8>, k: int) -> bool {
    0 <= k <= input.len() && (k == input.len() || !is_continuation_byte(input[k]))
}

proof fn lemma_span_valid(input: Seq<u8>, x: int, y: int)
    requires
        valid_utf8(input),
        starts_char(input, x),
        starts_char(input, y),
        x <= y,
    ensures
        valid_utf8(input.subrange(x, y)),
{
    is_char_boundary_start_end_of_seq(input);
    if x < input.len() {
        is_char_boundary_iff_not_is_continuation_byte(input, x);
    }
    valid_utf8_split(input, x);
    let suffix = input.subrange(x, input.len() as int);
    is_char_boundary_start_end_of_seq(suffix);
    if y < input.len() {
        assert(suffix[y - x] == input[y]);
        is_char_boundary_iff_not_is_continuation_byte(suffix, y - x);
    }
    valid_utf8_split(suffix, y - x);
    assert(suffix.subrange(0, y - x) =~= input.subrange(x, y));
}

proof fn lemma_ascii_valid(s: Seq<u8>)
    requires
        forall|i: int| 0 <= i < s.len() ==> #[trigger] s[i] < 0x80,
    ensures
        valid_utf8(s),
{
    assert(s.subrange(0, 0) =~= Seq::<u8>::empty());
    partial_valid_utf8_extend_ascii_block(s, 0, s.len() as int);
    assert(s.subrange(0, s.len() as int) =~= s);
}

proof fn lemma_blank_valid(span: Seq<u8>, whitespace: bool)
    ensures
        valid_utf8(blank(span, whitespace)),
{
    lemma_ascii_valid(blank(span, whitespace));
}

proof fn lemma_after_ascii(input: Seq<u8>, k: int)
    requires
        valid_utf8(input),
        0 <= k < input.len(),
        input[k] < 0x80,
    ensures
        starts_char(input, k + 1),
{
    is_char_boundary_iff_not_is_continuation_byte(input, k);
    valid_utf8_split(input, k);
    let suffix = input.subrange(k, input.len() as int);
    assert(pop_first_scalar(suffix) =~= input.subrange(k + 1, input.len() as int));
    if k + 1 < input.len() {
        let rest = input.subrange(k + 1, input.len() as int);
        assert(valid_utf8(rest));
        assert(rest[0] == input[k + 1]);
    }
}

proof fn lemma_drop_ascii_head(s: Seq<u8>)
    requires
        valid_utf8(s),
        s.len() > 0,
        s[0] < 0x80,
    ensures
        valid_utf8(s.drop_first()),
{
    assert(pop_first_scalar(s) =~= s.drop_first());
}

/// What keeps the scanner's output valid text: both buffers hold valid
/// UTF-8, the pending span starts on a character, and an open comma
/// candidate has its comma first in line and follows an ASCII byte.
spec fn utf8_kept(input: Seq<u8>, trailing_commas: bool, s: ScanState) -> bool {
    &&& valid_utf8(s.result)
    &&& valid_utf8(s.buffer)
    &&& starts_char(input, s.offset)
    &&& !trailing_commas ==> !s.comma
    &&& s.comma ==> ((s.buffer.len() > 0 && s.buffer[0] == COMMA) || (s.buffer.len() == 0
        && s.offset < s.index && input[s.offset] == COMMA))
    &&& (s.comma && s.mode != CommentType::Outside) ==> s.buffer.len() > 0
    &&& (s.comma && !s.in_string && s.mode == CommentType::Outside) ==> (s.index >= 1
        && input[s.index - 1] < 0x80)
}

proof fn lemma_step_utf8(input: Seq<u8>, whitespace: bool, trailing_commas: bool, s: ScanState)
    requires
        valid_utf8(input),
        cursor_ok(input, s),
        s.index < input.len(),
        utf8_kept(input, trailing_commas, s),
    ensures
        utf8_kept(input, trailing_commas, step(input, whitespace, trailing_commas, s)),
{
    let i = s.index;
    let cur = input[i];
    let toggled = s.mode == CommentType::Outside && cur == QUOTE && !is_escaped_at(input, i);
    let s1 = if toggled {
        ScanState { in_string: !s.in_string, ..s }
    } else {
        s
    };
    assert(valid_utf8(Seq::<u8>::empty()));
    if s1.in_string {
    } else if comment_step(input, whitespace, s1) is Some {
        if s1.mode == CommentType::Outside {
            lemma_span_valid(input, s.offset, i);
            valid_utf8_concat(s.buffer, input.subrange(s.offset, i));
            if s.comma && s.buffer.len() == 0 {
                assert((s.buffer + input.subrange(s.offset, i))[0] == input[s.offset]);
            }
            if s.comma && s.buffer.len() > 0 {
                assert((s.buffer + input.subrange(s.offset, i))[0] == s.buffer[0]);
            }
        } else {
            let t = comment_step(input, whitespace, s1).unwrap();
            let end = t.offset;
            lemma_blank_valid(input.subrange(s.offset, end), whitespace);
            valid_utf8_concat(s.buffer, blank(input.subrange(s.offset, end), whitespace));
            if s.comma {
                assert((s.buffer + blank(input.subrange(s.offset, end), whitespace))[0]
                    == s.buffer[0]);
            }
            if end == i + 2 {
                lemma_after_ascii(input, i + 1);
            } else {
                lemma_after_ascii(input, i);
            }
        }
    } else if trailing_commas && s1.mode == CommentType::Outside {
        if s.comma {
            if !toggled && i >= 1 {
                lemma_after_ascii(input, i - 1);
            }
            if starts_char(input, i) {
                lemma_span_valid(input, s.offset, i);
                let staged = s.buffer + input.subrange(s.offset, i);
                valid_utf8_concat(s.buffer, input.subrange(s.offset, i));
                if staged.len() > 0 {
                    assert(staged[0] == COMMA);
                    lemma_drop_ascii_head(staged);
                    let gap: Seq<u8> = if whitespace {
                        seq![SPACE]
                    } else {
                        Seq::empty()
                    };
                    lemma_ascii_valid(gap);
                    valid_utf8_concat(s.result, gap);
                    valid_utf8_concat(s.result + gap, staged.drop_first());
                }
            }
        } else if cur == COMMA {
            lemma_span_valid(input, s.offset, i);
            valid_utf8_concat(s.result, s.buffer);
            valid_utf8_concat(s.result + s.buffer, input.subrange(s.offset, i));
        }
    }
}

proof fn lemma_run_utf8(input: Seq<u8>, whitespace: bool, trailing_commas: bool, s: ScanState)
    requires
        valid_utf8(input),
        cursor_ok(input, s),
        utf8_kept(input, trailing_commas, s),
    ensures
        utf8_kept(input, trailing_commas, run(input, whitespace, trailing_commas, s)),
    decreases input.len() - s.index,
{
    if s.index < input.len() {
        lemma_step_cursor(input, whitespace, trailing_commas, s);
        lemma_step_utf8(input, whitespace, trailing_commas, s);
        lemma_run_utf8(input, whitespace, trailing_commas, step(input, whitespace, trailing_commas, s));
    }
}

/// Stripping keeps valid UTF-8 valid: only whole ASCII spans are removed and
/// only ASCII bytes are written.
pub proof fn lemma_stripping_keeps_utf8(input: Seq<u8>, whitespace: bool, trailing_commas: bool)
    requires
        valid_utf8(input),
    ensures
        valid_utf8(stripped(input, whitespace, trailing_commas)),
{
    assert(valid_utf8(Seq::<u8>::empty()));
    lemma_run_reaches_end(input, whitespace, trailing_commas, initial_state());
    lemma_run_utf8(input, whitespace, trailing_commas, initial_state());
    let t = run(input, whitespace, trailing_commas, initial_state());
    let tail = input.subrange(t.offset, input.len() as int);
    lemma_span_valid(input, t.offset, input.len() as int);
    lemma_blank_valid(tail, whitespace);
    valid_utf8_concat(t.result, t.buffer);
    valid_utf8_concat(t.result + t.buffer, tail);
    valid_utf8_concat(t.result + t.buffer, blank(tail, whitespace));
}

/// The byte at the cursor is read inside a string literal, or is one of its
/// quotes.
pub open spec fn reads_in_string(input: Seq<u8>, s: ScanState) -> bool {
    s.in_string || (s.mode == CommentType::Outside && input[s.index] == QUOTE && !is_escaped_at(
        input,
        s.index,
    ))
}

/// Adds to `acc` the positions that the scan from `s` reads inside strings.
pub open spec fn string_positions_from(
    input: Seq<u8>,
    whitespace: bool,
    trailing_commas: bool,
    s: ScanState,
    acc: Set<int>,
) -> Set<int>
    decreases input.len() - s.index,
{
    if 0 <= s.index < input.len() {
        let t = step(input, whitespace, trailing_commas, s);
        let acc2 = if reads_in_string(input, s) {
            acc.insert(s.index)
        } else {
            acc
        };
        if t.index > s.index {
            string_positions_from(input, whitespace, trailing_commas, t, acc2)
        } else {
            acc2
        }
    } else {
        acc
    }
}

/// The positions of `input` that the scanner reads inside string literals,
/// quotes included.
pub open spec fn string_positions(input: Seq<u8>, whitespace: bool, trailing_commas: bool) -> Set<
    int,
> {
    string_positions_from(input, whitespace, trailing_commas, initial_state(), Set::empty())
}

/// In whitespace mode, the string bytes read so far already stand at their
/// own positions in result and buffer, or are still pending outside any
/// comment; an open comma's position is never a string byte.
spec fn strings_placed(input: Seq<u8>, s: ScanState, acc: Set<int>) -> bool {
    &&& length_kept(s)
    &&& s.in_string ==> s.mode == CommentType::Outside
    &&& forall|p: int| #[trigger] acc.contains(p) ==> 0 <= p < s.index
    &&& forall|p: int|
        #[trigger] acc.contains(p) && p < s.offset ==> (s.result + s.buffer)[p] == input[p]
    &&& forall|p: int| #[trigger] acc.contains(p) && p >= s.offset ==> s.mode == CommentType::Outside
    &&& s.comma ==> s.result.len() < s.index && !acc.contains(s.result.len() as int)
}

proof fn lemma_step_strings(input: Seq<u8>, trailing_commas: bool, s: ScanState, acc: Set<int>)
    requires
        cursor_ok(input, s),
        s.index < input.len(),
        strings_placed(input, s, acc),
    ensures
        strings_placed(
            input,
            step(input, true, trailing_commas, s),
            if reads_in_string(input, s) {
                acc.insert(s.index)
            } else {
                acc
            },
        ),
{
    let i = s.index;
    let t = step(input, true, trailing_commas, s);
    let acc2 = if reads_in_string(input, s) {
        acc.insert(s.index)
    } else {
        acc
    };
    let old_out = s.result + s.buffer;
    let new_out = t.result + t.buffer;
    assert forall|p: int| #[trigger] acc2.contains(p) && p < t.offset implies new_out[p] == input[p] by {
        if p < s.offset {
            assert(old_out[p] == input[p]);
        }
        if s.comma && t.result.len() > s.result.len() && !t.comma && t.buffer.len() == 0 {
            let staged = s.buffer + input.subrange(s.offset, i);
            if p > s.result.len() && p < t.offset {
                if p < s.offset {
                    assert(staged[p - s.result.len()] == old_out[p]);
                } else {
                    assert(staged[p - s.result.len()] == input[p]);
                }
            }
        }
    }
    assert(strings_placed(input, t, acc2));
}

proof fn lemma_run_strings(input: Seq<u8>, trailing_commas: bool, s: ScanState, acc: Set<int>)
    requires
        cursor_ok(input, s),
        strings_placed(input, s, acc),
    ensures
        strings_placed(
            input,
            run(input, true, trailing_commas, s),
            string_positions_from(input, true, trailing_commas, s, acc),
        ),
    decreases input.len() - s.index,
{
    if s.index < input.len() {
        lemma_step_cursor(input, true, trailing_commas, s);
        lemma_step_strings(input, trailing_commas, s, acc);
        let acc2 = if reads_in_string(input, s) {
            acc.insert(s.index)
        } else {
            acc
        };
        lemma_run_strings(input, trailing_commas, step(input, true, trailing_commas, s), acc2);
    }
}

/// With whitespace preservation on, every byte read inside a string literal
/// appears unchanged at its own position in the output, whatever comment or
/// comma it resembles.
pub proof fn lemma_string_bytes_kept(input: Seq<u8>, trailing_commas: bool, k: int)
    requires
        string_positions(input, true, trailing_commas).contains(k),
    ensures
        0 <= k < input.len(),
        stripped(input, true, trailing_commas)[k] == input[k],
{
    lemma_run_reaches_end(input, true, trailing_commas, initial_state());
    lemma_run_strings(input, trailing_commas, initial_state(), Set::empty());
    let t = run(input, true, trailing_commas, initial_state());
    let out = t.result + t.buffer;
    if k < t.offset {
        assert(out[k] == input[k]);
    }
}

/// An output byte that either keeps the input byte or blanks one that is not
/// whitespace.
pub open spec fn kept_or_blanked(input_byte: u8, output_byte: u8) -> bool {
    output_byte == input_byte || (output_byte == SPACE && !is_json_ws(input_byte))
}

/// In whitespace mode, result and buffer line up with the input byte for
/// byte, and an open comma sits at the first position after the result.
spec fn bytes_lined_up(input: Seq<u8>, s: ScanState) -> bool {
    &&& length_kept(s)
    &&& forall|p: int|
        0 <= p < s.offset ==> #[trigger] kept_or_blanked(input[p], (s.result + s.buffer)[p])
    &&& s.comma ==> s.result.len() < s.index && input[s.result.len() as int] == COMMA
}

proof fn lemma_step_lined_up(input: Seq<u8>, trailing_commas: bool, s: ScanState)
    requires
        cursor_ok(input, s),
        s.index < input.len(),
        bytes_lined_up(input, s),
    ensures
        bytes_lined_up(input, step(input, true, trailing_commas, s)),
{
    let i = s.index;
    let t = step(input, true, trailing_commas, s);
    let old_out = s.result + s.buffer;
    let new_out = t.result + t.buffer;
    assert forall|p: int| 0 <= p < t.offset implies #[trigger] kept_or_blanked(
        input[p],
        new_out[p],
    ) by {
        if p < s.offset {
            assert(kept_or_blanked(input[p], old_out[p]));
        }
        if s.comma && t.result.len() > s.result.len() && !t.comma && t.buffer.len() == 0 {
            let staged = s.buffer + input.subrange(s.offset, i);
            if p > s.result.len() && p < t.offset {
                if p < s.offset {
                    assert(staged[p - s.result.len()] == old_out[p]);
                } else {
                    assert(staged[p - s.result.len()] == input[p]);
                }
            }
        }
    }
}

proof fn lemma_run_lined_up(input: Seq<u8>, trailing_commas: bool, s: ScanState)
    requires
        cursor_ok(input, s),
        bytes_lined_up(input, s),
    ensures
        bytes_lined_up(input, run(input, true, trailing_commas, s)),
    decreases input.len() - s.index,
{
    if s.index < input.len() {
        lemma_step_cursor(input, true, trailing_commas, s);
        lemma_step_lined_up(input, trailing_commas, s);
        lemma_run_lined_up(input, trailing_commas, step(input, true, trailing_commas, s));
    }
}

/// With whitespace preservation on, each output byte is the input byte at
/// the same position, or a space standing for a byte that is not whitespace:
/// line and column positions are kept, and so is every space, tab, carriage
/// return and line feed.
pub proof fn lemma_whitespace_blanks_in_place(input: Seq<u8>, trailing_commas: bool, k: int)
    requires
        0 <= k < input.len(),
    ensures
        stripped(input, true, trailing_commas).len() == input.len(),
        kept_or_blanked(input[k], stripped(input, true, trailing_commas)[k]),
{
    lemma_whitespace_keeps_length(input, trailing_commas);
    lemma_run_reaches_end(input, true, trailing_commas, initial_state());
    lemma_run_lined_up(input, trailing_commas, initial_state());
    let t = run(input, true, trailing_commas, initial_state());
    let out = t.result + t.buffer;
    if k < t.offset {
        assert(kept_or_blanked(input[k], out[k]));
    }
}

} // verus!
