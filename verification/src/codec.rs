//! The record codec: how one task is rendered as a fixed-width text line,
//! and how pieces of an existing line are read back or replaced.
//!
//! A record line has four fields in fixed order: the index (left-aligned,
//! at least `INDEX_WIDTH` characters), one space, the description
//! (left-aligned, at least `TASK_WIDTH` characters), a two-space gutter,
//! the time range (right-aligned, at least `TIME_WIDTH` characters), the
//! separator `" | "`, and a single completion glyph as the final character.
//! The index field and its trailing space together occupy `BODY_OFFSET`
//! characters, so the part of a line after the index (its "body") starts at
//! that fixed offset.

use vstd::prelude::*;

verus! {

/// Width of the index field of a record line.
pub const INDEX_WIDTH: usize = 3;

/// Width of the description field of a record line.
pub const TASK_WIDTH: usize = 30;

/// Width of the time-range field of a record line.
pub const TIME_WIDTH: usize = 20;

/// Offset of a line's body: the index field plus the one space after it.
pub const BODY_OFFSET: usize = 4;

/// The glyph that marks a completed task.
pub const DONE_GLYPH: char = '✓';

/// The glyph that marks a task not yet completed.
pub const NOT_DONE_GLYPH: char = '✕';

/// The completion glyph for the given state.
pub open spec fn glyph_char(done: bool) -> char {
    if done {
        DONE_GLYPH
    } else {
        NOT_DONE_GLYPH
    }
}

/// `n` space characters.
pub open spec fn spaces(n: nat) -> Seq<char> {
    Seq::new(n, |i: int| ' ')
}

/// `s` left-aligned in a field of at least `width` characters.
pub open spec fn pad_right(s: Seq<char>, width: nat) -> Seq<char> {
    if s.len() >= width {
        s
    } else {
        s + spaces((width - s.len()) as nat)
    }
}

/// `s` right-aligned in a field of at least `width` characters.
pub open spec fn pad_left(s: Seq<char>, width: nat) -> Seq<char> {
    if s.len() >= width {
        s
    } else {
        spaces((width - s.len()) as nat) + s
    }
}

/// Decimal digit characters of `n`, most significant first.
pub open spec fn dec_digits(n: nat) -> Seq<char>
    decreases n,
{
    if n < 10 {
        seq![digit_char(n)]
    } else {
        dec_digits(n / 10).push(digit_char(n % 10))
    }
}

/// Decimal rendering of `i`, with a leading minus sign when negative.
pub open spec fn dec_int(i: int) -> Seq<char> {
    if i < 0 {
        seq!['-'] + dec_digits((-i) as nat)
    } else {
        dec_digits(i as nat)
    }
}

/// The character for a single decimal digit.
pub open spec fn digit_char(d: nat) -> char {
    if d == 0 {
        '0'
    } else if d == 1 {
        '1'
    } else if d == 2 {
        '2'
    } else if d == 3 {
        '3'
    } else if d == 4 {
        '4'
    } else if d == 5 {
        '5'
    } else if d == 6 {
        '6'
    } else if d == 7 {
        '7'
    } else if d == 8 {
        '8'
    } else {
        '9'
    }
}

/// The time-range text: `start`, `" - "`, `end`.
pub open spec fn time_range(start: Seq<char>, end: Seq<char>) -> Seq<char> {
    start + seq![' ', '-', ' '] + end
}

/// A whole record line, from an already rendered index field.
pub open spec fn encode_record(
    index: Seq<char>,
    task: Seq<char>,
    start: Seq<char>,
    end: Seq<char>,
    done: bool,
) -> Seq<char> {
    pad_right(index, INDEX_WIDTH as nat) + seq![' '] + pad_right(task, TASK_WIDTH as nat)
        + spaces(2) + pad_left(time_range(start, end), TIME_WIDTH as nat) + seq![' ', '|', ' ']
        + seq![glyph_char(done)]
}

/// Everything after the index field and its trailing space; a line shorter
/// than that prefix is handed back unchanged.
pub open spec fn body_of_spec(line: Seq<char>) -> Seq<char> {
    if line.len() < BODY_OFFSET as nat {
        line
    } else {
        line.subrange(BODY_OFFSET as int, line.len() as int)
    }
}

/// The body of `line` behind a freshly rendered index field for `index`.
pub open spec fn renumber_line_spec(index: int, line: Seq<char>) -> Seq<char> {
    pad_right(dec_int(index), INDEX_WIDTH as nat) + seq![' '] + body_of_spec(line)
}

/// Whether `line` refers to `index`: the decimal rendering of the index is
/// a character prefix of the line.
pub open spec fn matches_index(line: Seq<char>, index: int) -> bool {
    dec_int(index).is_prefix_of(line)
}

/// `line` with only its final character replaced by the glyph for `done`;
/// an empty line is left unchanged.
pub open spec fn toggle_glyph_spec(line: Seq<char>, done: bool) -> Seq<char> {
    if line.len() == 0 {
        line
    } else {
        line.update(line.len() - 1, glyph_char(done))
    }
}

/// Whether `line` records a completed task: it ends with the done glyph.
pub open spec fn is_done_spec(line: Seq<char>) -> bool {
    line.len() > 0 && line.last() == DONE_GLYPH
}

/// Renders `n` in decimal.
pub fn usize_to_string(n: usize) -> (s: String)
    ensures
        s@ == dec_digits(n as nat),
    decreases n,
{
    if n < 10 {
        digit_to_string(n)
    } else {
        let mut s = usize_to_string(n / 10);
        let d = digit_to_string(n % 10);
        s.append(d.as_str());
        s
    }
}

/// Renders `i` in decimal, with a minus sign when negative.
pub fn index_to_string(i: i8) -> (s: String)
    ensures
        s@ == dec_int(i as int),
{
    if i < 0 {
        let magnitude = -(i as i32);
        proof {
            reveal_strlit("-");
        }
        let mut s = String::from_str("-");
        let digits = usize_to_string(magnitude as usize);
        s.append(digits.as_str());
        proof {
            assert(s@ =~= seq!['-'] + dec_digits((-(i as int)) as nat));
        }
        s
    } else {
        usize_to_string(i as usize)
    }
}

/// Renders one decimal digit.
fn digit_to_string(d: usize) -> (s: String)
    requires
        d < 10,
    ensures
        s@ == seq![digit_char(d as nat)],
{
    let s = if d == 0 {
        proof {
            reveal_strlit("0");
        }
        String::from_str("0")
    } else if d == 1 {
        proof {
            reveal_strlit("1");
        }
        String::from_str("1")
    } else if d == 2 {
        proof {
            reveal_strlit("2");
        }
        String::from_str("2")
    } else if d == 3 {
        proof {
            reveal_strlit("3");
        }
        String::from_str("3")
    } else if d == 4 {
        proof {
            reveal_strlit("4");
        }
        String::from_str("4")
    } else if d == 5 {
        proof {
            reveal_strlit("5");
        }
        String::from_str("5")
    } else if d == 6 {
        proof {
            reveal_strlit("6");
        }
        String::from_str("6")
    } else if d == 7 {
        proof {
            reveal_strlit("7");
        }
        String::from_str("7")
    } else if d == 8 {
        proof {
            reveal_strlit("8");
        }
        String::from_str("8")
    } else {
        proof {
            reveal_strlit("9");
        }
        String::from_str("9")
    };
    proof {
        assert(s@ =~= seq![digit_char(d as nat)]);
    }
    s
}

/// Appends the completion glyph for `done`.
fn push_glyph(s: &mut String, done: bool)
    ensures
        final(s)@ == old(s)@.push(glyph_char(done)),
{
    if done {
        proof {
            reveal_strlit("✓");
        }
        s.append("✓");
        proof {
            assert(s@ =~= old(s)@.push(DONE_GLYPH));
        }
    } else {
        proof {
            reveal_strlit("✕");
        }
        s.append("✕");
        proof {
            assert(s@ =~= old(s)@.push(NOT_DONE_GLYPH));
        }
    }
}

/// Appends spaces until the text is at least `width` characters long.
fn pad_right_to(s: &mut String, width: usize)
    ensures
        final(s)@ == pad_right(old(s)@, width as nat),
{
    let n = s.unicode_len();
    let mut k = n;
    proof {
        reveal_strlit(" ");
        assert(s@ =~= old(s)@ + spaces(0));
    }
    while k < width
        invariant
            n <= k,
            n == old(s)@.len(),
            s@ == old(s)@ + spaces((k - n) as nat),
            k <= width || k == n,
        decreases width - k,
    {
        proof {
            reveal_strlit(" ");
        }
        s.append(" ");
        proof {
            assert(spaces((k + 1 - n) as nat) =~= spaces((k - n) as nat).push(' '));
            assert(s@ =~= old(s)@ + spaces((k + 1 - n) as nat));
        }
        k = k + 1;
    }
    proof {
        if n >= width {
            assert(s@ =~= old(s)@);
        }
    }
}

/// Renders a whole record line from an already rendered index field.
pub fn render_record(
    index: &String,
    task: &String,
    start: &String,
    end: &String,
    done: bool,
) -> (line: String)
    ensures
        line@ == encode_record(index@, task@, start@, end@, done),
{
    let mut line = index.clone();
    pad_right_to(&mut line, INDEX_WIDTH);
    proof {
        reveal_strlit(" ");
        reveal_strlit("  ");
        reveal_strlit(" - ");
        reveal_strlit(" | ");
    }
    line.append(" ");

    let mut task_field = task.clone();
    pad_right_to(&mut task_field, TASK_WIDTH);
    line.append(task_field.as_str());
    line.append("  ");

    let mut time = start.clone();
    time.append(" - ");
    time.append(end.as_str());
    let time_padded = pad_left_str(time, TIME_WIDTH);
    line.append(time_padded.as_str());
    line.append(" | ");
    push_glyph(&mut line, done);
    proof {
        assert(" "@ =~= seq![' ']);
        assert("  "@ =~= spaces(2));
        assert(" - "@ =~= seq![' ', '-', ' ']);
        assert(" | "@ =~= seq![' ', '|', ' ']);
        assert(line@ =~= encode_record(index@, task@, start@, end@, done));
    }
    line
}

/// Prepends spaces until the text is at least `width` characters long.
fn pad_left_str(s: String, width: usize) -> (r: String)
    ensures
        r@ == pad_left(s@, width as nat),
{
    let n = s.unicode_len();
    if n >= width {
        return s;
    }
    proof {
        reveal_strlit(" ");
        assert(" "@ =~= seq![' ']);
    }
    let mut r = String::new();
    let mut k: usize = 0;
    while k < width - n
        invariant
            k <= width - n,
            n == s@.len(),
            n < width,
            r@ == spaces(k as nat),
        decreases width - n - k,
    {
        proof {
            reveal_strlit(" ");
        }
        r.append(" ");
        proof {
            assert(spaces((k + 1) as nat) =~= spaces(k as nat).push(' '));
            assert(r@ =~= spaces((k + 1) as nat));
        }
        k = k + 1;
    }
    r.append(s.as_str());
    proof {
        assert(r@ =~= pad_left(s@, width as nat));
    }
    r
}

/// Everything after the index field and its trailing space; a line shorter
/// than that prefix is handed back unchanged.
pub fn body_of(line: &str) -> (r: String)
    ensures
        r@ == body_of_spec(line@),
{
    let n = line.unicode_len();
    if n < BODY_OFFSET {
        line.to_owned()
    } else {
        line.substring_char(BODY_OFFSET, n).to_owned()
    }
}

/// The body of `line` behind a freshly rendered index field for `index`.
pub fn renumber_line(index: usize, line: &str) -> (r: String)
    ensures
        r@ == renumber_line_spec(index as int, line@),
{
    let mut r = usize_to_string(index);
    pad_right_to(&mut r, INDEX_WIDTH);
    proof {
        reveal_strlit(" ");
        assert(" "@ =~= seq![' ']);
    }
    r.append(" ");
    let b = body_of(line);
    r.append(b.as_str());
    proof {
        assert(r@ =~= renumber_line_spec(index as int, line@));
    }
    r
}

/// `line` with only its final character replaced by the glyph for `done`;
/// an empty line is handed back unchanged.
pub fn toggle_glyph(line: &str, done: bool) -> (r: String)
    ensures
        r@ == toggle_glyph_spec(line@, done),
{
    let n = line.unicode_len();
    if n == 0 {
        line.to_owned()
    } else {
        let mut r = line.substring_char(0, n - 1).to_owned();
        push_glyph(&mut r, done);
        proof {
            assert(r@ =~= toggle_glyph_spec(line@, done));
        }
        r
    }
}

/// Whether `prefix` is a character prefix of `s`.
pub fn starts_with_chars(s: &str, prefix: &str) -> (b: bool)
    ensures
        b == prefix@.is_prefix_of(s@),
{
    let np = prefix.unicode_len();
    let ns = s.unicode_len();
    if np > ns {
        return false;
    }
    let mut i: usize = 0;
    while i < np
        invariant
            i <= np,
            np <= ns,
            np == prefix@.len(),
            ns == s@.len(),
            forall|j: int| 0 <= j < i ==> s@[j] == prefix@[j],
        decreases np - i,
    {
        if s.get_char(i) != prefix.get_char(i) {
            return false;
        }
        i = i + 1;
    }
    proof {
        assert(prefix@ =~= s@.subrange(0, np as int));
    }
    true
}

/// Whether `line` refers to `index`.
pub fn line_matches_index(line: &str, index: i8) -> (b: bool)
    ensures
        b == matches_index(line@, index as int),
{
    let p = index_to_string(index);
    starts_with_chars(line, p.as_str())
}

/// Whether `line` records a completed task.
pub fn is_done_line(line: &str) -> (b: bool)
    ensures
        b == is_done_spec(line@),
{
    let n = line.unicode_len();
    if n == 0 {
        false
    } else {
        let c = line.get_char(n - 1);
        c == DONE_GLYPH
    }
}

} // verus!
