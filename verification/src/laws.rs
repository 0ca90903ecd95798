//! Laws of the record format and of the mutation engine, each proved over
//! the same spec functions the operations' contracts use.

use vstd::prelude::*;

use crate::codec::BODY_OFFSET;
use crate::codec::INDEX_WIDTH;
use crate::codec::body_of_spec;
use crate::codec::dec_digits;
use crate::codec::dec_int;
use crate::codec::encode_record;
use crate::codec::glyph_char;
use crate::codec::NOT_DONE_GLYPH;
use crate::codec::matches_index;
use crate::codec::pad_right;
use crate::codec::renumber_line_spec;
use crate::codec::time_range;
use crate::codec::toggle_glyph_spec;
use crate::codec::is_done_spec;
use crate::engine::done_pred;
use crate::engine::not_done_pred;
use crate::engine::remove_renumber;
use crate::engine::renumber_all;
use crate::engine::set_status_spec;
use crate::engine::sort_spec;
use crate::input::is_digit;

verus! {

/// After one `add` against each file, the main and backup files hold the
/// same number of lines — and so the same number of record lines — whenever
/// they did before the call.
pub proof fn lemma_add_keeps_file_balance(
    pre_main: Seq<Seq<char>>,
    pre_backup: Seq<Seq<char>>,
    post_main: Seq<Seq<char>>,
    post_backup: Seq<Seq<char>>,
    task: Seq<char>,
    start: Seq<char>,
    end: Seq<char>,
)
    requires
        pre_main.len() == pre_backup.len(),
        post_main == pre_main.push(
            encode_record(dec_digits(pre_main.len()), task, start, end, false),
        ),
        post_backup == pre_backup.push(
            encode_record(dec_digits(pre_backup.len()), task, start, end, false),
        ),
    ensures
        post_main.len() == post_backup.len(),
        post_main.last() == post_backup.last(),
{
}

/// A rendered record line carries the task text verbatim right after the
/// index field, the time range verbatim right before the final separator,
/// and the glyph for its completion state as its last character.
pub proof fn lemma_encode_embeds_fields(
    index: Seq<char>,
    task: Seq<char>,
    start: Seq<char>,
    end: Seq<char>,
    done: bool,
)
    ensures
        ({
            let line = encode_record(index, task, start, end, done);
            let task_at = pad_right(index, INDEX_WIDTH as nat).len() + 1;
            let time = time_range(start, end);
            &&& line.subrange(task_at as int, task_at + task.len() as int) == task
            &&& line.subrange(line.len() - 4 - time.len(), line.len() - 4) == time
            &&& line.last() == glyph_char(done)
        }),
{
    let line = encode_record(index, task, start, end, done);
    let task_at = pad_right(index, INDEX_WIDTH as nat).len() + 1;
    let time = time_range(start, end);
    assert(line.subrange(task_at as int, task_at + task.len() as int) =~= task);
    assert(line.subrange(line.len() - 4 - time.len(), line.len() - 4) =~= time);
}

/// A renumbered line refers to its new index: the index's decimal rendering
/// is a prefix of the line.
proof fn lemma_renumbered_line_matches(index: int, line: Seq<char>)
    requires
        index >= 0,
    ensures
        matches_index(renumber_line_spec(index, line), index),
{
    let r = renumber_line_spec(index, line);
    let d = dec_int(index);
    assert(pad_right(d, INDEX_WIDTH as nat).len() >= d.len());
    assert(r.subrange(0, d.len() as int) =~= d);
}

/// After a remove, the record lines left in the file answer to the dense
/// run of indices 1, 2, ... N: line `j` of the body refers to index `j`.
pub proof fn lemma_remove_renumbers_densely(lines: Seq<Seq<char>>, index: int)
    ensures
        ({
            let out = remove_renumber(lines, index);
            forall|j: int| 1 <= j < out.len() ==> matches_index(#[trigger] out[j], j)
        }),
{
    let out = remove_renumber(lines, index);
    if lines.len() > 0 {
        let kept = lines.skip(1).filter(|l: Seq<char>| !matches_index(l, index));
        assert forall|j: int| 1 <= j < out.len() implies matches_index(#[trigger] out[j], j) by {
            assert(out[j] == renumber_all(kept)[j - 1]);
            lemma_renumbered_line_matches(j, kept[j - 1]);
        }
    }
}

/// So does the output of a sort: its body lines likewise answer to the
/// dense run 1, 2, ... N.
pub proof fn lemma_sort_renumbers_densely(lines: Seq<Seq<char>>)
    ensures
        ({
            let out = crate::engine::sort_spec(lines);
            forall|j: int| 1 <= j < out.len() ==> matches_index(#[trigger] out[j], j)
        }),
{
    let out = crate::engine::sort_spec(lines);
    if lines.len() > 0 {
        let body = lines.skip(1);
        let kept = body.filter(crate::engine::not_done_pred()) + body.filter(
            crate::engine::done_pred(),
        );
        assert forall|j: int| 1 <= j < out.len() implies matches_index(#[trigger] out[j], j) by {
            assert(out[j] == renumber_all(kept)[j - 1]);
            lemma_renumbered_line_matches(j, kept[j - 1]);
        }
    }
}

/// A decimal rendering is never empty and always ends with a digit.
proof fn lemma_dec_digits_last(n: nat)
    ensures
        dec_digits(n).len() >= 1,
        is_digit(dec_digits(n).last()),
    decreases n,
{
    if n >= 10 {
        lemma_dec_digits_last(n / 10);
    }
}

/// Neither does a signed rendering end with anything but a digit.
proof fn lemma_dec_int_last(i: int)
    ensures
        dec_int(i).len() >= 1,
        is_digit(dec_int(i).last()),
{
    if i < 0 {
        lemma_dec_digits_last((-i) as nat);
    } else {
        lemma_dec_digits_last(i as nat);
    }
}

/// Marking a task done and then not done again hands back the file exactly
/// as it was, provided every line answering to the index carried the
/// not-done glyph — as every line does until it is marked done.
pub proof fn lemma_mark_roundtrip(lines: Seq<Seq<char>>, index: int)
    requires
        forall|j: int|
            1 <= j < lines.len() && matches_index(#[trigger] lines[j], index) ==> lines[j].len()
                > 0 && lines[j].last() == NOT_DONE_GLYPH,
    ensures
        set_status_spec(set_status_spec(lines, index, true), index, false) == lines,
{
    if lines.len() > 0 {
        let s1 = set_status_spec(lines, index, true);
        let s2 = set_status_spec(s1, index, false);
        assert forall|j: int| 1 <= j < lines.len() implies s2[j] == lines[j] by {
            let l = lines[j];
            if matches_index(l, index) {
                let d = dec_int(index);
                lemma_dec_int_last(index);
                if d.len() == l.len() {
                    assert(d =~= l);
                    assert(false);
                }
                let t = toggle_glyph_spec(l, true);
                assert(t.subrange(0, d.len() as int) =~= d);
                assert(matches_index(t, index));
                assert(s2[j] == toggle_glyph_spec(t, false));
                assert(toggle_glyph_spec(t, false) =~= l);
            } else {
                assert(s1[j] == l);
                assert(s2[j] == l);
            }
        }
        assert(s2 =~= lines);
    }
}

/// A number up to 999 renders in at most three digits — so it fits the
/// index field without widening it.
proof fn lemma_dec_digits_len3(n: nat)
    requires
        n <= 999,
    ensures
        1 <= dec_digits(n).len() <= 3,
{
    if n >= 10 {
        let m = n / 10;
        if m >= 10 {
            let k = m / 10;
            assert(dec_digits(k).len() == 1);
            assert(dec_digits(m).len() == 2);
        } else {
            assert(dec_digits(m).len() == 1);
        }
    }
}

/// What renumbering does to a line's shape: the body is kept exactly, the
/// line answers to its new index, and its completion state is kept — except
/// that a line of exactly the prefix width loses its final character into
/// the body slice, and so always reads as not done afterwards.
proof fn lemma_renumber_line_shape(index: int, line: Seq<char>)
    requires
        1 <= index <= 999,
    ensures
        ({
            let r = renumber_line_spec(index, line);
            &&& r.len() >= BODY_OFFSET
            &&& body_of_spec(r) == body_of_spec(line)
            &&& is_done_spec(r) == (is_done_spec(line) && line.len() != BODY_OFFSET as nat)
        }),
{
    lemma_dec_digits_len3(index as nat);
    let d = dec_int(index);
    let p = pad_right(d, INDEX_WIDTH as nat);
    assert(p.len() == 3);
    let r = renumber_line_spec(index, line);
    let b = body_of_spec(line);
    assert(r.len() == 4 + b.len());
    assert(body_of_spec(r) =~= b);
    if b.len() > 0 {
        assert(r.last() == b.last());
        if line.len() > 4 {
            assert(b.last() == line.last());
        } else {
            assert(b == line);
        }
    } else {
        assert(r.last() == ' ');
    }
}

/// A filter that accepts every element of a sequence hands it back whole.
proof fn lemma_filter_all(s: Seq<Seq<char>>, pred: spec_fn(Seq<char>) -> bool)
    requires
        forall|k: int| 0 <= k < s.len() ==> pred(#[trigger] s[k]),
    ensures
        s.filter(pred) == s,
    decreases s.len(),
{
    reveal(Seq::filter);
    if s.len() > 0 {
        let dl = s.drop_last();
        assert forall|k: int| 0 <= k < dl.len() implies pred(#[trigger] dl[k]) by {
            assert(dl[k] == s[k]);
        }
        lemma_filter_all(dl, pred);
        assert(pred(s.last()));
        assert(s.filter(pred) =~= s);
    } else {
        assert(s.filter(pred) =~= s);
    }
}

/// A filter that rejects every element of a sequence hands back nothing.
proof fn lemma_filter_none(s: Seq<Seq<char>>, pred: spec_fn(Seq<char>) -> bool)
    requires
        forall|k: int| 0 <= k < s.len() ==> !pred(#[trigger] s[k]),
    ensures
        s.filter(pred) == Seq::<Seq<char>>::empty(),
    decreases s.len(),
{
    reveal(Seq::filter);
    if s.len() > 0 {
        let dl = s.drop_last();
        assert forall|k: int| 0 <= k < dl.len() implies !pred(#[trigger] dl[k]) by {
            assert(dl[k] == s[k]);
        }
        lemma_filter_none(dl, pred);
    }
}

/// Everything a filter keeps was in the sequence it filtered.
proof fn lemma_filter_members(s: Seq<Seq<char>>, pred: spec_fn(Seq<char>) -> bool)
    ensures
        forall|k: int|
            0 <= k < s.filter(pred).len() ==> s.contains(#[trigger] s.filter(pred)[k]),
    decreases s.len(),
{
    reveal(Seq::filter);
    if s.len() > 0 {
        let dl = s.drop_last();
        lemma_filter_members(dl, pred);
        let f = s.filter(pred);
        let fdl = dl.filter(pred);
        assert forall|k: int| 0 <= k < f.len() implies s.contains(#[trigger] f[k]) by {
            if pred(s.last()) {
                assert(f == fdl.push(s.last()));
                if k < fdl.len() {
                    assert(dl.contains(fdl[k]));
                    let j = choose|j: int| 0 <= j < dl.len() && dl[j] == fdl[k];
                    assert(s[j] == f[k]);
                } else {
                    assert(f[k] == s.last());
                    assert(s[s.len() - 1] == f[k]);
                }
            } else {
                assert(f == fdl);
                assert(dl.contains(fdl[k]));
                let j = choose|j: int| 0 <= j < dl.len() && dl[j] == fdl[k];
                assert(s[j] == f[k]);
            }
        }
    }
}

/// The two groups of a sort partition the record lines: their lengths sum
/// to the number of record lines.
proof fn lemma_partition_len(s: Seq<Seq<char>>)
    ensures
        s.filter(not_done_pred()).len() + s.filter(done_pred()).len() == s.len(),
    decreases s.len(),
{
    reveal(Seq::filter);
    if s.len() > 0 {
        lemma_partition_len(s.drop_last());
    }
}

/// Sorting is idempotent: a second sort hands back the first sort's output
/// unchanged. The two marginal shapes the format cannot promise this for
/// are excluded: a file of more than 999 record lines (an index would then
/// outgrow its field) and a done line of exactly the body offset's width
/// (renumbering pushes its glyph out of the body slice).
pub proof fn lemma_sort_idempotent(lines: Seq<Seq<char>>)
    requires
        lines.len() <= 1000,
        forall|j: int|
            1 <= j < lines.len() ==> !((#[trigger] lines[j]).len() == BODY_OFFSET as nat
                && is_done_spec(lines[j])),
    ensures
        sort_spec(sort_spec(lines)) == sort_spec(lines),
{
    if lines.len() > 0 {
        let body = lines.skip(1);
        let nd = not_done_pred();
        let dp = done_pred();
        let u = body.filter(nd);
        let d = body.filter(dp);
        let kept = u + d;
        let s1 = sort_spec(lines);
        let body1 = s1.skip(1);
        assert(body1 =~= renumber_all(kept));
        lemma_partition_len(body);
        assert(kept.len() == body.len());
        lemma_filter_members(body, dp);
        assert forall|k: int| 0 <= k < kept.len() implies is_done_spec(#[trigger] body1[k]) == (k
            >= u.len()) by {
            let l = kept[k];
            if k < u.len() {
                assert(l == u[k]);
                assert(nd(l));
                lemma_renumber_line_shape(k + 1, l);
            } else {
                assert(l == d[k - u.len()]);
                assert(dp(l));
                assert(body.contains(l));
                let j = choose|j: int| 0 <= j < body.len() && body[j] == l;
                assert(lines[j + 1] == l);
                assert(l.len() != BODY_OFFSET as nat);
                lemma_renumber_line_shape(k + 1, l);
            }
        }
        let x = body1.subrange(0, u.len() as int);
        let y = body1.subrange(u.len() as int, body1.len() as int);
        assert(body1 =~= x + y);
        assert forall|k: int| 0 <= k < x.len() implies nd(#[trigger] x[k]) && !dp(x[k]) by {
            assert(x[k] == body1[k]);
        }
        assert forall|k: int| 0 <= k < y.len() implies dp(#[trigger] y[k]) && !nd(y[k]) by {
            assert(y[k] == body1[k + u.len()]);
        }
        lemma_filter_all(x, nd);
        lemma_filter_none(y, nd);
        lemma_filter_none(x, dp);
        lemma_filter_all(y, dp);
        assert((x + y).filter(nd) == x.filter(nd) + y.filter(nd));
        assert((x + y).filter(dp) == x.filter(dp) + y.filter(dp));
        assert(body1.filter(nd) + body1.filter(dp) =~= body1);
        let s2 = sort_spec(s1);
        assert(s2 =~= seq![s1[0]] + renumber_all(body1));
        assert forall|k: int| 0 <= k < body1.len() implies renumber_all(body1)[k] == #[trigger] body1[k] by {
            let l = kept[k];
            lemma_renumber_line_shape(k + 1, l);
            assert(renumber_line_spec(k + 1, body1[k]) =~= renumber_line_spec(k + 1, l));
        }
        assert(renumber_all(body1) =~= body1);
        assert(s2 =~= s1);
    }
}

} // verus!
