//! The mutation engine: a day's task state held as the line sequences of a
//! main file and its backup mirror, and the operations that rewrite them.
//!
//! Each file is an ordered sequence of lines: a header line (the date)
//! followed by record lines. Every operation is a pure read-transform-write
//! cycle over these in-memory sequences; the caller loads the files before
//! and stores them after.

use vstd::prelude::*;

use crate::codec::dec_digits;
use crate::codec::dec_int;
use crate::codec::encode_record;
use crate::codec::is_done_line;
use crate::codec::is_done_spec;
use crate::codec::matches_index;
use crate::codec::renumber_line_spec;
use crate::codec::toggle_glyph_spec;
use crate::codec::index_to_string;
use crate::codec::line_matches_index;
use crate::codec::render_record;
use crate::codec::renumber_line;
use crate::codec::toggle_glyph;
use crate::codec::usize_to_string;
use crate::input::is_space;
use crate::input::is_space_char;
use crate::input::parse_i8_chars;
use crate::input::parse_i8_spec;
use crate::input::split_tokens;
use crate::input::tokens_spec;
use crate::input::trim_chars;
use crate::input::trim_spec;

verus! {

/// Why an operation was declined; filesystem failures are the caller's.
#[derive(Clone, Copy, Debug, PartialEq, Eq, Structural)]
pub enum TodoError {
    /// Too few arguments were given.
    Usage,
    /// The index argument is not a small signed integer.
    Parse,
    /// A replacement was not exactly three whitespace-separated words.
    InvalidInput,
    /// No record line refers to the requested index.
    NotFound,
    /// The main file holds no lines at all.
    NoTasks,
}

/// One task, as handed to `add`.
pub struct Entry {
    pub task: String,
    pub start: String,
    pub end: String,
    pub done: bool,
}

impl Entry {
    /// A fresh, not yet completed task.
    pub fn new(task: String, start: String, end: String) -> (e: Entry)
        ensures
            e.task == task,
            e.start == start,
            e.end == end,
            !e.done,
    {
        Entry { task, start, end, done: false }
    }
}

/// The record lines behind each new index, numbered densely from 1.
pub open spec fn renumber_all(kept: Seq<Seq<char>>) -> Seq<Seq<char>> {
    Seq::new(kept.len(), |j: int| renumber_line_spec(j + 1, kept[j]))
}

/// Whether some record line (every line but the header) refers to `index`.
pub open spec fn any_match(lines: Seq<Seq<char>>, index: int) -> bool {
    exists|j: int| 1 <= j < lines.len() && matches_index(lines[j], index)
}

/// The file after a remove: record lines referring to `index` dropped, the
/// rest renumbered densely from 1 in their old order; an empty file is left
/// alone.
pub open spec fn remove_renumber(lines: Seq<Seq<char>>, index: int) -> Seq<Seq<char>> {
    if lines.len() == 0 {
        lines
    } else {
        seq![lines[0]] + renumber_all(
            lines.skip(1).filter(|l: Seq<char>| !matches_index(l, index)),
        )
    }
}

/// The file after a completion toggle: record lines referring to `index`
/// get the glyph for `done`, the rest stay; an empty file is left alone.
pub open spec fn set_status_spec(lines: Seq<Seq<char>>, index: int, done: bool) -> Seq<
    Seq<char>,
> {
    if lines.len() == 0 {
        lines
    } else {
        seq![lines[0]] + Seq::new(
            (lines.len() - 1) as nat,
            |j: int|
                if matches_index(lines[j + 1], index) {
                    toggle_glyph_spec(lines[j + 1], done)
                } else {
                    lines[j + 1]
                },
        )
    }
}

/// The file after an edit: record lines referring to `index` replaced by a
/// fresh, not-done record with that index and the given fields.
pub open spec fn edit_spec(
    lines: Seq<Seq<char>>,
    index: int,
    task: Seq<char>,
    start: Seq<char>,
    end: Seq<char>,
) -> Seq<Seq<char>> {
    if lines.len() == 0 {
        lines
    } else {
        seq![lines[0]] + Seq::new(
            (lines.len() - 1) as nat,
            |j: int|
                if matches_index(lines[j + 1], index) {
                    encode_record(dec_int(index), task, start, end, false)
                } else {
                    lines[j + 1]
                },
        )
    }
}

/// The test a record line must fail to stand in the first group of a sort.
pub open spec fn done_pred() -> spec_fn(Seq<char>) -> bool {
    |l: Seq<char>| is_done_spec(l)
}

/// The test a record line must pass to stand in the first group of a sort.
pub open spec fn not_done_pred() -> spec_fn(Seq<char>) -> bool {
    |l: Seq<char>| !is_done_spec(l)
}

/// The file after a sort: record lines stably partitioned into not-done
/// then done, and renumbered densely from 1.
pub open spec fn sort_spec(lines: Seq<Seq<char>>) -> Seq<Seq<char>> {
    if lines.len() == 0 {
        lines
    } else {
        let body = lines.skip(1);
        seq![lines[0]] + renumber_all(body.filter(not_done_pred()) + body.filter(done_pred()))
    }
}

/// The confirmation token that destructive operations demand.
pub open spec fn yes_token() -> Seq<char> {
    seq!['Y', 'e', 's']
}

/// The marker line written above a journal entry.
pub open spec fn thoughts_marker() -> Seq<char> {
    seq!['T', 'h', 'o', 'u', 'g', 'h', 't', 's', ':']
}

/// Reads the index argument: the first argument, trimmed, as an `i8`.
pub fn parse_index(args: &Vec<String>) -> (r: Result<i8, TodoError>)
    ensures
        match r {
            Ok(i) => args@.len() > 0 && parse_i8_spec(trim_spec(args@[0]@)) == Some(i as int),
            Err(e) => (e == TodoError::Usage && args@.len() == 0) || (e == TodoError::Parse
                && args@.len() > 0 && parse_i8_spec(trim_spec(args@[0]@)) is None),
        },
{
    if args.len() == 0 {
        return Err(TodoError::Usage);
    }
    let t = trim_chars(args[0].as_str());
    match parse_i8_chars(t.as_str()) {
        Some(i) => Ok(i),
        None => Err(TodoError::Parse),
    }
}

/// The record lines of `lines` that do not refer to `index`, in their old
/// order, and whether any line did refer to it.
#[verifier::loop_isolation(false)]
fn filter_not_matching(lines: &Vec<String>, index: i8) -> (res: (Vec<String>, bool))
    requires
        lines@.len() > 0,
    ensures
        res.0.deep_view() == lines.deep_view().skip(1).filter(
            |l: Seq<char>| !matches_index(l, index as int),
        ),
        res.1 == any_match(lines.deep_view(), index as int),
{
    let ghost ldv = lines.deep_view();
    let ghost pred = |l: Seq<char>| !matches_index(l, index as int);
    let n = lines.len();
    let mut kept: Vec<String> = Vec::new();
    let mut found = false;
    let mut i: usize = 1;
    proof {
        reveal(Seq::filter);
        assert(ldv.subrange(1, 1).filter(pred) =~= Seq::<Seq<char>>::empty());
    }
    while i < n
        invariant
            1 <= i <= n,
            n == ldv.len(),
            ldv == lines.deep_view(),
            kept.deep_view() == ldv.subrange(1, i as int).filter(pred),
            found == exists|j: int| 1 <= j < i && matches_index(ldv[j], index as int),
        decreases n - i,
    {
        let ghost prefix = ldv.subrange(1, i as int);
        let ghost next = ldv.subrange(1, i + 1);
        proof {
            reveal(Seq::filter);
            assert(next.drop_last() =~= prefix);
            assert(next.last() == ldv[i as int]);
        }
        if line_matches_index(lines[i].as_str(), index) {
            found = true;
            proof {
                assert(matches_index(ldv[i as int], index as int));
            }
        } else {
            let ghost kept_prev = kept.deep_view();
            kept.push(lines[i].clone());
            proof {
                reveal(Seq::filter);
                assert(kept.deep_view() =~= kept_prev.push(ldv[i as int]));
                assert(next.filter(pred) == prefix.filter(pred).push(ldv[i as int]));
            }
        }
        i = i + 1;
    }
    proof {
        assert(ldv.subrange(1, n as int) =~= ldv.skip(1));
    }
    (kept, found)
}

/// `header` followed by `kept` renumbered densely from 1.
fn renumber_lines(header: &String, kept: &Vec<String>) -> (out: Vec<String>)
    ensures
        out.deep_view() == seq![header@] + renumber_all(kept.deep_view()),
{
    let ghost kdv = kept.deep_view();
    let mut out: Vec<String> = Vec::new();
    out.push(header.clone());
    let n = kept.len();
    let mut k: usize = 0;
    while k < n
        invariant
            k <= n,
            n == kdv.len(),
            kdv == kept.deep_view(),
            out.deep_view().len() == 1 + k,
            out.deep_view()[0] == header@,
            forall|m: int|
                0 <= m < k ==> out.deep_view()[m + 1] == renumber_line_spec(m + 1, kdv[m]),
        decreases n - k,
    {
        let line = renumber_line(k + 1, kept[k].as_str());
        out.push(line);
        k = k + 1;
    }
    proof {
        assert(out.deep_view() =~= seq![header@] + renumber_all(kdv));
    }
    out
}

/// A day's task state: the lines of the main file and of its backup mirror.
pub struct Todo {
    main_file: Vec<String>,
    backup_file: Vec<String>,
}

impl Todo {
    /// The main file's lines.
    pub closed spec fn main_view(&self) -> Seq<Seq<char>> {
        self.main_file.deep_view()
    }

    /// The backup file's lines.
    pub closed spec fn backup_view(&self) -> Seq<Seq<char>> {
        self.backup_file.deep_view()
    }

    /// Binds a main/backup pair of line files.
    pub fn new(main_file: Vec<String>, backup_file: Vec<String>) -> (todo: Todo)
        ensures
            todo.main_view() == main_file.deep_view(),
            todo.backup_view() == backup_file.deep_view(),
    {
        Todo { main_file, backup_file }
    }

    /// The main file's lines, for display or storage.
    pub fn main_lines(&self) -> (r: &Vec<String>)
        ensures
            r.deep_view() == self.main_view(),
    {
        &self.main_file
    }

    /// The backup file's lines, for display or storage.
    pub fn backup_lines(&self) -> (r: &Vec<String>)
        ensures
            r.deep_view() == self.backup_view(),
    {
        &self.backup_file
    }

    /// Starts any empty file with a header line holding `date`.
    pub fn init_files(&mut self, date: &String)
        ensures
            final(self).main_view() == if old(self).main_view().len() == 0 {
                seq![date@]
            } else {
                old(self).main_view()
            },
            final(self).backup_view() == if old(self).backup_view().len() == 0 {
                seq![date@]
            } else {
                old(self).backup_view()
            },
    {
        if self.main_file.len() == 0 {
            self.main_file.push(date.clone());
            proof {
                assert(self.main_file.deep_view() =~= seq![date@]);
            }
        }
        if self.backup_file.len() == 0 {
            self.backup_file.push(date.clone());
            proof {
                assert(self.backup_file.deep_view() =~= seq![date@]);
            }
        }
    }

    /// Appends one record to each file, numbered with that file's own line
    /// count, so the first record after a header gets index 1. Wants three
    /// arguments: the task, its start time, and its end time.
    pub fn add(&mut self, args: &Vec<String>) -> (r: Result<(), TodoError>)
        ensures
            match r {
                Ok(_) => args@.len() >= 3 && final(self).main_view() == old(self).main_view().push(
                    encode_record(
                        dec_digits(old(self).main_view().len()),
                        args@[0]@,
                        args@[1]@,
                        args@[2]@,
                        false,
                    ),
                ) && final(self).backup_view() == old(self).backup_view().push(
                    encode_record(
                        dec_digits(old(self).backup_view().len()),
                        args@[0]@,
                        args@[1]@,
                        args@[2]@,
                        false,
                    ),
                ),
                Err(e) => e == TodoError::Usage && args@.len() < 3 && final(self).main_view() == old(
                    self,
                ).main_view() && final(self).backup_view() == old(self).backup_view(),
            },
    {
        if args.len() < 3 {
            return Err(TodoError::Usage);
        }
        let entry = Entry::new(args[0].clone(), args[1].clone(), args[2].clone());
        let ghost pre_main = self.main_file.deep_view();
        let main_index = usize_to_string(self.main_file.len());
        let main_line = render_record(&main_index, &entry.task, &entry.start, &entry.end, entry.done);
        self.main_file.push(main_line);
        proof {
            assert(self.main_file.deep_view() =~= pre_main.push(
                encode_record(dec_digits(pre_main.len()), args@[0]@, args@[1]@, args@[2]@, false),
            ));
        }
        let ghost pre_backup = self.backup_file.deep_view();
        let backup_index = usize_to_string(self.backup_file.len());
        let backup_line = render_record(
            &backup_index,
            &entry.task,
            &entry.start,
            &entry.end,
            entry.done,
        );
        self.backup_file.push(backup_line);
        proof {
            assert(self.backup_file.deep_view() =~= pre_backup.push(
                encode_record(dec_digits(pre_backup.len()), args@[0]@, args@[1]@, args@[2]@, false),
            ));
        }
        Ok(())
    }

    /// Drops the record lines referring to the index argument and renumbers
    /// the rest densely from 1. The backup is given the same treatment when
    /// the main file had a match; neither file is touched when it had none.
    pub fn remove(&mut self, args: &Vec<String>) -> (r: Result<(), TodoError>)
        ensures
            match r {
                Ok(_) => ({
                    let idx = parse_i8_spec(trim_spec(args@[0]@)).unwrap();
                    &&& args@.len() > 0
                    &&& parse_i8_spec(trim_spec(args@[0]@)) is Some
                    &&& any_match(old(self).main_view(), idx)
                    &&& final(self).main_view() == remove_renumber(old(self).main_view(), idx)
                    &&& final(self).backup_view() == remove_renumber(old(self).backup_view(), idx)
                }),
                Err(e) => ({
                    &&& final(self).main_view() == old(self).main_view()
                    &&& final(self).backup_view() == old(self).backup_view()
                    &&& ((e == TodoError::Usage && args@.len() == 0) || (e == TodoError::Parse
                        && args@.len() > 0 && parse_i8_spec(trim_spec(args@[0]@)) is None) || (e
                        == TodoError::NotFound && args@.len() > 0 && parse_i8_spec(
                        trim_spec(args@[0]@),
                    ) is Some && !any_match(
                        old(self).main_view(),
                        parse_i8_spec(trim_spec(args@[0]@)).unwrap(),
                    )))
                }),
            },
    {
        let index = match parse_index(args) {
            Ok(i) => i,
            Err(e) => {
                return Err(e);
            },
        };
        if self.main_file.len() == 0 {
            return Err(TodoError::NotFound);
        }
        let (kept, found) = filter_not_matching(&self.main_file, index);
        if !found {
            return Err(TodoError::NotFound);
        }
        let new_main = renumber_lines(&self.main_file[0], &kept);
        self.main_file = new_main;
        if self.backup_file.len() > 0 {
            let (backup_kept, _) = filter_not_matching(&self.backup_file, index);
            let new_backup = renumber_lines(&self.backup_file[0], &backup_kept);
            self.backup_file = new_backup;
        }
        Ok(())
    }

    /// Rewrites the glyph of the record lines referring to `index`, then
    /// mirrors the main file onto the backup.
    fn set_completion_status(&mut self, index: i8, done: bool) -> (r: Result<(), TodoError>)
        ensures
            match r {
                Ok(_) => ({
                    &&& old(self).main_view().len() > 0
                    &&& any_match(old(self).main_view(), index as int)
                    &&& final(self).main_view() == set_status_spec(
                        old(self).main_view(),
                        index as int,
                        done,
                    )
                    &&& final(self).backup_view() == final(self).main_view()
                }),
                Err(e) => ({
                    &&& final(self).main_view() == old(self).main_view()
                    &&& final(self).backup_view() == old(self).backup_view()
                    &&& ((e == TodoError::NoTasks && old(self).main_view().len() == 0) || (e
                        == TodoError::NotFound && old(self).main_view().len() > 0 && !any_match(
                        old(self).main_view(),
                        index as int,
                    )))
                }),
            },
    {
        let ghost mdv = self.main_file.deep_view();
        let n = self.main_file.len();
        if n == 0 {
            return Err(TodoError::NoTasks);
        }
        let mut out: Vec<String> = Vec::new();
        out.push(self.main_file[0].clone());
        let mut found = false;
        let mut i: usize = 1;
        while i < n
            invariant
                1 <= i <= n,
                n == mdv.len(),
                mdv == self.main_file.deep_view(),
                out.deep_view().len() == i,
                out.deep_view()[0] == mdv[0],
                forall|m: int|
                    1 <= m < i ==> out.deep_view()[m] == (if matches_index(mdv[m], index as int) {
                        toggle_glyph_spec(mdv[m], done)
                    } else {
                        mdv[m]
                    }),
                found == exists|j: int| 1 <= j < i && matches_index(mdv[j], index as int),
            decreases n - i,
        {
            let ghost out_prev = out.deep_view();
            let line = &self.main_file[i];
            if line_matches_index(line.as_str(), index) {
                out.push(toggle_glyph(line.as_str(), done));
                found = true;
                proof {
                    assert(matches_index(mdv[i as int], index as int));
                    assert(out.deep_view() =~= out_prev.push(
                        toggle_glyph_spec(mdv[i as int], done),
                    ));
                }
            } else {
                out.push(line.clone());
                proof {
                    assert(out.deep_view() =~= out_prev.push(mdv[i as int]));
                }
            }
            i = i + 1;
        }
        if !found {
            return Err(TodoError::NotFound);
        }
        proof {
            assert(out.deep_view() =~= set_status_spec(mdv, index as int, done));
        }
        self.main_file = out;
        self.backup_file = self.main_file.clone();
        Ok(())
    }

    /// Marks the record lines referring to the index argument as completed,
    /// then mirrors the main file onto the backup.
    pub fn mark_done(&mut self, args: &Vec<String>) -> (r: Result<(), TodoError>)
        ensures
            match r {
                Ok(_) => ({
                    let idx = parse_i8_spec(trim_spec(args@[0]@)).unwrap();
                    &&& args@.len() > 0
                    &&& parse_i8_spec(trim_spec(args@[0]@)) is Some
                    &&& old(self).main_view().len() > 0
                    &&& any_match(old(self).main_view(), idx)
                    &&& final(self).main_view() == set_status_spec(old(self).main_view(), idx, true)
                    &&& final(self).backup_view() == final(self).main_view()
                }),
                Err(e) => ({
                    &&& final(self).main_view() == old(self).main_view()
                    &&& final(self).backup_view() == old(self).backup_view()
                    &&& ((e == TodoError::Usage && args@.len() == 0) || (e == TodoError::Parse
                        && args@.len() > 0 && parse_i8_spec(trim_spec(args@[0]@)) is None) || (
                    args@.len() > 0 && parse_i8_spec(trim_spec(args@[0]@)) is Some && ((e
                        == TodoError::NoTasks && old(self).main_view().len() == 0) || (e
                        == TodoError::NotFound && old(self).main_view().len() > 0 && !any_match(
                        old(self).main_view(),
                        parse_i8_spec(trim_spec(args@[0]@)).unwrap(),
                    )))))
                }),
            },
    {
        let index = match parse_index(args) {
            Ok(i) => i,
            Err(e) => {
                return Err(e);
            },
        };
        self.set_completion_status(index, true)
    }

    /// Marks the record lines referring to the index argument as not yet
    /// completed, then mirrors the main file onto the backup.
    pub fn mark_undone(&mut self, args: &Vec<String>) -> (r: Result<(), TodoError>)
        ensures
            match r {
                Ok(_) => ({
                    let idx = parse_i8_spec(trim_spec(args@[0]@)).unwrap();
                    &&& args@.len() > 0
                    &&& parse_i8_spec(trim_spec(args@[0]@)) is Some
                    &&& old(self).main_view().len() > 0
                    &&& any_match(old(self).main_view(), idx)
                    &&& final(self).main_view() == set_status_spec(
                        old(self).main_view(),
                        idx,
                        false,
                    )
                    &&& final(self).backup_view() == final(self).main_view()
                }),
                Err(e) => ({
                    &&& final(self).main_view() == old(self).main_view()
                    &&& final(self).backup_view() == old(self).backup_view()
                    &&& ((e == TodoError::Usage && args@.len() == 0) || (e == TodoError::Parse
                        && args@.len() > 0 && parse_i8_spec(trim_spec(args@[0]@)) is None) || (
                    args@.len() > 0 && parse_i8_spec(trim_spec(args@[0]@)) is Some && ((e
                        == TodoError::NoTasks && old(self).main_view().len() == 0) || (e
                        == TodoError::NotFound && old(self).main_view().len() > 0 && !any_match(
                        old(self).main_view(),
                        parse_i8_spec(trim_spec(args@[0]@)).unwrap(),
                    )))))
                }),
            },
    {
        let index = match parse_index(args) {
            Ok(i) => i,
            Err(e) => {
                return Err(e);
            },
        };
        self.set_completion_status(index, false)
    }

    /// Replaces the record lines referring to the index argument by a fresh,
    /// not-done record built from `input`: exactly three whitespace-separated
    /// words, the task and its start and end times. Mirrors the main file
    /// onto the backup when a line was replaced.
    #[verifier::loop_isolation(false)]
    pub fn edit(&mut self, args: &Vec<String>, input: &String) -> (r: Result<(), TodoError>)
        ensures
            match r {
                Ok(_) => ({
                    let idx = parse_i8_spec(trim_spec(args@[0]@)).unwrap();
                    let toks = tokens_spec(input@);
                    &&& args@.len() > 0
                    &&& parse_i8_spec(trim_spec(args@[0]@)) is Some
                    &&& toks.len() == 3
                    &&& any_match(old(self).main_view(), idx)
                    &&& final(self).main_view() == edit_spec(
                        old(self).main_view(),
                        idx,
                        toks[0],
                        toks[1],
                        toks[2],
                    )
                    &&& final(self).backup_view() == final(self).main_view()
                }),
                Err(e) => ({
                    &&& final(self).main_view() == old(self).main_view()
                    &&& final(self).backup_view() == old(self).backup_view()
                    &&& ((e == TodoError::Usage && args@.len() == 0) || (e == TodoError::Parse
                        && args@.len() > 0 && parse_i8_spec(trim_spec(args@[0]@)) is None) || (
                    args@.len() > 0 && parse_i8_spec(trim_spec(args@[0]@)) is Some && ((e
                        == TodoError::InvalidInput && tokens_spec(input@).len() != 3) || (e
                        == TodoError::NotFound && tokens_spec(input@).len() == 3 && !any_match(
                        old(self).main_view(),
                        parse_i8_spec(trim_spec(args@[0]@)).unwrap(),
                    )))))
                }),
            },
    {
        let index = match parse_index(args) {
            Ok(i) => i,
            Err(e) => {
                return Err(e);
            },
        };
        let toks = split_tokens(input.as_str());
        if toks.len() != 3 {
            return Err(TodoError::InvalidInput);
        }
        let index_text = index_to_string(index);
        let new_line = render_record(&index_text, &toks[0], &toks[1], &toks[2], false);
        let ghost mdv = self.main_file.deep_view();
        let ghost replacement = new_line@;
        let n = self.main_file.len();
        if n == 0 {
            return Err(TodoError::NotFound);
        }
        let mut out: Vec<String> = Vec::new();
        out.push(self.main_file[0].clone());
        let mut found = false;
        let mut i: usize = 1;
        while i < n
            invariant
                1 <= i <= n,
                n == mdv.len(),
                mdv == self.main_file.deep_view(),
                out.deep_view().len() == i,
                out.deep_view()[0] == mdv[0],
                forall|m: int|
                    1 <= m < i ==> out.deep_view()[m] == (if matches_index(mdv[m], index as int) {
                        replacement
                    } else {
                        mdv[m]
                    }),
                found == exists|j: int| 1 <= j < i && matches_index(mdv[j], index as int),
            decreases n - i,
        {
            let ghost out_prev = out.deep_view();
            let line = &self.main_file[i];
            if line_matches_index(line.as_str(), index) {
                out.push(new_line.clone());
                found = true;
                proof {
                    assert(matches_index(mdv[i as int], index as int));
                    assert(out.deep_view() =~= out_prev.push(replacement));
                }
            } else {
                out.push(line.clone());
                proof {
                    assert(out.deep_view() =~= out_prev.push(mdv[i as int]));
                }
            }
            i = i + 1;
        }
        if !found {
            return Err(TodoError::NotFound);
        }
        proof {
            let toks_view = tokens_spec(input@);
            assert(out.deep_view() =~= edit_spec(
                mdv,
                index as int,
                toks_view[0],
                toks_view[1],
                toks_view[2],
            ));
        }
        self.main_file = out;
        self.backup_file = self.main_file.clone();
        Ok(())
    }

    /// Stably partitions the record lines into not-done then done, keeping
    /// each group's old order, renumbers them densely from 1, and mirrors
    /// the main file onto the backup. Declines when the main file is empty.
    #[verifier::loop_isolation(false)]
    pub fn sort(&mut self) -> (r: Result<(), TodoError>)
        ensures
            match r {
                Ok(_) => ({
                    &&& old(self).main_view().len() > 0
                    &&& final(self).main_view() == sort_spec(old(self).main_view())
                    &&& final(self).backup_view() == final(self).main_view()
                }),
                Err(e) => ({
                    &&& e == TodoError::NoTasks
                    &&& old(self).main_view().len() == 0
                    &&& final(self).main_view() == old(self).main_view()
                    &&& final(self).backup_view() == old(self).backup_view()
                }),
            },
    {
        let ghost mdv = self.main_file.deep_view();
        let ghost not_done = not_done_pred();
        let ghost done_test = done_pred();
        let n = self.main_file.len();
        if n == 0 {
            return Err(TodoError::NoTasks);
        }
        let mut keep: Vec<String> = Vec::new();
        let mut i: usize = 1;
        proof {
            reveal(Seq::filter);
            assert(mdv.subrange(1, 1).filter(not_done) =~= Seq::<Seq<char>>::empty());
        }
        while i < n
            invariant
                1 <= i <= n,
                keep.deep_view() == mdv.subrange(1, i as int).filter(not_done),
            decreases n - i,
        {
            let ghost prefix = mdv.subrange(1, i as int);
            let ghost next = mdv.subrange(1, i + 1);
            proof {
                reveal(Seq::filter);
                assert(next.drop_last() =~= prefix);
                assert(next.last() == mdv[i as int]);
            }
            if !is_done_line(self.main_file[i].as_str()) {
                let ghost keep_prev = keep.deep_view();
                keep.push(self.main_file[i].clone());
                proof {
                    assert(keep.deep_view() =~= keep_prev.push(mdv[i as int]));
                }
            }
            i = i + 1;
        }
        let ghost undone_part = mdv.skip(1).filter(not_done);
        proof {
            assert(mdv.subrange(1, n as int) =~= mdv.skip(1));
            assert(mdv.subrange(1, 1).filter(done_test) =~= Seq::<Seq<char>>::empty());
        }
        let mut i: usize = 1;
        while i < n
            invariant
                1 <= i <= n,
                keep.deep_view() == undone_part + mdv.subrange(1, i as int).filter(done_test),
            decreases n - i,
        {
            let ghost prefix = mdv.subrange(1, i as int);
            let ghost next = mdv.subrange(1, i + 1);
            proof {
                reveal(Seq::filter);
                assert(next.drop_last() =~= prefix);
                assert(next.last() == mdv[i as int]);
            }
            if is_done_line(self.main_file[i].as_str()) {
                let ghost keep_prev = keep.deep_view();
                keep.push(self.main_file[i].clone());
                proof {
                    assert(keep.deep_view() =~= keep_prev.push(mdv[i as int]));
                }
            }
            i = i + 1;
        }
        let out = renumber_lines(&self.main_file[0], &keep);
        proof {
            assert(mdv.subrange(1, n as int) =~= mdv.skip(1));
            assert(out.deep_view() =~= sort_spec(mdv));
        }
        self.main_file = out;
        self.backup_file = self.main_file.clone();
        Ok(())
    }

    /// Empties the main file — header included — when `confirmation`, with
    /// surrounding whitespace removed, is exactly the confirmation token.
    /// The backup is left alone either way.
    pub fn remove_all(&mut self, confirmation: &String) -> (confirmed: bool)
        ensures
            confirmed == (trim_spec(confirmation@) == yes_token()),
            final(self).backup_view() == old(self).backup_view(),
            confirmed ==> final(self).main_view() == Seq::<Seq<char>>::empty(),
            !confirmed ==> final(self).main_view() == old(self).main_view(),
    {
        if confirmed_yes(confirmation) {
            self.main_file = Vec::new();
            proof {
                assert(self.main_file.deep_view() =~= Seq::<Seq<char>>::empty());
            }
            true
        } else {
            false
        }
    }

    /// Overwrites the main file with the backup's content when
    /// `confirmation`, with surrounding whitespace removed, is exactly the
    /// confirmation token.
    pub fn restore_backup(&mut self, confirmation: &String) -> (confirmed: bool)
        ensures
            confirmed == (trim_spec(confirmation@) == yes_token()),
            final(self).backup_view() == old(self).backup_view(),
            confirmed ==> final(self).main_view() == old(self).backup_view(),
            confirmed ==> final(self).main_view() == final(self).backup_view(),
            !confirmed ==> final(self).main_view() == old(self).main_view(),
    {
        if confirmed_yes(confirmation) {
            self.main_file = self.backup_file.clone();
            true
        } else {
            false
        }
    }

    /// Appends a journal entry to the main file — a blank line, the marker
    /// line, and the raw text — then mirrors the main file onto the backup.
    pub fn journal(&mut self, input: String)
        ensures
            final(self).main_view() == old(self).main_view() + seq![
                Seq::<char>::empty(),
                thoughts_marker(),
                input@,
            ],
            final(self).backup_view() == final(self).main_view(),
    {
        let ghost pre = self.main_file.deep_view();
        let ghost input_view = input@;
        self.main_file.push(String::new());
        proof {
            reveal_strlit("Thoughts:");
        }
        self.main_file.push(String::from_str("Thoughts:"));
        self.main_file.push(input);
        proof {
            assert("Thoughts:"@ =~= thoughts_marker());
            assert(self.main_file.deep_view() =~= pre + seq![
                Seq::<char>::empty(),
                thoughts_marker(),
                input_view,
            ]);
        }
        self.backup_file = self.main_file.clone();
    }
}

/// Whether `confirmation`, with surrounding whitespace removed, is exactly
/// the confirmation token.
fn confirmed_yes(confirmation: &String) -> (b: bool)
    ensures
        b == (trim_spec(confirmation@) == yes_token()),
{
    let t = trim_chars(confirmation.as_str());
    proof {
        reveal_strlit("Yes");
    }
    let yes = String::from_str("Yes");
    proof {
        assert(yes@ =~= yes_token());
    }
    t.eq(&yes)
}

/// Whether a line is nothing but whitespace.
pub open spec fn blank_line(l: Seq<char>) -> bool {
    forall|j: int| 0 <= j < l.len() ==> is_space(#[trigger] l[j])
}

/// Whether every line is nothing but whitespace: such a file displays as
/// having no tasks.
pub open spec fn all_blank_spec(lines: Seq<Seq<char>>) -> bool {
    forall|i: int| 0 <= i < lines.len() ==> blank_line(#[trigger] lines[i])
}

/// Whether every line is nothing but whitespace.
#[verifier::loop_isolation(false)]
pub fn lines_all_blank(lines: &Vec<String>) -> (b: bool)
    ensures
        b == all_blank_spec(lines.deep_view()),
{
    let ghost ldv = lines.deep_view();
    let n = lines.len();
    let mut i: usize = 0;
    while i < n
        invariant
            i <= n,
            forall|m: int| 0 <= m < i ==> blank_line(#[trigger] ldv[m]),
        decreases n - i,
    {
        let line = &lines[i];
        let len = line.as_str().unicode_len();
        let mut j: usize = 0;
        while j < len
            invariant
                j <= len,
                len == ldv[i as int].len(),
                i < n,
                forall|m: int| 0 <= m < i ==> blank_line(#[trigger] ldv[m]),
                forall|m: int| 0 <= m < j ==> is_space(ldv[i as int][m]),
            decreases len - j,
        {
            if !is_space_char(line.as_str().get_char(j)) {
                proof {
                    assert(!blank_line(ldv[i as int]));
                }
                return false;
            }
            j = j + 1;
        }
        proof {
            assert(blank_line(ldv[i as int]));
        }
        i = i + 1;
    }
    true
}

} // verus!
