//! The ISBN list file, the counting of outcomes, and description previews.
use vstd::prelude::*;
use crate::text;
use crate::text::{chars_of, push_char, string_from_chars, trim_bounds};

verus! {

/// The lines of `s`, split at each `\n` (the last line may be empty).
pub open spec fn split_lines(s: Seq<char>) -> Seq<Seq<char>>
    decreases s.len(),
{
    if s.len() == 0 {
        seq![Seq::empty()]
    } else {
        let prev = split_lines(s.drop_last());
        if s.last() == '\n' {
            prev.push(Seq::empty())
        } else {
            prev.update(prev.len() - 1, prev.last().push(s.last()))
        }
    }
}

proof fn lemma_split_lines_nonempty(s: Seq<char>)
    ensures
        split_lines(s).len() >= 1,
    decreases s.len(),
{
    if s.len() > 0 {
        lemma_split_lines_nonempty(s.drop_last());
    }
}

/// Lines joined with `\n` between them.
pub open spec fn join_lines(lines: Seq<Seq<char>>) -> Seq<char>
    decreases lines.len(),
{
    if lines.len() == 0 {
        Seq::empty()
    } else if lines.len() == 1 {
        lines[0]
    } else {
        join_lines(lines.drop_last()) + seq!['\n'] + lines.last()
    }
}

proof fn lemma_join_extend_last(lines: Seq<Seq<char>>, c: char)
    requires
        lines.len() >= 1,
    ensures
        join_lines(lines.update(lines.len() - 1, lines.last().push(c))) == join_lines(lines).push(c),
{
    let u = lines.update(lines.len() - 1, lines.last().push(c));
    if lines.len() > 1 {
        assert(u.drop_last() == lines.drop_last());
    }
}

/// Splitting into lines loses nothing and keeps no `\n`: the lines joined with
/// `\n` give the text back, and no line contains `\n`.
pub proof fn split_lines_law(s: Seq<char>)
    ensures
        split_lines(s).len() >= 1,
        join_lines(split_lines(s)) == s,
        forall|k: int, i: int| 0 <= k < split_lines(s).len() && 0 <= i < split_lines(s)[k].len()
            ==> #[trigger] split_lines(s)[k][i] != '\n',
    decreases s.len(),
{
    if s.len() == 0 {
        assert(join_lines(split_lines(s)) == s);
    } else {
        let t = s.drop_last();
        split_lines_law(t);
        let prev = split_lines(t);
        assert(t.push(s.last()) == s);
        if s.last() == '\n' {
            let cur = prev.push(Seq::<char>::empty());
            assert(cur.drop_last() == prev);
            assert(join_lines(cur) == t + seq!['\n'] + Seq::<char>::empty());
            assert(t + seq!['\n'] + Seq::<char>::empty() == s);
            assert forall|k: int, i: int| 0 <= k < cur.len() && 0 <= i < cur[k].len() implies #[trigger] cur[k][i] != '\n' by {
                assert(k < prev.len());
                assert(cur[k] == prev[k]);
            }
        } else {
            lemma_join_extend_last(prev, s.last());
            let cur = prev.update(prev.len() - 1, prev.last().push(s.last()));
            assert forall|k: int, i: int| 0 <= k < cur.len() && 0 <= i < cur[k].len() implies #[trigger] cur[k][i] != '\n' by {
                if k == prev.len() - 1 {
                    if i < prev.last().len() {
                        assert(cur[k][i] == prev[k][i]);
                    }
                } else {
                    assert(cur[k] == prev[k]);
                }
            }
        }
    }
}

/// A trimmed line that names an ISBN: not empty and not a `#` comment.
pub open spec fn is_entry(line: Seq<char>) -> bool {
    line.len() > 0 && line[0] != '#'
}

/// The trimmed lines that are entries, in order.
pub open spec fn entries_of(lines: Seq<Seq<char>>) -> Seq<Seq<char>>
    decreases lines.len(),
{
    if lines.len() == 0 {
        Seq::empty()
    } else if is_entry(text::trim(lines.last())) {
        entries_of(lines.drop_last()).push(text::trim(lines.last()))
    } else {
        entries_of(lines.drop_last())
    }
}

/// The ISBNs listed in a file: one per line, surrounding white space ignored,
/// empty lines and lines starting with `#` skipped.
pub open spec fn isbn_list(content: Seq<char>) -> Seq<Seq<char>> {
    entries_of(split_lines(content))
}

/// The entries of a list file are its lines, each trimmed, keeping those that
/// are neither empty nor comments, in order.
pub proof fn isbn_list_law(content: Seq<char>)
    ensures
        isbn_list(content) == split_lines(content).map_values(|l: Seq<char>| text::trim(l)).filter(
            |l: Seq<char>| is_entry(l),
        ),
{
    lemma_entries_filter(split_lines(content));
}

proof fn lemma_entries_filter(lines: Seq<Seq<char>>)
    ensures
        entries_of(lines) == lines.map_values(|l: Seq<char>| text::trim(l)).filter(|l: Seq<char>| is_entry(l)),
    decreases lines.len(),
{
    reveal_with_fuel(Seq::<Seq<char>>::filter, 1);
    let t = lines.map_values(|l: Seq<char>| text::trim(l));
    if lines.len() > 0 {
        lemma_entries_filter(lines.drop_last());
        assert(t.drop_last() == lines.drop_last().map_values(|l: Seq<char>| text::trim(l)));
        assert(t.last() == text::trim(lines.last()));
    } else {
        assert(t == Seq::<Seq<char>>::empty());
    }
}

/// A list of strings as plain character sequences.
pub open spec fn strings_view(v: Seq<String>) -> Seq<Seq<char>> {
    v.map_values(|s: String| s@)
}

/// Reads an ISBN list file's content (see `isbn_list`).
pub fn parse_isbn_list(content: &str) -> (r: Vec<String>)
    ensures
        strings_view(r@) == isbn_list(content@),
        forall|i: int| 0 <= i < r.len() ==> is_entry(#[trigger] r@[i]@) && text::trim(r@[i]@) == r@[i]@,
{
    let v = chars_of(content);
    let mut out: Vec<String> = Vec::new();
    let mut cur: Vec<char> = Vec::new();
    let ghost mut done: Seq<Seq<char>> = Seq::empty();
    let mut i: usize = 0;
    assert(v@.take(0) == Seq::<char>::empty());
    while i < v.len()
        invariant
            v@ == content@,
            i <= v.len(),
            split_lines(v@.take(i as int)) == done.push(cur@),
            strings_view(out@) == entries_of(done),
        decreases v.len() - i,
    {
        let c = v[i];
        let ghost pre = v@.take(i as int);
        assert(v@.take(i + 1).drop_last() == pre);
        assert(v@.take(i + 1).last() == c);
        if c == '\n' {
            add_entry(&mut out, &cur, Ghost(done));
            proof {
                done = done.push(cur@);
            }
            cur = Vec::new();
        } else {
            cur.push(c);
            assert(split_lines(v@.take(i + 1)) == done.push(cur@));
        }
        i += 1;
    }
    assert(v@.take(v.len() as int) == v@);
    add_entry(&mut out, &cur, Ghost(done));
    proof {
        entries_are_trimmed(done.push(cur@));
        assert forall|i: int| 0 <= i < out.len() implies is_entry(#[trigger] out@[i]@) && text::trim(out@[i]@) == out@[i]@ by {
            assert(strings_view(out@)[i] == out@[i]@);
        }
    }
    out
}

fn add_entry(out: &mut Vec<String>, line: &Vec<char>, Ghost(done): Ghost<Seq<Seq<char>>>)
    requires
        strings_view(old(out)@) == entries_of(done),
    ensures
        strings_view(final(out)@) == entries_of(done.push(line@)),
{
    let (lo, hi) = trim_bounds(line);
    assert(done.push(line@).drop_last() == done);
    if lo < hi && line[lo] != '#' {
        let s = string_from_chars(line, lo, hi);
        let ghost before = out@;
        out.push(s);
        assert(strings_view(out@) == strings_view(before).push(s@));
    }
}

proof fn entries_are_trimmed(lines: Seq<Seq<char>>)
    ensures
        forall|i: int| 0 <= i < entries_of(lines).len() ==> is_entry(#[trigger] entries_of(lines)[i])
            && text::trim(entries_of(lines)[i]) == entries_of(lines)[i],
    decreases lines.len(),
{
    if lines.len() > 0 {
        let prev = entries_of(lines.drop_last());
        entries_are_trimmed(lines.drop_last());
        let t = text::trim(lines.last());
        if is_entry(t) {
            text::lemma_trim_idempotent(lines.last());
            assert forall|i: int| 0 <= i < entries_of(lines).len() implies is_entry(#[trigger] entries_of(lines)[i])
                && text::trim(entries_of(lines)[i]) == entries_of(lines)[i] by {
                if i < prev.len() {
                    assert(entries_of(lines)[i] == prev[i]);
                }
            }
        }
    }
}


/// How the handling of one ISBN ended.
#[derive(Clone, Copy, Debug)]
pub enum ItemOutcome {
    /// The input is not a valid ISBN; skipped.
    InvalidIsbn,
    /// OpenBD has no record of it; skipped.
    NotFound,
    /// Dry run: the page was shown, not sent; counts as a success.
    Shown,
    /// The page was created in Notion.
    Registered,
    /// Notion refused the page or could not be reached.
    RegisterFailed,
}

/// The counters of a run as plain numbers.
pub struct Tally {
    pub total: nat,
    pub done: nat,
    pub success: nat,
    pub skip: nat,
    pub fail: nat,
}

/// The progress of a run over `total` ISBNs.
pub struct Progress {
    total: usize,
    done: usize,
    success: usize,
    skip: usize,
    fail: usize,
}

impl View for Progress {
    type V = Tally;

    closed spec fn view(&self) -> Tally {
        Tally {
            total: self.total as nat,
            done: self.done as nat,
            success: self.success as nat,
            skip: self.skip as nat,
            fail: self.fail as nat,
        }
    }
}

impl Progress {
    /// Every handled ISBN is counted exactly once, and no more are handled than listed.
    #[verifier::type_invariant]
    closed spec fn counts_add_up(self) -> bool {
        &&& self.success + self.skip + self.fail == self.done
        &&& self.done <= self.total
    }

    /// A run that has handled none of `total` ISBNs yet.
    pub fn new(total: usize) -> (p: Progress)
        ensures
            p@ == (Tally { total: total as nat, done: 0, success: 0, skip: 0, fail: 0 }),
    {
        Progress { total, done: 0, success: 0, skip: 0, fail: 0 }
    }

    /// Counts the outcome of one more ISBN.
    pub fn record(&mut self, outcome: ItemOutcome)
        requires
            old(self)@.done < old(self)@.total,
        ensures
            final(self)@.total == old(self)@.total,
            final(self)@.done == old(self)@.done + 1,
            final(self)@.success == old(self)@.success + if outcome is Shown || outcome is Registered { 1nat } else { 0nat },
            final(self)@.skip == old(self)@.skip + if outcome is InvalidIsbn || outcome is NotFound { 1nat } else { 0nat },
            final(self)@.fail == old(self)@.fail + if outcome is RegisterFailed { 1nat } else { 0nat },
            final(self)@.success + final(self)@.skip + final(self)@.fail == final(self)@.done,
    {
        proof {
            use_type_invariant(&*self);
        }
        let (success, skip, fail) = match outcome {
            ItemOutcome::InvalidIsbn | ItemOutcome::NotFound => (self.success, self.skip + 1, self.fail),
            ItemOutcome::Shown | ItemOutcome::Registered => (self.success + 1, self.skip, self.fail),
            ItemOutcome::RegisterFailed => (self.success, self.skip, self.fail + 1),
        };
        *self = Progress { total: self.total, done: self.done + 1, success, skip, fail };
    }

    /// The number of ISBNs in the run.
    pub fn total(&self) -> (r: usize)
        ensures
            r == self@.total,
    {
        self.total
    }

    /// The counts of successes, skips and failures so far; they add up to the
    /// number of ISBNs handled, which never exceeds the total.
    pub fn counts(&self) -> (r: (usize, usize, usize))
        ensures
            r.0 == self@.success,
            r.1 == self@.skip,
            r.2 == self@.fail,
            r.0 + r.1 + r.2 == self@.done,
            self@.done <= self@.total,
    {
        proof {
            use_type_invariant(self);
        }
        (self.success, self.skip, self.fail)
    }
}

/// An outcome that counts as a success.
pub open spec fn is_success(o: ItemOutcome) -> bool {
    o is Shown || o is Registered
}

/// An outcome that counts as skipped.
pub open spec fn is_skip(o: ItemOutcome) -> bool {
    o is InvalidIsbn || o is NotFound
}

/// An outcome that counts as a failure.
pub open spec fn is_fail(o: ItemOutcome) -> bool {
    o is RegisterFailed
}

/// The number of outcomes in `s` of which `pred` holds.
pub open spec fn count_outcomes(s: Seq<ItemOutcome>, pred: spec_fn(ItemOutcome) -> bool) -> nat
    decreases s.len(),
{
    if s.len() == 0 {
        0
    } else {
        count_outcomes(s.drop_last(), pred) + if pred(s.last()) { 1nat } else { 0nat }
    }
}

/// The summary of a whole run: the numbers of successes, skips and failures
/// among the outcomes of its ISBNs. Every ISBN is counted exactly once, so the
/// three add up to the number of ISBNs; a run without a refused page (such as
/// a dry run) has no failures.
pub fn tally_outcomes(outcomes: &Vec<ItemOutcome>) -> (r: (usize, usize, usize))
    ensures
        r.0 == count_outcomes(outcomes@, |o: ItemOutcome| is_success(o)),
        r.1 == count_outcomes(outcomes@, |o: ItemOutcome| is_skip(o)),
        r.2 == count_outcomes(outcomes@, |o: ItemOutcome| is_fail(o)),
        r.0 + r.1 + r.2 == outcomes.len(),
        (forall|i: int| 0 <= i < outcomes.len() ==> !is_fail(#[trigger] outcomes@[i])) ==> r.2 == 0,
{
    let mut progress = Progress::new(outcomes.len());
    let mut i: usize = 0;
    while i < outcomes.len()
        invariant
            i <= outcomes.len(),
            progress@.total == outcomes.len(),
            progress@.done == i,
            progress@.success == count_outcomes(outcomes@.take(i as int), |o: ItemOutcome| is_success(o)),
            progress@.skip == count_outcomes(outcomes@.take(i as int), |o: ItemOutcome| is_skip(o)),
            progress@.fail == count_outcomes(outcomes@.take(i as int), |o: ItemOutcome| is_fail(o)),
            (forall|k: int| 0 <= k < outcomes.len() ==> !is_fail(#[trigger] outcomes@[k])) ==> progress@.fail == 0,
        decreases outcomes.len() - i,
    {
        assert(outcomes@.take(i + 1).drop_last() == outcomes@.take(i as int));
        assert(outcomes@.take(i + 1).last() == outcomes@[i as int]);
        progress.record(outcomes[i]);
        i += 1;
    }
    assert(outcomes@.take(outcomes.len() as int) == outcomes@);
    progress.counts()
}

/// The most characters of a description shown in a dry run.
pub const PREVIEW_CHARS: usize = 400;

/// A dry-run preview of a description: its first 400 characters, followed by
/// "…" when it is longer.
pub open spec fn preview(desc: Seq<char>) -> Seq<char> {
    if desc.len() > PREVIEW_CHARS {
        desc.take(PREVIEW_CHARS as int).push('…')
    } else {
        desc
    }
}

/// The dry-run preview of a description (see `preview`).
pub fn preview_description(desc: &str) -> (r: String)
    ensures
        r@ == preview(desc@),
        desc@.len() <= 400 ==> r@ == desc@,
        desc@.len() > 400 ==> r@.len() == 401 && r@.take(400) == desc@.take(400) && r@[400] == '…',
{
    let v = chars_of(desc);
    if v.len() > PREVIEW_CHARS {
        let mut r = string_from_chars(&v, 0, PREVIEW_CHARS);
        push_char(&mut r, '…');
        r
    } else {
        assert(v@.subrange(0, v.len() as int) == v@);
        string_from_chars(&v, 0, v.len())
    }
}

} // verus!
