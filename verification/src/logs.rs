//! Serving log files: which files a token may list and read, and which
//! lines of a file a request gets.
use vstd::prelude::*;
use vstd::utf8::{valid_utf8, decode_utf8};
use crate::text::{chars_of, contains_chars, seq_contains, string_from_chars, concat_str};
use crate::rev_log::{RevLogIter, RevLogStep, read_start};
use crate::lines::lines_of;
use crate::access::{AccessData, authorized};
use crate::http::Error;
use crate::text::{contains_parent_dir, parent_dir, starts_with, has_prefix, chars_range, push_char};

verus! {

/// How many lines a request gets when it does not say.
pub const DEFAULT_TAKE: usize = 10usize;

/// The lines of `lines` that hold `pattern`, in order.
pub open spec fn matching(lines: Seq<Seq<char>>, pattern: Seq<char>) -> Seq<Seq<char>> {
    lines.filter(|l: Seq<char>| seq_contains(l, pattern))
}

/// The lines holding `pattern`, without the first `skip` of them, at most
/// `take` of them.
pub open spec fn selected_lines(lines: Seq<Seq<char>>, pattern: Seq<char>, skip: int, take: int) -> Seq<Seq<char>> {
    let m = matching(lines, pattern);
    let start = if skip < m.len() { skip } else { m.len() as int };
    let end = if start + take < m.len() { start + take } else { m.len() as int };
    m.subrange(start, end)
}

/// Once a selection holds as many lines as it may, the lines that come
/// after change nothing: they can be left unread.
pub proof fn lemma_full_selection_is_final(
    lines: Seq<Seq<char>>,
    more: Seq<Seq<char>>,
    pattern: Seq<char>,
    skip: int,
    take: int,
)
    requires
        0 <= skip,
        0 <= take,
        selected_lines(lines, pattern, skip, take).len() == take,
    ensures
        selected_lines(lines + more, pattern, skip, take) == selected_lines(lines, pattern, skip, take),
{
    let pred = |l: Seq<char>| seq_contains(l, pattern);
    Seq::filter_distributes_over_add(lines, more, pred);
    let m = matching(lines, pattern);
    let m2 = matching(lines + more, pattern);
    assert(m2 == m + matching(more, pattern));
    if take > 0 {
        assert(skip < m.len());
        assert(skip + take <= m.len());
        assert(m2.subrange(skip, skip + take) =~= m.subrange(skip, skip + take));
    } else {
        assert(selected_lines(lines + more, pattern, skip, take) =~= Seq::<Seq<char>>::empty());
        assert(selected_lines(lines, pattern, skip, take) =~= Seq::<Seq<char>>::empty());
    }
}

/// With no pattern every line matches, empty lines included, so the
/// selection is the lines themselves, past the first `skip`, at most `take`.
pub proof fn lemma_no_pattern_keeps_every_line(lines: Seq<Seq<char>>, skip: int, take: int)
    requires
        0 <= skip,
        0 <= take,
    ensures
        matching(lines, Seq::empty()) == lines,
        selected_lines(lines, Seq::empty(), skip, take) == lines.subrange(
            if skip < lines.len() { skip } else { lines.len() as int },
            if skip + take < lines.len() { skip + take } else { lines.len() as int },
        ),
    decreases lines.len(),
{
    if lines.len() == 0 {
        reveal(Seq::filter);
        assert(matching(lines, Seq::empty()) =~= lines);
    } else {
        lemma_no_pattern_keeps_every_line(lines.drop_last(), skip, take);
        crate::text::lemma_contains_iff_occurs(lines.last(), Seq::<char>::empty());
        lemma_matching_push(lines.drop_last(), lines.last(), Seq::empty());
        assert(lines.drop_last().push(lines.last()) =~= lines);
    }
}

/// Adding a line adds it to the matching lines exactly when it matches.
pub proof fn lemma_matching_push(lines: Seq<Seq<char>>, l: Seq<char>, pattern: Seq<char>)
    ensures
        matching(lines.push(l), pattern) == if seq_contains(l, pattern) {
            matching(lines, pattern).push(l)
        } else {
            matching(lines, pattern)
        },
{
    lines.lemma_filter_push(l, |x: Seq<char>| seq_contains(x, pattern));
}

/// The query of a request for the lines of a log file.
#[derive(Debug, Clone)]
pub struct LogsRequest {
    pub take: Option<usize>,
    pub skip: Option<usize>,
    pub pattern: Option<String>,
}

impl LogsRequest {
    /// How many lines to answer: 10 unless the request says.
    pub open spec fn take_count(&self) -> usize {
        match self.take {
            Some(t) => t,
            None => DEFAULT_TAKE,
        }
    }

    /// How many matching lines to pass over: none unless the request says.
    pub open spec fn skip_count(&self) -> usize {
        match self.skip {
            Some(s) => s,
            None => 0,
        }
    }

    /// The text a line must hold: any line unless the request says.
    pub open spec fn pattern_text(&self) -> Seq<char> {
        match self.pattern {
            Some(p) => p@,
            None => Seq::empty(),
        }
    }

    /// How many lines to answer.
    pub fn take_or_default(&self) -> (t: usize)
        ensures
            t == self.take_count(),
    {
        match self.take {
            Some(t) => t,
            None => DEFAULT_TAKE,
        }
    }

    /// How many matching lines to pass over.
    pub fn skip_or_default(&self) -> (s: usize)
        ensures
            s == self.skip_count(),
    {
        match self.skip {
            Some(s) => s,
            None => 0,
        }
    }

    /// The text a line must hold.
    pub fn pattern_or_default(&self) -> (p: String)
        ensures
            p@ == self.pattern_text(),
    {
        match &self.pattern {
            Some(p) => p.clone(),
            None => String::new(),
        }
    }
}

/// Picks, from lines offered one at a time, those that a request asks for.
pub struct LineSelector {
    pattern: Vec<char>,
    skip: usize,
    take: usize,
    skipped: usize,
    selected: Vec<String>,
    offered: Ghost<Seq<Seq<char>>>,
}

impl LineSelector {
    /// The lines offered so far.
    pub closed spec fn offered(&self) -> Seq<Seq<char>> {
        self.offered@
    }

    /// The text the lines must hold.
    pub closed spec fn pattern(&self) -> Seq<char> {
        self.pattern@
    }

    /// How many matching lines are passed over.
    pub closed spec fn skip_count(&self) -> usize {
        self.skip
    }

    /// How many lines are kept at most.
    pub closed spec fn take_count(&self) -> usize {
        self.take
    }

    /// The lines kept so far.
    pub closed spec fn selection(&self) -> Seq<Seq<char>> {
        self.selected.deep_view()
    }

    /// As many lines are kept as asked for.
    pub closed spec fn full(&self) -> bool {
        self.selected@.len() >= self.take
    }

    /// The selector's internal consistency.
    pub closed spec fn wf(&self) -> bool {
        let m = matching(self.offered@, self.pattern@);
        &&& self.skipped as int == if m.len() < self.skip { m.len() as int } else { self.skip as int }
        &&& self.selected.deep_view() == selected_lines(self.offered@, self.pattern@, self.skip as int, self.take as int)
        &&& self.selected@.len() <= self.take
    }

    /// A selector for what `req` asks for, offered nothing yet.
    pub fn new(req: &LogsRequest) -> (s: Self)
        ensures
            s.wf(),
            s.offered() == Seq::<Seq<char>>::empty(),
            s.selection() == Seq::<Seq<char>>::empty(),
            s.pattern() == req.pattern_text(),
            s.skip_count() == req.skip_count(),
            s.take_count() == req.take_count(),
    {
        let p = req.pattern_or_default();
        let s = LineSelector {
            pattern: chars_of(p.as_str()),
            skip: req.skip_or_default(),
            take: req.take_or_default(),
            skipped: 0,
            selected: Vec::new(),
            offered: Ghost(Seq::empty()),
        };
        proof {
            let m = matching(s.offered@, s.pattern@);
            reveal(Seq::filter);
            assert(m.len() == 0);
            assert(s.selected.deep_view() =~= selected_lines(s.offered@, s.pattern@, s.skip as int, s.take as int));
        }
        s
    }

    /// Whether as many lines are kept as asked for.
    pub fn is_full(&self) -> (b: bool)
        ensures
            b == self.full(),
    {
        self.selected.len() >= self.take
    }

    /// Offers the next line; says whether as many lines are now kept as
    /// asked for.
    pub fn offer(&mut self, line: String) -> (full: bool)
        requires
            old(self).wf(),
        ensures
            final(self).wf(),
            final(self).offered() == old(self).offered().push(line@),
            final(self).pattern() == old(self).pattern(),
            final(self).skip_count() == old(self).skip_count(),
            final(self).take_count() == old(self).take_count(),
            final(self).selection() == selected_lines(final(self).offered(), final(self).pattern(),
                final(self).skip_count() as int, final(self).take_count() as int),
            full == final(self).full(),
    {
        let ghost m0 = matching(self.offered@, self.pattern@);
        let ghost sel0 = self.selected.deep_view();
        let ghost l = line@;
        let v = chars_of(line.as_str());
        let hit = contains_chars(&v, &self.pattern);
        proof {
            lemma_matching_push(self.offered@, l, self.pattern@);
            self.offered@ = self.offered@.push(l);
        }
        if hit {
            if self.skipped < self.skip {
                self.skipped = self.skipped + 1;
                proof {
                    let m = matching(self.offered@, self.pattern@);
                    assert(m == m0.push(l));
                    assert(sel0.len() == 0);
                    assert(self.selected.deep_view() =~= selected_lines(self.offered@, self.pattern@, self.skip as int, self.take as int));
                }
            } else if self.selected.len() < self.take {
                let ghost before = self.selected@;
                self.selected.push(line);
                proof {
                    let m = matching(self.offered@, self.pattern@);
                    assert(m == m0.push(l));
                    assert(self.selected@ =~= before.push(self.selected@.last()));
                    assert(self.selected.deep_view() =~= sel0.push(l));
                    assert(selected_lines(self.offered@, self.pattern@, self.skip as int, self.take as int)
                        =~= sel0.push(l));
                }
            } else {
                proof {
                    let m = matching(self.offered@, self.pattern@);
                    assert(m == m0.push(l));
                    assert(self.selected.deep_view() =~= selected_lines(self.offered@, self.pattern@, self.skip as int, self.take as int));
                }
            }
        }
        self.selected.len() >= self.take
    }

    /// A copy of the lines kept, in the order they were offered.
    pub fn clone_selection(&self) -> (v: Vec<String>)
        ensures
            v.deep_view() == self.selection(),
    {
        crate::access::clone_strings(&self.selected)
    }
}

/// `String::from_utf8`: the text that the bytes encode, or an error when they
/// are not UTF-8. Claimed of it, as its documentation says: it succeeds
/// exactly when the bytes are valid UTF-8, and then holds their decoding.
#[verifier::external_body]
fn utf8_text(bytes: Vec<u8>) -> (r: Option<String>)
    ensures
        r is Some <==> valid_utf8(bytes@),
        r matches Some(s) ==> s@ == decode_utf8(bytes@),
{
    String::from_utf8(bytes).ok()
}

/// The text of each line.
pub open spec fn decoded(lines: Seq<Seq<u8>>) -> Seq<Seq<char>> {
    lines.map_values(|l: Seq<u8>| decode_utf8(l))
}

/// Every line is valid UTF-8.
pub open spec fn all_utf8(lines: Seq<Seq<u8>>) -> bool {
    forall|i: int| 0 <= i < lines.len() ==> valid_utf8(#[trigger] lines[i])
}

/// What a request for the tail of a log file wants done next.
#[derive(Debug, PartialEq, Eq)]
pub enum TailStep {
    /// Read `len` bytes of the file from offset `start`, then `supply` them.
    Read { start: u64, len: u64 },
    /// The lines that answer the request, newest first.
    Done(Vec<String>),
}

/// Answers a request for lines of a log file: reads the file backwards and
/// keeps the lines that the request asks for, newest first.
pub struct LogTail {
    reader: RevLogIter,
    selector: LineSelector,
    unreadable: bool,
}

impl LogTail {
    /// The backwards reader of the file.
    pub closed spec fn reader(&self) -> RevLogIter {
        self.reader
    }

    /// The selector of the lines.
    pub closed spec fn selector(&self) -> LineSelector {
        self.selector
    }

    /// A line that is not UTF-8 was met, which ends the reading.
    pub closed spec fn unreadable(&self) -> bool {
        self.unreadable
    }

    /// The state's internal consistency: every line read so far was offered
    /// to the selector, as text, unless it was not UTF-8 (which ends it).
    pub closed spec fn wf(&self) -> bool {
        &&& self.reader.wf()
        &&& self.selector.wf()
        &&& !self.unreadable ==> {
            &&& all_utf8(self.reader.emitted())
            &&& self.selector.offered() == decoded(self.reader.emitted())
        }
        &&& self.unreadable ==> {
            &&& self.reader.emitted().len() > 0
            &&& !valid_utf8(self.reader.emitted().last())
            &&& all_utf8(self.reader.emitted().drop_last())
            &&& self.selector.offered() == decoded(self.reader.emitted().drop_last())
        }
    }

    /// The reading of a file of `size` bytes for `req`, not begun yet.
    pub fn new(size: u64, req: &LogsRequest) -> (t: Self)
        ensures
            t.wf(),
            t.reader().file_size() == size,
            t.reader().position() == size,
            t.reader().read_so_far() == Seq::<u8>::empty(),
            t.selector().offered() == Seq::<Seq<char>>::empty(),
            t.selector().pattern() == req.pattern_text(),
            t.selector().skip_count() == req.skip_count(),
            t.selector().take_count() == req.take_count(),
            !t.unreadable(),
    {
        let t = LogTail { reader: RevLogIter::new(size), selector: LineSelector::new(req), unreadable: false };
        assert(decoded(t.reader.emitted()) =~= Seq::<Seq<char>>::empty());
        t
    }

    /// Goes on until a chunk of the file is needed or the answer is known.
    pub fn step(&mut self) -> (r: TailStep)
        requires
            old(self).wf(),
        ensures
            final(self).wf(),
            final(self).reader().hands_out_last_lines(),
            !final(self).unreadable() ==> final(self).selector().offered() == decoded(final(self).reader().emitted()),
            final(self).reader().file_size() == old(self).reader().file_size(),
            final(self).reader().read_so_far() == old(self).reader().read_so_far(),
            final(self).reader().position() == old(self).reader().position(),
            final(self).selector().pattern() == old(self).selector().pattern(),
            final(self).selector().skip_count() == old(self).selector().skip_count(),
            final(self).selector().take_count() == old(self).selector().take_count(),
            old(self).reader().finished() ==> r is Done,
            match r {
                TailStep::Read { start, len } => {
                    &&& final(self).reader().needs_read()
                    &&& final(self).reader().position() > 0
                    &&& len > 0
                    &&& start == read_start(final(self).reader().position())
                    &&& start + len == final(self).reader().position()
                    &&& !final(self).unreadable()
                    &&& !final(self).selector().full()
                },
                TailStep::Done(v) => {
                    &&& v.deep_view() == final(self).selector().selection()
                    &&& v.deep_view() == selected_lines(final(self).selector().offered(),
                        final(self).selector().pattern(), final(self).selector().skip_count() as int,
                        final(self).selector().take_count() as int)
                    &&& (final(self).selector().full() || final(self).unreadable() || (
                        final(self).reader().finished()
                        && final(self).reader().read_so_far().len() == final(self).reader().file_size()
                        && final(self).selector().offered() == decoded(lines_of(final(self).reader().read_so_far()).reverse())))
                },
            },
    {
        loop
            invariant
                self.wf(),
                self.reader.file_size() == old(self).reader.file_size(),
                self.reader.read_so_far() == old(self).reader.read_so_far(),
                self.reader.position() == old(self).reader.position(),
                self.selector.pattern() == old(self).selector.pattern(),
                self.selector.skip_count() == old(self).selector.skip_count(),
                self.selector.take_count() == old(self).selector.take_count(),
                old(self).reader.finished() ==> self.reader.finished(),
            decreases self.reader.pending(),
        {
            proof {
                crate::rev_log::lemma_hands_out_last_lines(&self.reader);
            }
            if self.unreadable || self.selector.is_full() {
                return TailStep::Done(self.selection());
            }
            let ghost e0 = self.reader.emitted();
            match self.reader.step() {
                RevLogStep::Read { start, len } => {
                    return TailStep::Read { start, len };
                },
                RevLogStep::Finished => {
                    proof {
                        assert(self.reader.emitted() == e0);
                    }
                    return TailStep::Done(self.selection());
                },
                RevLogStep::Line(raw) => {
                    let ghost rl = raw@;
                    proof {
                        assert(self.reader.emitted().drop_last() =~= e0);
                        assert(self.reader.emitted().last() == rl);
                    }
                    match utf8_text(raw) {
                        None => {
                            self.unreadable = true;
                        },
                        Some(text) => {
                            proof {
                                assert(decoded(self.reader.emitted()) =~= decoded(e0).push(text@));
                            }
                            self.selector.offer(text);
                        },
                    }
                },
            }
        }
    }

    /// The lines kept so far, newest first.
    pub fn selection(&self) -> (v: Vec<String>)
        ensures
            v.deep_view() == self.selector().selection(),
    {
        self.selector.clone_selection()
    }

    /// Hands over the bytes asked for by the last `Read`.
    pub fn supply(&mut self, bytes: Vec<u8>)
        requires
            old(self).wf(),
            old(self).reader().needs_read(),
            !old(self).unreadable(),
            bytes@.len() + read_start(old(self).reader().position()) == old(self).reader().position(),
        ensures
            final(self).wf(),
            final(self).reader().file_size() == old(self).reader().file_size(),
            final(self).reader().position() == read_start(old(self).reader().position()),
            final(self).reader().position() < old(self).reader().position(),
            final(self).reader().read_so_far() == bytes@ + old(self).reader().read_so_far(),
            final(self).selector() == old(self).selector(),
            !final(self).unreadable(),
    {
        self.reader.supply(bytes);
    }
}

/// The answer to a request for the tail of a log file depends on the file
/// alone: once the reading stops (enough lines are kept, a line is not
/// UTF-8, or the file is read to its start), the lines kept are those the
/// request selects from all lines of the file, newest first, for every file
/// content that ends with the bytes read and whose lines are UTF-8.
pub proof fn lemma_tail_answers_whole_file(t: &LogTail, content: Seq<u8>)
    requires
        t.wf(),
        t.selector().full() || t.unreadable() || t.reader().finished(),
        t.reader().position() <= content.len(),
        content.skip(t.reader().position() as int) == t.reader().read_so_far(),
        all_utf8(lines_of(content)),
    ensures
        !t.unreadable(),
        t.selector().selection() == selected_lines(decoded(lines_of(content).reverse()),
            t.selector().pattern(), t.selector().skip_count() as int, t.selector().take_count() as int),
{
    let it = t.reader;
    let before = content.take(it.position() as int);
    assert(before + it.read_so_far() =~= content);
    crate::rev_log::lemma_emitted_are_last_lines(&it, before);
    let all = lines_of(content);
    let e = it.emitted();
    let n = e.len();
    assert(e.reverse().is_suffix_of(all));
    assert(e.reverse() =~= all.subrange(all.len() - n, all.len() as int));
    let r = all.reverse();
    assert(e =~= r.take(n as int)) by {
        assert forall|i: int| 0 <= i < n implies e[i] == r[i] by {
            assert(e[i] == e.reverse()[n - 1 - i]);
        }
    }
    if t.unreadable {
        assert(e.last() == all[all.len() - n]);
        assert(valid_utf8(all[all.len() - n]));
        assert(false);
    }
    let p = t.selector.pattern();
    let sk = t.selector.skip_count() as int;
    let tk = t.selector.take_count() as int;
    if t.selector.full() {
        let d = decoded(r);
        assert(decoded(r.take(n as int)) + decoded(r.skip(n as int)) =~= d);
        assert(t.selector.selection().len() == tk);
        lemma_full_selection_is_final(decoded(e), decoded(r.skip(n as int)), p, sk, tk);
    } else {
        crate::rev_log::lemma_finished_read_everything(&it);
        assert(content.skip(0) =~= content);
    }
}

/// The path of the log file a request names, in the log directory `log_dir`
/// (written without a trailing slash): as given when it starts with the
/// directory, inside the directory otherwise.
pub open spec fn log_path(log_dir: Seq<char>, filename: Seq<char>) -> Seq<char> {
    if starts_with(filename, log_dir) {
        filename
    } else {
        log_dir.push('/') + filename
    }
}

/// Checks a request to read the log file `filename` of the log directory
/// `log_dir` and gives the path to read: a name holding `..` is forbidden,
/// as is a file the token's path patterns do not grant.
pub fn authorize_log_file(access: &AccessData, log_dir: &str, filename: &str) -> (r: Result<String, Error>)
    ensures
        seq_contains(filename@, parent_dir()) ==> (r matches Err(Error::Forbidden(m))
            && m@ == "The `..` operator is forbidden."@),
        !seq_contains(filename@, parent_dir()) && !authorized(access.paths.deep_view(), filename@)
            ==> (r matches Err(Error::Forbidden(m)) && m@ == "You do not have access to file "@ + filename@),
        r is Ok <==> !seq_contains(filename@, parent_dir()) && authorized(access.paths.deep_view(), filename@),
        r matches Ok(p) ==> p@ == log_path(log_dir@, filename@),
{
    if contains_parent_dir(filename) {
        return Err(Error::Forbidden("The `..` operator is forbidden.".to_owned()));
    }
    if !access.file_access_authorized(filename) {
        return Err(Error::Forbidden(concat_str("You do not have access to file ", filename)));
    }
    let v = chars_of(filename);
    let dir = chars_of(log_dir);
    if has_prefix(&v, &dir) {
        Ok(filename.to_owned())
    } else {
        let mut d = log_dir.to_owned();
        push_char(&mut d, '/');
        Ok(concat_str(d.as_str(), filename))
    }
}

/// The answer to a request for a log file that does not exist.
pub fn log_not_found(path: &str) -> (e: Error)
    ensures
        e matches Error::BadRequest(m) && m@ == path@ + " does not exist."@,
{
    Error::BadRequest(concat_str(path, " does not exist."))
}

/// The log files to list, from the paths of all files under the log
/// directory `log_dir`: each named relative to the directory, those the path
/// patterns grant, in order.
pub open spec fn listed_logs(files: Seq<Seq<char>>, log_dir: Seq<char>, patterns: Seq<Seq<char>>) -> Seq<Seq<char>>
    decreases files.len(),
{
    if files.len() == 0 {
        Seq::empty()
    } else {
        let rest = listed_logs(files.drop_last(), log_dir, patterns);
        let f = files.last();
        let prefix = log_dir.push('/');
        if starts_with(f, prefix) && authorized(patterns, f.skip(prefix.len() as int)) {
            rest.push(f.skip(prefix.len() as int))
        } else {
            rest
        }
    }
}

/// The files listed are exactly the files under the log directory whose
/// name relative to it the patterns grant: each listed name is granted as
/// listed and names a file under the directory, and each such granted file
/// is listed.
pub proof fn lemma_listed_logs_are_the_granted_files(
    files: Seq<Seq<char>>,
    log_dir: Seq<char>,
    patterns: Seq<Seq<char>>,
)
    ensures
        forall|i: int| 0 <= i < listed_logs(files, log_dir, patterns).len()
            ==> authorized(patterns, #[trigger] listed_logs(files, log_dir, patterns)[i]),
        forall|i: int| #![trigger listed_logs(files, log_dir, patterns)[i]]
            0 <= i < listed_logs(files, log_dir, patterns).len() ==> exists|j: int|
            0 <= j < files.len() && starts_with(files[j], log_dir.push('/'))
                && #[trigger] files[j].skip(log_dir.len() + 1int) == listed_logs(files, log_dir, patterns)[i],
        forall|j: int| 0 <= j < files.len() && starts_with(#[trigger] files[j], log_dir.push('/'))
            && authorized(patterns, files[j].skip(log_dir.len() + 1int))
            ==> listed_logs(files, log_dir, patterns).contains(files[j].skip(log_dir.len() + 1int)),
    decreases files.len(),
{
    if files.len() > 0 {
        let prev = files.drop_last();
        lemma_listed_logs_are_the_granted_files(prev, log_dir, patterns);
        let r = listed_logs(prev, log_dir, patterns);
        let out = listed_logs(files, log_dir, patterns);
        let f = files.last();
        let n: int = log_dir.len() + 1int;
        assert(log_dir.push('/').len() == n);
        assert forall|i: int| #![trigger out[i]] 0 <= i < out.len() implies authorized(patterns, out[i]) && exists|j: int|
            0 <= j < files.len() && starts_with(files[j], log_dir.push('/'))
                && #[trigger] files[j].skip(log_dir.len() + 1int) == out[i] by {
            if i < r.len() {
                assert(out[i] == r[i]);
                let j = choose|j: int| 0 <= j < prev.len() && starts_with(prev[j], log_dir.push('/'))
                    && #[trigger] prev[j].skip(log_dir.len() + 1int) == r[i];
                assert(files[j] == prev[j]);
            } else {
                assert(out[i] == f.skip(n));
                assert(files[files.len() - 1] == f);
            }
        }
        assert forall|j: int| 0 <= j < files.len() && starts_with(#[trigger] files[j], log_dir.push('/'))
            && authorized(patterns, files[j].skip(log_dir.len() + 1int))
            implies out.contains(files[j].skip(log_dir.len() + 1int)) by {
            if j < prev.len() {
                assert(files[j] == prev[j]);
                let k = choose|k: int| 0 <= k < r.len() && r[k] == prev[j].skip(n);
                assert(out[k] == r[k]);
            } else {
                assert(files[j] == f);
                assert(out[r.len() as int] == f.skip(n));
            }
        }
    }
}

/// The log files a token may see, from the paths of all files under the
/// log directory `log_dir`.
pub fn accessible_log_files(access: &AccessData, log_dir: &str, files: &Vec<String>) -> (out: Vec<String>)
    ensures
        out.deep_view() == listed_logs(files.deep_view(), log_dir@, access.paths.deep_view()),
{
    let mut dir = chars_of(log_dir);
    dir.push('/');
    let mut out: Vec<String> = Vec::new();
    let mut i: usize = 0;
    while i < files.len()
        invariant
            i <= files.len(),
            dir@ == log_dir@.push('/'),
            out.deep_view() == listed_logs(files.deep_view().take(i as int), log_dir@, access.paths.deep_view()),
        decreases files.len() - i,
    {
        let ghost before = out.deep_view();
        let v = chars_of(files[i].as_str());
        proof {
            assert(files.deep_view().take(i + 1).drop_last() =~= files.deep_view().take(i as int));
            assert(files.deep_view().take(i + 1).last() == files.deep_view()[i as int]);
        }
        if has_prefix(&v, &dir) {
            let name = string_from_chars(&chars_range(&v, dir.len(), v.len()));
            assert(name@ =~= v@.skip(dir@.len() as int));
            if access.file_access_authorized(name.as_str()) {
                out.push(name);
                assert(out.deep_view() =~= before.push(v@.skip(dir@.len() as int)));
            }
        }
        i = i + 1;
    }
    assert(files.deep_view().take(files.len() as int) =~= files.deep_view());
    out
}

} // verus!
