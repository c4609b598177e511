//! Lines of a byte buffer, as `str::lines` splits them: at `\n`, dropping a
//! `\r` right before it, with the last line ending optional.
use vstd::prelude::*;

verus! {

/// The line feed byte.
pub const NL: u8 = 10u8;

/// The carriage return byte.
pub const CR: u8 = 13u8;

/// The index of the first line feed in `s`, or `s.len()` when there is none.
pub open spec fn newline_index(s: Seq<u8>) -> int
    decreases s.len(),
{
    if s.len() == 0 {
        0
    } else if s[0] == NL {
        0
    } else {
        1 + newline_index(s.drop_first())
    }
}

/// A line without the carriage return that ended it, if any.
pub open spec fn strip_cr(s: Seq<u8>) -> Seq<u8> {
    if s.len() > 0 && s.last() == CR {
        s.drop_last()
    } else {
        s
    }
}

/// The lines of `s`, first to last.
pub open spec fn lines_of(s: Seq<u8>) -> Seq<Seq<u8>>
    decreases s.len(),
{
    if s.len() == 0 {
        Seq::empty()
    } else {
        let k = newline_index(s);
        if 0 <= k < s.len() {
            seq![strip_cr(s.take(k))] + lines_of(s.skip(k + 1))
        } else {
            seq![s]
        }
    }
}

/// `s` holds a line feed at two different places.
pub open spec fn has_two_newlines(s: Seq<u8>) -> bool {
    exists|i: int, j: int| 0 <= i < j < s.len() && s[i] == NL && s[j] == NL
}

/// `newline_index` is the first line feed, or the length when there is none.
pub proof fn lemma_newline_index(s: Seq<u8>)
    ensures
        0 <= newline_index(s) <= s.len(),
        newline_index(s) < s.len() ==> s[newline_index(s)] == NL,
        forall|j: int| 0 <= j < newline_index(s) ==> s[j] != NL,
    decreases s.len(),
{
    if s.len() > 0 && s[0] != NL {
        lemma_newline_index(s.drop_first());
        assert forall|j: int| 0 <= j < newline_index(s) implies s[j] != NL by {
            if j > 0 {
                assert(s[j] == s.drop_first()[j - 1]);
            }
        }
    }
}

/// A line feed at `k` with none before it is what `newline_index` finds.
pub proof fn lemma_newline_index_at(s: Seq<u8>, k: int)
    requires
        0 <= k <= s.len(),
        k < s.len() ==> s[k] == NL,
        forall|j: int| 0 <= j < k ==> s[j] != NL,
    ensures
        newline_index(s) == k,
    decreases s.len(),
{
    if s.len() > 0 && k > 0 {
        assert forall|j: int| 0 <= j < k - 1 implies s.drop_first()[j] != NL by {
            assert(s.drop_first()[j] == s[j + 1]);
        }
        lemma_newline_index_at(s.drop_first(), k - 1);
    }
}

/// Splitting at the first line feed `k`.
pub proof fn lemma_lines_split_first(s: Seq<u8>, k: int)
    requires
        0 <= k < s.len(),
        s[k] == NL,
        forall|j: int| 0 <= j < k ==> s[j] != NL,
    ensures
        lines_of(s) == seq![strip_cr(s.take(k))] + lines_of(s.skip(k + 1)),
{
    lemma_newline_index_at(s, k);
}

/// Text without a line feed is a single line (or none, when empty).
pub proof fn lemma_lines_no_newline(s: Seq<u8>)
    requires
        forall|j: int| 0 <= j < s.len() ==> s[j] != NL,
    ensures
        s.len() > 0 ==> lines_of(s) == seq![s],
        s.len() == 0 ==> lines_of(s) == Seq::<Seq<u8>>::empty(),
{
    lemma_newline_index_at(s, s.len() as int);
}

/// The lines of two pieces, the first of which ends with a line feed, are
/// the lines of the first piece followed by those of the second.
pub proof fn lemma_lines_concat(a: Seq<u8>, b: Seq<u8>)
    requires
        a.len() == 0 || a.last() == NL,
    ensures
        lines_of(a + b) == lines_of(a) + lines_of(b),
    decreases a.len(),
{
    if a.len() == 0 {
        assert(a + b =~= b);
        assert(lines_of(a) + lines_of(b) =~= lines_of(b));
    } else {
        lemma_newline_index(a);
        let k = newline_index(a);
        assert(k < a.len()) by {
            if k == a.len() {
                assert(a[a.len() - 1] == NL);
            }
        }
        let ab = a + b;
        assert forall|j: int| 0 <= j < k implies ab[j] != NL by {
            assert(ab[j] == a[j]);
        }
        lemma_lines_split_first(ab, k);
        lemma_lines_split_first(a, k);
        assert(ab.take(k) =~= a.take(k));
        assert(ab.skip(k + 1) =~= a.skip(k + 1) + b);
        let a2 = a.skip(k + 1);
        assert(a2.len() == 0 || a2.last() == NL) by {
            if a2.len() > 0 {
                assert(a2.last() == a.last());
            }
        }
        lemma_lines_concat(a2, b);
        assert(lines_of(ab) =~= lines_of(a) + lines_of(b));
    }
}

/// Each line takes at least one byte.
pub proof fn lemma_lines_len(s: Seq<u8>)
    ensures
        lines_of(s).len() <= s.len(),
        s.len() > 0 ==> lines_of(s).len() > 0,
    decreases s.len(),
{
    if s.len() > 0 {
        lemma_newline_index(s);
        let k = newline_index(s);
        if k < s.len() {
            lemma_lines_len(s.skip(k + 1));
        }
    }
}

/// The contents of each buffer, in order.
pub open spec fn views(v: Seq<Vec<u8>>) -> Seq<Seq<u8>> {
    v.map_values(|x: Vec<u8>| x@)
}

/// A copy of `v[from..to]`.
pub fn copy_range(v: &[u8], from: usize, to: usize) -> (out: Vec<u8>)
    requires
        from <= to <= v.len(),
    ensures
        out@ == v@.subrange(from as int, to as int),
{
    let mut out: Vec<u8> = Vec::new();
    let mut i = from;
    while i < to
        invariant
            from <= i <= to <= v.len(),
            out@ == v@.subrange(from as int, i as int),
        decreases to - i,
    {
        out.push(v[i]);
        i = i + 1;
        assert(out@ =~= v@.subrange(from as int, i as int));
    }
    out
}

/// `line` without the carriage return at its end, if it has one.
pub fn strip_cr_vec(line: Vec<u8>) -> (out: Vec<u8>)
    ensures
        out@ == strip_cr(line@),
{
    let ghost orig = line@;
    let mut line = line;
    let n = line.len();
    if n > 0 && line[n - 1] == CR {
        line.truncate(n - 1);
        assert(line@ =~= orig.drop_last());
    }
    line
}

/// The index of the first line feed of `s` at or after `from`, or `s.len()`.
pub fn find_newline(s: &[u8], from: usize) -> (k: usize)
    requires
        from <= s.len(),
    ensures
        from <= k <= s.len(),
        k < s.len() ==> s@[k as int] == NL,
        forall|j: int| from <= j < k ==> s@[j] != NL,
{
    let mut k = from;
    while k < s.len() && s[k] != NL
        invariant
            from <= k <= s.len(),
            forall|j: int| from <= j < k ==> s@[j] != NL,
        decreases s.len() - k,
    {
        k = k + 1;
    }
    k
}

/// Whether `s` holds a line feed at two different places.
pub fn two_newlines(s: &[u8]) -> (b: bool)
    ensures
        b == has_two_newlines(s@),
{
    let k = find_newline(s, 0);
    if k == s.len() {
        return false;
    }
    let k2 = find_newline(s, k + 1);
    if k2 == s.len() {
        proof {
            assert forall|i: int, j: int| 0 <= i < j < s@.len() && s@[i] == NL implies s@[j] != NL by {
                assert(i >= k);
            }
        }
        false
    } else {
        true
    }
}

/// The lines of `s[from..]`, first to last.
pub fn split_lines(s: &[u8], from: usize) -> (out: Vec<Vec<u8>>)
    requires
        from <= s.len(),
    ensures
        views(out@) == lines_of(s@.skip(from as int)),
{
    let mut out: Vec<Vec<u8>> = Vec::new();
    let mut start = from;
    while start < s.len()
        invariant
            from <= start <= s.len(),
            views(out@) + lines_of(s@.skip(start as int)) == lines_of(s@.skip(from as int)),
        decreases s.len() - start,
    {
        let k = find_newline(s, start);
        let ghost rest = s@.skip(start as int);
        let ghost before = views(out@);
        proof {
            assert forall|j: int| 0 <= j < k - start implies rest[j] != NL by {
                assert(rest[j] == s@[start + j]);
            }
        }
        if k < s.len() {
            let line = strip_cr_vec(copy_range(s, start, k));
            proof {
                lemma_lines_split_first(rest, k - start);
                assert(rest.take(k - start) =~= s@.subrange(start as int, k as int));
                assert(rest.skip(k - start + 1) =~= s@.skip(k + 1));
            }
            out.push(line);
            proof {
                assert(views(out@) =~= before.push(line@));
                assert(views(out@) + lines_of(s@.skip(k + 1)) =~= before + lines_of(rest));
            }
            start = k + 1;
        } else {
            let line = copy_range(s, start, s.len());
            proof {
                lemma_lines_no_newline(rest);
                assert(line@ =~= rest);
                assert(s@.skip(s.len() as int) =~= Seq::<u8>::empty());
            }
            out.push(line);
            proof {
                assert(views(out@) =~= before.push(line@));
                assert(views(out@) + lines_of(s@.skip(s.len() as int)) =~= before + lines_of(rest));
            }
            start = s.len();
        }
    }
    proof {
        assert(s@.skip(start as int) =~= Seq::<u8>::empty());
        assert(views(out@) + lines_of(s@.skip(start as int)) =~= views(out@));
    }
    out
}

} // verus!
