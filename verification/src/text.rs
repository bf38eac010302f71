//! Searching and splitting sequences of characters.
//!
//! Everything here works on `Seq<char>` in specifications and on `[char]`
//! in executable code; a `&str` is turned into a `Vec<char>` once, at the
//! edge, by [`to_chars`].
use vstd::prelude::*;

verus! {

/// `pat` occurs in `s` starting at position `i`.
pub open spec fn occurs_at(s: Seq<char>, pat: Seq<char>, i: int) -> bool {
    &&& 0 <= i
    &&& i + pat.len() <= s.len()
    &&& s.subrange(i, i + pat.len()) == pat
}

/// `i` is the position of the first occurrence of `pat` in `s`.
pub open spec fn is_first_occurrence(s: Seq<char>, pat: Seq<char>, i: int) -> bool {
    &&& occurs_at(s, pat, i)
    &&& forall|j: int| 0 <= j < i ==> !#[trigger] occurs_at(s, pat, j)
}

/// The position of the first occurrence of `pat` in `s`, if `pat` occurs at all.
pub open spec fn first_occurrence(s: Seq<char>, pat: Seq<char>) -> Option<int> {
    if exists|i: int| occurs_at(s, pat, i) {
        Some(choose|i: int| is_first_occurrence(s, pat, i))
    } else {
        None
    }
}

/// Splits `s` around the first occurrence of `pat`: what stands before it and
/// what stands after it.
pub open spec fn split_once(s: Seq<char>, pat: Seq<char>) -> Option<(Seq<char>, Seq<char>)> {
    match first_occurrence(s, pat) {
        Some(i) => Some((s.take(i), s.skip(i + pat.len()))),
        None => None,
    }
}

/// The line terminator.
pub open spec fn newline() -> Seq<char> {
    seq!['\n']
}

/// The lines of `s` that are terminated by a newline (without it), and the
/// text after the last newline.
pub open spec fn split_lines(s: Seq<char>) -> (Seq<Seq<char>>, Seq<char>)
    decreases s.len(),
{
    match first_occurrence(s, newline()) {
        Some(i) => {
            proof {
                lemma_first_occurrence(s, newline());
            }
            let (more, rest) = split_lines(s.skip(i + 1));
            (seq![s.take(i)] + more, rest)
        },
        None => (seq![], s),
    }
}

/// The concatenation of `lines`, each followed by a newline.
pub open spec fn join_lines(lines: Seq<Seq<char>>) -> Seq<char>
    decreases lines.len(),
{
    if lines.len() == 0 {
        seq![]
    } else {
        lines[0] + newline() + join_lines(lines.drop_first())
    }
}

proof fn lemma_first_exists(s: Seq<char>, pat: Seq<char>, i: int)
    requires
        occurs_at(s, pat, i),
    ensures
        exists|k: int| is_first_occurrence(s, pat, k),
    decreases i,
{
    if exists|j: int| 0 <= j < i && occurs_at(s, pat, j) {
        let j = choose|j: int| 0 <= j < i && occurs_at(s, pat, j);
        lemma_first_exists(s, pat, j);
    } else {
        assert(is_first_occurrence(s, pat, i));
    }
}

/// `first_occurrence` finds the first occurrence when there is one, and
/// reports none only when `pat` occurs nowhere.
pub proof fn lemma_first_occurrence(s: Seq<char>, pat: Seq<char>)
    ensures
        match first_occurrence(s, pat) {
            Some(i) => is_first_occurrence(s, pat, i),
            None => forall|i: int| !#[trigger] occurs_at(s, pat, i),
        },
{
    if exists|i: int| occurs_at(s, pat, i) {
        let i = choose|i: int| occurs_at(s, pat, i);
        lemma_first_exists(s, pat, i);
    }
}

/// A position that is a first occurrence is the one `first_occurrence` gives.
pub proof fn lemma_first_occurrence_is(s: Seq<char>, pat: Seq<char>, i: int)
    requires
        is_first_occurrence(s, pat, i),
    ensures
        first_occurrence(s, pat) == Some(i),
{
    lemma_first_occurrence(s, pat);
    let k = first_occurrence(s, pat)->0;
    if k < i {
        assert(!occurs_at(s, pat, k));
    } else if i < k {
        assert(!occurs_at(s, pat, i));
    }
}

/// Splitting around the first occurrence of `pat` loses nothing: what stands
/// before, `pat`, and what stands after give back `s`, and `pat` does not
/// occur in `s` before that point. There is no split only when `pat` occurs
/// nowhere in `s`.
pub proof fn lemma_split_once_rebuilds(s: Seq<char>, pat: Seq<char>)
    ensures
        match split_once(s, pat) {
            Some((before, after)) => {
                &&& before + pat + after == s
                &&& forall|j: int| 0 <= j < before.len() ==> !#[trigger] occurs_at(s, pat, j)
            },
            None => forall|j: int| !#[trigger] occurs_at(s, pat, j),
        },
{
    lemma_first_occurrence(s, pat);
    if let Some(i) = first_occurrence(s, pat) {
        assert(s.take(i) + pat + s.skip(i + pat.len()) =~= s);
    }
}

/// A pattern cannot start at a position whose character is not the
/// pattern's first character.
pub proof fn lemma_no_occurrence_in(a: Seq<char>, pat: Seq<char>, b: Seq<char>)
    requires
        pat.len() > 0,
        !a.contains(pat[0]),
    ensures
        forall|j: int| 0 <= j < a.len() ==> !#[trigger] occurs_at(a + pat + b, pat, j),
{
    let s = a + pat + b;
    assert forall|j: int| 0 <= j < a.len() implies !#[trigger] occurs_at(s, pat, j) by {
        if occurs_at(s, pat, j) {
            assert(s.subrange(j, j + pat.len())[0] == s[j]);
            assert(s[j] == a[j]);
        }
    }
}

/// Splitting `a + pat + b`, where `pat` does not occur before the end of
/// `a`, gives back `a` and `b`.
pub proof fn lemma_split_once_of_parts(a: Seq<char>, pat: Seq<char>, b: Seq<char>)
    requires
        forall|j: int| 0 <= j < a.len() ==> !#[trigger] occurs_at(a + pat + b, pat, j),
    ensures
        split_once(a + pat + b, pat) == Some((a, b)),
{
    let s = a + pat + b;
    assert(s.subrange(a.len() as int, a.len() + pat.len() as int) =~= pat);
    assert(occurs_at(s, pat, a.len() as int));
    lemma_first_occurrence_is(s, pat, a.len() as int);
    assert(s.take(a.len() as int) =~= a);
    assert(s.skip(a.len() + pat.len() as int) =~= b);
}

/// Lines without newlines, each followed by a newline, and then a text
/// without a newline, are split back into exactly those lines and that
/// text.
pub proof fn lemma_split_lines_of_join(ls: Seq<Seq<char>>, rest: Seq<char>)
    requires
        forall|k: int| 0 <= k < ls.len() ==> !(#[trigger] ls[k]).contains('\n'),
        !rest.contains('\n'),
    ensures
        split_lines(join_lines(ls) + rest) == (ls, rest),
    decreases ls.len(),
{
    let s = join_lines(ls) + rest;
    if ls.len() == 0 {
        assert(s =~= rest);
        lemma_first_occurrence(s, newline());
        if let Some(i) = first_occurrence(s, newline()) {
            assert(s.subrange(i, i + 1)[0] == s[i]);
            assert(rest[i] == '\n');
        }
    } else {
        let tail = ls.drop_first();
        let t = join_lines(tail) + rest;
        assert forall|k: int| 0 <= k < tail.len() implies !(#[trigger] tail[k]).contains('\n') by {
            assert(tail[k] == ls[k + 1]);
        }
        lemma_split_lines_of_join(tail, rest);
        assert(s =~= ls[0] + newline() + t);
        lemma_no_occurrence_in(ls[0], newline(), t);
        lemma_split_once_of_parts(ls[0], newline(), t);
        lemma_first_occurrence(s, newline());
        let i = ls[0].len() as int;
        assert(s.take(i) =~= ls[0]);
        assert(s.skip(i + 1) =~= t);
        assert(seq![ls[0]] + tail =~= ls);
    }
}

/// Whether `pat` occurs in `s` at position `i`.
fn matches_at(s: &[char], pat: &[char], i: usize) -> (b: bool)
    requires
        i + pat@.len() <= s@.len(),
    ensures
        b == occurs_at(s@, pat@, i as int),
{
    let n = s.len();
    let mut k: usize = 0;
    while k < pat.len()
        invariant
            n == s@.len(),
            i + pat@.len() <= s@.len(),
            k <= pat@.len(),
            forall|m: int| 0 <= m < k ==> s@[i + m] == pat@[m],
        decreases pat@.len() - k,
    {
        if s[i + k] != pat[k] {
            assert(s@.subrange(i as int, i + pat@.len())[k as int] != pat@[k as int]);
            return false;
        }
        k = k + 1;
    }
    assert(s@.subrange(i as int, i + pat@.len()) =~= pat@);
    true
}

/// The position of the first occurrence of `pat` in `s`.
pub fn find(s: &[char], pat: &[char]) -> (r: Option<usize>)
    ensures
        match r {
            Some(i) => first_occurrence(s@, pat@) == Some(i as int),
            None => first_occurrence(s@, pat@) is None,
        },
{
    if pat.len() > s.len() {
        assert forall|j: int| !#[trigger] occurs_at(s@, pat@, j) by {}
        return None;
    }
    if pat.len() == 0 {
        proof {
            assert(s@.subrange(0, 0) =~= pat@);
            lemma_first_occurrence_is(s@, pat@, 0);
        }
        return Some(0);
    }
    let n = s.len();
    let last = n - pat.len();
    let mut i: usize = 0;
    while i <= last
        invariant
            n == s@.len(),
            pat@.len() > 0,
            last == s@.len() - pat@.len(),
            i <= last + 1,
            forall|j: int| 0 <= j < i ==> !#[trigger] occurs_at(s@, pat@, j),
        decreases last + 1 - i,
    {
        if matches_at(s, pat, i) {
            proof {
                lemma_first_occurrence_is(s@, pat@, i as int);
            }
            return Some(i);
        }
        i = i + 1;
    }
    assert forall|j: int| !#[trigger] occurs_at(s@, pat@, j) by {
        if 0 <= j < i {
        }
    }
    None
}

/// A copy of `s[lo..hi]`.
pub fn copy_range(s: &[char], lo: usize, hi: usize) -> (r: Vec<char>)
    requires
        lo <= hi <= s@.len(),
    ensures
        r@ == s@.subrange(lo as int, hi as int),
{
    let mut r: Vec<char> = Vec::new();
    let mut k: usize = lo;
    while k < hi
        invariant
            lo <= k <= hi <= s@.len(),
            r@ == s@.subrange(lo as int, k as int),
        decreases hi - k,
    {
        r.push(s[k]);
        k = k + 1;
        assert(r@ =~= s@.subrange(lo as int, k as int));
    }
    r
}

/// Every line of `split_lines(s)`, each put back with its newline, followed by
/// the text after the last newline, gives back `s`; and no newline is left in
/// a line or in that remaining text.
pub proof fn lemma_split_lines_rebuilds(s: Seq<char>)
    ensures
        join_lines(split_lines(s).0) + split_lines(s).1 == s,
        forall|k: int|
            0 <= k < split_lines(s).0.len() ==> !(#[trigger] split_lines(s).0[k]).contains('\n'),
        !split_lines(s).1.contains('\n'),
    decreases s.len(),
{
    lemma_first_occurrence(s, newline());
    match first_occurrence(s, newline()) {
        Some(i) => {
            let tail = s.skip(i + 1);
            lemma_split_lines_rebuilds(tail);
            let (more, rest) = split_lines(tail);
            let lines = seq![s.take(i)] + more;
            assert(lines.drop_first() =~= more);
            assert(s.subrange(i, i + 1) == newline());
            assert(s.take(i) + newline() + tail =~= s);
            assert(join_lines(lines) + rest =~= s.take(i) + newline() + (join_lines(more) + rest));
            assert forall|k: int| 0 <= k < lines.len() implies !(#[trigger] lines[k]).contains('\n') by {
                if k == 0 {
                    if s.take(i).contains('\n') {
                        let m = choose|m: int| 0 <= m < s.take(i).len() && s.take(i)[m] == '\n';
                        assert(s.subrange(m, m + 1) =~= newline());
                        assert(occurs_at(s, newline(), m));
                    }
                } else {
                    assert(lines[k] == more[k - 1]);
                }
            }
        },
        None => {
            if s.contains('\n') {
                let m = choose|m: int| 0 <= m < s.len() && s[m] == '\n';
                assert(s.subrange(m, m + 1) =~= newline());
                assert(occurs_at(s, newline(), m));
            }
            assert(join_lines(seq![]) + s =~= s);
        },
    }
}

/// Splits `s` into its newline-terminated lines and the text after the last
/// newline.
pub fn split_into_lines(s: &[char]) -> (r: (Vec<Vec<char>>, Vec<char>))
    ensures
        (r.0.deep_view(), r.1@) == split_lines(s@),
{
    let n = s.len();
    let nl: Vec<char> = vec!['\n'];
    assert(nl@ =~= newline());
    let mut lines: Vec<Vec<char>> = Vec::new();
    let mut start: usize = 0;
    assert(s@.skip(0) =~= s@);
    assert(lines.deep_view() + split_lines(s@).0 =~= split_lines(s@).0);
    loop
        invariant
            n == s@.len(),
            nl@ == newline(),
            start <= n,
            split_lines(s@).0 == lines.deep_view() + split_lines(s@.skip(start as int)).0,
            split_lines(s@).1 == split_lines(s@.skip(start as int)).1,
        decreases n - start,
    {
        let rest = &s[start..n];
        assert(rest@ =~= s@.skip(start as int));
        proof {
            lemma_first_occurrence(rest@, newline());
        }
        match find(rest, nl.as_slice()) {
            Some(i) => {
                let line = copy_range(s, start, start + i);
                assert(line@ =~= rest@.take(i as int));
                assert(rest@.skip(i + 1) =~= s@.skip(start + i + 1));
                let ghost old_lines = lines.deep_view();
                assert(line.deep_view() =~= line@);
                lines.push(line);
                assert(lines.deep_view() =~= old_lines.push(line@));
                assert(lines.deep_view() + split_lines(s@.skip(start + i + 1)).0 =~= old_lines
                    + (seq![line@] + split_lines(s@.skip(start + i + 1)).0));
                start = start + i + 1;
            },
            None => {
                let last = copy_range(s, start, n);
                assert(last@ =~= rest@);
                assert(lines.deep_view() + seq![] =~= lines.deep_view());
                return (lines, last);
            },
        }
    }
}

/// The characters of `s`, in order.
pub fn to_chars(s: &str) -> (r: Vec<char>)
    ensures
        r@ == s@,
{
    broadcast use vstd::string::axiom_spec_iter;
    let mut r: Vec<char> = Vec::new();
    for c in it: s.chars()
        invariant
            r@ == it.seq().take(it.index() as int),
    {
        r.push(c);
    }
    r
}

/// Whether `a` and `b` hold the same characters.
pub fn same_chars(a: &[char], b: &[char]) -> (r: bool)
    ensures
        r == (a@ == b@),
{
    if a.len() != b.len() {
        return false;
    }
    let r = matches_at(a, b, 0);
    assert(a@.subrange(0, b@.len() as int) =~= a@);
    r
}

/// What stands before and after the first occurrence of `pat` in `s`.
pub fn split_at_first(s: &[char], pat: &[char]) -> (r: Option<(Vec<char>, Vec<char>)>)
    ensures
        match r {
            Some((before, after)) => split_once(s@, pat@) == Some((before@, after@)),
            None => split_once(s@, pat@) is None,
        },
{
    let n = s.len();
    match find(s, pat) {
        Some(i) => {
            proof {
                lemma_first_occurrence(s@, pat@);
                assert(occurs_at(s@, pat@, i as int));
            }
            let before = copy_range(s, 0, i);
            let after = copy_range(s, i + pat.len(), n);
            assert(before@ =~= s@.take(i as int));
            assert(after@ =~= s@.skip(i + pat@.len()));
            Some((before, after))
        },
        None => None,
    }
}

/// Builds a `String` of the given characters with `String::from_iter`; the
/// string holds exactly `chars`, in order.
#[verifier::external_body]
pub(crate) fn string_from_chars(chars: &[char]) -> (r: String)
    ensures
        r@ == chars@,
{
    String::from_iter(chars)
}

} // verus!
