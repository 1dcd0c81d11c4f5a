//! Character-level text handling: the meaning of the `str` operations that
//! the parsers rely on (`split`, `lines`, `strip_prefix`, `contains`, `trim`),
//! stated over `Seq<char>`, and executable versions proved against them.
use vstd::prelude::*;

verus! {

// ---------------------------------------------------------------------------
// Specification
// ---------------------------------------------------------------------------

/// `pat` occurs in `s` starting at index `i`.
pub open spec fn matches_at(s: Seq<char>, pat: Seq<char>, i: int) -> bool {
    &&& 0 <= i
    &&& i + pat.len() <= s.len()
    &&& s.subrange(i, i + pat.len()) == pat
}

/// `i` is the leftmost occurrence of `pat` in `s`.
pub open spec fn is_first_match(s: Seq<char>, pat: Seq<char>, i: int) -> bool {
    &&& matches_at(s, pat, i)
    &&& forall|j: int| 0 <= j < i ==> !matches_at(s, pat, j)
}

/// `s` contains `pat` (as `str::contains` with a string pattern).
pub open spec fn contains(s: Seq<char>, pat: Seq<char>) -> bool {
    exists|i: int| matches_at(s, pat, i)
}

/// `s` begins with `pat`.
pub open spec fn starts_with(s: Seq<char>, pat: Seq<char>) -> bool {
    pat.len() <= s.len() && s.take(pat.len() as int) == pat
}

/// `str::strip_prefix`: what follows `pat` when `s` begins with it.
pub open spec fn strip_prefix(s: Seq<char>, pat: Seq<char>) -> Option<Seq<char>> {
    if starts_with(s, pat) {
        Some(s.skip(pat.len() as int))
    } else {
        None
    }
}

/// `str::split` with a non-empty string pattern: the pieces between the
/// leftmost non-overlapping occurrences of `pat`, scanning from the left.
/// There is always at least one piece.
pub open spec fn split_on(s: Seq<char>, pat: Seq<char>) -> Seq<Seq<char>>
    decreases s.len(),
{
    if pat.len() > 0 && exists|i: int| is_first_match(s, pat, i) {
        let i = choose|i: int| is_first_match(s, pat, i);
        seq![s.take(i)] + split_on(s.skip(i + pat.len()), pat)
    } else {
        seq![s]
    }
}

/// One trailing carriage return removed, if there is one.
pub open spec fn strip_cr(s: Seq<char>) -> Seq<char> {
    if s.len() > 0 && s.last() == '\r' {
        s.drop_last()
    } else {
        s
    }
}

/// `str::lines`: the text split at each `'\n'`, a `'\r'` directly before
/// that `'\n'` dropped as well; a final line ending is optional, and the
/// empty text has no lines.
pub open spec fn lines(s: Seq<char>) -> Seq<Seq<char>>
    decreases s.len(),
{
    if s.len() == 0 {
        seq![]
    } else if exists|i: int| is_first_match(s, seq!['\n'], i) {
        let i = choose|i: int| is_first_match(s, seq!['\n'], i);
        seq![strip_cr(s.take(i))] + lines(s.skip(i + 1))
    } else {
        seq![s]
    }
}

/// `char::is_whitespace`: the characters with the Unicode `White_Space`
/// property.
pub open spec fn is_whitespace(c: char) -> bool {
    ||| '\u{9}' <= c <= '\u{d}'
    ||| c == ' '
    ||| c == '\u{85}'
    ||| c == '\u{a0}'
    ||| c == '\u{1680}'
    ||| '\u{2000}' <= c <= '\u{200a}'
    ||| c == '\u{2028}'
    ||| c == '\u{2029}'
    ||| c == '\u{202f}'
    ||| c == '\u{205f}'
    ||| c == '\u{3000}'
}

/// `str::trim_start`.
pub open spec fn trim_start(s: Seq<char>) -> Seq<char>
    decreases s.len(),
{
    if s.len() > 0 && is_whitespace(s[0]) {
        trim_start(s.drop_first())
    } else {
        s
    }
}

/// `str::trim_end`.
pub open spec fn trim_end(s: Seq<char>) -> Seq<char>
    decreases s.len(),
{
    if s.len() > 0 && is_whitespace(s.last()) {
        trim_end(s.drop_last())
    } else {
        s
    }
}

/// `str::trim`: leading and trailing whitespace removed.
pub open spec fn trim(s: Seq<char>) -> Seq<char> {
    trim_end(trim_start(s))
}

/// The character sequences held by a vector of character vectors.
pub open spec fn views(v: Seq<Vec<char>>) -> Seq<Seq<char>> {
    v.map_values(|x: Vec<char>| x@)
}

// ---------------------------------------------------------------------------
// Lemmas
// ---------------------------------------------------------------------------

/// The leftmost occurrence is unique, so `choose` picks it.
pub proof fn lemma_first_match_unique(s: Seq<char>, pat: Seq<char>, i: int)
    requires
        is_first_match(s, pat, i),
    ensures
        (choose|k: int| is_first_match(s, pat, k)) == i,
{
    let k = choose|k: int| is_first_match(s, pat, k);
    assert(is_first_match(s, pat, k));
    if k < i {
        assert(!matches_at(s, pat, k));
    }
    if k > i {
        assert(!matches_at(s, pat, i));
    }
}

/// Occurrences in a suffix are occurrences in the whole, shifted.
pub proof fn lemma_matches_skip(s: Seq<char>, pat: Seq<char>, pos: int, j: int)
    requires
        0 <= pos <= s.len(),
    ensures
        matches_at(s.skip(pos), pat, j) <==> (0 <= j && matches_at(s, pat, pos + j)),
{
    if 0 <= j && j + pat.len() <= s.len() - pos {
        assert(s.skip(pos).subrange(j, j + pat.len()) =~= s.subrange(pos + j, pos + j + pat.len()));
    }
}

/// Where `pat` occurs, it has a leftmost occurrence.
pub proof fn lemma_first_match_exists(s: Seq<char>, pat: Seq<char>, i: int)
    requires
        matches_at(s, pat, i),
    ensures
        exists|k: int| is_first_match(s, pat, k),
    decreases i,
{
    if exists|j: int| 0 <= j < i && matches_at(s, pat, j) {
        let j = choose|j: int| 0 <= j < i && matches_at(s, pat, j);
        lemma_first_match_exists(s, pat, j);
    } else {
        assert(is_first_match(s, pat, i));
    }
}

/// Splitting at empty lines: two texts joined by an empty line split into
/// the pieces of the first followed by the pieces of the second, provided the
/// first does not end with a line break.
pub proof fn lemma_split_joined(a: Seq<char>, b: Seq<char>)
    requires
        a.len() == 0 || a.last() != '\n',
    ensures
        split_on(a + seq!['\n', '\n'] + b, seq!['\n', '\n']) == split_on(a, seq!['\n', '\n'])
            + split_on(b, seq!['\n', '\n']),
    decreases a.len(),
{
    let sep = seq!['\n', '\n'];
    let j = a + sep + b;
    if exists|i: int| is_first_match(a, sep, i) {
        let i = choose|i: int| is_first_match(a, sep, i);
        assert(j.subrange(i, i + 2) =~= a.subrange(i, i + 2));
        assert(is_first_match(a, sep, i));
        assert forall|k: int| 0 <= k < i implies !matches_at(j, sep, k) by {
            assert(!matches_at(a, sep, k));
            assert(j.subrange(k, k + 2) =~= a.subrange(k, k + 2));
        }
        assert(is_first_match(j, sep, i));
        lemma_first_match_unique(j, sep, i);
        let rest = a.skip(i + 2);
        if rest.len() > 0 {
            assert(rest.last() == a.last());
        }
        lemma_split_joined(rest, b);
        assert(j.take(i) =~= a.take(i));
        assert(j.skip(i + 2) =~= rest + sep + b);
        assert(split_on(j, sep) =~= seq![a.take(i)] + (split_on(rest, sep) + split_on(b, sep)));
        assert(split_on(a, sep) == seq![a.take(i)] + split_on(rest, sep));
    } else {
        assert forall|k: int| 0 <= k < a.len() implies !matches_at(j, sep, k) by {
            if k + 2 <= a.len() {
                assert(j.subrange(k, k + 2) =~= a.subrange(k, k + 2));
                if matches_at(a, sep, k) {
                    lemma_first_match_exists(a, sep, k);
                }
            } else {
                assert(j.subrange(k, k + 2)[0] == a.last());
            }
        }
        let n = a.len() as int;
        assert(j.subrange(n, n + 2) =~= sep);
        assert(is_first_match(j, sep, n));
        lemma_first_match_unique(j, sep, n);
        assert(j.take(n) =~= a);
        assert(j.skip(n + 2) =~= b);
        assert(split_on(a, sep) == seq![a]);
    }
}

// ---------------------------------------------------------------------------
// Executable helpers
// ---------------------------------------------------------------------------

/// `String::push`.
#[verifier::external_body]
fn push_char(s: &mut String, c: char)
    ensures
        final(s)@ == old(s)@.push(c),
{
    s.push(c)
}

/// The characters of `s`, in order.
pub fn chars_of(s: &str) -> (out: Vec<char>)
    ensures
        out@ == s@,
{
    let mut out: Vec<char> = Vec::new();
    for c in it: s.chars()
        invariant
            out@ == it.seq().take(it.index() as int),
    {
        out.push(c);
    }
    out
}

/// A `String` holding the characters `cs`.
pub fn string_from(cs: &Vec<char>) -> (out: String)
    ensures
        out@ == cs@,
{
    let mut out = String::new();
    let mut i: usize = 0;
    while i < cs.len()
        invariant
            i <= cs.len(),
            out@ == cs@.take(i as int),
        decreases cs.len() - i,
    {
        push_char(&mut out, cs[i]);
        assert(cs@.take(i + 1) =~= cs@.take(i as int).push(cs@[i as int]));
        i = i + 1;
    }
    assert(cs@.take(cs.len() as int) =~= cs@);
    out
}

/// Appends the characters `cs` to `out`.
pub fn push_chars(out: &mut String, v: &Vec<char>)
    ensures
        final(out)@ == old(out)@ + v@,
{
    let ghost start = out@;
    let ghost cs = v@;
    let mut i: usize = 0;
    while i < v.len()
        invariant
            i <= v.len(),
            v@ == cs,
            out@ == start + cs.take(i as int),
        decreases v.len() - i,
    {
        push_char(out, v[i]);
        assert(cs.take(i + 1) =~= cs.take(i as int).push(cs[i as int]));
        i = i + 1;
    }
    assert(cs.take(v.len() as int) =~= cs);
}

/// Whether `pat` occurs in `s` at index `i`.
pub fn matches_here(s: &Vec<char>, pat: &Vec<char>, i: usize) -> (r: bool)
    ensures
        r == matches_at(s@, pat@, i as int),
{
    if i > s.len() || pat.len() > s.len() - i {
        return false;
    }
    let mut k: usize = 0;
    while k < pat.len()
        invariant
            i + pat.len() <= s.len(),
            k <= pat.len(),
            forall|m: int| 0 <= m < k ==> s@[i + m] == pat@[m],
        decreases pat.len() - k,
    {
        if s[i + k] != pat[k] {
            assert(s@.subrange(i as int, i + pat.len())[k as int] != pat@[k as int]);
            return false;
        }
        k = k + 1;
    }
    assert(s@.subrange(i as int, i + pat.len()) =~= pat@);
    true
}

/// The leftmost occurrence of `pat` in `s` at or after `start`.
pub fn find_from(s: &Vec<char>, pat: &Vec<char>, start: usize) -> (r: Option<usize>)
    requires
        start <= s.len(),
    ensures
        match r {
            Some(i) => start <= i && matches_at(s@, pat@, i as int) && forall|j: int|
                start <= j < i ==> !matches_at(s@, pat@, j),
            None => forall|j: int| start <= j ==> !matches_at(s@, pat@, j),
        },
{
    let mut i: usize = start;
    loop
        invariant
            start <= i <= s.len(),
            forall|j: int| start <= j < i ==> !matches_at(s@, pat@, j),
        decreases s.len() - i,
    {
        if matches_here(s, pat, i) {
            return Some(i);
        }
        if i == s.len() {
            return None;
        }
        i = i + 1;
    }
}

/// Whether `pat` occurs anywhere in `s` (`str::contains`).
pub fn contains_chars(s: &Vec<char>, pat: &Vec<char>) -> (r: bool)
    ensures
        r == contains(s@, pat@),
{
    match find_from(s, pat, 0) {
        Some(i) => true,
        None => {
            false
        },
    }
}

/// The characters of `s` from `from` up to (not including) `to`.
pub fn slice_chars(s: &Vec<char>, from: usize, to: usize) -> (out: Vec<char>)
    requires
        from <= to <= s.len(),
    ensures
        out@ == s@.subrange(from as int, to as int),
{
    let mut out: Vec<char> = Vec::new();
    let mut i: usize = from;
    while i < to
        invariant
            from <= i <= to,
            to <= s.len(),
            out@ == s@.subrange(from as int, i as int),
        decreases to - i,
    {
        out.push(s[i]);
        assert(s@.subrange(from as int, i + 1) =~= s@.subrange(from as int, i as int).push(
            s@[i as int],
        ));
        i = i + 1;
    }
    out
}

/// `str::split` with the non-empty pattern `pat`.
pub fn split_chars(s: &Vec<char>, pat: &Vec<char>) -> (pieces: Vec<Vec<char>>)
    requires
        pat.len() > 0,
    ensures
        views(pieces@) == split_on(s@, pat@),
{
    let mut pieces: Vec<Vec<char>> = Vec::new();
    let mut pos: usize = 0;
    assert(s@.skip(0) =~= s@);
    assert(views(pieces@) + split_on(s@, pat@) =~= split_on(s@, pat@));
    loop
        invariant
            pat.len() > 0,
            pos <= s.len(),
            views(pieces@) + split_on(s@.skip(pos as int), pat@) == split_on(s@, pat@),
        decreases s.len() - pos,
    {
        let ghost rest = s@.skip(pos as int);
        match find_from(s, pat, pos) {
            Some(i) => {
                let piece = slice_chars(s, pos, i);
                proof {
                    let k = (i - pos) as int;
                    lemma_matches_skip(s@, pat@, pos as int, k);
                    assert forall|j: int| 0 <= j < k implies !matches_at(rest, pat@, j) by {
                        lemma_matches_skip(s@, pat@, pos as int, j);
                    }
                    assert(is_first_match(rest, pat@, k));
                    lemma_first_match_unique(rest, pat@, k);
                    assert(rest.take(k) =~= piece@);
                    assert(rest.skip(k + pat@.len()) =~= s@.skip(i + pat@.len()));
                    assert(split_on(rest, pat@) == seq![piece@] + split_on(
                        s@.skip(i + pat@.len()),
                        pat@,
                    ));
                }
                let ghost before = views(pieces@);
                pieces.push(piece);
                assert(views(pieces@) =~= before.push(piece@));
                assert(views(pieces@) + split_on(s@.skip(i + pat.len()), pat@) =~= before + (
                seq![piece@] + split_on(s@.skip(i + pat@.len()), pat@)));
                pos = i + pat.len();
            },
            None => {
                proof {
                    assert forall|j: int| !is_first_match(rest, pat@, j) by {
                        lemma_matches_skip(s@, pat@, pos as int, j);
                    }
                    assert(split_on(rest, pat@) == seq![rest]);
                }
                let piece = slice_chars(s, pos, s.len());
                assert(piece@ =~= rest);
                let ghost before = views(pieces@);
                pieces.push(piece);
                assert(views(pieces@) =~= before.push(piece@));
                assert(views(pieces@) =~= before + seq![rest]);
                return pieces;
            },
        }
    }
}


/// `str::lines`.
pub fn lines_chars(s: &Vec<char>) -> (out: Vec<Vec<char>>)
    ensures
        views(out@) == lines(s@),
{
    let newline: Vec<char> = vec!['\n'];
    assert(newline@ =~= seq!['\n']);
    let mut out: Vec<Vec<char>> = Vec::new();
    let mut pos: usize = 0;
    assert(s@.skip(0) =~= s@);
    assert(views(out@) + lines(s@) =~= lines(s@));
    loop
        invariant
            newline@ == seq!['\n'],
            pos <= s.len(),
            views(out@) + lines(s@.skip(pos as int)) == lines(s@),
        decreases s.len() - pos,
    {
        let ghost rest = s@.skip(pos as int);
        if pos == s.len() {
            assert(rest.len() == 0);
            assert(views(out@) + lines(rest) =~= views(out@));
            return out;
        }
        match find_from(s, &newline, pos) {
            Some(i) => {
                let mut piece = slice_chars(s, pos, i);
                proof {
                    let k = (i - pos) as int;
                    lemma_matches_skip(s@, newline@, pos as int, k);
                    assert forall|j: int| 0 <= j < k implies !matches_at(rest, newline@, j) by {
                        lemma_matches_skip(s@, newline@, pos as int, j);
                    }
                    assert(is_first_match(rest, newline@, k));
                    lemma_first_match_unique(rest, newline@, k);
                    assert(rest.take(k) =~= piece@);
                    assert(rest.skip(k + 1) =~= s@.skip(i + 1));
                }
                let ghost raw = piece@;
                let n = piece.len();
                if n > 0 && piece[n - 1] == '\r' {
                    piece.pop();
                    assert(piece@ =~= raw.drop_last());
                }
                assert(piece@ == strip_cr(raw));
                assert(lines(rest) == seq![piece@] + lines(s@.skip(i + 1)));
                let ghost before = views(out@);
                out.push(piece);
                assert(views(out@) =~= before.push(piece@));
                assert(views(out@) + lines(s@.skip(i + 1)) =~= before + (seq![piece@] + lines(
                    s@.skip(i + 1),
                )));
                pos = i + 1;
            },
            None => {
                proof {
                    assert forall|j: int| !is_first_match(rest, newline@, j) by {
                        lemma_matches_skip(s@, newline@, pos as int, j);
                    }
                    assert(lines(rest) == seq![rest]);
                }
                let piece = slice_chars(s, pos, s.len());
                assert(piece@ =~= rest);
                let ghost before = views(out@);
                out.push(piece);
                assert(views(out@) =~= before.push(piece@));
                assert(views(out@) =~= before + seq![rest]);
                return out;
            },
        }
    }
}

/// `char::is_whitespace`.
pub fn is_whitespace_char(c: char) -> (r: bool)
    ensures
        r == is_whitespace(c),
{
    ('\u{9}' <= c && c <= '\u{d}') || c == ' ' || c == '\u{85}' || c == '\u{a0}' || c
        == '\u{1680}' || ('\u{2000}' <= c && c <= '\u{200a}') || c == '\u{2028}' || c
        == '\u{2029}' || c == '\u{202f}' || c == '\u{205f}' || c == '\u{3000}'
}

/// `str::trim`.
pub fn trim_chars(s: &Vec<char>) -> (out: Vec<char>)
    ensures
        out@ == trim(s@),
{
    let mut a: usize = 0;
    assert(s@.skip(0) =~= s@);
    while a < s.len() && is_whitespace_char(s[a])
        invariant
            a <= s.len(),
            trim_start(s@.skip(a as int)) == trim_start(s@),
        decreases s.len() - a,
    {
        assert(s@.skip(a as int).drop_first() =~= s@.skip(a + 1));
        a = a + 1;
    }
    let ghost t = s@.skip(a as int);
    assert(trim_start(t) == t);
    let mut b: usize = s.len();
    assert(t.take(t.len() as int) =~= t);
    while b > a && is_whitespace_char(s[b - 1])
        invariant
            a <= b <= s.len(),
            t == s@.skip(a as int),
            trim_end(t.take(b - a)) == trim_end(t),
        decreases b,
    {
        assert(t.take(b - a).drop_last() =~= t.take(b - 1 - a));
        b = b - 1;
    }
    assert(trim_end(t.take(b - a)) == t.take(b - a));
    let out = slice_chars(s, a, b);
    assert(out@ =~= t.take(b - a));
    out
}


/// `str::strip_prefix`.
pub fn strip_prefix_chars(s: &Vec<char>, pat: &Vec<char>) -> (r: Option<Vec<char>>)
    ensures
        match r {
            Some(v) => strip_prefix(s@, pat@) == Some(v@),
            None => strip_prefix(s@, pat@) is None,
        },
{
    if matches_here(s, pat, 0) {
        assert(s@.take(pat@.len() as int) =~= s@.subrange(0, pat@.len() as int));
        Some(slice_chars(s, pat.len(), s.len()))
    } else {
        assert(!starts_with(s@, pat@)) by {
            if pat@.len() <= s@.len() {
                assert(s@.take(pat@.len() as int) =~= s@.subrange(0, pat@.len() as int));
            }
        }
        None
    }
}

/// Whether `a` and `b` hold the same characters.
pub fn same_chars(a: &Vec<char>, b: &Vec<char>) -> (r: bool)
    ensures
        r == (a@ == b@),
{
    if a.len() != b.len() {
        return false;
    }
    let mut i: usize = 0;
    while i < a.len()
        invariant
            a.len() == b.len(),
            i <= a.len(),
            forall|k: int| 0 <= k < i ==> a@[k] == b@[k],
        decreases a.len() - i,
    {
        if a[i] != b[i] {
            return false;
        }
        i = i + 1;
    }
    assert(a@ =~= b@);
    true
}

} // verus!
