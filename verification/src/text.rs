//! Character-sequence toolkit shared by both formats: the `str` operations the
//! parsers and renderers need (prefix tests, trimming, searching, splitting,
//! replacement, line splitting), each stated over `Seq<char>` and implemented
//! over `Vec<char>`.
use vstd::prelude::*;

verus! {

pub assume_specification[ String::push ](s: &mut String, ch: char)
    ensures
        final(s)@ == old(s)@.push(ch),
;

// ---------------------------------------------------------------------------
// Specifications
// ---------------------------------------------------------------------------

/// `char::is_whitespace`: the Unicode `White_Space` property.
pub open spec fn is_ws(c: char) -> bool {
    ||| c == ' '
    ||| ('\t' <= c && c <= '\r')
    ||| c == '\u{85}'
    ||| c == '\u{a0}'
    ||| c == '\u{1680}'
    ||| ('\u{2000}' <= c && c <= '\u{200a}')
    ||| c == '\u{2028}'
    ||| c == '\u{2029}'
    ||| c == '\u{202f}'
    ||| c == '\u{205f}'
    ||| c == '\u{3000}'
}

/// True when `p` occurs in `s` at position `i`.
pub open spec fn occurs_at(s: Seq<char>, p: Seq<char>, i: int) -> bool {
    0 <= i && i + p.len() <= s.len() && s.subrange(i, i + p.len()) == p
}

pub open spec fn starts_with(s: Seq<char>, p: Seq<char>) -> bool {
    occurs_at(s, p, 0)
}

pub open spec fn ends_with(s: Seq<char>, p: Seq<char>) -> bool {
    occurs_at(s, p, s.len() - p.len())
}

/// `s` has `p` somewhere inside it.
pub open spec fn contains(s: Seq<char>, p: Seq<char>) -> bool {
    exists|i: int| occurs_at(s, p, i)
}

/// Index of the first occurrence of `p` in `s`, or `s.len()` when there is none
/// (for a non-empty `p`).
pub open spec fn find(s: Seq<char>, p: Seq<char>) -> int
    decreases s.len(),
{
    if s.len() < p.len() || s.len() == 0 {
        s.len() as int
    } else if starts_with(s, p) {
        0
    } else {
        1 + find(s.drop_first(), p)
    }
}

/// Index of the first whitespace character of `s`, or `s.len()`.
pub open spec fn find_ws(s: Seq<char>) -> int
    decreases s.len(),
{
    if s.len() == 0 {
        0
    } else if is_ws(s[0]) {
        0
    } else {
        1 + find_ws(s.drop_first())
    }
}

/// `str::trim_start`.
pub open spec fn trim_start(s: Seq<char>) -> Seq<char>
    decreases s.len(),
{
    if s.len() > 0 && is_ws(s[0]) {
        trim_start(s.drop_first())
    } else {
        s
    }
}

/// `str::trim_end`.
pub open spec fn trim_end(s: Seq<char>) -> Seq<char>
    decreases s.len(),
{
    if s.len() > 0 && is_ws(s.last()) {
        trim_end(s.drop_last())
    } else {
        s
    }
}

/// `str::trim`.
pub open spec fn trim(s: Seq<char>) -> Seq<char> {
    trim_end(trim_start(s))
}

/// True when every character of `s` is whitespace.
pub open spec fn all_ws(s: Seq<char>) -> bool {
    forall|i: int| 0 <= i < s.len() ==> is_ws(#[trigger] s[i])
}

/// `str::replace(pat, rep)`: leftmost, non-overlapping replacement.
pub open spec fn replace(s: Seq<char>, pat: Seq<char>, rep: Seq<char>) -> Seq<char>
    decreases s.len(),
{
    if s.len() == 0 || pat.len() == 0 {
        s
    } else if starts_with(s, pat) {
        rep + replace(s.skip(pat.len() as int), pat, rep)
    } else {
        seq![s[0]] + replace(s.drop_first(), pat, rep)
    }
}

/// Drops one trailing `'\r'`.
pub open spec fn strip_cr(l: Seq<char>) -> Seq<char> {
    if l.len() > 0 && l.last() == '\r' {
        l.drop_last()
    } else {
        l
    }
}

/// `str::lines`: split at `'\n'`, drop a `'\r'` before it, and produce no
/// empty line after a final line ending.
pub open spec fn lines(s: Seq<char>) -> Seq<Seq<char>>
    decreases s.len(),
{
    if s.len() == 0 {
        seq![]
    } else {
        let k = find(s, seq!['\n']);
        proof {
            lemma_find(s, seq!['\n']);
        }
        if k < s.len() {
            seq![strip_cr(s.take(k))] + lines(s.skip(k + 1))
        } else {
            seq![s]
        }
    }
}

/// `str::split(c)` for a single-character separator.
pub open spec fn split(s: Seq<char>, c: char) -> Seq<Seq<char>>
    decreases s.len(),
{
    let k = find(s, seq![c]);
    proof {
        lemma_find(s, seq![c]);
    }
    if k < s.len() {
        seq![s.take(k)] + split(s.skip(k + 1), c)
    } else {
        seq![s]
    }
}

/// `[..].join(sep)`.
pub open spec fn join(parts: Seq<Seq<char>>, sep: Seq<char>) -> Seq<char>
    decreases parts.len(),
{
    if parts.len() == 0 {
        seq![]
    } else if parts.len() == 1 {
        parts[0]
    } else {
        join(parts.drop_last(), sep) + sep + parts.last()
    }
}

/// `c` repeated `n` times.
pub open spec fn repeat(c: char, n: nat) -> Seq<char> {
    Seq::new(n, |i: int| c)
}

/// Decimal digits of `n` (`usize::to_string`).
pub open spec fn decimal(n: nat) -> Seq<char>
    decreases n,
{
    if n < 10 {
        seq![digit(n)]
    } else {
        decimal(n / 10).push(digit(n % 10))
    }
}

pub open spec fn digit(n: nat) -> char {
    ((n % 10) + 48) as char
}

// ---------------------------------------------------------------------------
// Lemmas
// ---------------------------------------------------------------------------

/// Characterises `find`: the first position where `p` occurs.
pub proof fn lemma_find(s: Seq<char>, p: Seq<char>)
    requires
        p.len() > 0,
    ensures
        0 <= find(s, p) <= s.len(),
        find(s, p) < s.len() ==> occurs_at(s, p, find(s, p)),
        forall|j: int| 0 <= j < find(s, p) ==> !occurs_at(s, p, j),
        find(s, p) == s.len() ==> forall|j: int| 0 <= j ==> !occurs_at(s, p, j),
    decreases s.len(),
{
    if s.len() < p.len() || s.len() == 0 {
    } else if starts_with(s, p) {
    } else {
        lemma_find(s.drop_first(), p);
        let r = s.drop_first();
        assert forall|j: int| 0 <= j < find(s, p) implies !occurs_at(s, p, j) by {
            if j > 0 && j + p.len() <= s.len() {
                assert(s.subrange(j, j + p.len()) =~= r.subrange(j - 1, j - 1 + p.len()));
                assert(!occurs_at(r, p, j - 1));
            }
        }
        if find(s, p) < s.len() {
            let k = find(s, p);
            assert(s.subrange(k, k + p.len()) =~= r.subrange(k - 1, k - 1 + p.len()));
        } else {
            assert forall|j: int| 0 <= j implies !occurs_at(s, p, j) by {
                if j > 0 && j + p.len() <= s.len() {
                    assert(s.subrange(j, j + p.len()) =~= r.subrange(j - 1, j - 1 + p.len()));
                    assert(!occurs_at(r, p, j - 1));
                }
            }
        }
    }
}

/// `find` is determined by the characterisation of [`lemma_find`].
pub proof fn lemma_find_is(s: Seq<char>, p: Seq<char>, k: int)
    requires
        p.len() > 0,
        0 <= k <= s.len(),
        k < s.len() ==> occurs_at(s, p, k),
        forall|j: int| 0 <= j < k ==> !occurs_at(s, p, j),
        k == s.len() ==> forall|j: int| 0 <= j ==> !occurs_at(s, p, j),
    ensures
        find(s, p) == k,
{
    lemma_find(s, p);
    let f = find(s, p);
    if f < k {
        assert(!occurs_at(s, p, f));
    } else if k < f {
        assert(!occurs_at(s, p, k));
    }
}

/// Finding a single character.
pub proof fn lemma_find_char(s: Seq<char>, c: char)
    ensures
        0 <= find(s, seq![c]) <= s.len(),
        find(s, seq![c]) < s.len() ==> s[find(s, seq![c])] == c,
        forall|j: int| 0 <= j < find(s, seq![c]) ==> s[j] != c,
{
    let p = seq![c];
    lemma_find(s, p);
    let k = find(s, p);
    if k < s.len() {
        assert(s.subrange(k, k + 1)[0] == s[k]);
    }
    assert forall|j: int| 0 <= j < find(s, seq![c]) implies s[j] != c by {
        assert(!occurs_at(s, p, j));
        if s[j] == c {
            assert(s.subrange(j, j + 1) =~= p);
        }
    }
}

/// `find` of a single character is determined by its characterisation.
pub proof fn lemma_find_char_is(s: Seq<char>, c: char, k: int)
    requires
        0 <= k <= s.len(),
        k < s.len() ==> s[k] == c,
        forall|j: int| 0 <= j < k ==> s[j] != c,
    ensures
        find(s, seq![c]) == k,
{
    let p = seq![c];
    assert forall|j: int| 0 <= j < k implies !occurs_at(s, p, j) by {
        if occurs_at(s, p, j) {
            assert(s.subrange(j, j + 1)[0] == s[j]);
        }
    }
    if k < s.len() {
        assert(s.subrange(k, k + 1) =~= p);
    } else {
        assert forall|j: int| 0 <= j implies !occurs_at(s, p, j) by {
            if occurs_at(s, p, j) {
                assert(s.subrange(j, j + 1)[0] == s[j]);
            }
        }
    }
    lemma_find_is(s, p, k);
}

pub proof fn lemma_find_ws_is(s: Seq<char>, k: int)
    requires
        0 <= k <= s.len(),
        k < s.len() ==> is_ws(s[k]),
        forall|j: int| 0 <= j < k ==> !is_ws(#[trigger] s[j]),
    ensures
        find_ws(s) == k,
    decreases s.len(),
{
    if s.len() > 0 && k > 0 {
        let r = s.drop_first();
        assert forall|j: int| 0 <= j < k - 1 implies !is_ws(#[trigger] r[j]) by {
            assert(r[j] == s[j + 1]);
        }
        lemma_find_ws_is(r, k - 1);
    }
}

/// `trim_start` drops exactly the leading whitespace run.
pub proof fn lemma_trim_start(s: Seq<char>, k: int)
    requires
        0 <= k <= s.len(),
        forall|j: int| 0 <= j < k ==> is_ws(#[trigger] s[j]),
        k < s.len() ==> !is_ws(s[k]),
    ensures
        trim_start(s) == s.skip(k),
    decreases k,
{
    if k == 0 {
        assert(s.skip(0) =~= s);
    } else {
        let r = s.drop_first();
        assert forall|j: int| 0 <= j < k - 1 implies is_ws(#[trigger] r[j]) by {
            assert(r[j] == s[j + 1]);
        }
        lemma_trim_start(r, k - 1);
        assert(r.skip(k - 1) =~= s.skip(k));
    }
}

/// `trim_end` drops exactly the trailing whitespace run.
pub proof fn lemma_trim_end(s: Seq<char>, k: int)
    requires
        0 <= k <= s.len(),
        forall|j: int| k <= j < s.len() ==> is_ws(#[trigger] s[j]),
        k > 0 ==> !is_ws(s[k - 1]),
    ensures
        trim_end(s) == s.take(k),
    decreases s.len() - k,
{
    if k == s.len() {
        assert(s.take(k) =~= s);
    } else {
        let r = s.drop_last();
        assert forall|j: int| k <= j < r.len() implies is_ws(#[trigger] r[j]) by {
            assert(r[j] == s[j]);
        }
        lemma_trim_end(r, k);
        assert(r.take(k) =~= s.take(k));
    }
}

pub proof fn lemma_trim_start_len(s: Seq<char>)
    ensures
        trim_start(s).len() <= s.len(),
        trim_start(s) == s.skip(s.len() - trim_start(s).len()),
    decreases s.len(),
{
    if s.len() > 0 && is_ws(s[0]) {
        lemma_trim_start_len(s.drop_first());
        assert(s.drop_first().skip(s.drop_first().len() - trim_start(s).len()) =~= s.skip(
            s.len() - trim_start(s).len(),
        ));
    } else {
        assert(s.skip(0) =~= s);
    }
}

/// Finding a character in a concatenation whose first part lacks it.
pub proof fn lemma_find_char_concat(a: Seq<char>, b: Seq<char>, c: char)
    requires
        forall|i: int| 0 <= i < a.len() ==> a[i] != c,
    ensures
        find(a + b, seq![c]) == a.len() + find(b, seq![c]),
{
    lemma_find_char(b, c);
    let k = a.len() + find(b, seq![c]);
    let ab = a + b;
    assert forall|j: int| 0 <= j < k implies ab[j] != c by {
        if j >= a.len() {
            assert(ab[j] == b[j - a.len()]);
        }
    }
    if k < ab.len() {
        assert(ab[k] == b[find(b, seq![c])]);
    }
    lemma_find_char_is(ab, c, k);
}

/// `join` with one more part.
pub proof fn lemma_join_push(parts: Seq<Seq<char>>, sep: Seq<char>, p: Seq<char>)
    ensures
        join(parts.push(p), sep) == if parts.len() == 0 {
            p
        } else {
            join(parts, sep) + sep + p
        },
{
    assert(parts.push(p).drop_last() =~= parts);
}

// ---------------------------------------------------------------------------
// Executable helpers
// ---------------------------------------------------------------------------

/// An occurrence in a suffix is an occurrence in the whole.
pub proof fn lemma_contains_skip(s: Seq<char>, p: Seq<char>, k: int)
    requires
        0 <= k <= s.len(),
        contains(s.skip(k), p),
    ensures
        contains(s, p),
{
    let i = choose|i: int| occurs_at(s.skip(k), p, i);
    assert(s.subrange(i + k, i + k + p.len()) =~= s.skip(k).subrange(i, i + p.len()));
    assert(occurs_at(s, p, i + k));
}

/// Up to the first `c`, replacing `c` copies the text; at it the replacement
/// begins; without any, nothing changes.
pub proof fn lemma_replace_char_prefix(t: Seq<char>, c: char, r: Seq<char>)
    requires
        r.len() > 0,
    ensures
        find(t, seq![c]) == t.len() ==> replace(t, seq![c], r) == t,
        replace(t, seq![c], r).len() >= find(t, seq![c]),
        forall|i: int| 0 <= i < find(t, seq![c]) ==> #[trigger] replace(t, seq![c], r)[i] == t[i],
        find(t, seq![c]) < t.len() ==> replace(t, seq![c], r).len() > find(t, seq![c])
            && replace(t, seq![c], r)[find(t, seq![c])] == r[0],
    decreases t.len(),
{
    if t.len() > 0 {
        let rest = t.drop_first();
        if t[0] == c {
            assert(t.subrange(0, 1) =~= seq![c]);
            assert(starts_with(t, seq![c]));
            assert(find(t, seq![c]) == 0);
            assert(replace(t, seq![c], r) == r + replace(t.skip(1), seq![c], r));
        } else {
            assert(t.subrange(0, 1) != seq![c]) by {
                assert(t.subrange(0, 1)[0] == t[0]);
            }
            lemma_replace_char_prefix(rest, c, r);
            lemma_find_char(rest, c);
            let t2 = replace(t, seq![c], r);
            let r2 = replace(rest, seq![c], r);
            assert(find(t, seq![c]) == 1 + find(rest, seq![c]));
            assert(t2 == seq![t[0]] + r2);
            assert forall|i: int| 0 <= i < find(t, seq![c]) implies #[trigger] t2[i] == t[i] by {
                if i > 0 {
                    assert(t2[i] == r2[i - 1]);
                    assert(r2[i - 1] == rest[i - 1]);
                    assert(rest[i - 1] == t[i]);
                }
            }
            if find(rest, seq![c]) < rest.len() {
                assert(t2[find(t, seq![c])] == r2[find(rest, seq![c])]);
            }
            if find(rest, seq![c]) == rest.len() {
                assert(seq![t[0]] + rest =~= t);
            }
        }
    }
}

/// Replacing a character by a marker and the marker back gives the text
/// again, when the text holds no marker and the marker neither holds the
/// character nor repeats its own first character.
pub proof fn lemma_replace_char_inverse(t: Seq<char>, c: char, r: Seq<char>)
    requires
        r.len() > 0,
        forall|i: int| 0 <= i < r.len() ==> r[i] != c,
        forall|i: int| 0 < i < r.len() ==> #[trigger] r[i] != r[0],
        !contains(t, r),
    ensures
        replace(replace(t, seq![c], r), r, seq![c]) == t,
    decreases t.len(),
{
    if t.len() == 0 {
        return;
    }
    let rest = t.drop_first();
    if contains(rest, r) {
        assert(rest =~= t.skip(1));
        lemma_contains_skip(t, r, 1);
    }
    lemma_replace_char_inverse(rest, c, r);
    let t2 = replace(t, seq![c], r);
    if t[0] == c {
        assert(t.subrange(0, 1) =~= seq![c]);
        assert(t.skip(1) =~= rest);
        assert(t2 == r + replace(rest, seq![c], r));
        assert(t2.subrange(0, r.len() as int) =~= r);
        assert(t2.skip(r.len() as int) =~= replace(rest, seq![c], r));
        assert(seq![c] + rest =~= t);
    } else {
        assert(t.subrange(0, 1) != seq![c]) by {
            assert(t.subrange(0, 1)[0] == t[0]);
        }
        assert(t2 == seq![t[0]] + replace(rest, seq![c], r));
        if starts_with(t2, r) {
            lemma_replace_char_prefix(t, c, r);
            lemma_find_char(t, c);
            let k = find(t, seq![c]);
            assert(t2[0] == r[0]);
            if k == t.len() {
                assert(false);
            } else if k >= r.len() {
                assert forall|i: int| 0 <= i < r.len() implies t[i] == r[i] by {
                    assert(t2[i] == t[i]);
                    assert(t2.subrange(0, r.len() as int)[i] == t2[i]);
                }
                assert(t.subrange(0, r.len() as int) =~= r);
                assert(occurs_at(t, r, 0));
            } else {
                assert(k > 0);
                assert(t2.subrange(0, r.len() as int)[k] == t2[k]);
                assert(r[k] == r[0]);
            }
        }
        assert(t2.drop_first() =~= replace(rest, seq![c], r));
        assert(seq![t[0]] + rest =~= t);
    }
}


/// The characters of a string.
pub fn chars_of(s: &str) -> (v: Vec<char>)
    ensures
        v@ == s@,
{
    let mut v: Vec<char> = Vec::new();
    for c in it: s.chars()
        invariant
            v@ == it.seq().take(it.index() as int),
    {
        v.push(c);
    }
    assert(v@ =~= s@);
    v
}

/// A string holding exactly the given characters.
pub fn string_of(v: &Vec<char>) -> (s: String)
    ensures
        s@ == v@,
{
    let mut s = String::new();
    for i in 0..v.len()
        invariant
            s@ == v@.take(i as int),
    {
        s.push(v[i]);
        assert(v@.take(i + 1) =~= v@.take(i as int).push(v@[i as int]));
    }
    assert(v@.take(v.len() as int) =~= v@);
    s
}

/// Appends the characters of `s`.
pub fn push_str(out: &mut Vec<char>, s: &str)
    ensures
        final(out)@ == old(out)@ + s@,
{
    let ghost start = out@;
    for c in it: s.chars()
        invariant
            out@ == start + it.seq().take(it.index() as int),
    {
        out.push(c);
        assert(start + it.seq().take(it.index() + 1) =~= (start + it.seq().take(
            it.index() as int,
        )).push(c));
    }
    assert(s@.take(s@.len() as int) =~= s@);
}

/// Appends the characters of `v`.
pub fn push_chars(out: &mut Vec<char>, v: &Vec<char>)
    ensures
        final(out)@ == old(out)@ + v@,
{
    let ghost start = out@;
    for i in 0..v.len()
        invariant
            out@ == start + v@.take(i as int),
    {
        out.push(v[i]);
        assert(start + v@.take(i + 1) =~= (start + v@.take(i as int)).push(v@[i as int]));
    }
    assert(v@.take(v.len() as int) =~= v@);
}

/// The characters `v[from..to]`.
pub fn slice_chars(v: &Vec<char>, from: usize, to: usize) -> (r: Vec<char>)
    requires
        from <= to <= v.len(),
    ensures
        r@ == v@.subrange(from as int, to as int),
{
    let mut r: Vec<char> = Vec::new();
    let mut i = from;
    while i < to
        invariant
            from <= i <= to <= v.len(),
            r@ == v@.subrange(from as int, i as int),
        decreases to - i,
    {
        r.push(v[i]);
        assert(v@.subrange(from as int, i + 1) =~= v@.subrange(from as int, i as int).push(
            v@[i as int],
        ));
        i += 1;
    }
    r
}

/// Equality of two strings.
#[verifier::external_body]
pub(crate) fn str_eq(a: &str, b: &str) -> (r: bool)
    ensures
        r == (a@ == b@),
{
    a == b
}

/// Equality of two character vectors.
pub fn chars_eq(a: &Vec<char>, b: &Vec<char>) -> (r: bool)
    ensures
        r == (a@ == b@),
{
    if a.len() != b.len() {
        return false;
    }
    for i in 0..a.len()
        invariant
            a.len() == b.len(),
            forall|j: int| 0 <= j < i ==> a@[j] == b@[j],
    {
        if a[i] != b[i] {
            return false;
        }
    }
    assert(a@ =~= b@);
    true
}

/// True when `p` occurs in `s` at position `at`.
pub fn occurs_at_exec(s: &Vec<char>, p: &Vec<char>, at: usize) -> (r: bool)
    ensures
        r == occurs_at(s@, p@, at as int),
{
    if at > s.len() || p.len() > s.len() - at {
        return false;
    }
    for i in 0..p.len()
        invariant
            at + p.len() <= s.len(),
            forall|j: int| 0 <= j < i ==> s@[at + j] == p@[j],
    {
        if s[at + i] != p[i] {
            assert(s@.subrange(at as int, at + p.len())[i as int] != p@[i as int]);
            return false;
        }
    }
    assert(s@.subrange(at as int, at + p.len()) =~= p@);
    true
}

/// First occurrence of a non-empty `p` in `s` at or after `from`, as an index
/// into `s`; `s.len()` when there is none.
pub fn find_from(s: &Vec<char>, p: &Vec<char>, from: usize) -> (k: usize)
    requires
        p.len() > 0,
        from <= s.len(),
    ensures
        k == from + find(s@.skip(from as int), p@),
{
    let ghost t = s@.skip(from as int);
    let mut i = from;
    while i < s.len()
        invariant
            from <= i <= s.len(),
            t == s@.skip(from as int),
            p@.len() > 0,
            forall|j: int| 0 <= j < i - from ==> !occurs_at(t, p@, j),
        decreases s.len() - i,
    {
        if occurs_at_exec(s, p, i) {
            proof {
                assert(s@.subrange(i as int, i + p.len()) =~= t.subrange(
                    i - from,
                    i - from + p.len(),
                ));
                lemma_find_is(t, p@, i - from);
            }
            return i;
        }
        proof {
            if i + p.len() <= s.len() {
                assert(s@.subrange(i as int, i + p.len()) =~= t.subrange(
                    i - from,
                    i - from + p.len(),
                ));
            }
        }
        i += 1;
    }
    proof {
        assert forall|j: int| 0 <= j implies !occurs_at(t, p@, j) by {
            if j >= i - from {
                assert(!(j + p.len() <= t.len()));
            }
        }
        lemma_find_is(t, p@, t.len() as int);
    }
    s.len()
}

/// First occurrence of the character `c` at or after `from`.
pub fn find_char_from(s: &Vec<char>, c: char, from: usize) -> (k: usize)
    requires
        from <= s.len(),
    ensures
        k == from + find(s@.skip(from as int), seq![c]),
        from <= k <= s.len(),
{
    let ghost t = s@.skip(from as int);
    let mut i = from;
    while i < s.len()
        invariant
            from <= i <= s.len(),
            t == s@.skip(from as int),
            forall|j: int| 0 <= j < i - from ==> t[j] != c,
        decreases s.len() - i,
    {
        if s[i] == c {
            proof {
                lemma_find_char_is(t, c, i - from);
            }
            return i;
        }
        i += 1;
    }
    proof {
        lemma_find_char_is(t, c, t.len() as int);
    }
    s.len()
}

/// First whitespace character at or after `from`.
pub fn find_ws_from(s: &Vec<char>, from: usize) -> (k: usize)
    requires
        from <= s.len(),
    ensures
        k == from + find_ws(s@.skip(from as int)),
        from <= k <= s.len(),
{
    let ghost t = s@.skip(from as int);
    let mut i = from;
    while i < s.len()
        invariant
            from <= i <= s.len(),
            t == s@.skip(from as int),
            forall|j: int| 0 <= j < i - from ==> !is_ws(#[trigger] t[j]),
        decreases s.len() - i,
    {
        if is_whitespace(s[i]) {
            proof {
                lemma_find_ws_is(t, i - from);
            }
            return i;
        }
        i += 1;
    }
    proof {
        lemma_find_ws_is(t, t.len() as int);
    }
    s.len()
}

/// `char::is_whitespace`.
pub fn is_whitespace(c: char) -> (r: bool)
    ensures
        r == is_ws(c),
{
    c == ' ' || ('\t' <= c && c <= '\r') || c == '\u{85}' || c == '\u{a0}' || c == '\u{1680}' || (
    '\u{2000}' <= c && c <= '\u{200a}') || c == '\u{2028}' || c == '\u{2029}' || c == '\u{202f}'
        || c == '\u{205f}' || c == '\u{3000}'
}

/// `str::trim`.
pub fn trim_chars(s: &Vec<char>) -> (r: Vec<char>)
    ensures
        r@ == trim(s@),
{
    let mut a: usize = 0;
    while a < s.len() && is_whitespace(s[a])
        invariant
            a <= s.len(),
            forall|j: int| 0 <= j < a ==> is_ws(#[trigger] s@[j]),
        decreases s.len() - a,
    {
        a += 1;
    }
    proof {
        lemma_trim_start(s@, a as int);
    }
    let mut b: usize = s.len();
    while b > a && is_whitespace(s[b - 1])
        invariant
            a <= b <= s.len(),
            forall|j: int| b <= j < s.len() ==> is_ws(#[trigger] s@[j]),
        decreases b,
    {
        b -= 1;
    }
    proof {
        let t = s@.skip(a as int);
        assert forall|j: int| b - a <= j < t.len() implies is_ws(#[trigger] t[j]) by {
            assert(t[j] == s@[j + a]);
        }
        if b > a {
            assert(t[b - a - 1] == s@[b - 1]);
        }
        lemma_trim_end(t, b - a);
        assert(t.take(b - a) =~= s@.subrange(a as int, b as int));
    }
    slice_chars(s, a, b)
}

/// `str::trim_start`.
pub fn trim_start_chars(s: &Vec<char>) -> (r: Vec<char>)
    ensures
        r@ == trim_start(s@),
{
    let mut a: usize = 0;
    while a < s.len() && is_whitespace(s[a])
        invariant
            a <= s.len(),
            forall|j: int| 0 <= j < a ==> is_ws(#[trigger] s@[j]),
        decreases s.len() - a,
    {
        a += 1;
    }
    proof {
        lemma_trim_start(s@, a as int);
        assert(s@.skip(a as int) =~= s@.subrange(a as int, s@.len() as int));
    }
    slice_chars(s, a, s.len())
}

/// True when all characters are whitespace (`s.trim().is_empty()`).
pub fn is_blank(s: &str) -> (r: bool)
    ensures
        r == all_ws(s@),
{
    let v = chars_of(s);
    for i in 0..v.len()
        invariant
            v@ == s@,
            forall|j: int| 0 <= j < i ==> is_ws(#[trigger] v@[j]),
    {
        if !is_whitespace(v[i]) {
            return false;
        }
    }
    true
}

/// `s.strip_prefix(p)`.
pub fn strip_prefix(s: &Vec<char>, p: &Vec<char>) -> (r: Option<Vec<char>>)
    ensures
        r is Some <==> starts_with(s@, p@),
        r matches Some(t) ==> t@ == s@.skip(p@.len() as int),
{
    if occurs_at_exec(s, p, 0) {
        let t = slice_chars(s, p.len(), s.len());
        assert(t@ =~= s@.skip(p@.len() as int));
        Some(t)
    } else {
        None
    }
}

/// `s.strip_suffix(p)`.
pub fn strip_suffix(s: &Vec<char>, p: &Vec<char>) -> (r: Option<Vec<char>>)
    ensures
        r is Some <==> ends_with(s@, p@),
        r matches Some(t) ==> t@ == s@.take(s@.len() - p@.len()),
{
    if p.len() <= s.len() && occurs_at_exec(s, p, s.len() - p.len()) {
        let t = slice_chars(s, 0, s.len() - p.len());
        assert(t@ =~= s@.take(s@.len() - p@.len()));
        Some(t)
    } else {
        None
    }
}

/// `str::replace(pat, rep)` for a non-empty pattern.
pub fn replace_chars(s: &Vec<char>, pat: &Vec<char>, rep: &Vec<char>) -> (r: Vec<char>)
    requires
        pat.len() > 0,
    ensures
        r@ == replace(s@, pat@, rep@),
{
    let mut out: Vec<char> = Vec::new();
    let mut i: usize = 0;
    assert(s@.skip(0) =~= s@);
    assert(out@ + replace(s@, pat@, rep@) =~= replace(s@, pat@, rep@));
    while i < s.len()
        invariant
            i <= s.len(),
            pat@.len() > 0,
            replace(s@, pat@, rep@) == out@ + replace(s@.skip(i as int), pat@, rep@),
        decreases s.len() - i,
    {
        let ghost t = s@.skip(i as int);
        if occurs_at_exec(s, pat, i) {
            proof {
                assert(s@.subrange(i as int, i + pat.len()) =~= t.subrange(0, pat@.len() as int));
                assert(t.skip(pat@.len() as int) =~= s@.skip(i + pat.len()));
            }
            push_chars(&mut out, rep);
            i += pat.len();
        } else {
            proof {
                if t.len() >= pat.len() {
                    assert(s@.subrange(i as int, i + pat.len()) =~= t.subrange(
                        0,
                        pat@.len() as int,
                    ));
                }
                assert(t.drop_first() =~= s@.skip(i + 1));
            }
            out.push(s[i]);
            i += 1;
        }
    }
    proof {
        assert(s@.skip(i as int) =~= Seq::<char>::empty());
        assert(out@ + Seq::<char>::empty() =~= out@);
    }
    out
}

/// `str::replace` on a string, with literal pattern and replacement.
pub fn replace_str(s: &Vec<char>, pat: &str, rep: &str) -> (r: Vec<char>)
    ensures
        r@ == replace(s@, pat@, rep@),
{
    let p = chars_of(pat);
    let q = chars_of(rep);
    if p.len() == 0 {
        let r = slice_chars(s, 0, s.len());
        assert(r@ =~= s@);
        return r;
    }
    replace_chars(s, &p, &q)
}

/// `c` repeated `n` times, appended.
pub fn push_repeat(out: &mut Vec<char>, c: char, n: usize)
    ensures
        final(out)@ == old(out)@ + repeat(c, n as nat),
{
    let ghost start = out@;
    for i in 0..n
        invariant
            out@ == start + repeat(c, i as nat),
    {
        out.push(c);
        assert(start + repeat(c, (i + 1) as nat) =~= (start + repeat(c, i as nat)).push(c));
    }
}

/// Appends the decimal digits of `n`.
pub fn push_decimal(out: &mut Vec<char>, n: usize)
    ensures
        final(out)@ == old(out)@ + decimal(n as nat),
    decreases n,
{
    if n >= 10 {
        push_decimal(out, n / 10);
    }
    let d = ((n % 10) as u8 + 48u8) as char;
    assert(d == digit(n as nat));
    out.push(d);
    assert(old(out)@ + decimal(n as nat) =~= (old(out)@ + if n >= 10 {
        decimal((n / 10) as nat)
    } else {
        seq![]
    }).push(d));
}

/// `str::lines`.
pub fn split_lines(s: &Vec<char>) -> (r: Vec<Vec<char>>)
    ensures
        r@.len() == lines(s@).len(),
        forall|i: int| 0 <= i < r@.len() ==> #[trigger] r@[i]@ == lines(s@)[i],
{
    let mut out: Vec<Vec<char>> = Vec::new();
    let mut i: usize = 0;
    let ghost mut done: Seq<Seq<char>> = seq![];
    assert(s@.skip(0) =~= s@);
    assert(done + lines(s@) =~= lines(s@));
    while i < s.len()
        invariant
            i <= s.len(),
            out@.len() == done.len(),
            forall|j: int| 0 <= j < done.len() ==> #[trigger] out@[j]@ == done[j],
            lines(s@) == done + lines(s@.skip(i as int)),
        decreases s.len() - i,
    {
        let ghost t = s@.skip(i as int);
        let k = find_char_from(s, '\n', i);
        proof {
            lemma_find_char(t, '\n');
        }
        if k < s.len() {
            let mut line = slice_chars(s, i, k);
            if line.len() > 0 && line[line.len() - 1] == '\r' {
                line.pop();
            }
            proof {
                assert(s@.subrange(i as int, k as int) =~= t.take(k - i));
                assert(t.skip(k - i + 1) =~= s@.skip(k + 1));
                assert(line@ =~= strip_cr(t.take(k - i)));
                done = done.push(line@);
                assert(seq![strip_cr(t.take(k - i))] + lines(s@.skip(k + 1)) == lines(t));
                assert(done + lines(s@.skip(k + 1)) =~= (done.drop_last() + seq![line@])
                    + lines(s@.skip(k + 1)));
            }
            out.push(line);
            i = k + 1;
        } else {
            let line = slice_chars(s, i, s.len());
            proof {
                assert(s@.subrange(i as int, s@.len() as int) =~= t);
                done = done.push(line@);
                assert(s@.skip(s@.len() as int) =~= Seq::<char>::empty());
                assert(lines(Seq::<char>::empty()) == Seq::<Seq<char>>::empty());
                assert(done + lines(s@.skip(s@.len() as int)) =~= done.drop_last() + lines(t));
            }
            out.push(line);
            i = s.len();
        }
    }
    proof {
        assert(s@.skip(i as int) =~= Seq::<char>::empty());
        assert(done + Seq::<Seq<char>>::empty() =~= done);
    }
    out
}

} // verus!
