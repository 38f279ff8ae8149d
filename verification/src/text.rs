//! Character-level text operations over `Seq<char>`: trimming, line and
//! field splitting, prefixes, ASCII case folding and joining.
//!
//! Each operation is stated as a spec function in the most direct form and
//! implemented by an executable function over a `Vec<char>` and index ranges.
use vstd::prelude::*;

verus! {

/// `String::push` appends one character at the end.
pub assume_specification[ String::push ](string: &mut String, ch: char)
    ensures
        final(string)@ == old(string)@.push(ch),
;

// ---------------------------------------------------------------------------
// Character classes
// ---------------------------------------------------------------------------
/// The Unicode `White_Space` property, which is what `char::is_whitespace` tests.
pub open spec fn is_ws(c: char) -> bool {
    ||| ('\u{9}' <= c && c <= '\u{d}')
    ||| c == ' '
    ||| c == '\u{85}'
    ||| c == '\u{a0}'
    ||| c == '\u{1680}'
    ||| ('\u{2000}' <= c && c <= '\u{200a}')
    ||| c == '\u{2028}'
    ||| c == '\u{2029}'
    ||| c == '\u{202f}'
    ||| c == '\u{205f}'
    ||| c == '\u{3000}'
}

/// `char::is_whitespace`.
pub fn is_whitespace(c: char) -> (r: bool)
    ensures
        r == is_ws(c),
{
    ('\u{9}' <= c && c <= '\u{d}') || c == ' ' || c == '\u{85}' || c == '\u{a0}' || c == '\u{1680}'
        || ('\u{2000}' <= c && c <= '\u{200a}') || c == '\u{2028}' || c == '\u{2029}' || c
        == '\u{202f}' || c == '\u{205f}' || c == '\u{3000}'
}

/// A character pattern: any whitespace character, or one given character.
#[derive(Clone, Copy)]
pub enum Pat {
    Ws,
    Ch(char),
}

/// Does `c` match the pattern `p`?
pub open spec fn pat_matches(p: Pat, c: char) -> bool {
    match p {
        Pat::Ws => is_ws(c),
        Pat::Ch(x) => c == x,
    }
}

/// Does `c` match the pattern `p`?
pub fn matches(p: Pat, c: char) -> (r: bool)
    ensures
        r == pat_matches(p, c),
{
    match p {
        Pat::Ws => is_whitespace(c),
        Pat::Ch(x) => c == x,
    }
}

/// ASCII lower-casing of one character; every other character is kept.
pub open spec fn lower_char(c: char) -> char {
    if 'A' <= c && c <= 'Z' {
        ((c as u32) + 32) as char
    } else {
        c
    }
}

/// `char::to_ascii_lowercase`.
pub fn to_lower_char(c: char) -> (r: char)
    ensures
        r == lower_char(c),
{
    if 'A' <= c && c <= 'Z' {
        ((c as u8) + 32) as char
    } else {
        c
    }
}

/// `str::to_ascii_lowercase`.
pub open spec fn ascii_lower(s: Seq<char>) -> Seq<char> {
    s.map_values(|c: char| lower_char(c))
}

/// `str::eq_ignore_ascii_case`.
pub open spec fn eq_ignore_case(a: Seq<char>, b: Seq<char>) -> bool {
    ascii_lower(a) == ascii_lower(b)
}

// ---------------------------------------------------------------------------
// Trimming
// ---------------------------------------------------------------------------
/// `s` without its leading characters that match `p`.
pub open spec fn trim_start(s: Seq<char>, p: Pat) -> Seq<char>
    decreases s.len(),
{
    if s.len() > 0 && pat_matches(p, s[0]) {
        trim_start(s.drop_first(), p)
    } else {
        s
    }
}

/// `s` without its trailing characters that match `p`.
pub open spec fn trim_end(s: Seq<char>, p: Pat) -> Seq<char>
    decreases s.len(),
{
    if s.len() > 0 && pat_matches(p, s.last()) {
        trim_end(s.drop_last(), p)
    } else {
        s
    }
}

/// `str::trim_matches` with pattern `p` (so `trim` for `Pat::Ws`).
pub open spec fn trim(s: Seq<char>, p: Pat) -> Seq<char> {
    trim_end(trim_start(s, p), p)
}

/// `str::trim`.
pub open spec fn trim_ws(s: Seq<char>) -> Seq<char> {
    trim(s, Pat::Ws)
}

/// Narrows the range `[lo, hi)` of `v` to the trimmed range.
pub fn trim_range(v: &Vec<char>, lo: usize, hi: usize, p: Pat) -> (r: (usize, usize))
    requires
        lo <= hi <= v@.len(),
    ensures
        lo <= r.0 <= r.1 <= hi,
        v@.subrange(r.0 as int, r.1 as int) == trim(v@.subrange(lo as int, hi as int), p),
{
    let mut a = lo;
    while a < hi && matches(p, v[a])
        invariant
            lo <= a <= hi <= v@.len(),
            trim_start(v@.subrange(lo as int, hi as int), p) == trim_start(
                v@.subrange(a as int, hi as int),
                p,
            ),
        decreases hi - a,
    {
        assert(v@.subrange(a as int, hi as int).drop_first() == v@.subrange(a + 1, hi as int));
        a += 1;
    }
    let mut b = hi;
    while a < b && matches(p, v[b - 1])
        invariant
            lo <= a <= b <= hi <= v@.len(),
            trim_start(v@.subrange(lo as int, hi as int), p) == v@.subrange(a as int, hi as int),
            trim_end(v@.subrange(a as int, hi as int), p) == trim_end(
                v@.subrange(a as int, b as int),
                p,
            ),
        decreases b - a,
    {
        assert(v@.subrange(a as int, b as int).drop_last() == v@.subrange(a as int, b - 1));
        b -= 1;
    }
    (a, b)
}

/// Narrows the range `[lo, hi)` of `v` by trimming its start only.
pub fn trim_start_range(v: &Vec<char>, lo: usize, hi: usize, p: Pat) -> (r: usize)
    requires
        lo <= hi <= v@.len(),
    ensures
        lo <= r <= hi,
        v@.subrange(r as int, hi as int) == trim_start(v@.subrange(lo as int, hi as int), p),
{
    let mut a = lo;
    while a < hi && matches(p, v[a])
        invariant
            lo <= a <= hi <= v@.len(),
            trim_start(v@.subrange(lo as int, hi as int), p) == trim_start(
                v@.subrange(a as int, hi as int),
                p,
            ),
        decreases hi - a,
    {
        assert(v@.subrange(a as int, hi as int).drop_first() == v@.subrange(a + 1, hi as int));
        a += 1;
    }
    a
}

// ---------------------------------------------------------------------------
// Prefixes
// ---------------------------------------------------------------------------
/// `str::starts_with`.
pub open spec fn starts_with(s: Seq<char>, prefix: Seq<char>) -> bool {
    prefix.len() <= s.len() && s.take(prefix.len() as int) == prefix
}

/// Does `v[lo..hi]` start with `prefix`?
pub fn range_starts_with(v: &Vec<char>, lo: usize, hi: usize, prefix: &Vec<char>) -> (r: bool)
    requires
        lo <= hi <= v@.len(),
    ensures
        r == starts_with(v@.subrange(lo as int, hi as int), prefix@),
{
    if prefix.len() > hi - lo {
        return false;
    }
    let mut i: usize = 0;
    while i < prefix.len()
        invariant
            prefix@.len() <= hi - lo,
            lo <= hi <= v@.len(),
            i <= prefix@.len(),
            forall|j: int| 0 <= j < i ==> v@[lo + j] == prefix@[j],
        decreases prefix@.len() - i,
    {
        if v[lo + i] != prefix[i] {
            assert(v@.subrange(lo as int, hi as int).take(prefix@.len() as int)[i as int]
                != prefix@[i as int]);
            return false;
        }
        i += 1;
    }
    assert(v@.subrange(lo as int, hi as int).take(prefix@.len() as int) =~= prefix@);
    true
}

/// Sequence equality of `v[lo..hi]` and `w`.
pub fn range_eq(v: &Vec<char>, lo: usize, hi: usize, w: &Vec<char>) -> (r: bool)
    requires
        lo <= hi <= v@.len(),
    ensures
        r == (v@.subrange(lo as int, hi as int) == w@),
{
    if w.len() != hi - lo {
        return false;
    }
    let b = range_starts_with(v, lo, hi, w);
    proof {
        assert(v@.subrange(lo as int, hi as int).take(w@.len() as int) == v@.subrange(
            lo as int,
            hi as int,
        ));
    }
    b
}

/// `a == b` on string slices, by characters.
pub fn str_eq(a: &str, b: &str) -> (r: bool)
    ensures
        r == (a@ == b@),
{
    let va = chars_of(a);
    let vb = chars_of(b);
    let r = range_eq(&va, 0, va.len(), &vb);
    assert(va@.subrange(0, va@.len() as int) == va@);
    r
}

// ---------------------------------------------------------------------------
// Searching
// ---------------------------------------------------------------------------
/// Index of the first character that matches `p`, or `s.len()` if none does.
pub open spec fn index_of(s: Seq<char>, p: Pat) -> int
    decreases s.len(),
{
    if s.len() == 0 {
        0
    } else if pat_matches(p, s[0]) {
        0
    } else {
        1 + index_of(s.drop_first(), p)
    }
}

/// `index_of` is a position in `s`, before which nothing matches.
pub proof fn lemma_index_of_bounds(s: Seq<char>, p: Pat)
    ensures
        0 <= index_of(s, p) <= s.len(),
        s.len() > 0 && !pat_matches(p, s[0]) ==> index_of(s, p) >= 1,
        index_of(s, p) < s.len() ==> pat_matches(p, s[index_of(s, p)]),
        forall|j: int| 0 <= j < index_of(s, p) ==> !pat_matches(p, #[trigger] s[j]),
    decreases s.len(),
{
    if s.len() > 0 && !pat_matches(p, s[0]) {
        lemma_index_of_bounds(s.drop_first(), p);
        assert forall|j: int| 0 <= j < index_of(s, p) implies !pat_matches(p, #[trigger] s[j]) by {
            if j > 0 {
                assert(s[j] == s.drop_first()[j - 1]);
            }
        }
    }
}

/// The first match of `p` in `s` is at `k` (or there is none and `k == s.len()`).
pub proof fn lemma_index_of(s: Seq<char>, p: Pat, k: int)
    requires
        0 <= k <= s.len(),
        forall|j: int| 0 <= j < k ==> !pat_matches(p, #[trigger] s[j]),
        k < s.len() ==> pat_matches(p, s[k]),
    ensures
        index_of(s, p) == k,
    decreases k,
{
    if k > 0 {
        assert(!pat_matches(p, s[0]));
        assert forall|j: int| 0 <= j < k - 1 implies !pat_matches(p, #[trigger] s.drop_first()[j]) by {
            assert(s.drop_first()[j] == s[j + 1]);
        }
        lemma_index_of(s.drop_first(), p, k - 1);
    }
}

/// First index in `[lo, hi)` whose character matches `p`, or `hi`.
pub fn find_in_range(v: &Vec<char>, lo: usize, hi: usize, p: Pat) -> (r: usize)
    requires
        lo <= hi <= v@.len(),
    ensures
        lo <= r <= hi,
        r - lo == index_of(v@.subrange(lo as int, hi as int), p),
{
    let mut i = lo;
    while i < hi && !matches(p, v[i])
        invariant
            lo <= i <= hi <= v@.len(),
            forall|j: int| lo <= j < i ==> !pat_matches(p, #[trigger] v@[j]),
        decreases hi - i,
    {
        i += 1;
    }
    proof {
        let s = v@.subrange(lo as int, hi as int);
        assert forall|j: int| 0 <= j < i - lo implies !pat_matches(p, #[trigger] s[j]) by {
            assert(s[j] == v@[lo + j]);
        }
        lemma_index_of(s, p, i - lo);
    }
    i
}

// ---------------------------------------------------------------------------
// Lines
// ---------------------------------------------------------------------------
/// Drops one trailing `'\r'`.
pub open spec fn strip_cr(s: Seq<char>) -> Seq<char> {
    if s.len() > 0 && s.last() == '\r' {
        s.drop_last()
    } else {
        s
    }
}

/// `str::lines`: pieces ended by `'\n'` or `"\r\n"`, and a last piece
/// that no `'\n'` ends, kept whole (a bare `'\r'` at its end stays);
/// a final `'\n'` does not start another line.
pub open spec fn lines(s: Seq<char>) -> Seq<Seq<char>>
    decreases s.len(),
{
    if s.len() == 0 {
        seq![]
    } else {
        let k = index_of(s, Pat::Ch('\n'));
        if k >= s.len() {
            seq![s]
        } else {
            proof {
                lemma_index_of_bounds(s, Pat::Ch('\n'));
            }
            seq![strip_cr(s.take(k))] + lines(s.skip(k + 1))
        }
    }
}

/// The lines of a text made of `a`, a line break and `b` are those of `a`
/// with its line break, followed by those of `b`.
pub proof fn lemma_lines_after_break(a: Seq<char>, b: Seq<char>)
    ensures
        lines(a + seq!['\n'] + b) == lines(a + seq!['\n']) + lines(b),
    decreases a.len(),
{
    let s = a + seq!['\n'] + b;
    let t = a + seq!['\n'];
    lemma_index_of_bounds(s, Pat::Ch('\n'));
    let k = index_of(s, Pat::Ch('\n'));
    assert(s[a.len() as int] == '\n');
    assert(k <= a.len());
    assert forall|j: int| 0 <= j < k implies !pat_matches(Pat::Ch('\n'), #[trigger] t[j]) by {
        assert(t[j] == s[j]);
    }
    assert(t[k] == s[k]);
    lemma_index_of(t, Pat::Ch('\n'), k);
    assert(s.take(k) == t.take(k));
    if k == a.len() {
        assert(s.skip(k + 1) == b);
        assert(t.skip(k + 1) =~= Seq::<char>::empty());
        assert(lines(t.skip(k + 1)) == Seq::<Seq<char>>::empty());
    } else {
        let a2 = a.skip(k + 1);
        assert(s.skip(k + 1) == a2 + seq!['\n'] + b);
        assert(t.skip(k + 1) == a2 + seq!['\n']);
        lemma_lines_after_break(a2, b);
    }
}

/// The pieces of `v` named by a list of ranges.
pub open spec fn pieces(v: Seq<char>, rs: Seq<(usize, usize)>) -> Seq<Seq<char>> {
    rs.map_values(|r: (usize, usize)| v.subrange(r.0 as int, r.1 as int))
}

/// Every range is ordered and ends within `n`.
pub open spec fn ranges_within(rs: Seq<(usize, usize)>, n: int) -> bool {
    forall|i: int| 0 <= i < rs.len() ==> (#[trigger] rs[i]).0 <= rs[i].1 && rs[i].1 <= n
}

/// Appending an ordered range that ends within `n` keeps `ranges_within`.
proof fn lemma_push_range_within(rs: Seq<(usize, usize)>, r: (usize, usize), n: int)
    requires
        ranges_within(rs, n),
        r.0 <= r.1 <= n,
    ensures
        ranges_within(rs.push(r), n),
{
    assert forall|k: int| 0 <= k < rs.push(r).len() implies (#[trigger] rs.push(r)[k]).0 <= rs.push(
        r,
    )[k].1 <= n by {
        if k < rs.len() {
            assert(rs.push(r)[k] == rs[k]);
        }
    }
}

/// The ranges of the lines of `v`.
pub fn split_lines(v: &Vec<char>) -> (out: Vec<(usize, usize)>)
    ensures
        ranges_within(out@, v@.len() as int),
        pieces(v@, out@) == lines(v@),
{
    let n = v.len();
    let mut out: Vec<(usize, usize)> = Vec::new();
    let mut st: usize = 0;
    assert(v@.skip(0) == v@);
    while st < n
        invariant
            n == v@.len(),
            st <= n,
            ranges_within(out@, n as int),
            pieces(v@, out@) + lines(v@.skip(st as int)) == lines(v@),
        decreases n - st,
    {
        let e = find_in_range(v, st, n, Pat::Ch('\n'));
        let ghost rest = v@.skip(st as int);
        proof {
            assert(v@.subrange(st as int, n as int) == rest);
        }
        let mut line_end = e;
        if e < n && line_end > st && v[line_end - 1] == '\r' {
            line_end -= 1;
        }
        proof {
            assert(v@.subrange(st as int, e as int) == rest.take(e - st));
            if line_end < e {
                assert(v@.subrange(st as int, line_end as int) == rest.take(e - st).drop_last());
            }
            if e < n {
                assert(v@.subrange(st as int, line_end as int) == strip_cr(rest.take(e - st)));
            }
        }
        let ghost old_out = out@;
        out.push((st, line_end));
        proof {
            lemma_push_range_within(old_out, (st, line_end), n as int);
            assert(pieces(v@, out@) == pieces(v@, old_out).push(
                v@.subrange(st as int, line_end as int),
            ));
        }
        if e == n {
            proof {
                assert(rest.take(e - st) == rest);
                assert(lines(rest) == seq![rest]);
                assert(v@.skip(n as int) =~= Seq::<char>::empty());
                assert(lines(v@.skip(n as int)) == Seq::<Seq<char>>::empty());
                assert(pieces(v@, out@) + lines(v@.skip(n as int)) == pieces(v@, out@));
            }
            st = n;
        } else {
            proof {
                assert(rest.skip(e - st + 1) == v@.skip(e + 1));
                assert(lines(rest) == seq![strip_cr(rest.take(e - st))] + lines(v@.skip(e + 1)));
                assert(pieces(v@, old_out) + lines(rest) == pieces(v@, out@) + lines(
                    v@.skip(e + 1),
                ));
            }
            st = e + 1;
        }
    }
    proof {
        assert(v@.skip(n as int) =~= Seq::<char>::empty());
        assert(pieces(v@, out@) + lines(v@.skip(n as int)) == pieces(v@, out@));
    }
    out
}

// ---------------------------------------------------------------------------
// Splitting on a character and on whitespace
// ---------------------------------------------------------------------------
/// `str::split(c)`: always at least one piece; empty pieces are kept.
pub open spec fn split_on(s: Seq<char>, c: char) -> Seq<Seq<char>>
    decreases s.len(),
{
    let k = index_of(s, Pat::Ch(c));
    if k >= s.len() {
        seq![s]
    } else {
        proof {
            lemma_index_of_bounds(s, Pat::Ch(c));
        }
        seq![s.take(k)] + split_on(s.skip(k + 1), c)
    }
}

/// The ranges of the pieces of `v[lo..hi]` split on `c`.
pub fn split_range(v: &Vec<char>, lo: usize, hi: usize, c: char) -> (out: Vec<(usize, usize)>)
    requires
        lo <= hi <= v@.len(),
    ensures
        ranges_within(out@, v@.len() as int),
        pieces(v@, out@) == split_on(v@.subrange(lo as int, hi as int), c),
{
    let mut out: Vec<(usize, usize)> = Vec::new();
    let mut st: usize = lo;
    loop
        invariant
            lo <= st <= hi <= v@.len(),
            ranges_within(out@, v@.len() as int),
            pieces(v@, out@) + split_on(v@.subrange(st as int, hi as int), c) == split_on(
                v@.subrange(lo as int, hi as int),
                c,
            ),
        decreases hi - st,
    {
        let e = find_in_range(v, st, hi, Pat::Ch(c));
        let ghost rest = v@.subrange(st as int, hi as int);
        let ghost old_out = out@;
        out.push((st, e));
        proof {
            lemma_push_range_within(old_out, (st, e), v@.len() as int);
            assert(pieces(v@, out@) == pieces(v@, old_out).push(v@.subrange(st as int, e as int)));
        }
        if e == hi {
            proof {
                assert(split_on(rest, c) == seq![rest]);
                assert(pieces(v@, old_out) + seq![rest] == pieces(v@, out@));
            }
            return out;
        }
        proof {
            assert(rest.take(e - st) == v@.subrange(st as int, e as int));
            assert(rest.skip(e - st + 1) == v@.subrange(e + 1, hi as int));
            assert(split_on(rest, c) == seq![v@.subrange(st as int, e as int)] + split_on(
                v@.subrange(e + 1, hi as int),
                c,
            ));
            assert(pieces(v@, old_out) + split_on(rest, c) == pieces(v@, out@) + split_on(
                v@.subrange(e + 1, hi as int),
                c,
            ));
        }
        st = e + 1;
    }
}

/// `str::split_whitespace`: the maximal runs of non-whitespace characters.
pub open spec fn words(s: Seq<char>) -> Seq<Seq<char>>
    decreases s.len(),
{
    if s.len() == 0 {
        seq![]
    } else if is_ws(s[0]) {
        words(s.drop_first())
    } else {
        let k = index_of(s, Pat::Ws);
        proof {
            lemma_index_of_bounds(s, Pat::Ws);
        }
        seq![s.take(k)] + words(s.skip(k))
    }
}

/// The ranges of the whitespace-separated words of `v`.
pub fn split_words(v: &Vec<char>) -> (out: Vec<(usize, usize)>)
    ensures
        ranges_within(out@, v@.len() as int),
        pieces(v@, out@) == words(v@),
{
    let n = v.len();
    let mut out: Vec<(usize, usize)> = Vec::new();
    let mut i: usize = 0;
    assert(v@.skip(0) == v@);
    while i < n
        invariant
            n == v@.len(),
            i <= n,
            ranges_within(out@, n as int),
            pieces(v@, out@) + words(v@.skip(i as int)) == words(v@),
        decreases n - i,
    {
        if is_whitespace(v[i]) {
            assert(v@.skip(i as int).drop_first() == v@.skip(i + 1));
            i += 1;
        } else {
            let e = find_in_range(v, i, n, Pat::Ws);
            let ghost rest = v@.skip(i as int);
            proof {
                assert(v@.subrange(i as int, n as int) == rest);
                assert(rest.take(e - i) == v@.subrange(i as int, e as int));
                assert(rest.skip(e - i) == v@.skip(e as int));
                assert(words(rest) == seq![v@.subrange(i as int, e as int)] + words(
                    v@.skip(e as int),
                ));
            }
            let ghost old_out = out@;
            out.push((i, e));
            proof {
                lemma_push_range_within(old_out, (i, e), n as int);
                assert(pieces(v@, out@) == pieces(v@, old_out).push(
                    v@.subrange(i as int, e as int),
                ));
                assert(pieces(v@, old_out) + words(rest) == pieces(v@, out@) + words(
                    v@.skip(e as int),
                ));
            }
            i = e;
        }
    }
    proof {
        assert(v@.skip(n as int) =~= Seq::<char>::empty());
        assert(pieces(v@, out@) + words(v@.skip(n as int)) == pieces(v@, out@));
    }
    out
}

// ---------------------------------------------------------------------------
// Joining and building strings
// ---------------------------------------------------------------------------
/// `[String]::join(sep)`.
pub open spec fn join(parts: Seq<Seq<char>>, sep: Seq<char>) -> Seq<char>
    decreases parts.len(),
{
    if parts.len() == 0 {
        seq![]
    } else if parts.len() == 1 {
        parts[0]
    } else {
        join(parts.drop_last(), sep) + sep + parts.last()
    }
}

/// The characters of `s`, in order.
pub fn chars_of(s: &str) -> (out: Vec<char>)
    ensures
        out@ == s@,
{
    let mut out: Vec<char> = Vec::new();
    for c in it: s.chars()
        invariant
            it.seq() == s@,
            out@ == s@.take(it.index() as int),
    {
        out.push(c);
    }
    assert(s@.take(s@.len() as int) == s@);
    out
}

/// Appends `v[lo..hi]` to `out`.
pub fn push_range(out: &mut String, v: &Vec<char>, lo: usize, hi: usize)
    requires
        lo <= hi <= v@.len(),
    ensures
        final(out)@ == old(out)@ + v@.subrange(lo as int, hi as int),
{
    let mut i = lo;
    while i < hi
        invariant
            lo <= i <= hi <= v@.len(),
            out@ == old(out)@ + v@.subrange(lo as int, i as int),
        decreases hi - i,
    {
        out.push(v[i]);
        i += 1;
        assert(v@.subrange(lo as int, i as int) == v@.subrange(lo as int, i - 1).push(
            v@[i - 1],
        ));
    }
}

/// A new `String` holding `v[lo..hi]`.
pub fn string_of_range(v: &Vec<char>, lo: usize, hi: usize) -> (out: String)
    requires
        lo <= hi <= v@.len(),
    ensures
        out@ == v@.subrange(lo as int, hi as int),
{
    let mut out = String::new();
    push_range(&mut out, v, lo, hi);
    out
}

/// Joins the strings of `parts` with `sep` between consecutive ones.
pub fn join_strings(parts: &Vec<String>, sep: &str) -> (out: String)
    ensures
        out@ == join(parts.deep_view(), sep@),
{
    let mut out = String::new();
    let ghost dv = parts.deep_view();
    let mut i: usize = 0;
    while i < parts.len()
        invariant
            i <= parts@.len(),
            dv == parts.deep_view(),
            dv.len() == parts@.len(),
            out@ == join(dv.take(i as int), sep@),
        decreases parts@.len() - i,
    {
        if i > 0 {
            out.append(sep);
        }
        out.append(parts[i].as_str());
        proof {
            assert(dv[i as int] == parts@[i as int]@);
            assert(dv.take(i + 1).drop_last() == dv.take(i as int));
            if i == 0 {
                assert(dv.take(1) == seq![dv[0]]);
            }
        }
        i += 1;
    }
    assert(dv.take(parts@.len() as int) == dv);
    out
}

/// `str::to_ascii_lowercase`.
pub fn to_ascii_lowercase(s: &str) -> (out: String)
    ensures
        out@ == ascii_lower(s@),
{
    let v = chars_of(s);
    let mut out = String::new();
    let mut i: usize = 0;
    while i < v.len()
        invariant
            i <= v@.len(),
            v@ == s@,
            out@ == ascii_lower(v@.take(i as int)),
        decreases v@.len() - i,
    {
        out.push(to_lower_char(v[i]));
        proof {
            assert(ascii_lower(v@.take(i + 1)) =~= ascii_lower(v@.take(i as int)).push(
                lower_char(v@[i as int]),
            ));
        }
        i += 1;
    }
    assert(v@.take(v@.len() as int) == v@);
    out
}

/// `str::eq_ignore_ascii_case`.
pub fn eq_ignore_ascii_case(a: &str, b: &str) -> (r: bool)
    ensures
        r == eq_ignore_case(a@, b@),
{
    let va = chars_of(a);
    let vb = chars_of(b);
    if va.len() != vb.len() {
        proof {
            assert(ascii_lower(a@).len() != ascii_lower(b@).len());
        }
        return false;
    }
    let mut i: usize = 0;
    while i < va.len()
        invariant
            va@ == a@,
            vb@ == b@,
            va@.len() == vb@.len(),
            i <= va@.len(),
            forall|j: int| 0 <= j < i ==> lower_char(#[trigger] va@[j]) == lower_char(vb@[j]),
        decreases va@.len() - i,
    {
        if to_lower_char(va[i]) != to_lower_char(vb[i]) {
            proof {
                assert(ascii_lower(a@)[i as int] != ascii_lower(b@)[i as int]);
            }
            return false;
        }
        i += 1;
    }
    assert(ascii_lower(a@) =~= ascii_lower(b@));
    true
}

/// `str::trim`, as a new `String`.
pub fn trim_to_string(s: &str) -> (out: String)
    ensures
        out@ == trim_ws(s@),
{
    let v = chars_of(s);
    let (a, b) = trim_range(&v, 0, v.len(), Pat::Ws);
    assert(v@.subrange(0, v@.len() as int) == v@);
    string_of_range(&v, a, b)
}

// ---------------------------------------------------------------------------
// Laws of trimming and words
// ---------------------------------------------------------------------------
/// Appending a whitespace character does not change the first whitespace
/// position of a sequence that has one, and is the first one otherwise.
proof fn lemma_index_of_push_ws(s: Seq<char>, c: char)
    requires
        is_ws(c),
    ensures
        index_of(s.push(c), Pat::Ws) == index_of(s, Pat::Ws),
{
    lemma_index_of_bounds(s, Pat::Ws);
    let k = index_of(s, Pat::Ws);
    let t = s.push(c);
    assert forall|j: int| 0 <= j < k implies !pat_matches(Pat::Ws, #[trigger] t[j]) by {
        assert(t[j] == s[j]);
        assert(!pat_matches(Pat::Ws, s[j]));
    }
    if k < s.len() {
        assert(t[k] == s[k]);
    } else {
        assert(t[k] == c);
    }
    lemma_index_of(t, Pat::Ws, k);
}

/// Trailing whitespace adds no word.
pub proof fn lemma_words_push_ws(s: Seq<char>, c: char)
    requires
        is_ws(c),
    ensures
        words(s.push(c)) == words(s),
    decreases s.len(),
{
    let t = s.push(c);
    if s.len() == 0 {
        assert(t.drop_first() =~= Seq::<char>::empty());
        assert(t[0] == c);
        assert(words(t.drop_first()) == Seq::<Seq<char>>::empty());
    } else if is_ws(s[0]) {
        assert(t[0] == s[0]);
        assert(t.drop_first() == s.drop_first().push(c));
        lemma_words_push_ws(s.drop_first(), c);
    } else {
        assert(t[0] == s[0]);
        let k = index_of(s, Pat::Ws);
        lemma_index_of_bounds(s, Pat::Ws);
        lemma_index_of_push_ws(s, c);
        assert(t.take(k) == s.take(k));
        assert(t.skip(k) == s.skip(k).push(c));
        lemma_words_push_ws(s.skip(k), c);
    }
}

proof fn lemma_words_trim_start(s: Seq<char>)
    ensures
        words(trim_start(s, Pat::Ws)) == words(s),
    decreases s.len(),
{
    if s.len() > 0 && is_ws(s[0]) {
        lemma_words_trim_start(s.drop_first());
    }
}

proof fn lemma_words_trim_end(s: Seq<char>)
    ensures
        words(trim_end(s, Pat::Ws)) == words(s),
    decreases s.len(),
{
    if s.len() > 0 && is_ws(s.last()) {
        lemma_words_trim_end(s.drop_last());
        assert(s == s.drop_last().push(s.last()));
        lemma_words_push_ws(s.drop_last(), s.last());
    }
}

/// Trimming whitespace keeps the words of a text.
pub proof fn lemma_trim_keeps_words(s: Seq<char>)
    ensures
        words(trim_ws(s)) == words(s),
{
    lemma_words_trim_start(s);
    lemma_words_trim_end(trim_start(s, Pat::Ws));
}

proof fn lemma_trim_start_head(s: Seq<char>)
    ensures
        trim_start(s, Pat::Ws).len() > 0 ==> !is_ws(trim_start(s, Pat::Ws)[0]),
    decreases s.len(),
{
    if s.len() > 0 && is_ws(s[0]) {
        lemma_trim_start_head(s.drop_first());
    }
}

proof fn lemma_trim_end_keeps_head(t: Seq<char>)
    requires
        t.len() > 0,
        !is_ws(t[0]),
    ensures
        trim_end(t, Pat::Ws).len() > 0,
        trim_end(t, Pat::Ws)[0] == t[0],
    decreases t.len(),
{
    if is_ws(t.last()) {
        assert(t.len() > 1);
        assert(t.drop_last()[0] == t[0]);
        lemma_trim_end_keeps_head(t.drop_last());
    }
}

/// A text trims to nothing exactly when it has no words.
pub proof fn lemma_trim_empty_iff_no_words(s: Seq<char>)
    ensures
        trim_ws(s).len() == 0 <==> words(s).len() == 0,
{
    lemma_trim_keeps_words(s);
    let t = trim_start(s, Pat::Ws);
    lemma_trim_start_head(s);
    if t.len() > 0 {
        lemma_trim_end_keeps_head(t);
        let u = trim_ws(s);
        lemma_index_of_bounds(u, Pat::Ws);
        assert(words(u).len() > 0);
    } else {
        assert(trim_ws(s) == t);
    }
}

/// The words of two texts joined by a whitespace character are the words
/// of the first followed by those of the second.
pub proof fn lemma_words_concat(a: Seq<char>, c: char, b: Seq<char>)
    requires
        is_ws(c),
    ensures
        words(a.push(c) + b) == words(a) + words(b),
    decreases a.len(),
{
    let s = a.push(c) + b;
    if a.len() == 0 {
        assert(s[0] == c);
        assert(s.drop_first() =~= b);
        assert(words(a) =~= Seq::<Seq<char>>::empty());
        assert(words(a) + words(b) =~= words(b));
    } else if is_ws(a[0]) {
        assert(s[0] == a[0]);
        assert(s.drop_first() =~= a.drop_first().push(c) + b);
        lemma_words_concat(a.drop_first(), c, b);
        assert(words(a) == words(a.drop_first()));
    } else {
        assert(s[0] == a[0]);
        let k = index_of(a, Pat::Ws);
        lemma_index_of_bounds(a, Pat::Ws);
        assert forall|j: int| 0 <= j < k implies !pat_matches(Pat::Ws, #[trigger] s[j]) by {
            assert(s[j] == a[j]);
            assert(!pat_matches(Pat::Ws, a[j]));
        }
        if k < a.len() {
            assert(s[k] == a[k]);
        } else {
            assert(s[k] == c);
        }
        lemma_index_of(s, Pat::Ws, k);
        assert(s.take(k) =~= a.take(k));
        assert(s.skip(k) =~= a.skip(k).push(c) + b);
        lemma_words_concat(a.skip(k), c, b);
        assert(words(a) == seq![a.take(k)] + words(a.skip(k)));
        assert(words(s) == seq![a.take(k)] + words(a.skip(k).push(c) + b));
        assert(words(s) =~= words(a) + words(b));
    }
}

} // verus!
