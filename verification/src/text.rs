//! Character-level text operations with their specifications.
//!
//! Text is modelled as `Seq<char>`. Executable functions work on a slice of
//! characters and a half-open range `lo..hi` of it, so that one conversion of
//! a string to characters serves every later operation on its parts.
use vstd::prelude::*;

verus! {

/// Appending a character to a `String` extends its character sequence by that character.
pub assume_specification[ String::push ](s: &mut String, ch: char)
    ensures
        final(s)@ == old(s)@.push(ch),
;

// ---------------------------------------------------------------------------
// Specifications
// ---------------------------------------------------------------------------
/// Unicode `White_Space`, the set that `char::is_whitespace` tests.
pub open spec fn is_ws(c: char) -> bool {
    ||| c == '\t'
    ||| c == '\n'
    ||| c == '\u{0B}'
    ||| c == '\u{0C}'
    ||| c == '\r'
    ||| c == ' '
    ||| c == '\u{85}'
    ||| c == '\u{A0}'
    ||| c == '\u{1680}'
    ||| ('\u{2000}' <= c && c <= '\u{200A}')
    ||| c == '\u{2028}'
    ||| c == '\u{2029}'
    ||| c == '\u{202F}'
    ||| c == '\u{205F}'
    ||| c == '\u{3000}'
}

/// `s` without its leading whitespace.
pub open spec fn trim_start(s: Seq<char>) -> Seq<char>
    decreases s.len(),
{
    if s.len() > 0 && is_ws(s[0]) {
        trim_start(s.drop_first())
    } else {
        s
    }
}

/// `s` without its trailing whitespace.
pub open spec fn trim_end(s: Seq<char>) -> Seq<char>
    decreases s.len(),
{
    if s.len() > 0 && is_ws(s.last()) {
        trim_end(s.drop_last())
    } else {
        s
    }
}

/// `s` without leading and trailing whitespace (`str::trim`).
pub open spec fn trim(s: Seq<char>) -> Seq<char> {
    trim_end(trim_start(s))
}

pub open spec fn starts_with(s: Seq<char>, p: Seq<char>) -> bool {
    p.len() <= s.len() && s.subrange(0, p.len() as int) == p
}

pub open spec fn ends_with(s: Seq<char>, p: Seq<char>) -> bool {
    p.len() <= s.len() && s.subrange(s.len() - p.len(), s.len() as int) == p
}

/// `p` occurs in `s` at position `i`.
pub open spec fn matches_at(s: Seq<char>, p: Seq<char>, i: int) -> bool {
    0 <= i && i + p.len() <= s.len() && s.subrange(i, i + p.len()) == p
}

/// The first position at or after `i` where `p` occurs in `s`.
pub open spec fn find_from(s: Seq<char>, p: Seq<char>, i: int) -> Option<int>
    decreases s.len() + 1 - i,
{
    if i < 0 || i + p.len() > s.len() {
        None
    } else if matches_at(s, p, i) {
        Some(i)
    } else {
        find_from(s, p, i + 1)
    }
}

/// The first position where `p` occurs in `s` (`str::find`).
pub open spec fn find(s: Seq<char>, p: Seq<char>) -> Option<int> {
    find_from(s, p, 0)
}

pub open spec fn contains(s: Seq<char>, p: Seq<char>) -> bool {
    find(s, p) is Some
}

/// The parts before and after the first occurrence of `p` (`str::split_once`).
pub open spec fn split_once(s: Seq<char>, p: Seq<char>) -> Option<(Seq<char>, Seq<char>)> {
    match find(s, p) {
        Some(i) => Some((s.take(i), s.skip(i + p.len()))),
        None => None,
    }
}

/// The part of `s` before the first occurrence of `p`, or all of `s`
/// (the first item of `str::split`).
pub open spec fn before(s: Seq<char>, p: Seq<char>) -> Seq<char> {
    match split_once(s, p) {
        Some((a, _)) => a,
        None => s,
    }
}

/// The number of leading characters of `s` that are not whitespace.
pub open spec fn word_len(s: Seq<char>) -> nat
    decreases s.len(),
{
    if s.len() > 0 && !is_ws(s[0]) {
        1 + word_len(s.drop_first())
    } else {
        0
    }
}

/// The first whitespace-separated word of `s` and what follows it.
pub open spec fn next_word(s: Seq<char>) -> Option<(Seq<char>, Seq<char>)> {
    let t = trim_start(s);
    if t.len() == 0 {
        None
    } else {
        Some((t.take(word_len(t) as int), t.skip(word_len(t) as int)))
    }
}

/// The second whitespace-separated word of `s` (`split_whitespace().nth(1)`).
pub open spec fn second_word(s: Seq<char>) -> Option<Seq<char>> {
    match next_word(s) {
        Some((_, rest)) => match next_word(rest) {
            Some((w, _)) => Some(w),
            None => None,
        },
        None => None,
    }
}

/// A line with its line ending removed: a `'\r'` before the `'\n'` goes too.
pub open spec fn strip_cr(s: Seq<char>) -> Seq<char> {
    if s.len() > 0 && s.last() == '\r' {
        s.drop_last()
    } else {
        s
    }
}

/// The lines of `s` (`str::lines`): split at `'\n'`, a final line ending
/// being optional.
pub open spec fn lines(s: Seq<char>) -> Seq<Seq<char>>
    decreases s.len(),
{
    if s.len() == 0 {
        Seq::empty()
    } else {
        proof {
            lemma_find_from_first(s, seq!['\n'], 0);
        }
        match find(s, seq!['\n']) {
            Some(i) => seq![strip_cr(s.take(i))] + lines(s.skip(i + 1)),
            None => seq![s],
        }
    }
}

/// The pieces of `s` between occurrences of the character `c` (`str::split`).
pub open spec fn split_char(s: Seq<char>, c: char) -> Seq<Seq<char>>
    decreases s.len(),
{
    proof {
        lemma_find_from_first(s, seq![c], 0);
    }
    match find(s, seq![c]) {
        Some(i) => seq![s.take(i)] + split_char(s.skip(i + 1), c),
        None => seq![s],
    }
}

/// `s` with every occurrence of `p` replaced by `r`, left to right
/// (`str::replace` for a non-empty pattern).
pub open spec fn replace_all(s: Seq<char>, p: Seq<char>, r: Seq<char>) -> Seq<char>
    decreases s.len(),
{
    if p.len() == 0 {
        s
    } else {
        proof {
            lemma_find_from_first(s, p, 0);
        }
        match find(s, p) {
            Some(i) => s.take(i) + r + replace_all(s.skip(i + p.len()), p, r),
            None => s,
        }
    }
}

/// ASCII letters in upper case turned to lower case (`to_ascii_lowercase`).
pub open spec fn lower_char(c: char) -> char {
    if 'A' <= c && c <= 'Z' {
        ((c as u32) + 32) as char
    } else {
        c
    }
}

pub open spec fn to_ascii_lower(s: Seq<char>) -> Seq<char> {
    s.map_values(|c: char| lower_char(c))
}

// ---------------------------------------------------------------------------
// Lemmas
// ---------------------------------------------------------------------------
/// Skipping a run of whitespace at `lo..k` does not change `trim_start`, and
/// a non-whitespace character at `k` ends it.
pub proof fn lemma_trim_start_range(s: Seq<char>, lo: int, k: int, hi: int)
    requires
        0 <= lo <= k <= hi <= s.len(),
        forall|j: int| lo <= j < k ==> is_ws(#[trigger] s[j]),
        k == hi || !is_ws(s[k]),
    ensures
        trim_start(s.subrange(lo, hi)) == s.subrange(k, hi),
    decreases k - lo,
{
    let sub = s.subrange(lo, hi);
    if lo == k {
        if lo < hi {
            assert(sub[0] == s[k]);
        }
    } else {
        assert(sub[0] == s[lo]);
        assert(sub.drop_first() =~= s.subrange(lo + 1, hi));
        lemma_trim_start_range(s, lo + 1, k, hi);
    }
}

/// Dropping a run of whitespace at `k..hi` does not change `trim_end`, and a
/// non-whitespace character before `k` ends it.
pub proof fn lemma_trim_end_range(s: Seq<char>, lo: int, k: int, hi: int)
    requires
        0 <= lo <= k <= hi <= s.len(),
        forall|j: int| k <= j < hi ==> is_ws(#[trigger] s[j]),
        k == lo || !is_ws(s[k - 1]),
    ensures
        trim_end(s.subrange(lo, hi)) == s.subrange(lo, k),
    decreases hi - k,
{
    let sub = s.subrange(lo, hi);
    if hi == k {
        if lo < hi {
            assert(sub.last() == s[k - 1]);
        }
    } else {
        assert(sub.last() == s[hi - 1]);
        assert(sub.drop_last() =~= s.subrange(lo, hi - 1));
        lemma_trim_end_range(s, lo, k, hi - 1);
    }
}

/// `word_len` of a range counts its leading non-whitespace characters.
pub proof fn lemma_word_len_range(s: Seq<char>, lo: int, k: int, hi: int)
    requires
        0 <= lo <= k <= hi <= s.len(),
        forall|j: int| lo <= j < k ==> !is_ws(#[trigger] s[j]),
        k == hi || is_ws(s[k]),
    ensures
        word_len(s.subrange(lo, hi)) == k - lo,
    decreases k - lo,
{
    let sub = s.subrange(lo, hi);
    if lo == k {
        if lo < hi {
            assert(sub[0] == s[k]);
        }
    } else {
        assert(sub[0] == s[lo]);
        assert(sub.drop_first() =~= s.subrange(lo + 1, hi));
        lemma_word_len_range(s, lo + 1, k, hi);
    }
}

/// Positions without a match before `k` do not change the search.
pub proof fn lemma_find_from_skip(s: Seq<char>, p: Seq<char>, i: int, k: int)
    requires
        0 <= i <= k,
        k + p.len() <= s.len() + 1,
        forall|j: int| i <= j < k ==> !matches_at(s, p, j),
    ensures
        find_from(s, p, i) == find_from(s, p, k),
    decreases k - i,
{
    if i < k {
        lemma_find_from_skip(s, p, i + 1, k);
    }
}

/// `find_from` returns the first match at or after `i`.
pub proof fn lemma_find_from_first(s: Seq<char>, p: Seq<char>, i: int)
    requires
        0 <= i,
    ensures
        find_from(s, p, i) matches Some(k) ==> i <= k && matches_at(s, p, k) && forall|j: int|
            i <= j < k ==> !matches_at(s, p, j),
        find_from(s, p, i) is None ==> forall|j: int| i <= j ==> !matches_at(s, p, j),
    decreases s.len() + 1 - i,
{
    if i + p.len() > s.len() {
    } else if matches_at(s, p, i) {
    } else {
        lemma_find_from_first(s, p, i + 1);
    }
}

/// A one-character pattern matches exactly where that character stands.
pub proof fn lemma_matches_char(s: Seq<char>, c: char, j: int)
    ensures
        matches_at(s, seq![c], j) <==> (0 <= j < s.len() && s[j] == c),
{
    if 0 <= j < s.len() {
        assert(s.subrange(j, j + 1) =~= seq![s[j]]);
        if s.subrange(j, j + 1) == seq![c] {
            assert(seq![s[j]][0] == seq![c][0]);
        }
    }
}

/// The first `c` of `s` is where `find` stops.
pub proof fn lemma_find_char_at(s: Seq<char>, c: char, k: int)
    requires
        0 <= k < s.len(),
        s[k] == c,
        forall|j: int| 0 <= j < k ==> s[j] != c,
    ensures
        find(s, seq![c]) == Some(k),
{
    assert forall|j: int| 0 <= j < k implies !matches_at(s, seq![c], j) by {
        lemma_matches_char(s, c, j);
    }
    lemma_find_from_skip(s, seq![c], 0, k);
    lemma_matches_char(s, c, k);
}

/// Without a `c` in `s`, `find` finds none.
pub proof fn lemma_find_char_none(s: Seq<char>, c: char)
    requires
        forall|j: int| 0 <= j < s.len() ==> s[j] != c,
    ensures
        find(s, seq![c]) is None,
{
    lemma_find_from_first(s, seq![c], 0);
    if let Some(k) = find(s, seq![c]) {
        lemma_matches_char(s, c, k);
    }
}

/// A `c` in `s`: the first one, found by `find`.
pub proof fn lemma_find_char_some(s: Seq<char>, c: char, i: int) -> (k: int)
    requires
        0 <= i < s.len(),
        s[i] == c,
    ensures
        find(s, seq![c]) == Some(k),
        0 <= k <= i,
        s[k] == c,
        forall|j: int| 0 <= j < k ==> s[j] != c,
{
    lemma_find_from_first(s, seq![c], 0);
    lemma_matches_char(s, c, i);
    let k = find(s, seq![c])->0;
    lemma_matches_char(s, c, k);
    assert forall|j: int| 0 <= j < k implies s[j] != c by {
        lemma_matches_char(s, c, j);
    }
    k
}

/// Splitting at `c` after a first piece without `c`.
pub proof fn lemma_split_char_prefix(p: Seq<char>, q: Seq<char>, c: char)
    requires
        forall|j: int| 0 <= j < p.len() ==> p[j] != c,
    ensures
        split_char(p + seq![c] + q, c) == seq![p] + split_char(q, c),
{
    let s = p + seq![c] + q;
    lemma_find_char_at(s, c, p.len() as int);
    assert(s.take(p.len() as int) =~= p);
    assert(s.skip(p.len() as int + 1) =~= q);
}

/// Text without `c` is one piece.
pub proof fn lemma_split_char_none(p: Seq<char>, c: char)
    requires
        forall|j: int| 0 <= j < p.len() ==> p[j] != c,
    ensures
        split_char(p, c) == seq![p],
{
    lemma_find_char_none(p, c);
}

/// The lines of text that ends a line are followed by those of what comes
/// after it.
pub proof fn lemma_lines_append(a: Seq<char>, b: Seq<char>)
    requires
        a.len() == 0 || a.last() == '\n',
    ensures
        lines(a + b) == lines(a) + lines(b),
    decreases a.len(),
{
    if a.len() == 0 {
        assert(a + b =~= b);
        assert(lines(a) + lines(b) =~= lines(b));
    } else {
        let k = lemma_find_char_some(a, '\n', a.len() - 1);
        let s = a + b;
        assert forall|j: int| 0 <= j < k implies s[j] != '\n' by {
            assert(s[j] == a[j]);
        }
        lemma_find_char_at(s, '\n', k);
        let rest = a.skip(k + 1);
        assert(s.take(k) =~= a.take(k));
        assert(s.skip(k + 1) =~= rest + b);
        if rest.len() > 0 {
            assert(rest.last() == a.last());
        }
        lemma_lines_append(rest, b);
        assert(lines(s) =~= seq![strip_cr(a.take(k))] + (lines(rest) + lines(b)));
        assert(lines(a) == seq![strip_cr(a.take(k))] + lines(rest));
        assert(lines(s) =~= lines(a) + lines(b));
    }
}

/// One line ended by `'\n'`, without a `'\n'` or a final `'\r'` in it.
pub proof fn lemma_lines_one(x: Seq<char>)
    requires
        forall|j: int| 0 <= j < x.len() ==> x[j] != '\n',
        x.len() > 0 && x.last() != '\r',
    ensures
        lines(x + seq!['\n']) == seq![x],
{
    let s = x + seq!['\n'];
    lemma_find_char_at(s, '\n', x.len() as int);
    assert(s.take(x.len() as int) =~= x);
    assert(s.skip(x.len() as int + 1) =~= Seq::<char>::empty());
    assert(seq![strip_cr(x)] + lines(Seq::<char>::empty()) =~= seq![x]);
}

// ---------------------------------------------------------------------------
// Executable operations
// ---------------------------------------------------------------------------
/// `char::is_whitespace`.
pub fn is_whitespace(c: char) -> (r: bool)
    ensures
        r == is_ws(c),
{
    c == '\t' || c == '\n' || c == '\u{0B}' || c == '\u{0C}' || c == '\r' || c == ' ' || c
        == '\u{85}' || c == '\u{A0}' || c == '\u{1680}' || ('\u{2000}' <= c && c <= '\u{200A}')
        || c == '\u{2028}' || c == '\u{2029}' || c == '\u{202F}' || c == '\u{205F}' || c
        == '\u{3000}'
}

/// The characters of `s`, one per element.
pub fn chars_of(s: &str) -> (r: Vec<char>)
    ensures
        r@ == s@,
{
    let mut r: Vec<char> = Vec::new();
    for c in it: s.chars()
        invariant
            r@ == it.seq().take(it.index() as int),
            it.seq() == s@,
    {
        r.push(c);
    }
    r
}

/// `s` followed by the characters of `t` (`String::push_str`).
pub fn append_str(s: &mut String, t: &str)
    ensures
        final(s)@ == old(s)@ + t@,
{
    let ghost start = s@;
    for c in it: t.chars()
        invariant
            s@ == start + it.seq().take(it.index() as int),
            it.seq() == t@,
    {
        s.push(c);
        proof {
            assert(start + it.seq().take(it.index() + 1) =~= (start + it.seq().take(
                it.index() as int,
            )).push(c));
        }
    }
    assert(t@.take(t@.len() as int) =~= t@);
}

/// `s` with every occurrence of the non-empty `p` replaced by `r`
/// (`str::replace`).
pub fn replace_text(s: &str, p: &str, r: &str) -> (out: String)
    requires
        p@.len() > 0,
    ensures
        out@ == replace_all(s@, p@, r@),
{
    let cs = chars_of(s);
    let ps = chars_of(p);
    let n = cs.len();
    let mut out = String::new();
    let mut pos: usize = 0;
    assert(cs@.subrange(0, n as int) =~= cs@);
    loop
        invariant
            pos <= n == cs@.len(),
            cs@ == s@,
            ps@ == p@,
            p@.len() > 0,
            out@ + replace_all(cs@.subrange(pos as int, n as int), p@, r@) == replace_all(
                s@,
                p@,
                r@,
            ),
        decreases n - pos,
    {
        let ghost rest = cs@.subrange(pos as int, n as int);
        match find_in(&cs, pos, n, &ps) {
            Some(i) => {
                let piece = string_of(&cs, pos, i);
                proof {
                    assert(rest.take(i - pos) =~= piece@);
                    assert(rest.skip(i - pos + p@.len()) =~= cs@.subrange(i + ps@.len(), n as int));
                    assert(out@ + piece@ + r@ + replace_all(
                        cs@.subrange(i + ps@.len(), n as int),
                        p@,
                        r@,
                    ) =~= out@ + replace_all(rest, p@, r@));
                }
                append_str(&mut out, piece.as_str());
                append_str(&mut out, r);
                pos = i + ps.len();
            },
            None => {
                let piece = string_of(&cs, pos, n);
                append_str(&mut out, piece.as_str());
                return out;
            },
        }
    }
}

/// `s` with ASCII upper-case letters in lower case (`to_ascii_lowercase`).
pub fn ascii_lowercase(s: &str) -> (r: String)
    ensures
        r@ == to_ascii_lower(s@),
{
    let mut r = String::new();
    for c in it: s.chars()
        invariant
            r@ == to_ascii_lower(it.seq().take(it.index() as int)),
            it.seq() == s@,
    {
        let l = if 'A' <= c && c <= 'Z' {
            ((c as u32) + 32) as u8 as char
        } else {
            c
        };
        proof {
            assert(to_ascii_lower(it.seq().take(it.index() + 1)) =~= to_ascii_lower(
                it.seq().take(it.index() as int),
            ).push(lower_char(c)));
        }
        r.push(l);
    }
    assert(s@.take(s@.len() as int) =~= s@);
    r
}

/// Whether `p` occurs in `s`.
pub fn contains_text(s: &str, p: &str) -> (r: bool)
    ensures
        r == contains(s@, p@),
{
    let cs = chars_of(s);
    let ps = chars_of(p);
    assert(cs@.subrange(0, cs@.len() as int) =~= cs@);
    find_in(&cs, 0, cs.len(), &ps).is_some()
}

/// `s` without leading and trailing whitespace (`str::trim`).
pub fn trim_text(s: &str) -> (r: String)
    ensures
        r@ == trim(s@),
{
    let cs = chars_of(s);
    let (a, b) = trim_range(&cs, 0, cs.len());
    assert(cs@.subrange(0, cs@.len() as int) =~= cs@);
    string_of(&cs, a, b)
}

/// Whether two texts are equal.
pub fn same_text(a: &str, b: &str) -> (r: bool)
    ensures
        r == (a@ == b@),
{
    let x = chars_of(a);
    let y = chars_of(b);
    if x.len() != y.len() {
        return false;
    }
    let mut i: usize = 0;
    while i < x.len()
        invariant
            x@ == a@,
            y@ == b@,
            x@.len() == y@.len(),
            i <= x@.len(),
            forall|j: int| 0 <= j < i ==> x@[j] == y@[j],
        decreases x.len() - i,
    {
        if x[i] != y[i] {
            return false;
        }
        i = i + 1;
    }
    assert(x@ =~= y@);
    true
}

/// The string made of `cs[lo..hi]`.
pub fn string_of(cs: &[char], lo: usize, hi: usize) -> (r: String)
    requires
        lo <= hi <= cs@.len(),
    ensures
        r@ == cs@.subrange(lo as int, hi as int),
{
    let mut r = String::new();
    let mut i = lo;
    while i < hi
        invariant
            lo <= i <= hi <= cs@.len(),
            r@ == cs@.subrange(lo as int, i as int),
        decreases hi - i,
    {
        r.push(cs[i]);
        i = i + 1;
        assert(r@ =~= cs@.subrange(lo as int, i as int));
    }
    r
}

/// The range of `cs[lo..hi]` that `trim` keeps.
pub fn trim_range(cs: &[char], lo: usize, hi: usize) -> (r: (usize, usize))
    requires
        lo <= hi <= cs@.len(),
    ensures
        lo <= r.0 <= r.1 <= hi,
        cs@.subrange(r.0 as int, r.1 as int) == trim(cs@.subrange(lo as int, hi as int)),
{
    let mut a = lo;
    while a < hi && is_whitespace(cs[a])
        invariant
            lo <= a <= hi <= cs@.len(),
            forall|j: int| lo <= j < a ==> is_ws(#[trigger] cs@[j]),
        decreases hi - a,
    {
        a = a + 1;
    }
    proof {
        lemma_trim_start_range(cs@, lo as int, a as int, hi as int);
    }
    let mut b = hi;
    while b > a && is_whitespace(cs[b - 1])
        invariant
            a <= b <= hi <= cs@.len(),
            forall|j: int| b <= j < hi ==> is_ws(#[trigger] cs@[j]),
        decreases b - a,
    {
        b = b - 1;
    }
    proof {
        lemma_trim_end_range(cs@, a as int, b as int, hi as int);
        assert(cs@.subrange(a as int, hi as int).subrange(0, (b - a) as int) =~= cs@.subrange(
            a as int,
            b as int,
        ));
    }
    (a, b)
}

/// Whether `p` occurs in `cs` at `i`.
pub fn matches_here(cs: &[char], i: usize, hi: usize, p: &[char]) -> (r: bool)
    requires
        i <= hi <= cs@.len(),
    ensures
        r == matches_at(cs@.subrange(0, hi as int), p@, i as int),
{
    let ghost s = cs@.subrange(0, hi as int);
    if p.len() > hi - i {
        return false;
    }
    let mut k: usize = 0;
    while k < p.len()
        invariant
            i + p@.len() <= hi <= cs@.len(),
            s == cs@.subrange(0, hi as int),
            k <= p@.len(),
            forall|j: int| 0 <= j < k ==> cs@[i + j] == p@[j],
        decreases p.len() - k,
    {
        if cs[i + k] != p[k] {
            assert(s.subrange(i as int, i + p@.len())[k as int] != p@[k as int]);
            return false;
        }
        k = k + 1;
    }
    assert(s.subrange(i as int, i + p@.len()) =~= p@);
    true
}

/// The first position at or after `lo` where `p` occurs in `cs[lo..hi]`,
/// counted from `lo`.
pub fn find_in(cs: &[char], lo: usize, hi: usize, p: &[char]) -> (r: Option<usize>)
    requires
        lo <= hi <= cs@.len(),
    ensures
        r matches Some(i) ==> lo <= i && i + p@.len() <= hi,
        r matches Some(i) ==> find(cs@.subrange(lo as int, hi as int), p@) == Some(i - lo),
        r is None ==> find(cs@.subrange(lo as int, hi as int), p@) is None,
{
    let ghost s = cs@.subrange(lo as int, hi as int);
    if p.len() > hi - lo {
        return None;
    }
    if p.len() == 0 {
        assert(s.subrange(0, 0) =~= p@);
        return Some(lo);
    }
    let last = hi - p.len();
    let mut i = lo;
    while i <= last
        invariant
            lo <= i <= last + 1,
            last + p@.len() == hi,
            p@.len() >= 1,
            hi <= cs@.len(),
            s == cs@.subrange(lo as int, hi as int),
            forall|j: int| 0 <= j < i - lo ==> !matches_at(s, p@, j),
        decreases last + 1 - i,
    {
        let m = matches_here(cs, i, hi, p);
        proof {
            assert(cs@.subrange(0, hi as int).subrange(i as int, i + p@.len()) =~= s.subrange(
                i - lo,
                i - lo + p@.len(),
            ));
        }
        if m {
            proof {
                lemma_find_from_skip(s, p@, 0, i - lo);
            }
            return Some(i);
        }
        i = i + 1;
    }
    proof {
        lemma_find_from_skip(s, p@, 0, i - lo);
    }
    None
}

/// The first whitespace-separated word of `cs[lo..hi]`, as a range; what
/// follows it starts where the word ends.
pub fn next_word_range(cs: &[char], lo: usize, hi: usize) -> (r: Option<(usize, usize)>)
    requires
        lo <= hi <= cs@.len(),
    ensures
        r is None ==> next_word(cs@.subrange(lo as int, hi as int)) is None,
        r matches Some((a, b)) ==> lo <= a <= b <= hi && next_word(
            cs@.subrange(lo as int, hi as int),
        ) == Some((cs@.subrange(a as int, b as int), cs@.subrange(b as int, hi as int))),
{
    let mut a = lo;
    while a < hi && is_whitespace(cs[a])
        invariant
            lo <= a <= hi <= cs@.len(),
            forall|j: int| lo <= j < a ==> is_ws(#[trigger] cs@[j]),
        decreases hi - a,
    {
        a = a + 1;
    }
    proof {
        lemma_trim_start_range(cs@, lo as int, a as int, hi as int);
    }
    if a == hi {
        return None;
    }
    let mut b = a;
    while b < hi && !is_whitespace(cs[b])
        invariant
            a <= b <= hi <= cs@.len(),
            forall|j: int| a <= j < b ==> !is_ws(#[trigger] cs@[j]),
        decreases hi - b,
    {
        b = b + 1;
    }
    proof {
        lemma_word_len_range(cs@, a as int, b as int, hi as int);
        let t = cs@.subrange(a as int, hi as int);
        assert(t.take((b - a) as int) =~= cs@.subrange(a as int, b as int));
        assert(t.skip((b - a) as int) =~= cs@.subrange(b as int, hi as int));
    }
    Some((a, b))
}

/// The second whitespace-separated word of `cs[lo..hi]`, as a range.
pub fn second_word_range(cs: &[char], lo: usize, hi: usize) -> (r: Option<(usize, usize)>)
    requires
        lo <= hi <= cs@.len(),
    ensures
        r is None ==> second_word(cs@.subrange(lo as int, hi as int)) is None,
        r matches Some((a, b)) ==> lo <= a <= b <= hi && second_word(
            cs@.subrange(lo as int, hi as int),
        ) == Some(cs@.subrange(a as int, b as int)),
{
    match next_word_range(cs, lo, hi) {
        None => None,
        Some((_, b)) => next_word_range(cs, b, hi),
    }
}

/// Whether `cs[lo..hi]` starts with `p`.
pub fn starts_with_range(cs: &[char], lo: usize, hi: usize, p: &[char]) -> (r: bool)
    requires
        lo <= hi <= cs@.len(),
    ensures
        r == starts_with(cs@.subrange(lo as int, hi as int), p@),
{
    let ghost s = cs@.subrange(lo as int, hi as int);
    if p.len() > hi - lo {
        return false;
    }
    let m = matches_here(cs, lo, hi, p);
    assert(cs@.subrange(0, hi as int).subrange(lo as int, lo + p@.len()) =~= s.subrange(
        0,
        p@.len() as int,
    ));
    m
}

/// Whether `cs[lo..hi]` ends with `p`.
pub fn ends_with_range(cs: &[char], lo: usize, hi: usize, p: &[char]) -> (r: bool)
    requires
        lo <= hi <= cs@.len(),
    ensures
        r == ends_with(cs@.subrange(lo as int, hi as int), p@),
{
    let ghost s = cs@.subrange(lo as int, hi as int);
    if p.len() > hi - lo {
        return false;
    }
    let m = matches_here(cs, hi - p.len(), hi, p);
    assert(cs@.subrange(0, hi as int).subrange(hi - p@.len(), hi as int) =~= s.subrange(
        s.len() - p@.len(),
        s.len() as int,
    ));
    m
}

} // verus!
