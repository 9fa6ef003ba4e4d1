//! Character-sequence helpers shared by the rest of the library.
//!
//! Strings are handled as sequences of Unicode scalar values (`Seq<char>`),
//! which is what `str`'s view is.

use vstd::prelude::*;

verus! {

// ---------------------------------------------------------------------------
// Specifications
// ---------------------------------------------------------------------------

/// `p` is a prefix of `s`.
pub open spec fn starts_with(s: Seq<char>, p: Seq<char>) -> bool {
    p.len() <= s.len() && s.subrange(0, p.len() as int) == p
}

/// `p` is a suffix of `s`.
pub open spec fn ends_with(s: Seq<char>, p: Seq<char>) -> bool {
    p.len() <= s.len() && s.subrange(s.len() - p.len(), s.len() as int) == p
}

/// `i` is the position of the first occurrence of `c` in `s`.
pub open spec fn is_first_index(s: Seq<char>, c: char, i: int) -> bool {
    &&& 0 <= i < s.len()
    &&& s[i] == c
    &&& forall|j: int| 0 <= j < i ==> s[j] != c
}

/// The position of the first occurrence of `c` in `s`, if any
/// (what `str::find` with a `char` pattern reports, counted in characters).
pub open spec fn first_index(s: Seq<char>, c: char) -> Option<int> {
    if s.contains(c) {
        Some(choose|i: int| is_first_index(s, c, i))
    } else {
        None
    }
}

/// The characters that `char::is_whitespace` accepts: those with the Unicode
/// `White_Space` property.
pub open spec fn is_space(c: char) -> bool {
    let n = c as u32;
    ||| 0x09 <= n <= 0x0d
    ||| n == 0x20
    ||| n == 0x85
    ||| n == 0xa0
    ||| n == 0x1680
    ||| 0x2000 <= n <= 0x200a
    ||| n == 0x2028
    ||| n == 0x2029
    ||| n == 0x202f
    ||| n == 0x205f
    ||| n == 0x3000
}

/// `s` without its leading whitespace.
pub open spec fn trim_start(s: Seq<char>) -> Seq<char>
    decreases s.len(),
{
    if s.len() > 0 && is_space(s[0]) {
        trim_start(s.drop_first())
    } else {
        s
    }
}

/// `s` without its trailing whitespace.
pub open spec fn trim_end(s: Seq<char>) -> Seq<char>
    decreases s.len(),
{
    if s.len() > 0 && is_space(s.last()) {
        trim_end(s.drop_last())
    } else {
        s
    }
}

/// `s` without leading and trailing whitespace (`str::trim`).
pub open spec fn trim(s: Seq<char>) -> Seq<char> {
    trim_end(trim_start(s))
}

/// `s` with every non-overlapping occurrence of `from`, scanned left to right,
/// replaced by `to` (`str::replace`).
pub open spec fn replace_all(s: Seq<char>, from: Seq<char>, to: Seq<char>) -> Seq<char>
    recommends
        from.len() > 0,
    decreases s.len(),
{
    if from.len() == 0 || s.len() < from.len() {
        s
    } else if s.subrange(0, from.len() as int) == from {
        to + replace_all(s.skip(from.len() as int), from, to)
    } else {
        seq![s[0]] + replace_all(s.drop_first(), from, to)
    }
}

/// `c` is one of the two quote characters `"` and `'`.
pub open spec fn is_quote(c: char) -> bool {
    c == '"' || c == '\''
}

/// `s` without its leading quote characters.
pub open spec fn unquote_start(s: Seq<char>) -> Seq<char>
    decreases s.len(),
{
    if s.len() > 0 && is_quote(s[0]) {
        unquote_start(s.drop_first())
    } else {
        s
    }
}

/// `s` without its trailing quote characters.
pub open spec fn unquote_end(s: Seq<char>) -> Seq<char>
    decreases s.len(),
{
    if s.len() > 0 && is_quote(s.last()) {
        unquote_end(s.drop_last())
    } else {
        s
    }
}

/// `s` without leading and trailing `"` and `'`
/// (`str::trim_matches(|c| c == '"' || c == '\'')`).
pub open spec fn unquote(s: Seq<char>) -> Seq<char> {
    unquote_end(unquote_start(s))
}

/// The pieces of `s` between the occurrences of `c` (`str::split` with a
/// `char` pattern).
pub open spec fn split_char(s: Seq<char>, c: char) -> Seq<Seq<char>>
    decreases s.len(),
{
    match first_index(s, c) {
        None => seq![s],
        Some(i) => if 0 <= i < s.len() {
            seq![s.subrange(0, i)] + split_char(s.skip(i + 1), c)
        } else {
            seq![s]
        },
    }
}

/// The lowercase form of a text (`str::to_lowercase`).
pub uninterp spec fn lowercase_of(s: Seq<char>) -> Seq<char>;

/// The uppercase form of a character (`char::to_uppercase`, collected).
pub uninterp spec fn uppercase_of_char(c: char) -> Seq<char>;

/// Every character of `s` is ASCII.
pub open spec fn is_ascii_text(s: Seq<char>) -> bool {
    forall|i: int| 0 <= i < s.len() ==> (#[trigger] s[i] as u32) < 0x80
}

/// The ASCII lowercase of a character: `A`-`Z` become `a`-`z`, every other
/// character is kept.
pub open spec fn ascii_lower_char(c: char) -> char {
    if 0x41 <= (c as u32) <= 0x5a {
        ((c as u32) + 32) as char
    } else {
        c
    }
}

/// The ASCII lowercase of a text, character by character.
pub open spec fn ascii_lowercase(s: Seq<char>) -> Seq<char> {
    s.map_values(|c: char| ascii_lower_char(c))
}

/// The ASCII uppercase of a character: `a`-`z` become `A`-`Z`, every other
/// character is kept.
pub open spec fn ascii_upper_char(c: char) -> char {
    if 0x61 <= (c as u32) <= 0x7a {
        ((c as u32) - 32) as char
    } else {
        c
    }
}

/// The uppercase form of a character, as text: for an ASCII character, its
/// ASCII uppercase; otherwise the named mapping.
pub open spec fn upper_char_text(c: char) -> Seq<char> {
    if (c as u32) < 0x80 {
        seq![ascii_upper_char(c)]
    } else {
        uppercase_of_char(c)
    }
}

/// The lowercase form of a text: for ASCII text, its ASCII lowercase (what
/// `str::to_lowercase` gives there); otherwise the named mapping.
pub open spec fn lower_text(s: Seq<char>) -> Seq<char> {
    if is_ascii_text(s) {
        ascii_lowercase(s)
    } else {
        lowercase_of(s)
    }
}

// ---------------------------------------------------------------------------
// Lemmas
// ---------------------------------------------------------------------------

/// The first index of a character is unique, so `first_index` names it.
pub proof fn lemma_first_index(s: Seq<char>, c: char, i: int)
    requires
        is_first_index(s, c, i),
    ensures
        first_index(s, c) == Some(i),
{
    assert(s.contains(c));
    let k = choose|k: int| is_first_index(s, c, k);
    assert(is_first_index(s, c, k));
    if k < i {
        assert(s[k] != c);
    } else if i < k {
        assert(s[i] != c);
    }
}

proof fn lemma_first_below(s: Seq<char>, c: char, k: int)
    requires
        0 <= k < s.len(),
        s[k] == c,
    ensures
        first_index(s, c) matches Some(i) && is_first_index(s, c, i),
    decreases k,
{
    if exists|m: int| 0 <= m < k && s[m] == c {
        let m = choose|m: int| 0 <= m < k && s[m] == c;
        lemma_first_below(s, c, m);
    } else {
        lemma_first_index(s, c, k);
    }
}

/// `first_index` reports a first index whenever there is one.
pub proof fn lemma_first_index_some(s: Seq<char>, c: char)
    requires
        s.contains(c),
    ensures
        first_index(s, c) matches Some(i) && is_first_index(s, c, i),
{
    let j = choose|j: int| 0 <= j < s.len() && s[j] == c;
    lemma_first_below(s, c, j);
}

/// No occurrence means no first index.
pub proof fn lemma_no_index(s: Seq<char>, c: char)
    requires
        forall|j: int| 0 <= j < s.len() ==> s[j] != c,
    ensures
        first_index(s, c).is_none(),
{
    if s.contains(c) {
        let j = choose|j: int| 0 <= j < s.len() && s[j] == c;
        assert(s[j] != c);
    }
}

proof fn lemma_trim_start_step(s: Seq<char>, i: int)
    requires
        0 <= i < s.len(),
        is_space(s[i]),
    ensures
        trim_start(s.subrange(i, s.len() as int)) == trim_start(s.subrange(i + 1, s.len() as int)),
{
    let t = s.subrange(i, s.len() as int);
    assert(t.drop_first() =~= s.subrange(i + 1, s.len() as int));
}

proof fn lemma_trim_end_step(s: Seq<char>, a: int, b: int)
    requires
        0 <= a < b <= s.len(),
        is_space(s[b - 1]),
    ensures
        trim_end(s.subrange(a, b)) == trim_end(s.subrange(a, b - 1)),
{
    let t = s.subrange(a, b);
    assert(t.drop_last() =~= s.subrange(a, b - 1));
}

/// `trim_start(s)` is a suffix of `s`.
proof fn lemma_trim_start_skip(s: Seq<char>) -> (i: int)
    ensures
        0 <= i <= s.len(),
        trim_start(s) == s.skip(i),
    decreases s.len(),
{
    if s.len() > 0 && is_space(s[0]) {
        let j = lemma_trim_start_skip(s.drop_first());
        assert(s.drop_first().skip(j) =~= s.skip(j + 1));
        j + 1
    } else {
        assert(s.skip(0) =~= s);
        0
    }
}

/// `trim_end(s)` is a prefix of `s`.
proof fn lemma_trim_end_take(s: Seq<char>) -> (j: int)
    ensures
        0 <= j <= s.len(),
        trim_end(s) == s.take(j),
    decreases s.len(),
{
    if s.len() > 0 && is_space(s.last()) {
        let j = lemma_trim_end_take(s.drop_last());
        assert(s.drop_last().take(j) =~= s.take(j));
        j
    } else {
        assert(s.take(s.len() as int) =~= s);
        s.len() as int
    }
}

/// `trim(s)` is a piece of `s`.
pub proof fn lemma_trim_subrange(s: Seq<char>) -> (ij: (int, int))
    ensures
        0 <= ij.0 <= ij.1 <= s.len(),
        trim(s) == s.subrange(ij.0, ij.1),
{
    let i = lemma_trim_start_skip(s);
    let j = lemma_trim_end_take(s.skip(i));
    assert(s.skip(i).take(j) =~= s.subrange(i, i + j));
    (i, i + j)
}

proof fn lemma_unquote_start_skip(s: Seq<char>) -> (i: int)
    ensures
        0 <= i <= s.len(),
        unquote_start(s) == s.skip(i),
    decreases s.len(),
{
    if s.len() > 0 && is_quote(s[0]) {
        let j = lemma_unquote_start_skip(s.drop_first());
        assert(s.drop_first().skip(j) =~= s.skip(j + 1));
        j + 1
    } else {
        assert(s.skip(0) =~= s);
        0
    }
}

proof fn lemma_unquote_end_take(s: Seq<char>) -> (j: int)
    ensures
        0 <= j <= s.len(),
        unquote_end(s) == s.take(j),
    decreases s.len(),
{
    if s.len() > 0 && is_quote(s.last()) {
        let j = lemma_unquote_end_take(s.drop_last());
        assert(s.drop_last().take(j) =~= s.take(j));
        j
    } else {
        assert(s.take(s.len() as int) =~= s);
        s.len() as int
    }
}

/// `unquote(s)` is a piece of `s`.
pub proof fn lemma_unquote_subrange(s: Seq<char>) -> (ij: (int, int))
    ensures
        0 <= ij.0 <= ij.1 <= s.len(),
        unquote(s) == s.subrange(ij.0, ij.1),
{
    let i = lemma_unquote_start_skip(s);
    let j = lemma_unquote_end_take(s.skip(i));
    assert(s.skip(i).take(j) =~= s.subrange(i, i + j));
    (i, i + j)
}

/// The first character of `trim_start(s)`, if any, is not whitespace.
proof fn lemma_trim_start_first(s: Seq<char>)
    ensures
        trim_start(s).len() > 0 ==> !is_space(trim_start(s)[0]),
    decreases s.len(),
{
    if s.len() > 0 && is_space(s[0]) {
        lemma_trim_start_first(s.drop_first());
    }
}

/// The last character of `trim_end(s)`, if any, is not whitespace, and a
/// first character that is not whitespace stays first.
proof fn lemma_trim_end_ends(s: Seq<char>)
    ensures
        trim_end(s).len() > 0 ==> !is_space(trim_end(s).last()),
        s.len() > 0 && !is_space(s[0]) ==> trim_end(s).len() > 0 && trim_end(s)[0] == s[0],
    decreases s.len(),
{
    if s.len() > 0 && is_space(s.last()) {
        lemma_trim_end_ends(s.drop_last());
    }
}

/// A trimmed text starts and ends with a character that is not whitespace.
pub proof fn lemma_trim_ends(s: Seq<char>)
    ensures
        trim(s).len() > 0 ==> !is_space(trim(s)[0]) && !is_space(trim(s).last()),
{
    lemma_trim_start_first(s);
    lemma_trim_end_ends(trim_start(s));
}

/// A text that neither starts nor ends with whitespace is its own trim.
pub proof fn lemma_trim_unchanged(s: Seq<char>)
    requires
        s.len() > 0 ==> !is_space(s[0]) && !is_space(s.last()),
    ensures
        trim(s) == s,
{
}

/// The ASCII lowercase of a text keeps its length, keeps it ASCII, keeps
/// whitespace where it is, keeps every character that is not an uppercase
/// letter, and changes nothing when applied again.
pub proof fn lemma_ascii_lowercase(s: Seq<char>)
    requires
        is_ascii_text(s),
    ensures
        ascii_lowercase(s).len() == s.len(),
        is_ascii_text(ascii_lowercase(s)),
        forall|i: int|
            0 <= i < s.len() ==> is_space(#[trigger] ascii_lowercase(s)[i]) == is_space(s[i]),
        forall|i: int|
            0 <= i < s.len() && !(0x41 <= (s[i] as u32) <= 0x5a) ==> #[trigger] ascii_lowercase(
                s,
            )[i] == s[i],
        ascii_lowercase(ascii_lowercase(s)) == ascii_lowercase(s),
{
    let l = ascii_lowercase(s);
    assert forall|i: int| 0 <= i < s.len() implies (#[trigger] l[i] as u32) < 0x80 && is_space(l[i])
        == is_space(s[i]) && ascii_lower_char(l[i]) == l[i] by {
        assert(l[i] == ascii_lower_char(s[i]));
        assert((s[i] as u32) < 0x80);
    }
    assert(ascii_lowercase(l) =~= l);
}

// ---------------------------------------------------------------------------
// Executable helpers
// ---------------------------------------------------------------------------

/// The characters of `s`, in order.
pub fn chars_of(s: &str) -> (r: Vec<char>)
    ensures
        r@ == s@,
{
    let mut v: Vec<char> = Vec::new();
    for c in it: s.chars()
        invariant
            v@ == it.seq().take(it.index() as int),
    {
        v.push(c);
    }
    v
}

/// Builds a `String` by collecting the characters (`String`'s
/// `FromIterator<char>`). Claimed: the text holds exactly these characters,
/// in order.
#[verifier::external_body]
pub(crate) fn string_from_chars(v: &Vec<char>) -> (r: String)
    ensures
        r@ == v@,
{
    v.iter().collect()
}

/// The characters of `v` from position `a` up to (not including) `b`.
pub fn sub_chars(v: &Vec<char>, a: usize, b: usize) -> (r: Vec<char>)
    requires
        a <= b <= v.len(),
    ensures
        r@ == v@.subrange(a as int, b as int),
{
    let mut r: Vec<char> = Vec::new();
    let mut i = a;
    while i < b
        invariant
            a <= i <= b <= v.len(),
            r@ == v@.subrange(a as int, i as int),
        decreases b - i,
    {
        r.push(v[i]);
        i += 1;
    }
    r
}

/// Whether `a` and `b` hold the same characters.
pub fn chars_eq(a: &Vec<char>, b: &Vec<char>) -> (r: bool)
    ensures
        r == (a@ == b@),
{
    if a.len() != b.len() {
        return false;
    }
    let mut i: usize = 0;
    while i < a.len()
        invariant
            a.len() == b.len(),
            i <= a.len(),
            forall|j: int| 0 <= j < i ==> a@[j] == b@[j],
        decreases a.len() - i,
    {
        if a[i] != b[i] {
            return false;
        }
        i += 1;
    }
    assert(a@ =~= b@);
    true
}

/// Whether `p` occurs in `s` starting at position `at`.
pub fn occurs_at(s: &Vec<char>, p: &Vec<char>, at: usize) -> (r: bool)
    requires
        at <= s.len(),
    ensures
        r == (at + p.len() <= s.len() && s@.subrange(at as int, at + p.len()) == p@),
{
    if p.len() > s.len() - at {
        return false;
    }
    let mut i: usize = 0;
    while i < p.len()
        invariant
            at + p.len() <= s.len(),
            i <= p.len(),
            forall|j: int| 0 <= j < i ==> s@[at + j] == p@[j],
        decreases p.len() - i,
    {
        if s[at + i] != p[i] {
            return false;
        }
        i += 1;
    }
    assert(s@.subrange(at as int, at + p.len()) =~= p@);
    true
}

/// `str::starts_with` on character vectors.
pub fn has_prefix(s: &Vec<char>, p: &Vec<char>) -> (r: bool)
    ensures
        r == starts_with(s@, p@),
{
    occurs_at(s, p, 0)
}

/// `str::ends_with` on character vectors.
pub fn has_suffix(s: &Vec<char>, p: &Vec<char>) -> (r: bool)
    ensures
        r == ends_with(s@, p@),
{
    if p.len() > s.len() {
        return false;
    }
    occurs_at(s, p, s.len() - p.len())
}

/// Whether `c` occurs in `s`.
pub fn contains_char(s: &Vec<char>, c: char) -> (r: bool)
    ensures
        r == s@.contains(c),
{
    match find_char(s, c) {
        Some(i) => {
            assert(s@[i as int] == c);
            true
        },
        None => false,
    }
}

/// The position of the first `c` in `s` (`str::find`, counted in characters).
pub fn find_char(s: &Vec<char>, c: char) -> (r: Option<usize>)
    ensures
        match r {
            Some(i) => first_index(s@, c) == Some(i as int) && is_first_index(s@, c, i as int),
            None => first_index(s@, c).is_none() && !s@.contains(c),
        },
{
    let mut i: usize = 0;
    while i < s.len()
        invariant
            i <= s.len(),
            forall|j: int| 0 <= j < i ==> s@[j] != c,
        decreases s.len() - i,
    {
        if s[i] == c {
            proof {
                lemma_first_index(s@, c, i as int);
            }
            return Some(i);
        }
        i += 1;
    }
    proof {
        lemma_no_index(s@, c);
    }
    None
}

/// `char::is_whitespace`.
pub fn is_space_char(c: char) -> (r: bool)
    ensures
        r == is_space(c),
{
    let n = c as u32;
    (0x09 <= n && n <= 0x0d) || n == 0x20 || n == 0x85 || n == 0xa0 || n == 0x1680 || (0x2000
        <= n && n <= 0x200a) || n == 0x2028 || n == 0x2029 || n == 0x202f || n == 0x205f || n
        == 0x3000
}

proof fn lemma_unquote_start_step(s: Seq<char>, i: int)
    requires
        0 <= i < s.len(),
        is_quote(s[i]),
    ensures
        unquote_start(s.subrange(i, s.len() as int)) == unquote_start(
            s.subrange(i + 1, s.len() as int),
        ),
{
    let t = s.subrange(i, s.len() as int);
    assert(t.drop_first() =~= s.subrange(i + 1, s.len() as int));
}

proof fn lemma_unquote_end_step(s: Seq<char>, a: int, b: int)
    requires
        0 <= a < b <= s.len(),
        is_quote(s[b - 1]),
    ensures
        unquote_end(s.subrange(a, b)) == unquote_end(s.subrange(a, b - 1)),
{
    let t = s.subrange(a, b);
    assert(t.drop_last() =~= s.subrange(a, b - 1));
}

/// `str::trim_matches(|c| c == '"' || c == '\'')`, on character vectors.
pub fn unquoted(s: &Vec<char>) -> (r: Vec<char>)
    ensures
        r@ == unquote(s@),
{
    let n = s.len();
    let mut a: usize = 0;
    assert(s@.subrange(0, n as int) =~= s@);
    while a < n && (s[a] == '"' || s[a] == '\'')
        invariant
            a <= n == s.len(),
            unquote_start(s@) == unquote_start(s@.subrange(a as int, n as int)),
        decreases n - a,
    {
        proof {
            lemma_unquote_start_step(s@, a as int);
        }
        a += 1;
    }
    assert(unquote_start(s@.subrange(a as int, n as int)) == s@.subrange(a as int, n as int));
    let mut b: usize = n;
    while b > a && (s[b - 1] == '"' || s[b - 1] == '\'')
        invariant
            a <= b <= n == s.len(),
            unquote(s@) == unquote_end(s@.subrange(a as int, b as int)),
        decreases b,
    {
        proof {
            lemma_unquote_end_step(s@, a as int, b as int);
        }
        b -= 1;
    }
    sub_chars(s, a, b)
}

/// `str::split` with a `char` pattern, on character vectors.
pub fn split_on(s: &Vec<char>, c: char) -> (r: Vec<Vec<char>>)
    ensures
        r@.map_values(|p: Vec<char>| p@) == split_char(s@, c),
{
    let n = s.len();
    let mut parts: Vec<Vec<char>> = Vec::new();
    let mut start: usize = 0;
    assert(s@.skip(0) =~= s@);
    loop
        invariant
            n == s.len(),
            start <= n,
            parts@.map_values(|p: Vec<char>| p@) + split_char(s@.skip(start as int), c)
                == split_char(s@, c),
        decreases n - start,
    {
        let ghost rest = s@.skip(start as int);
        let mut j = start;
        while j < n && s[j] != c
            invariant
                start <= j <= n == s.len(),
                forall|m: int| start <= m < j ==> s@[m] != c,
            decreases n - j,
        {
            j += 1;
        }
        let piece = sub_chars(s, start, j);
        let ghost before = parts@.map_values(|p: Vec<char>| p@);
        parts.push(piece);
        assert(parts@.map_values(|p: Vec<char>| p@) =~= before.push(piece@));
        if j == n {
            proof {
                assert forall|m: int| 0 <= m < rest.len() implies rest[m] != c by {
                    assert(rest[m] == s@[start + m]);
                }
                lemma_no_index(rest, c);
                assert(piece@ =~= rest);
                assert(split_char(rest, c) == seq![rest]);
                assert(before.push(piece@) =~= before + seq![rest]);
            }
            return parts;
        }
        proof {
            assert(is_first_index(rest, c, j - start));
            lemma_first_index(rest, c, j - start);
            assert(rest.subrange(0, j - start) =~= piece@);
            assert(rest.skip(j - start + 1) =~= s@.skip(j + 1));
            assert(split_char(rest, c) == seq![piece@] + split_char(s@.skip(j + 1), c));
            assert(before + split_char(rest, c) =~= before.push(piece@) + split_char(
                s@.skip(j + 1),
                c,
            ));
        }
        start = j + 1;
    }
}

/// Calls `str::to_lowercase`. Claimed: the result is the named lowercase
/// mapping of the text, which depends on the text alone; on ASCII text it is
/// the ASCII lowercase (the Unicode lowercase of `A`-`Z` is `a`-`z`, and the
/// other ASCII characters have none).
#[verifier::external_body]
pub(crate) fn to_lower(s: &str) -> (r: String)
    ensures
        r@ == lowercase_of(s@),
        is_ascii_text(s@) ==> r@ == ascii_lowercase(s@),
{
    s.to_lowercase()
}

/// Calls `char::to_uppercase` and collects the characters it yields into a
/// `String`. Claimed: the result is the named uppercase mapping of the
/// character, which depends on the character alone; for an ASCII character
/// it is that one character in ASCII uppercase (the uppercase of `a`-`z` is
/// `A`-`Z`, and a character without an uppercase mapping yields itself).
#[verifier::external_body]
pub(crate) fn char_to_upper(c: char) -> (r: String)
    ensures
        r@ == uppercase_of_char(c),
        (c as u32) < 0x80 ==> r@ == seq![ascii_upper_char(c)],
{
    c.to_uppercase().collect()
}

/// The bounds `(a, b)` of `trim(s)` inside `s`.
pub fn trim_bounds(s: &Vec<char>) -> (r: (usize, usize))
    ensures
        r.0 <= r.1 <= s.len(),
        s@.subrange(r.0 as int, r.1 as int) == trim(s@),
{
    let n = s.len();
    let mut a: usize = 0;
    assert(s@.subrange(0, n as int) =~= s@);
    while a < n && is_space_char(s[a])
        invariant
            a <= n == s.len(),
            trim_start(s@) == trim_start(s@.subrange(a as int, n as int)),
        decreases n - a,
    {
        proof {
            lemma_trim_start_step(s@, a as int);
        }
        a += 1;
    }
    assert(trim_start(s@.subrange(a as int, n as int)) == s@.subrange(a as int, n as int));
    let mut b: usize = n;
    while b > a && is_space_char(s[b - 1])
        invariant
            a <= b <= n == s.len(),
            trim(s@) == trim_end(s@.subrange(a as int, b as int)),
        decreases b,
    {
        proof {
            lemma_trim_end_step(s@, a as int, b as int);
        }
        b -= 1;
    }
    (a, b)
}

/// `str::trim`, on character vectors.
pub fn trimmed(s: &Vec<char>) -> (r: Vec<char>)
    ensures
        r@ == trim(s@),
{
    let (a, b) = trim_bounds(s);
    sub_chars(s, a, b)
}

/// `str::replace`: every non-overlapping occurrence of `from`, scanned left to
/// right, replaced by `to`.
pub fn replace_chars(s: &Vec<char>, from: &Vec<char>, to: &Vec<char>) -> (r: Vec<char>)
    requires
        from.len() > 0,
    ensures
        r@ == replace_all(s@, from@, to@),
{
    let mut out: Vec<char> = Vec::new();
    let mut i: usize = 0;
    let n = s.len();
    assert(s@.skip(0) =~= s@);
    while i < n
        invariant
            n == s.len(),
            i <= n,
            from.len() > 0,
            out@ + replace_all(s@.skip(i as int), from@, to@) == replace_all(s@, from@, to@),
        decreases n - i,
    {
        let ghost rest = s@.skip(i as int);
        if occurs_at(s, from, i) {
            assert(rest.subrange(0, from.len() as int) =~= s@.subrange(i as int, i + from.len()));
            assert(rest.skip(from.len() as int) =~= s@.skip(i + from.len()));
            let mut k: usize = 0;
            let ghost before = out@;
            while k < to.len()
                invariant
                    k <= to.len(),
                    out@ == before + to@.subrange(0, k as int),
                decreases to.len() - k,
            {
                out.push(to[k]);
                k += 1;
            }
            assert(to@.subrange(0, to.len() as int) =~= to@);
            assert(out@ + replace_all(s@.skip(i + from.len()), from@, to@) =~= before + (to@
                + replace_all(rest.skip(from.len() as int), from@, to@)));
            i += from.len();
        } else {
            proof {
                if rest.len() >= from.len() {
                    assert(rest.subrange(0, from.len() as int) =~= s@.subrange(
                        i as int,
                        i + from.len(),
                    ));
                }
            }
            assert(rest.drop_first() =~= s@.skip(i + 1));
            let ghost before = out@;
            out.push(s[i]);
            assert(out@ + replace_all(s@.skip(i + 1), from@, to@) =~= before + (seq![rest[0]]
                + replace_all(rest.drop_first(), from@, to@)));
            i += 1;
        }
    }
    assert(s@.skip(n as int) =~= Seq::<char>::empty());
    assert(out@ + Seq::<char>::empty() =~= out@);
    out
}

} // verus!
