//! System (automated sender) e-mail detection.
//!
//! A system e-mail domain pattern is either an exact text (`mailchimp.com`)
//! or a text with one `*` wildcard (`*.greenhouse.io`, `noreply.*`,
//! `noreply*`, `a*b`). An address is a system address when some pattern
//! matches its domain part or its local part.

use vstd::prelude::*;
use crate::text::{
    chars_eq, chars_of, contains_char, ends_with, find_char, first_index, has_prefix, has_suffix,
    replace_all, replace_chars, starts_with, string_from_chars, sub_chars,
};

verus! {

/// A stored system e-mail domain pattern.
#[derive(Debug, Clone, PartialEq, Eq)]
pub struct SystemEmailDomain {
    pub id: String,
    pub domain_pattern: String,
    pub name: Option<String>,
}

/// `p` without one trailing `.`, if it has one (`str::strip_suffix('.')`).
pub open spec fn strip_dot(p: Seq<char>) -> Seq<char> {
    if p.len() > 0 && p.last() == '.' {
        p.drop_last()
    } else {
        p
    }
}

/// Whether `pattern` matches `domain`.
///
/// - Equal texts always match.
/// - A pattern with exactly one `*` splits into `prefix*suffix`:
///   - `*suffix`: `domain` ends with `suffix`; when `suffix` starts with `.`,
///     `domain` may also equal `suffix` without that dot;
///   - `prefix*` and `prefix*.`: `domain` starts with `prefix` (one trailing
///     `.` of `prefix` removed);
///   - `prefix*suffix`: `domain` starts with `prefix` and ends with `suffix`.
/// - Anything else does not match.
pub open spec fn pattern_matches(pattern: Seq<char>, domain: Seq<char>) -> bool {
    if pattern == domain {
        true
    } else {
        match first_index(pattern, '*') {
            None => false,
            Some(i) => {
                let prefix = pattern.subrange(0, i);
                let suffix = pattern.skip(i + 1);
                if suffix.contains('*') {
                    false
                } else if prefix.len() == 0 {
                    if suffix.len() > 0 && suffix[0] == '.' {
                        ends_with(domain, suffix) || domain == suffix.drop_first()
                    } else {
                        ends_with(domain, suffix)
                    }
                } else if suffix.len() == 0 || suffix == seq!['.'] {
                    starts_with(domain, strip_dot(prefix))
                } else {
                    starts_with(domain, prefix) && ends_with(domain, suffix)
                }
            },
        }
    }
}

/// `%40` as characters.
pub open spec fn pct_at() -> Seq<char> {
    seq!['%', '4', '0']
}

/// `%2E` as characters.
pub open spec fn pct_dot() -> Seq<char> {
    seq!['%', '2', 'E']
}

/// The address with `%40` turned into `@`, then `%2E` turned into `.`.
pub open spec fn decode_address(email: Seq<char>) -> Seq<char> {
    replace_all(replace_all(email, pct_at(), seq!['@']), pct_dot(), seq!['.'])
}

/// The local part and the domain of the decoded address, split at its first
/// `@`; `None` when it has no `@`.
pub open spec fn address_parts(email: Seq<char>) -> Option<(Seq<char>, Seq<char>)> {
    let d = decode_address(email);
    match first_index(d, '@') {
        Some(i) => Some((d.subrange(0, i), d.skip(i + 1))),
        None => None,
    }
}

/// Whether some pattern of `patterns` matches the domain or the local part
/// of the (decoded) address.
pub open spec fn is_system_address(patterns: Seq<Seq<char>>, email: Seq<char>) -> bool {
    match address_parts(email) {
        None => false,
        Some(parts) => exists|k: int|
            0 <= k < patterns.len() && (pattern_matches(patterns[k], parts.1) || pattern_matches(
                patterns[k],
                parts.0,
            )),
    }
}

/// Every text matches itself as a pattern.
pub proof fn lemma_pattern_matches_itself(p: Seq<char>)
    ensures
        pattern_matches(p, p),
{
}

/// A pattern without `*` matches exactly the text equal to it.
pub proof fn lemma_exact_pattern(p: Seq<char>, d: Seq<char>)
    requires
        !p.contains('*'),
    ensures
        pattern_matches(p, d) <==> p == d,
{
    crate::text::lemma_no_index(p, '*');
}

/// A subdomain pattern `*.<suffix>` (with no other `*`) matches the domain
/// `<suffix>` itself and exactly the domains that end with `.<suffix>`.
pub proof fn lemma_subdomain_pattern(suffix: Seq<char>, d: Seq<char>)
    requires
        !suffix.contains('*'),
    ensures
        pattern_matches(seq!['*', '.'] + suffix, d) <==> (d == suffix || ends_with(
            d,
            seq!['.'] + suffix,
        )),
{
    let p = seq!['*', '.'] + suffix;
    crate::text::lemma_first_index(p, '*', 0);
    assert(p.subrange(0, 0) =~= Seq::<char>::empty());
    assert(p.skip(1) =~= seq!['.'] + suffix);
    assert((seq!['.'] + suffix).drop_first() =~= suffix);
    if p == d {
        assert(d.subrange(d.len() - (seq!['.'] + suffix).len(), d.len() as int) =~= seq!['.']
            + suffix);
    }
}

/// A prefix pattern `<prefix>.*` (with no other `*`) matches exactly the
/// texts that start with `<prefix>`, and itself.
pub proof fn lemma_prefix_dot_pattern(prefix: Seq<char>, d: Seq<char>)
    requires
        !prefix.contains('*'),
        prefix.len() > 0,
    ensures
        pattern_matches(prefix + seq!['.', '*'], d) <==> (d == prefix + seq!['.', '*']
            || starts_with(d, prefix)),
{
    let p = prefix + seq!['.', '*'];
    let n: int = prefix.len() as int;
    assert forall|j: int| 0 <= j < n + 1 implies p[j] != '*' by {
        if j < n {
            assert(p[j] == prefix[j]);
            assert(prefix.contains(prefix[j]));
        }
    }
    crate::text::lemma_first_index(p, '*', n + 1);
    assert(p.subrange(0, n + 1) =~= prefix + seq!['.']);
    assert(p.skip(n + 2) =~= Seq::<char>::empty());
    assert(strip_dot(prefix + seq!['.']) =~= prefix);
}

/// An address whose decoded form has no `@` is never a system address.
pub proof fn lemma_no_at_not_system(patterns: Seq<Seq<char>>, email: Seq<char>)
    requires
        !decode_address(email).contains('@'),
    ensures
        !is_system_address(patterns, email),
{
    crate::text::lemma_no_index(decode_address(email), '@');
}

proof fn lemma_replace_absent(s: Seq<char>, from: Seq<char>, to: Seq<char>)
    requires
        from.len() > 0,
        !s.contains(from[0]),
    ensures
        replace_all(s, from, to) == s,
    decreases s.len(),
{
    if s.len() >= from.len() {
        assert(s.subrange(0, from.len() as int)[0] == s[0]);
        assert(s[0] != from[0]);
        assert(!s.drop_first().contains(from[0])) by {
            if s.drop_first().contains(from[0]) {
                let j = choose|j: int| 0 <= j < s.drop_first().len() && s.drop_first()[j] == from[0];
                assert(s[j + 1] == from[0]);
            }
        }
        lemma_replace_absent(s.drop_first(), from, to);
        assert(seq![s[0]] + s.drop_first() =~= s);
    }
}

/// An address without `%` is read as it is written.
pub proof fn lemma_plain_address_unchanged(email: Seq<char>)
    requires
        !email.contains('%'),
    ensures
        decode_address(email) == email,
{
    lemma_replace_absent(email, pct_at(), seq!['@']);
    lemma_replace_absent(email, pct_dot(), seq!['.']);
}

/// Adding a pattern never makes a system address stop being one.
pub proof fn lemma_more_patterns_keep_system(
    patterns: Seq<Seq<char>>,
    pattern: Seq<char>,
    email: Seq<char>,
)
    requires
        is_system_address(patterns, email),
    ensures
        is_system_address(patterns.push(pattern), email),
{
    let parts = address_parts(email)->0;
    let k = choose|k: int|
        0 <= k < patterns.len() && (pattern_matches(patterns[k], parts.1) || pattern_matches(
            patterns[k],
            parts.0,
        ));
    assert(patterns.push(pattern)[k] == patterns[k]);
}

fn pattern_matches_chars(pattern: &Vec<char>, domain: &Vec<char>) -> (r: bool)
    ensures
        r == pattern_matches(pattern@, domain@),
{
    if chars_eq(pattern, domain) {
        return true;
    }
    match find_char(pattern, '*') {
        None => false,
        Some(i) => {
            let n = pattern.len();
            assert(i < n);
            let prefix = sub_chars(pattern, 0, i);
            let suffix = sub_chars(pattern, i + 1, n);
            assert(suffix@ =~= pattern@.skip(i + 1));
            if contains_char(&suffix, '*') {
                false
            } else if prefix.len() == 0 {
                if suffix.len() > 0 && suffix[0] == '.' {
                    let rest = sub_chars(&suffix, 1, suffix.len());
                    assert(rest@ =~= suffix@.drop_first());
                    has_suffix(domain, &suffix) || chars_eq(domain, &rest)
                } else {
                    has_suffix(domain, &suffix)
                }
            } else if suffix.len() == 0 || (suffix.len() == 1 && suffix[0] == '.') {
                proof {
                    if suffix.len() == 1 && suffix[0] == '.' {
                        assert(suffix@ =~= seq!['.']);
                    }
                    if suffix@ == seq!['.'] {
                        assert(suffix@.len() == 1 && suffix@[0] == '.');
                    }
                }
                let clean = if prefix[prefix.len() - 1] == '.' {
                    let c = sub_chars(&prefix, 0, prefix.len() - 1);
                    assert(c@ =~= prefix@.drop_last());
                    c
                } else {
                    prefix
                };
                has_prefix(domain, &clean)
            } else {
                proof {
                    if suffix@ == seq!['.'] {
                        assert(suffix@.len() == 1 && suffix@[0] == '.');
                    }
                }
                has_prefix(domain, &prefix) && has_suffix(domain, &suffix)
            }
        },
    }
}

/// Whether a domain (or local part) matches a system e-mail pattern that may
/// hold a `*` wildcard.
pub fn matches_pattern(pattern: &str, domain: &str) -> (r: bool)
    ensures
        r == pattern_matches(pattern@, domain@),
{
    let p = chars_of(pattern);
    let d = chars_of(domain);
    pattern_matches_chars(&p, &d)
}

/// The address with `%40` decoded to `@` and then `%2E` decoded to `.`.
pub fn decode_email_address(email: &str) -> (r: String)
    ensures
        r@ == decode_address(email@),
{
    let e = chars_of(email);
    let at_from = vec!['%', '4', '0'];
    let at_to = vec!['@'];
    let dot_from = vec!['%', '2', 'E'];
    let dot_to = vec!['.'];
    assert(at_from@ =~= pct_at());
    assert(dot_from@ =~= pct_dot());
    assert(at_to@ =~= seq!['@']);
    assert(dot_to@ =~= seq!['.']);
    let once = replace_chars(&e, &at_from, &at_to);
    let twice = replace_chars(&once, &dot_from, &dot_to);
    string_from_chars(&twice)
}

fn address_parts_chars(email: &str) -> (r: Option<(Vec<char>, Vec<char>)>)
    ensures
        match r {
            Some(p) => address_parts(email@) == Some((p.0@, p.1@)),
            None => address_parts(email@).is_none(),
        },
{
    let e = chars_of(email);
    let at_from = vec!['%', '4', '0'];
    let at_to = vec!['@'];
    let dot_from = vec!['%', '2', 'E'];
    let dot_to = vec!['.'];
    assert(at_from@ =~= pct_at());
    assert(dot_from@ =~= pct_dot());
    assert(at_to@ =~= seq!['@']);
    assert(dot_to@ =~= seq!['.']);
    let once = replace_chars(&e, &at_from, &at_to);
    let d = replace_chars(&once, &dot_from, &dot_to);
    match find_char(&d, '@') {
        Some(i) => {
            let n = d.len();
            assert(i < n);
            let local = sub_chars(&d, 0, i);
            let dom = sub_chars(&d, i + 1, n);
            assert(dom@ =~= d@.skip(i + 1));
            Some((local, dom))
        },
        None => None,
    }
}

/// The local part and the domain of a (percent-decoded) address, split at its
/// first `@`; `None` when it has no `@`.
pub fn split_email_address(email: &str) -> (r: Option<(String, String)>)
    ensures
        match r {
            Some(p) => address_parts(email@) == Some((p.0@, p.1@)),
            None => address_parts(email@).is_none(),
        },
{
    match address_parts_chars(email) {
        Some((l, d)) => Some((string_from_chars(&l), string_from_chars(&d))),
        None => None,
    }
}

/// Whether an address is a system e-mail address for the given patterns:
/// after decoding `%40` and `%2E`, it has an `@`, and some pattern matches its
/// domain or its local part.
pub fn matches_system_patterns(patterns: &Vec<String>, email: &str) -> (r: bool)
    ensures
        r == is_system_address(patterns@.map_values(|p: String| p@), email@),
{
    let ghost pats = patterns@.map_values(|p: String| p@);
    match address_parts_chars(email) {
        None => false,
        Some((local, dom)) => {
            let mut k: usize = 0;
            while k < patterns.len()
                invariant
                    k <= patterns.len(),
                    pats == patterns@.map_values(|p: String| p@),
                    address_parts(email@) == Some((local@, dom@)),
                    forall|j: int|
                        0 <= j < k ==> !(pattern_matches(pats[j], dom@) || pattern_matches(
                            pats[j],
                            local@,
                        )),
                decreases patterns.len() - k,
            {
                let p = chars_of(patterns[k].as_str());
                assert(pats[k as int] == p@);
                if pattern_matches_chars(&p, &dom) {
                    assert(pattern_matches(pats[k as int], dom@));
                    assert(address_parts(email@) == Some((local@, dom@)));
                    assert(is_system_address(pats, email@));
                    return true;
                }
                if pattern_matches_chars(&p, &local) {
                    assert(pattern_matches(pats[k as int], local@));
                    assert(is_system_address(pats, email@));
                    return true;
                }
                k += 1;
            }
            false
        },
    }
}

/// Whether an address is a system address for some stored domain pattern.
pub fn is_system_email_in(domains: &Vec<SystemEmailDomain>, email: &str) -> (r: bool)
    ensures
        r == is_system_address(domains@.map_values(|d: SystemEmailDomain| d.domain_pattern@), email@),
{
    let mut patterns: Vec<String> = Vec::new();
    let mut k: usize = 0;
    while k < domains.len()
        invariant
            k <= domains.len(),
            patterns@.map_values(|p: String| p@) =~= domains@.subrange(0, k as int).map_values(
                |d: SystemEmailDomain| d.domain_pattern@,
            ),
        decreases domains.len() - k,
    {
        let p = domains[k].domain_pattern.clone();
        let ghost before = patterns@;
        patterns.push(p);
        assert(patterns@ =~= before.push(p));
        assert(patterns@.map_values(|p: String| p@) =~= before.map_values(|p: String| p@).push(p@));
        assert(domains@.subrange(0, k + 1) =~= domains@.subrange(0, k as int).push(domains@[k as int]));
        k += 1;
    }
    assert(domains@.subrange(0, domains.len() as int) =~= domains@);
    matches_system_patterns(&patterns, email)
}

} // verus!
