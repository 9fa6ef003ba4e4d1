//! E-mail contacts: address normalisation, extraction of addresses from
//! header fields such as `"Jane Doe" <jane@example.com>, bob@example.com`,
//! and the per-job contact list.

use vstd::prelude::*;
use crate::text::{
    ascii_lowercase, chars_of, contains_char, find_char, first_index, is_ascii_text,
    lemma_ascii_lowercase, lemma_first_index_some, lemma_no_index, lemma_trim_ends,
    lemma_trim_subrange, lemma_trim_unchanged, lower_text,
    split_char, split_on, string_from_chars, sub_chars, to_lower, trim, trimmed, unquote,
    unquoted,
};

verus! {

/// A contact of a user, keyed by its (normalised) address.
#[derive(Debug, Clone, PartialEq, Eq)]
pub struct EmailContact {
    pub email: String,
    pub user_id: String,
    pub name: Option<String>,
    pub linkedin: Option<String>,
    pub website: Option<String>,
    pub is_system: bool,
}

/// An address normalised: whitespace trimmed, then lowercased.
pub open spec fn normalized(email: Seq<char>) -> Seq<char> {
    lower_text(trim(email))
}

/// The part of a header value that holds the address: the text between the
/// first `<` and the first `>` when both occur, else the whole value.
pub open spec fn address_text(s: Seq<char>) -> Seq<char> {
    match first_index(s, '<') {
        Some(a) => match first_index(s, '>') {
            Some(b) => s.subrange(a + 1, b),
            None => s,
        },
        None => s,
    }
}

/// The first `>` does not come before the first `<`: the text between them
/// (`s[first '<' + 1 .. first '>']`) is then a slice of `s`.
pub open spec fn brackets_in_order(s: Seq<char>) -> bool {
    match (first_index(s, '<'), first_index(s, '>')) {
        (Some(a), Some(b)) => a < b,
        _ => true,
    }
}

/// The address held by a header value, normalised; empty when the
/// normalised text has no `@`.
pub open spec fn extracted_address(s: Seq<char>) -> Seq<char> {
    let e = normalized(address_text(s));
    if e.contains('@') {
        e
    } else {
        Seq::empty()
    }
}

/// The addresses of the comma-separated pieces `parts`, in order: each piece
/// is trimmed, empty pieces are skipped, and so are pieces whose extracted
/// address is empty.
pub open spec fn addresses_of_parts(parts: Seq<Seq<char>>) -> Seq<Seq<char>>
    decreases parts.len(),
{
    if parts.len() == 0 {
        Seq::empty()
    } else {
        let rest = addresses_of_parts(parts.drop_last());
        let t = trim(parts.last());
        if t.len() > 0 && extracted_address(t).len() > 0 {
            rest.push(extracted_address(t))
        } else {
            rest
        }
    }
}

/// What is taken from a header value is an address (it holds `@`), or
/// nothing.
pub proof fn lemma_extracted_is_address(s: Seq<char>)
    ensures
        extracted_address(s).len() == 0 || extracted_address(s).contains('@'),
{
}

/// The piece of a value that holds the address lacks `>` or lacks `<`.
proof fn lemma_address_text_one_bracket(s: Seq<char>)
    requires
        brackets_in_order(s),
    ensures
        !address_text(s).contains('>') || !address_text(s).contains('<'),
        exists|i: int, j: int| 0 <= i <= j <= s.len() && address_text(s) == s.subrange(i, j),
{
    if s.contains('<') {
        lemma_first_index_some(s, '<');
        if s.contains('>') {
            lemma_first_index_some(s, '>');
            let a = first_index(s, '<')->0;
            let b = first_index(s, '>')->0;
            let t = s.subrange(a + 1, b);
            assert forall|k: int| 0 <= k < t.len() implies t[k] != '>' by {
                assert(t[k] == s[a + 1 + k]);
            }
            assert(address_text(s) == s.subrange(a + 1, b));
        } else {
            assert(s.subrange(0, s.len() as int) =~= s);
        }
    } else {
        crate::text::lemma_no_index(s, '<');
        assert(s.subrange(0, s.len() as int) =~= s);
    }
}

/// A text that lacks one of `<` and `>` is its own address piece.
proof fn lemma_address_text_whole(e: Seq<char>)
    requires
        !e.contains('>') || !e.contains('<'),
    ensures
        address_text(e) == e,
        brackets_in_order(e),
{
    if !e.contains('<') {
        lemma_no_index(e, '<');
    } else {
        lemma_no_index(e, '>');
    }
}

/// Taking the address out of an ASCII header value, then out of the result,
/// gives the same address: what extraction returns is already an address in
/// normal form.
pub proof fn lemma_extraction_idempotent(s: Seq<char>)
    requires
        is_ascii_text(s),
        brackets_in_order(s),
    ensures
        brackets_in_order(extracted_address(s)),
        extracted_address(extracted_address(s)) == extracted_address(s),
{
    let t = address_text(s);
    lemma_address_text_one_bracket(s);
    let (i, j) = choose|i: int, j: int| 0 <= i <= j <= s.len() && t == s.subrange(i, j);
    assert(is_ascii_text(t)) by {
        assert forall|k: int| 0 <= k < t.len() implies (#[trigger] t[k] as u32) < 0x80 by {
            assert(t[k] == s[i + k]);
        }
    }
    let ij = lemma_trim_subrange(t);
    let u = trim(t);
    assert(is_ascii_text(u)) by {
        assert forall|k: int| 0 <= k < u.len() implies (#[trigger] u[k] as u32) < 0x80 by {
            assert(u[k] == t[ij.0 + k]);
        }
    }
    assert(!u.contains('>') || !u.contains('<')) by {
        if u.contains('>') {
            let k = choose|k: int| 0 <= k < u.len() && u[k] == '>';
            assert(t[ij.0 + k] == '>');
        }
        if u.contains('<') {
            let k = choose|k: int| 0 <= k < u.len() && u[k] == '<';
            assert(t[ij.0 + k] == '<');
        }
    }
    let e = ascii_lowercase(u);
    assert(normalized(t) == e);
    lemma_ascii_lowercase(u);
    // Lowercasing keeps `<`, `>` and `@` where they are.
    assert forall|c: char| c == '<' || c == '>' || c == '@' implies (e.contains(c) <==> u.contains(
        c,
    )) by {
        if e.contains(c) {
            let k = choose|k: int| 0 <= k < e.len() && e[k] == c;
            if 0x41 <= (u[k] as u32) <= 0x5a {
                assert(e[k] == crate::text::ascii_lower_char(u[k]));
            }
            assert(u[k] == c);
        }
        if u.contains(c) {
            let k = choose|k: int| 0 <= k < u.len() && u[k] == c;
            assert(e[k] == c);
        }
    }
    if e.contains('@') {
        assert(extracted_address(s) == e);
        lemma_address_text_whole(e);
        lemma_trim_ends(t);
        lemma_trim_unchanged(e);
        assert(trim(e) == e);
        assert(normalized(e) == ascii_lowercase(e));
    } else {
        assert(extracted_address(s) == Seq::<char>::empty());
        let z = Seq::<char>::empty();
        lemma_address_text_whole(z);
        lemma_trim_unchanged(z);
        assert(ascii_lowercase(z) =~= z);
    }
}

/// Every address taken from a header field is non-empty and holds `@`.
pub proof fn lemma_field_addresses_hold_at(parts: Seq<Seq<char>>)
    ensures
        forall|k: int|
            0 <= k < addresses_of_parts(parts).len() ==> (#[trigger] addresses_of_parts(parts)[k]).len()
                > 0 && addresses_of_parts(parts)[k].contains('@'),
    decreases parts.len(),
{
    if parts.len() > 0 {
        let rest = addresses_of_parts(parts.drop_last());
        let t = trim(parts.last());
        lemma_field_addresses_hold_at(parts.drop_last());
        lemma_extracted_is_address(t);
        let all = addresses_of_parts(parts);
        assert forall|k: int| 0 <= k < all.len() implies (#[trigger] all[k]).len() > 0
            && all[k].contains('@') by {
            if k < rest.len() {
                assert(rest[k].len() > 0 && rest[k].contains('@'));
                assert(all[k] == rest[k]);
            }
        }
    }
}

/// Every comma-separated piece of `field`, trimmed, has its brackets in order.
pub open spec fn field_brackets_in_order(field: Seq<char>) -> bool {
    forall|k: int|
        0 <= k < split_char(field, ',').len() ==> brackets_in_order(
            #[trigger] trim(split_char(field, ',')[k]),
        )
}

/// Whether the first `>` of a header value does not come before its first
/// `<` (the condition under which its address can be taken).
pub fn has_brackets_in_order(s: &str) -> (r: bool)
    ensures
        r == brackets_in_order(s@),
{
    brackets_in_order_chars(&chars_of(s))
}

fn brackets_in_order_chars(v: &Vec<char>) -> (r: bool)
    ensures
        r == brackets_in_order(v@),
{
    match (find_char(v, '<'), find_char(v, '>')) {
        (Some(a), Some(b)) => a < b,
        _ => true,
    }
}

/// Whether every comma-separated piece of a header field, trimmed, has its
/// brackets in order.
pub fn field_has_brackets_in_order(field: &str) -> (r: bool)
    ensures
        r == field_brackets_in_order(field@),
{
    let parts = split_on(&chars_of(field), ',');
    let ghost ps = parts@.map_values(|p: Vec<char>| p@);
    assert(ps == split_char(field@, ','));
    let mut k: usize = 0;
    while k < parts.len()
        invariant
            k <= parts.len(),
            ps == parts@.map_values(|p: Vec<char>| p@),
            ps == split_char(field@, ','),
            forall|j: int| 0 <= j < k ==> brackets_in_order(#[trigger] trim(ps[j])),
        decreases parts.len() - k,
    {
        let t = trimmed(&parts[k]);
        if !brackets_in_order_chars(&t) {
            assert(!brackets_in_order(trim(ps[k as int])));
            return false;
        }
        k += 1;
    }
    true
}

/// The display name written before the address in a header value: present
/// only when the value holds a `<`, and then the text before the first `<`,
/// trimmed and stripped of surrounding quotes.
pub open spec fn sender_name_of(s: Seq<char>) -> Option<Seq<char>> {
    match first_index(s, '<') {
        Some(a) => Some(unquote(trim(s.subrange(0, a)))),
        None => None,
    }
}

/// Normalise an address: trim surrounding whitespace and lowercase it.
pub fn normalize_email(email: &str) -> (r: String)
    ensures
        r@ == normalized(email@),
{
    let t = trimmed(&chars_of(email));
    let ts = string_from_chars(&t);
    to_lower(ts.as_str())
}

/// The address of a header value such as `Name <name@example.com>`,
/// normalised; the empty string when it holds no `@`.
pub fn extract_email_address(email_string: &str) -> (r: String)
    requires
        brackets_in_order(email_string@),
    ensures
        r@ == extracted_address(email_string@),
{
    let s = chars_of(email_string);
    let inner = match find_char(&s, '<') {
        Some(a) => match find_char(&s, '>') {
            Some(b) => sub_chars(&s, a + 1, b),
            None => s,
        },
        None => s,
    };
    let inner_text = string_from_chars(&inner);
    let e = normalize_email(inner_text.as_str());
    let ev = chars_of(e.as_str());
    if contains_char(&ev, '@') {
        e
    } else {
        proof {
            assert(!normalized(address_text(email_string@)).contains('@'));
        }
        let empty: Vec<char> = Vec::new();
        assert(empty@ =~= Seq::<char>::empty());
        string_from_chars(&empty)
    }
}

/// The addresses in a header field that may list several, separated by
/// commas, in order; pieces that are empty or hold no address are skipped.
pub fn extract_emails_from_field(field_value: &str) -> (r: Vec<String>)
    requires
        field_brackets_in_order(field_value@),
    ensures
        r@.map_values(|e: String| e@) == addresses_of_parts(split_char(field_value@, ',')),
{
    let parts = split_on(&chars_of(field_value), ',');
    let ghost ps = parts@.map_values(|p: Vec<char>| p@);
    let mut emails: Vec<String> = Vec::new();
    let mut k: usize = 0;
    while k < parts.len()
        invariant
            k <= parts.len(),
            ps == parts@.map_values(|p: Vec<char>| p@),
            ps == split_char(field_value@, ','),
            field_brackets_in_order(field_value@),
            emails@.map_values(|e: String| e@) == addresses_of_parts(ps.subrange(0, k as int)),
        decreases parts.len() - k,
    {
        let t = trimmed(&parts[k]);
        let ghost prefix = ps.subrange(0, k as int);
        assert(ps.subrange(0, k + 1).drop_last() =~= prefix);
        assert(ps.subrange(0, k + 1).last() == ps[k as int]);
        assert(brackets_in_order(trim(ps[k as int])));
        if t.len() > 0 {
            let ts = string_from_chars(&t);
            let e = extract_email_address(ts.as_str());
            if !e.as_str().is_empty() {
                assert(e@.len() > 0);
                let ghost before = emails@;
                emails.push(e);
                assert(emails@.map_values(|e: String| e@) =~= before.map_values(|e: String| e@).push(
                    e@,
                ));
            } else {
                assert(e@.len() == 0);
            }
        }
        k += 1;
    }
    assert(ps.subrange(0, parts.len() as int) =~= ps);
    emails
}

/// The display name of a sender such as `"Jane Doe" <jane@example.com>`:
/// `Some` only when the value holds a `<`.
pub fn sender_name(email: &str) -> (r: Option<String>)
    ensures
        match r {
            Some(n) => sender_name_of(email@) == Some(n@),
            None => sender_name_of(email@).is_none(),
        },
{
    let s = chars_of(email);
    match find_char(&s, '<') {
        Some(a) => {
            let before = sub_chars(&s, 0, a);
            let name = unquoted(&trimmed(&before));
            Some(string_from_chars(&name))
        },
        None => None,
    }
}

/// Why a contact cannot be stored.
#[derive(Debug, Clone, PartialEq, Eq)]
pub enum ContactError {
    /// The header value holds no address; it is carried as given.
    InvalidEmail(String),
}

/// The address under which the contact of a header value is stored: the
/// extracted address, or an error when the value holds none.
pub fn contact_address(email: &str) -> (r: Result<String, ContactError>)
    requires
        brackets_in_order(email@),
    ensures
        match r {
            Ok(a) => a@ == extracted_address(email@) && a@.len() > 0,
            Err(ContactError::InvalidEmail(e)) => e@ == email@ && extracted_address(email@).len()
                == 0,
        },
{
    let a = extract_email_address(email);
    if a.as_str().is_empty() {
        Err(ContactError::InvalidEmail(string_from_chars(&chars_of(email))))
    } else {
        Ok(a)
    }
}

/// The contact created for a header value when none is stored under its
/// address: named by the display name written before the address, with no
/// links, and not a system contact.
pub fn new_contact(email: &str, address: String, user_id: &str) -> (r: EmailContact)
    ensures
        r.email@ == address@,
        r.user_id@ == user_id@,
        match r.name {
            Some(n) => sender_name_of(email@) == Some(n@),
            None => sender_name_of(email@).is_none(),
        },
        r.linkedin.is_none(),
        r.website.is_none(),
        !r.is_system,
{
    EmailContact {
        email: address,
        user_id: string_from_chars(&chars_of(user_id)),
        name: sender_name(email),
        linkedin: None,
        website: None,
        is_system: false,
    }
}

/// A stored flag as read from the database: non-zero means set, a missing or
/// non-integer value means unset.
pub fn db_flag(value: Option<i64>) -> (r: bool)
    ensures
        r == (value matches Some(i) && i != 0),
{
    match value {
        Some(i) => i != 0,
        None => false,
    }
}

/// The addresses of a list of contacts.
pub open spec fn contact_emails(contacts: Seq<EmailContact>) -> Seq<Seq<char>> {
    contacts.map_values(|c: EmailContact| c.email@)
}

/// Add `contact` to the list unless a contact with the same address is
/// already there.
pub fn push_unique_contact(contacts: &mut Vec<EmailContact>, contact: EmailContact)
    ensures
        if contact_emails(old(contacts)@).contains(contact.email@) {
            final(contacts)@ == old(contacts)@
        } else {
            final(contacts)@ == old(contacts)@.push(contact)
        },
{
    let mut k: usize = 0;
    while k < contacts.len()
        invariant
            k <= contacts.len(),
            forall|j: int| 0 <= j < k ==> contacts@[j].email@ != contact.email@,
        decreases contacts.len() - k,
    {
        if contacts[k].email == contact.email {
            assert(contact_emails(contacts@)[k as int] == contact.email@);
            return;
        }
        k += 1;
    }
    assert(!contact_emails(contacts@).contains(contact.email@)) by {
        if contact_emails(contacts@).contains(contact.email@) {
            let j = choose|j: int|
                0 <= j < contact_emails(contacts@).len() && contact_emails(contacts@)[j]
                    == contact.email@;
            assert(contacts@[j].email@ != contact.email@);
        }
    }
    contacts.push(contact);
}

/// Pushing with `push_unique_contact` keeps the addresses of a contact list
/// pairwise distinct.
pub proof fn lemma_push_unique_keeps_distinct(
    before: Seq<EmailContact>,
    contact: EmailContact,
    after: Seq<EmailContact>,
)
    requires
        contact_emails(before).no_duplicates(),
        if contact_emails(before).contains(contact.email@) {
            after == before
        } else {
            after == before.push(contact)
        },
    ensures
        contact_emails(after).no_duplicates(),
        contact_emails(after).contains(contact.email@),
{
    if contact_emails(before).contains(contact.email@) {
    } else {
        assert(contact_emails(after) =~= contact_emails(before).push(contact.email@));
        assert(contact_emails(after)[before.len() as int] == contact.email@);
    }
}

} // verus!
