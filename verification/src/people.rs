//! The people a job's e-mails come from.

use vstd::prelude::*;
use crate::contacts::{address_text, brackets_in_order};
use crate::text::{chars_eq, chars_of, find_char, first_index, string_from_chars, sub_chars, trim, trimmed};

verus! {

/// A sender of an e-mail: the address as written and the display name.
#[derive(Debug, Clone, PartialEq, Eq)]
pub struct Person {
    pub email: String,
    pub name: String,
}

/// The display name of a `from` value: the text before its first `<` (all of
/// it when there is none), trimmed.
pub open spec fn display_name_of(from: Seq<char>) -> Seq<char> {
    match first_index(from, '<') {
        Some(a) => trim(from.subrange(0, a)),
        None => trim(from),
    }
}

/// Whether some entry of `people` has address `email`.
pub open spec fn has_address(people: Seq<(Seq<char>, Seq<char>)>, email: Seq<char>) -> bool {
    exists|k: int| 0 <= k < people.len() && #[trigger] people[k].0 == email
}

/// The people of a list of `from` values, as (address, name) pairs: one entry
/// per distinct address, in the order in which each address first occurs;
/// missing `from` values are skipped.
pub open spec fn people_of(froms: Seq<Option<Seq<char>>>) -> Seq<(Seq<char>, Seq<char>)>
    decreases froms.len(),
{
    if froms.len() == 0 {
        Seq::empty()
    } else {
        let rest = people_of(froms.drop_last());
        match froms.last() {
            Some(f) => if has_address(rest, address_text(f)) {
                rest
            } else {
                rest.push((address_text(f), display_name_of(f)))
            },
            None => rest,
        }
    }
}

/// Every present `from` value has its brackets in order.
pub open spec fn froms_in_order(froms: Seq<Option<Seq<char>>>) -> bool {
    forall|k: int| 0 <= k < froms.len() ==> (#[trigger] froms[k] matches Some(f) ==> brackets_in_order(f))
}

/// The view of a list of people as (address, name) pairs.
pub open spec fn people_view(people: Seq<Person>) -> Seq<(Seq<char>, Seq<char>)> {
    people.map_values(|p: Person| (p.email@, p.name@))
}

/// The view of a list of optional `from` values.
pub open spec fn froms_view(froms: Seq<Option<String>>) -> Seq<Option<Seq<char>>> {
    froms.map_values(|f: Option<String>| match f {
        Some(s) => Some(s@),
        None => None,
    })
}

/// The unique people that the `from` values of a job's e-mails name, in the
/// order of first occurrence, each as written in `Name <address>` form.
pub fn extract_people_from_emails(froms: &Vec<Option<String>>) -> (r: Vec<Person>)
    requires
        froms_in_order(froms_view(froms@)),
    ensures
        people_view(r@) == people_of(froms_view(froms@)),
{
    let ghost fv = froms_view(froms@);
    let mut people: Vec<Person> = Vec::new();
    let mut addrs: Vec<Vec<char>> = Vec::new();
    let mut k: usize = 0;
    while k < froms.len()
        invariant
            k <= froms.len(),
            fv == froms_view(froms@),
            froms_in_order(fv),
            people_view(people@) == people_of(fv.subrange(0, k as int)),
            addrs@.len() == people@.len(),
            forall|j: int| 0 <= j < addrs@.len() ==> #[trigger] addrs@[j]@ == people@[j].email@,
        decreases froms.len() - k,
    {
        let ghost pre = fv.subrange(0, k as int);
        assert(fv.subrange(0, k + 1).drop_last() =~= pre);
        assert(fv.subrange(0, k + 1).last() == fv[k as int]);
        match &froms[k] {
            Some(from) => {
                let f = chars_of(from.as_str());
                assert(fv[k as int] == Some(f@));
                assert(brackets_in_order(f@));
                let addr = match find_char(&f, '<') {
                    Some(a) => match find_char(&f, '>') {
                        Some(b) => sub_chars(&f, a + 1, b),
                        None => sub_chars(&f, 0, f.len()),
                    },
                    None => sub_chars(&f, 0, f.len()),
                };
                assert(f@.subrange(0, f@.len() as int) =~= f@);
                assert(addr@ == address_text(f@));
                let mut seen = false;
                let mut j: usize = 0;
                while j < addrs.len()
                    invariant
                        j <= addrs@.len() == people@.len(),
                        forall|i: int| 0 <= i < addrs@.len() ==> #[trigger] addrs@[i]@ == people@[i].email@,
                        seen ==> has_address(people_view(people@), addr@),
                        !seen ==> forall|i: int| 0 <= i < j ==> people@[i].email@ != addr@,
                    decreases addrs@.len() - j,
                {
                    if chars_eq(&addrs[j], &addr) {
                        assert(people_view(people@)[j as int].0 == addr@);
                        seen = true;
                    }
                    j += 1;
                }
                if !seen {
                    assert(!has_address(people_view(people@), addr@)) by {
                        if has_address(people_view(people@), addr@) {
                            let i = choose|i: int|
                                0 <= i < people_view(people@).len() && #[trigger] people_view(
                                    people@,
                                )[i].0 == addr@;
                            assert(people@[i].email@ != addr@);
                        }
                    }
                    let name_part = match find_char(&f, '<') {
                        Some(a) => sub_chars(&f, 0, a),
                        None => sub_chars(&f, 0, f.len()),
                    };
                    let name = trimmed(&name_part);
                    assert(name@ == display_name_of(f@));
                    let person = Person {
                        email: string_from_chars(&addr),
                        name: string_from_chars(&name),
                    };
                    let ghost before = people@;
                    people.push(person);
                    addrs.push(addr);
                    assert(people_view(people@) =~= people_view(before).push(
                        (address_text(f@), display_name_of(f@)),
                    ));
                }
            },
            None => {},
        }
        k += 1;
    }
    assert(fv.subrange(0, froms.len() as int) =~= fv);
    people
}

/// The people extracted from e-mails have pairwise distinct addresses.
pub proof fn lemma_people_unique(froms: Seq<Option<Seq<char>>>)
    ensures
        forall|i: int, j: int|
            0 <= i < j < people_of(froms).len() ==> people_of(froms)[i].0 != people_of(froms)[j].0,
    decreases froms.len(),
{
    if froms.len() > 0 {
        lemma_people_unique(froms.drop_last());
        let rest = people_of(froms.drop_last());
        match froms.last() {
            Some(f) => {
                if !has_address(rest, address_text(f)) {
                    let r = people_of(froms);
                    assert forall|i: int, j: int| 0 <= i < j < r.len() implies r[i].0 != r[j].0 by {
                        if j == rest.len() {
                            assert(r[i] == rest[i]);
                        } else {
                            assert(r[i] == rest[i] && r[j] == rest[j]);
                        }
                    }
                }
            },
            None => {},
        }
    }
}

/// Every address that a present `from` value holds is among the extracted
/// people, and every extracted person comes from some `from` value.
pub proof fn lemma_people_complete(froms: Seq<Option<Seq<char>>>)
    ensures
        forall|k: int|
            0 <= k < froms.len() ==> (#[trigger] froms[k] matches Some(f) ==> has_address(
                people_of(froms),
                address_text(f),
            )),
        forall|i: int|
            0 <= i < people_of(froms).len() ==> exists|k: int|
                0 <= k < froms.len() && (#[trigger] froms[k] matches Some(f) && #[trigger] people_of(froms)[i]
                    == (address_text(f), display_name_of(f))),
    decreases froms.len(),
{
    if froms.len() > 0 {
        let init = froms.drop_last();
        lemma_people_complete(init);
        let rest = people_of(init);
        let r = people_of(froms);
        assert forall|i: int| 0 <= i < rest.len() implies r[i] == rest[i] by {}
        assert forall|k: int|
            0 <= k < froms.len() implies (#[trigger] froms[k] matches Some(f) ==> has_address(
                r,
                address_text(f),
            )) by {
            if k < init.len() {
                assert(froms[k] == init[k]);
                if let Some(f) = froms[k] {
                    assert(has_address(rest, address_text(f)));
                    let i = choose|i: int| 0 <= i < rest.len() && #[trigger] rest[i].0 == address_text(f);
                    assert(r[i] == rest[i]);
                }
            } else {
                if let Some(f) = froms[k] {
                    if !has_address(rest, address_text(f)) {
                        assert(r[rest.len() as int].0 == address_text(f));
                    }
                }
            }
        }
        assert forall|i: int| #![trigger r[i]] 0 <= i < r.len() implies exists|k: int|
            0 <= k < froms.len() && (#[trigger] froms[k] matches Some(f) && r[i] == (
                address_text(f),
                display_name_of(f),
            )) by {
            if i < rest.len() {
                let k = choose|k: int|
                    0 <= k < init.len() && (#[trigger] init[k] matches Some(f) && rest[i] == (
                        address_text(f),
                        display_name_of(f),
                    ));
                assert(froms[k] == init[k]);
            } else {
                assert(froms[froms.len() - 1] == froms.last());
            }
        }
    }
}

} // verus!
