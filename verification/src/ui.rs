//! What the web interface computes before it renders: badge colours,
//! initials, dashboard statistics, status-stepper states, and the handling
//! of form fields.

use vstd::prelude::*;
use crate::accounts::User;
use crate::jobs::{int_text, push_decimal, Job, JobStatus};
use crate::text::{
    char_to_upper, chars_eq, chars_of, find_char, first_index, is_space, is_space_char,
    occurs_at, string_from_chars, sub_chars, trim, trimmed, unquote, unquoted,
    upper_char_text,
};

verus! {

// ---------------------------------------------------------------------------
// Words
// ---------------------------------------------------------------------------

/// The length of the run of non-whitespace characters that starts `s`.
pub open spec fn leading_word_len(s: Seq<char>) -> nat
    decreases s.len(),
{
    if s.len() == 0 || is_space(s[0]) {
        0
    } else {
        1 + leading_word_len(s.drop_first())
    }
}

/// The leading word is no longer than the text, and not empty when the text
/// starts with a non-whitespace character.
pub proof fn lemma_leading_word_len_bounds(s: Seq<char>)
    ensures
        leading_word_len(s) <= s.len(),
        s.len() > 0 && !is_space(s[0]) ==> leading_word_len(s) >= 1,
    decreases s.len(),
{
    if s.len() > 0 && !is_space(s[0]) {
        lemma_leading_word_len_bounds(s.drop_first());
    }
}

/// The whitespace-separated words of `s` (`str::split_whitespace`).
pub open spec fn words(s: Seq<char>) -> Seq<Seq<char>>
    decreases s.len(),
{
    if s.len() == 0 {
        Seq::empty()
    } else if is_space(s[0]) {
        words(s.drop_first())
    } else {
        let n = leading_word_len(s);
        proof {
            lemma_leading_word_len_bounds(s);
        }
        seq![s.subrange(0, n as int)] + words(s.skip(n as int))
    }
}

proof fn lemma_word_run(s: Seq<char>, i: int, j: int)
    requires
        0 <= i <= j <= s.len(),
        forall|k: int| i <= k < j ==> !is_space(s[k]),
        j == s.len() || is_space(s[j]),
    ensures
        leading_word_len(s.skip(i)) == j - i,
    decreases j - i,
{
    if i < j {
        assert(s.skip(i).drop_first() =~= s.skip(i + 1));
        lemma_word_run(s, i + 1, j);
    } else {
        if j < s.len() {
            assert(s.skip(i)[0] == s[j]);
        }
    }
}

/// `str::split_whitespace`, on character vectors.
pub fn split_words(s: &Vec<char>) -> (r: Vec<Vec<char>>)
    ensures
        r@.map_values(|w: Vec<char>| w@) == words(s@),
{
    let n = s.len();
    let mut out: Vec<Vec<char>> = Vec::new();
    let mut i: usize = 0;
    assert(s@.skip(0) =~= s@);
    while i < n
        invariant
            n == s.len(),
            i <= n,
            out@.map_values(|w: Vec<char>| w@) + words(s@.skip(i as int)) == words(s@),
        decreases n - i,
    {
        let ghost rest = s@.skip(i as int);
        if is_space_char(s[i]) {
            assert(rest.drop_first() =~= s@.skip(i + 1));
            assert(words(rest) == words(s@.skip(i + 1)));
            i += 1;
        } else {
            let mut j = i;
            while j < n && !is_space_char(s[j])
                invariant
                    i <= j <= n == s.len(),
                    forall|k: int| i <= k < j ==> !is_space(s@[k]),
                decreases n - j,
            {
                j += 1;
            }
            proof {
                lemma_word_run(s@, i as int, j as int);
                assert(rest.subrange(0, j - i) =~= s@.subrange(i as int, j as int));
                assert(rest.skip(j - i) =~= s@.skip(j as int));
            }
            let w = sub_chars(s, i, j);
            let ghost before = out@.map_values(|w: Vec<char>| w@);
            out.push(w);
            assert(out@.map_values(|w: Vec<char>| w@) =~= before.push(w@));
            assert(words(rest) == seq![w@] + words(s@.skip(j as int)));
            assert(before + words(rest) =~= before.push(w@) + words(s@.skip(j as int)));
            i = j;
        }
    }
    assert(s@.skip(n as int) =~= Seq::<char>::empty());
    assert(out@.map_values(|w: Vec<char>| w@) + Seq::<Seq<char>>::empty() =~= out@.map_values(
        |w: Vec<char>| w@,
    ));
    out
}

proof fn lemma_words_nonempty(s: Seq<char>)
    ensures
        forall|k: int| 0 <= k < words(s).len() ==> #[trigger] words(s)[k].len() > 0,
    decreases s.len(),
{
    if s.len() > 0 {
        if is_space(s[0]) {
            lemma_words_nonempty(s.drop_first());
            assert(words(s) == words(s.drop_first()));
        } else {
            lemma_leading_word_len_bounds(s);
            let n = leading_word_len(s);
            lemma_words_nonempty(s.skip(n as int));
            let ws = words(s);
            assert(ws == seq![s.subrange(0, n as int)] + words(s.skip(n as int)));
            assert forall|k: int| 0 <= k < ws.len() implies #[trigger] ws[k].len() > 0 by {
                if k == 0 {
                    assert(ws[0] == s.subrange(0, n as int));
                } else {
                    assert(ws[k] == words(s.skip(n as int))[k - 1]);
                }
            }
        }
    }
}

// ---------------------------------------------------------------------------
// Initials and names
// ---------------------------------------------------------------------------

/// `?`.
pub open spec fn question_mark() -> Seq<char> {
    seq!['?']
}

/// The initials of a name: `?` without words; the uppercased first letter of
/// the only word; else the uppercased first letters of the first and last
/// words.
pub open spec fn initials_of(name: Seq<char>) -> Seq<char> {
    let ws = words(name);
    if ws.len() == 0 {
        question_mark()
    } else if ws.len() == 1 {
        upper_char_text(ws[0][0])
    } else {
        upper_char_text(ws[0][0]) + upper_char_text(ws[ws.len() - 1][0])
    }
}

/// Initials read only the first and the last word of a name: two names of
/// two words or more that agree on those words have the same initials, and a
/// name of one word has the initials of its first character alone; a name
/// without words gives `?`.
pub proof fn lemma_initials_first_and_last(n: Seq<char>, m: Seq<char>)
    ensures
        words(n).len() >= 2 && words(m).len() >= 2 && words(n)[0][0] == words(m)[0][0] && words(
            n,
        ).last()[0] == words(m).last()[0] ==> initials_of(n) == initials_of(m),
        words(n).len() == 1 ==> initials_of(n) == upper_char_text(words(n)[0][0]),
        words(n).len() >= 2 ==> initials_of(n) == upper_char_text(words(n)[0][0]) + upper_char_text(
            words(n).last()[0],
        ),
        words(n).len() == 0 ==> initials_of(n) == seq!['?'],
{
}

/// The initials shown for a contact (see `initials_of`).
pub fn get_initials(name: &str) -> (r: String)
    ensures
        r@ == initials_of(name@),
{
    let ws = split_words(&chars_of(name));
    proof {
        lemma_words_nonempty(name@);
    }
    let ghost wv = ws@.map_values(|w: Vec<char>| w@);
    if ws.len() == 0 {
        let q = vec!['?'];
        assert(q@ =~= question_mark());
        string_from_chars(&q)
    } else if ws.len() == 1 {
        assert(wv[0].len() > 0);
        char_to_upper(ws[0][0])
    } else {
        assert(wv[0].len() > 0);
        assert(wv[ws.len() - 1].len() > 0);
        let first = char_to_upper(ws[0][0]);
        let last = char_to_upper(ws[ws.len() - 1][0]);
        let mut v = chars_of(first.as_str());
        let l = chars_of(last.as_str());
        let mut k: usize = 0;
        let ghost base = v@;
        while k < l.len()
            invariant
                k <= l.len(),
                v@ == base + l@.subrange(0, k as int),
            decreases l.len() - k,
        {
            v.push(l[k]);
            k += 1;
        }
        assert(l@.subrange(0, l.len() as int) =~= l@);
        string_from_chars(&v)
    }
}

/// `U`.
pub open spec fn letter_u() -> Seq<char> {
    seq!['U']
}

/// The initials shown in the user menu. From the name: the first characters
/// of its first two words, when that text is at least two bytes long in
/// UTF-8 (two words, or one word starting with a non-ASCII character), cut to
/// two characters. Otherwise the uppercased first character of the address,
/// or `U`.
pub open spec fn profile_initials_of(name: Option<Seq<char>>, email: Option<Seq<char>>) -> Seq<
    char,
> {
    let from_name = match name {
        Some(n) => {
            let ws = words(n);
            if ws.len() >= 2 {
                Some(seq![ws[0][0], ws[1][0]])
            } else if ws.len() == 1 && (ws[0][0] as u32) >= 0x80 {
                Some(seq![ws[0][0]])
            } else {
                None
            }
        },
        None => None,
    };
    match from_name {
        Some(i) => i,
        None => match email {
            Some(e) => if e.len() > 0 {
                upper_char_text(e[0])
            } else {
                letter_u()
            },
            None => letter_u(),
        },
    }
}

/// The initials of the user menu, read from the result: two words or more in
/// the name give the first characters of the first two words; a single word
/// whose first character is not ASCII gives that character; otherwise (no
/// name, no words, or one word starting with an ASCII character) the
/// uppercased first character of the address, or `U` when there is no
/// non-empty address.
pub proof fn lemma_profile_initials(name: Option<Seq<char>>, email: Option<Seq<char>>, r: Seq<char>)
    requires
        r == profile_initials_of(name, email),
    ensures
        match name {
            Some(n) => {
                let ws = words(n);
                &&& ws.len() >= 2 ==> r == seq![ws[0][0], ws[1][0]]
                &&& ws.len() == 1 && (ws[0][0] as u32) >= 0x80 ==> r == seq![ws[0][0]]
            },
            None => true,
        },
        (match name {
            Some(n) => words(n).len() == 0 || (words(n).len() == 1 && (words(n)[0][0] as u32)
                < 0x80),
            None => true,
        }) ==> match email {
            Some(e) => if e.len() > 0 {
                r == upper_char_text(e[0])
            } else {
                r == seq!['U']
            },
            None => r == seq!['U'],
        },
{
}

/// The initials shown in the user menu (see `profile_initials_of`).
pub fn profile_initials(name: Option<&str>, email: Option<&str>) -> (r: String)
    ensures
        r@ == profile_initials_of(
            match name {
                Some(n) => Some(n@),
                None => None,
            },
            match email {
                Some(e) => Some(e@),
                None => None,
            },
        ),
        name is None ==> match email {
            Some(e) => if e@.len() > 0 {
                r@ == upper_char_text(e@[0])
            } else {
                r@ == seq!['U']
            },
            None => r@ == seq!['U'],
        },
{
    proof {
        lemma_profile_initials(
            match name {
                Some(n) => Some(n@),
                None => None,
            },
            match email {
                Some(e) => Some(e@),
                None => None,
            },
            profile_initials_of(
                match name {
                    Some(n) => Some(n@),
                    None => None,
                },
                match email {
                    Some(e) => Some(e@),
                    None => None,
                },
            ),
        );
    }
    if let Some(n) = name {
        let ws = split_words(&chars_of(n));
        proof {
            lemma_words_nonempty(n@);
        }
        let ghost wv = ws@.map_values(|w: Vec<char>| w@);
        if ws.len() >= 2 {
            assert(wv[0].len() > 0 && wv[1].len() > 0);
            let v = vec![ws[0][0], ws[1][0]];
            return string_from_chars(&v);
        } else if ws.len() == 1 {
            assert(wv[0].len() > 0);
            if (ws[0][0] as u32) >= 0x80 {
                let v = vec![ws[0][0]];
                return string_from_chars(&v);
            }
        }
    }
    let u = vec!['U'];
    assert(u@ =~= letter_u());
    match email {
        Some(e) => {
            let ev = chars_of(e);
            if ev.len() > 0 {
                char_to_upper(ev[0])
            } else {
                string_from_chars(&u)
            }
        },
        None => string_from_chars(&u),
    }
}

/// A status shown with its first character uppercased.
pub open spec fn capitalized(s: Seq<char>) -> Seq<char> {
    if s.len() == 0 {
        Seq::empty()
    } else {
        upper_char_text(s[0]) + s.drop_first()
    }
}

/// A status with its first character uppercased and the rest unchanged.
pub fn capitalize_first(s: &str) -> (r: String)
    ensures
        r@ == capitalized(s@),
{
    let v = chars_of(s);
    if v.len() == 0 {
        return string_from_chars(&v);
    }
    let first = char_to_upper(v[0]);
    let mut out = chars_of(first.as_str());
    let ghost base = out@;
    let mut k: usize = 1;
    while k < v.len()
        invariant
            1 <= k <= v.len(),
            out@ == base + v@.subrange(1, k as int),
        decreases v.len() - k,
    {
        out.push(v[k]);
        k += 1;
    }
    assert(v@.subrange(1, v.len() as int) =~= v@.drop_first());
    string_from_chars(&out)
}

/// The avatar letter of a company: its first character uppercased, or `?`.
pub fn company_initial(company: &str) -> (r: String)
    ensures
        r@ == if company@.len() > 0 {
            upper_char_text(company@[0])
        } else {
            upper_char_text('?')
        },
{
    let v = chars_of(company);
    if v.len() > 0 {
        char_to_upper(v[0])
    } else {
        char_to_upper('?')
    }
}

/// `Unknown Company`.
pub open spec fn unknown_company() -> Seq<char> {
    seq!['U', 'n', 'k', 'n', 'o', 'w', 'n', ' ', 'C', 'o', 'm', 'p', 'a', 'n', 'y']
}

/// The company suggested for an e-mail's sender: the text before the first
/// `<` (trimmed), or the whole sender when it has none; then stripped of
/// surrounding quotes and trimmed. Without a sender, `Unknown Company`.
pub open spec fn company_of_sender(from: Option<Seq<char>>) -> Seq<char> {
    match from {
        Some(f) => {
            let name = match first_index(f, '<') {
                Some(a) => trim(f.subrange(0, a)),
                None => f,
            };
            trim(unquote(name))
        },
        None => unknown_company(),
    }
}

/// The suggested company never starts or ends with whitespace, and when the
/// sender is written as `Name <address>` it holds nothing of the address part:
/// no `<`.
pub proof fn lemma_sender_company_clean(from: Option<Seq<char>>)
    ensures
        trim(company_of_sender(from)) == company_of_sender(from),
        from matches Some(f) && f.contains('<') ==> !company_of_sender(from).contains('<'),
{
    match from {
        Some(f) => {
            let name = match first_index(f, '<') {
                Some(a) => trim(f.subrange(0, a)),
                None => f,
            };
            let r = trim(unquote(name));
            crate::text::lemma_trim_ends(unquote(name));
            crate::text::lemma_trim_unchanged(r);
            if f.contains('<') {
                crate::text::lemma_first_index_some(f, '<');
                let a = first_index(f, '<')->0;
                let head = f.subrange(0, a);
                let ij = crate::text::lemma_trim_subrange(head);
                let (us, ue) = crate::text::lemma_unquote_subrange(name);
                let ij2 = crate::text::lemma_trim_subrange(unquote(name));
                if r.contains('<') {
                    let k = choose|k: int| 0 <= k < r.len() && r[k] == '<';
                    assert(unquote(name)[ij2.0 + k] == '<');
                    assert(name[us + ij2.0 + k] == '<');
                    assert(head[ij.0 + us + ij2.0 + k] == '<');
                    assert(f[ij.0 + us + ij2.0 + k] == '<');
                }
            }
        },
        None => {
            reveal_strlit("Unknown Company");
            let u = unknown_company();
            crate::text::lemma_trim_unchanged(u);
            assert(!u.contains('<')) by {
                if u.contains('<') {
                    let k = choose|k: int| 0 <= k < u.len() && u[k] == '<';
                    assert(u[k] != '<');
                }
            }
        },
    }
}

/// The company suggested for an e-mail's sender (see `company_of_sender`).
pub fn sender_company_name(from: Option<&str>) -> (r: String)
    ensures
        r@ == company_of_sender(
            match from {
                Some(f) => Some(f@),
                None => None,
            },
        ),
{
    match from {
        Some(f) => {
            let v = chars_of(f);
            let name = match find_char(&v, '<') {
                Some(a) => trimmed(&sub_chars(&v, 0, a)),
                None => v,
            };
            string_from_chars(&trimmed(&unquoted(&name)))
        },
        None => {
            let u = vec!['U', 'n', 'k', 'n', 'o', 'w', 'n', ' ', 'C', 'o', 'm', 'p', 'a', 'n', 'y'];
            assert(u@ =~= unknown_company());
            string_from_chars(&u)
        },
    }
}

/// The job title suggested when a job is created from an e-mail: its
/// subject, or `New Job Application` when it has none.
pub fn suggested_job_title(subject: &Option<String>) -> (r: String)
    ensures
        r@ == match subject {
            Some(s) => s@,
            None => "New Job Application"@,
        },
{
    match subject {
        Some(s) => s.clone(),
        None => {
            let t = "New Job Application";
            string_from_chars(&chars_of(t))
        },
    }
}

/// The name shown for a contact: its name, or else its address.
pub fn contact_display_name(name: &Option<String>, email: &String) -> (r: String)
    ensures
        r@ == match name {
            Some(n) => n@,
            None => email@,
        },
{
    match name {
        Some(n) => n.clone(),
        None => email.clone(),
    }
}

/// An optional form field: trimmed, and absent when nothing remains.
pub fn optional_field(value: &str) -> (r: Option<String>)
    ensures
        match r {
            Some(v) => v@ == trim(value@) && trim(value@).len() > 0,
            None => trim(value@).len() == 0,
        },
{
    let t = trimmed(&chars_of(value));
    if t.len() == 0 {
        None
    } else {
        Some(string_from_chars(&t))
    }
}

// ---------------------------------------------------------------------------
// Badges and colours
// ---------------------------------------------------------------------------

/// The background and text classes of a status badge.
pub open spec fn badge_colors(status: Seq<char>) -> (Seq<char>, Seq<char>) {
    if status == "applied"@ {
        ("bg-blue-100 dark:bg-blue-900"@, "text-blue-800 dark:text-blue-200"@)
    } else if status == "interviewing"@ {
        ("bg-yellow-100 dark:bg-yellow-900"@, "text-yellow-800 dark:text-yellow-200"@)
    } else if status == "rejected"@ {
        ("bg-red-100 dark:bg-red-900"@, "text-red-800 dark:text-red-200"@)
    } else if status == "offer"@ {
        ("bg-green-100 dark:bg-green-900"@, "text-green-800 dark:text-green-200"@)
    } else {
        ("bg-gray-100 dark:bg-gray-800"@, "text-gray-800 dark:text-gray-200"@)
    }
}

/// One of the four statuses that a badge colours: `applied`,
/// `interviewing`, `rejected` and `offer`.
pub open spec fn is_coloured_status(s: Seq<char>) -> bool {
    s == "applied"@ || s == "interviewing"@ || s == "rejected"@ || s == "offer"@
}

/// Each of the four coloured statuses has a badge of its own: both its
/// background and its text classes differ from those of every other status,
/// coloured or not; and all other statuses share one badge.
pub proof fn lemma_badge_colours_distinct(a: Seq<char>, b: Seq<char>)
    ensures
        is_coloured_status(a) && a != b ==> badge_colors(a).0 != badge_colors(b).0
            && badge_colors(a).1 != badge_colors(b).1,
        !is_coloured_status(a) && !is_coloured_status(b) ==> badge_colors(a) == badge_colors(b),
{
    reveal_strlit("applied");
    reveal_strlit("interviewing");
    reveal_strlit("rejected");
    reveal_strlit("offer");
    reveal_strlit("bg-blue-100 dark:bg-blue-900");
    reveal_strlit("bg-yellow-100 dark:bg-yellow-900");
    reveal_strlit("bg-red-100 dark:bg-red-900");
    reveal_strlit("bg-green-100 dark:bg-green-900");
    reveal_strlit("bg-gray-100 dark:bg-gray-800");
    let blue = "bg-blue-100 dark:bg-blue-900"@;
    let yellow = "bg-yellow-100 dark:bg-yellow-900"@;
    let red = "bg-red-100 dark:bg-red-900"@;
    let green = "bg-green-100 dark:bg-green-900"@;
    let gray = "bg-gray-100 dark:bg-gray-800"@;
    reveal_strlit("text-blue-800 dark:text-blue-200");
    reveal_strlit("text-yellow-800 dark:text-yellow-200");
    reveal_strlit("text-red-800 dark:text-red-200");
    reveal_strlit("text-green-800 dark:text-green-200");
    reveal_strlit("text-gray-800 dark:text-gray-200");
    let t_blue = "text-blue-800 dark:text-blue-200"@;
    let t_yellow = "text-yellow-800 dark:text-yellow-200"@;
    let t_red = "text-red-800 dark:text-red-200"@;
    let t_green = "text-green-800 dark:text-green-200"@;
    let t_gray = "text-gray-800 dark:text-gray-200"@;
    assert(t_blue[5] != t_yellow[5] && t_blue[5] != t_red[5] && t_blue[5] != t_green[5]
        && t_blue[5] != t_gray[5]);
    assert(t_yellow[5] != t_red[5] && t_yellow[5] != t_green[5] && t_yellow[5] != t_gray[5]);
    assert(t_red[5] != t_green[5] && t_red[5] != t_gray[5]);
    assert(t_green[7] != t_gray[7]);
    assert(blue[3] != yellow[3] && blue[3] != red[3] && blue[3] != green[3] && blue[3] != gray[3]);
    assert(yellow[3] != red[3] && yellow[3] != green[3] && yellow[3] != gray[3]);
    assert(red[3] != green[3] && red[3] != gray[3]);
    assert(green[5] != gray[5]);
    assert("applied"@[0] != "interviewing"@[0] && "applied"@[0] != "rejected"@[0] && "applied"@[0]
        != "offer"@[0]);
    assert("interviewing"@[0] != "rejected"@[0] && "interviewing"@[0] != "offer"@[0]);
    assert("rejected"@[0] != "offer"@[0]);
}

fn same_text(a: &str, b: &str) -> (r: bool)
    ensures
        r == (a@ == b@),
{
    chars_eq(&chars_of(a), &chars_of(b))
}

/// The background and text classes of a status badge (see `badge_colors`).
pub fn badge_classes(status: &str) -> (r: (&'static str, &'static str))
    ensures
        (r.0@, r.1@) == badge_colors(status@),
{
    if same_text(status, "applied") {
        ("bg-blue-100 dark:bg-blue-900", "text-blue-800 dark:text-blue-200")
    } else if same_text(status, "interviewing") {
        ("bg-yellow-100 dark:bg-yellow-900", "text-yellow-800 dark:text-yellow-200")
    } else if same_text(status, "rejected") {
        ("bg-red-100 dark:bg-red-900", "text-red-800 dark:text-red-200")
    } else if same_text(status, "offer") {
        ("bg-green-100 dark:bg-green-900", "text-green-800 dark:text-green-200")
    } else {
        ("bg-gray-100 dark:bg-gray-800", "text-gray-800 dark:text-gray-200")
    }
}

/// The card and value classes of an admin statistics card of a colour.
pub open spec fn stat_card_colors(color: Seq<char>) -> (Seq<char>, Seq<char>) {
    if color == "blue"@ {
        (
            "bg-blue-50 dark:bg-blue-900/20 border-blue-200 dark:border-blue-800"@,
            "text-blue-600 dark:text-blue-400"@,
        )
    } else if color == "green"@ {
        (
            "bg-green-50 dark:bg-green-900/20 border-green-200 dark:border-green-800"@,
            "text-green-600 dark:text-green-400"@,
        )
    } else if color == "red"@ {
        (
            "bg-red-50 dark:bg-red-900/20 border-red-200 dark:border-red-800"@,
            "text-red-600 dark:text-red-400"@,
        )
    } else if color == "purple"@ {
        (
            "bg-purple-50 dark:bg-purple-900/20 border-purple-200 dark:border-purple-800"@,
            "text-purple-600 dark:text-purple-400"@,
        )
    } else {
        (
            "bg-gray-50 dark:bg-gray-800 border-gray-200 dark:border-gray-700"@,
            "text-gray-600 dark:text-gray-400"@,
        )
    }
}

/// The card and value classes of an admin statistics card (see
/// `stat_card_colors`).
pub fn stat_card_classes(color: &str) -> (r: (&'static str, &'static str))
    ensures
        (r.0@, r.1@) == stat_card_colors(color@),
{
    if same_text(color, "blue") {
        (
            "bg-blue-50 dark:bg-blue-900/20 border-blue-200 dark:border-blue-800",
            "text-blue-600 dark:text-blue-400",
        )
    } else if same_text(color, "green") {
        (
            "bg-green-50 dark:bg-green-900/20 border-green-200 dark:border-green-800",
            "text-green-600 dark:text-green-400",
        )
    } else if same_text(color, "red") {
        ("bg-red-50 dark:bg-red-900/20 border-red-200 dark:border-red-800", "text-red-600 dark:text-red-400")
    } else if same_text(color, "purple") {
        (
            "bg-purple-50 dark:bg-purple-900/20 border-purple-200 dark:border-purple-800",
            "text-purple-600 dark:text-purple-400",
        )
    } else {
        ("bg-gray-50 dark:bg-gray-800 border-gray-200 dark:border-gray-700", "text-gray-600 dark:text-gray-400")
    }
}

// ---------------------------------------------------------------------------
// Dashboard
// ---------------------------------------------------------------------------

/// How many entries of `statuses` equal `s`.
pub open spec fn count_status(statuses: Seq<Seq<char>>, s: Seq<char>) -> nat
    decreases statuses.len(),
{
    if statuses.len() == 0 {
        0
    } else {
        count_status(statuses.drop_last(), s) + if statuses.last() == s {
            1nat
        } else {
            0nat
        }
    }
}

/// The statuses of a list of jobs.
pub open spec fn job_statuses(jobs: Seq<Job>) -> Seq<Seq<char>> {
    jobs.map_values(|j: Job| j.status@)
}

/// The dashboard's statistics.
#[derive(Debug, Clone, PartialEq, Eq)]
pub struct DashboardCounts {
    pub total: usize,
    pub applied: usize,
    pub interviewing: usize,
    pub offers: usize,
    pub rejected: usize,
}

/// The number of jobs, and how many are applied, interviewing, offers and
/// rejected.
pub fn dashboard_counts(jobs: &Vec<Job>) -> (r: DashboardCounts)
    ensures
        r.total == jobs@.len(),
        r.applied == count_status(job_statuses(jobs@), "applied"@),
        r.interviewing == count_status(job_statuses(jobs@), "interviewing"@),
        r.offers == count_status(job_statuses(jobs@), "offer"@),
        r.rejected == count_status(job_statuses(jobs@), "rejected"@),
{
    let mut applied: usize = 0;
    let mut interviewing: usize = 0;
    let mut offers: usize = 0;
    let mut rejected: usize = 0;
    let mut k: usize = 0;
    while k < jobs.len()
        invariant
            k <= jobs.len(),
            applied == count_status(job_statuses(jobs@.subrange(0, k as int)), "applied"@),
            interviewing == count_status(job_statuses(jobs@.subrange(0, k as int)), "interviewing"@),
            offers == count_status(job_statuses(jobs@.subrange(0, k as int)), "offer"@),
            rejected == count_status(job_statuses(jobs@.subrange(0, k as int)), "rejected"@),
            applied <= k && interviewing <= k && offers <= k && rejected <= k,
        decreases jobs.len() - k,
    {
        let st = jobs[k].status.as_str();
        let ghost pre = job_statuses(jobs@.subrange(0, k as int));
        assert(job_statuses(jobs@.subrange(0, k + 1)) =~= pre.push(jobs@[k as int].status@));
        assert(job_statuses(jobs@.subrange(0, k + 1)).drop_last() =~= pre);
        if same_text(st, "applied") {
            applied += 1;
        }
        if same_text(st, "interviewing") {
            interviewing += 1;
        }
        if same_text(st, "offer") {
            offers += 1;
        }
        if same_text(st, "rejected") {
            rejected += 1;
        }
        k += 1;
    }
    assert(jobs@.subrange(0, jobs.len() as int) =~= jobs@);
    DashboardCounts { total: jobs.len(), applied, interviewing, offers, rejected }
}

/// No status is counted more often than there are jobs, and statuses that
/// differ are counted apart: the four counted statuses together never exceed
/// the number of jobs.
pub proof fn lemma_status_counts_bounded(statuses: Seq<Seq<char>>)
    ensures
        count_status(statuses, "applied"@) + count_status(statuses, "interviewing"@)
            + count_status(statuses, "offer"@) + count_status(statuses, "rejected"@)
            <= statuses.len(),
    decreases statuses.len(),
{
    if statuses.len() > 0 {
        lemma_status_counts_bounded(statuses.drop_last());
        let l = statuses.last();
        reveal_strlit("applied");
        reveal_strlit("interviewing");
        reveal_strlit("offer");
        reveal_strlit("rejected");
        assert("applied"@ != "interviewing"@ && "applied"@ != "offer"@ && "applied"@
            != "rejected"@ && "interviewing"@ != "offer"@ && "interviewing"@ != "rejected"@
            && "offer"@ != "rejected"@) by {
            assert("applied"@.len() != "interviewing"@.len());
            assert("applied"@.len() != "offer"@.len());
            assert("applied"@[0] != "rejected"@[0]);
            assert("interviewing"@.len() != "offer"@.len());
            assert("interviewing"@.len() != "rejected"@.len());
            assert("offer"@.len() != "rejected"@.len());
        }
    }
}

/// How many jobs the dashboard lists as recent: at most five.
pub fn recent_count(n: usize) -> (r: usize)
    ensures
        r == if n < 5 {
            n
        } else {
            5
        },
{
    if n < 5 {
        n
    } else {
        5
    }
}

/// `Found `.
pub open spec fn found_text() -> Seq<char> {
    seq!['F', 'o', 'u', 'n', 'd', ' ']
}

/// `email`, and `emails` unless there is exactly one.
pub open spec fn email_word(count: nat) -> Seq<char> {
    if count == 1 {
        seq!['e', 'm', 'a', 'i', 'l']
    } else {
        seq!['e', 'm', 'a', 'i', 'l', 's']
    }
}

/// ` in your Gmail.`.
pub open spec fn in_gmail_text() -> Seq<char> {
    seq![' ', 'i', 'n', ' ', 'y', 'o', 'u', 'r', ' ', 'G', 'm', 'a', 'i', 'l', '.']
}

/// The message after a Gmail scan: `Found <n> email(s) in your Gmail.`
pub open spec fn scan_message(count: nat) -> Seq<char> {
    found_text() + int_text(count as int) + seq![' '] + email_word(count) + in_gmail_text()
}

/// The scan message reads `Found <count> email`, followed by `s` exactly when
/// the count is not 1, followed by ` in your Gmail.`: the plural marker sits
/// right after `Found `, the number and ` email`.
pub proof fn lemma_scan_message_plural(count: nat)
    ensures
        scan_message(count).subrange(0, 6) == seq!['F', 'o', 'u', 'n', 'd', ' '],
        scan_message(count).subrange(6, 6 + (int_text(count as int).len() as int)) == int_text(count as int),
        scan_message(count).subrange(
            6 + (int_text(count as int).len() as int),
            12 + (int_text(count as int).len() as int),
        ) == seq![' ', 'e', 'm', 'a', 'i', 'l'],
        (scan_message(count)[12 + (int_text(count as int).len() as int)] == 's') <==> count != 1,
        scan_message(count).len() == 27 + (int_text(count as int).len() as int) + if count == 1 {
            0int
        } else {
            1int
        },
{
    let d = int_text(count as int);
    let m = scan_message(count);
    assert(m.subrange(0, 6) =~= found_text());
    assert(m.subrange(6, 6 + (d.len() as int)) =~= d);
    assert(m.subrange(6 + (d.len() as int), 12 + (d.len() as int)) =~= seq![' ', 'e', 'm', 'a', 'i', 'l']);
    if count == 1 {
        assert(m[12 + (d.len() as int)] == ' ');
    } else {
        assert(m[12 + (d.len() as int)] == 's');
    }
}

fn append(out: &mut Vec<char>, more: Vec<char>)
    ensures
        final(out)@ == old(out)@ + more@,
{
    let mut k: usize = 0;
    while k < more.len()
        invariant
            k <= more.len(),
            out@ == old(out)@ + more@.subrange(0, k as int),
        decreases more.len() - k,
    {
        out.push(more[k]);
        k += 1;
    }
    assert(more@.subrange(0, more.len() as int) =~= more@);
}

/// The message after a Gmail scan that found `count` e-mails.
pub fn scan_result_message(count: usize) -> (r: String)
    ensures
        r@ == scan_message(count as nat),
{
    let mut out: Vec<char> = vec!['F', 'o', 'u', 'n', 'd', ' '];
    assert(out@ =~= found_text());
    push_decimal(count as u64, &mut out);
    out.push(' ');
    let word = if count == 1 {
        vec!['e', 'm', 'a', 'i', 'l']
    } else {
        vec!['e', 'm', 'a', 'i', 'l', 's']
    };
    assert(word@ =~= email_word(count as nat));
    append(&mut out, word);
    let tail = vec![' ', 'i', 'n', ' ', 'y', 'o', 'u', 'r', ' ', 'G', 'm', 'a', 'i', 'l', '.'];
    assert(tail@ =~= in_gmail_text());
    append(&mut out, tail);
    assert(out@ =~= scan_message(count as nat));
    string_from_chars(&out)
}

// ---------------------------------------------------------------------------
// Status stepper
// ---------------------------------------------------------------------------

/// How one step of the status stepper is drawn.
#[derive(Debug, Clone, PartialEq, Eq)]
pub struct StepState {
    /// The step's number, from 1.
    pub index: usize,
    /// The status id of the step.
    pub status_id: i32,
    /// The job is past this status.
    pub is_completed: bool,
    /// The job is at this status.
    pub is_current: bool,
    /// The step is the last one (no arrow after it).
    pub is_last: bool,
}

/// The current status id, with none counting as 0.
pub open spec fn current_or_zero(c: Option<i32>) -> i32 {
    match c {
        Some(v) => v,
        None => 0,
    }
}

/// `steps` are the stepper's steps for the statuses and the current status
/// id (none counts as 0): step `k` is the `k`-th status, numbered from 1,
/// completed when the current id is larger than the status id, current when
/// it is equal, and last when it is the final one.
pub open spec fn steps_of(statuses: Seq<JobStatus>, current_status_id: Option<i32>, steps: Seq<
    StepState,
>) -> bool {
    &&& steps.len() == statuses.len()
    &&& forall|k: int|
        #![trigger steps[k]]
        0 <= k < steps.len() ==> {
            &&& steps[k].index == k + 1
            &&& steps[k].status_id == statuses[k].id
            &&& steps[k].is_completed == (current_or_zero(current_status_id) > statuses[k].id)
            &&& steps[k].is_current == (current_or_zero(current_status_id) == statuses[k].id)
            &&& steps[k].is_last == (k + 1 == statuses.len())
        }
}

/// The steps of the status stepper for a job at status `current_status_id`
/// (see `steps_of`).
pub fn step_states(statuses: &Vec<JobStatus>, current_status_id: Option<i32>) -> (r: Vec<StepState>)
    ensures
        steps_of(statuses@, current_status_id, r@),
{
    let cur = match current_status_id {
        Some(c) => c,
        None => 0,
    };
    let n = statuses.len();
    let mut out: Vec<StepState> = Vec::new();
    let mut k: usize = 0;
    while k < n
        invariant
            k <= n == statuses@.len(),
            cur == current_or_zero(current_status_id),
            out@.len() == k,
            forall|j: int|
                #![trigger out@[j]]
                0 <= j < k ==> {
                    &&& out@[j].index == j + 1
                    &&& out@[j].status_id == statuses@[j].id
                    &&& out@[j].is_completed == (cur > statuses@[j].id)
                    &&& out@[j].is_current == (cur == statuses@[j].id)
                    &&& out@[j].is_last == (j + 1 == statuses@.len())
                },
        decreases n - k,
    {
        let id = statuses[k].id;
        let ghost before = out@;
        out.push(
            StepState {
                index: k + 1,
                status_id: id,
                is_completed: cur > id,
                is_current: cur == id,
                is_last: k + 1 == n,
            },
        );
        assert forall|j: int| #![trigger out@[j]] 0 <= j < k + 1 implies {
            &&& out@[j].index == j + 1
            &&& out@[j].status_id == statuses@[j].id
            &&& out@[j].is_completed == (cur > statuses@[j].id)
            &&& out@[j].is_current == (cur == statuses@[j].id)
            &&& out@[j].is_last == (j + 1 == statuses@.len())
        } by {
            if j < k {
                assert(out@[j] == before[j]);
            }
        }
        k += 1;
    }
    out
}

/// When the status ids are pairwise distinct, at most one step of the
/// stepper is current.
pub proof fn lemma_at_most_one_current(
    statuses: Seq<JobStatus>,
    current_status_id: Option<i32>,
    steps: Seq<StepState>,
)
    requires
        steps_of(statuses, current_status_id, steps),
        forall|k: int, l: int|
            0 <= k < l < statuses.len() ==> #[trigger] statuses[k].id != #[trigger] statuses[l].id,
    ensures
        forall|k: int, l: int|
            0 <= k < l < steps.len() ==> !(#[trigger] steps[k].is_current && #[trigger] steps[l].is_current),
{
}

/// With the statuses listed in increasing id order, the stepper reads from
/// left to right: the completed steps come first, and no step after the
/// current one is completed or current.
pub proof fn lemma_steps_in_order(
    statuses: Seq<JobStatus>,
    current_status_id: Option<i32>,
    steps: Seq<StepState>,
)
    requires
        steps_of(statuses, current_status_id, steps),
        forall|k: int, l: int|
            0 <= k < l < statuses.len() ==> #[trigger] statuses[k].id < #[trigger] statuses[l].id,
    ensures
        forall|k: int, l: int|
            0 <= k < l < steps.len() && (#[trigger] steps[l]).is_completed ==> (
            #[trigger] steps[k]).is_completed,
        forall|k: int, l: int|
            0 <= k < l < steps.len() && (#[trigger] steps[k]).is_current ==> !(
            #[trigger] steps[l]).is_completed && !steps[l].is_current,
{
}

// ---------------------------------------------------------------------------
// Small decisions of the interface
// ---------------------------------------------------------------------------

/// Whether to offer converting a contact to a saved contact: it was detected
/// as a system address and is not saved as one already.
pub fn show_convert_suggestion(is_system_detected: bool, is_system: bool) -> (r: bool)
    ensures
        r == (is_system_detected && !is_system),
{
    is_system_detected && !is_system
}

/// The timezone to store from the timezone picker: the empty choice (UTC) is
/// stored as none.
pub fn timezone_choice(tz: Option<String>) -> (r: Option<String>)
    ensures
        match tz {
            Some(t) => if t@.len() == 0 {
                r is None
            } else {
                r matches Some(v) && v@ == t@
            },
            None => r is None,
        },
{
    match tz {
        Some(t) => if t.as_str().is_empty() {
            None
        } else {
            Some(t)
        },
        None => None,
    }
}

/// The option index of the `tz_index`-th timezone of the `region_index`-th
/// region in the timezone picker: regions are numbered by hundreds from 100.
pub fn timezone_option_index(region_index: usize, tz_index: usize) -> (r: usize)
    requires
        (region_index + 1) * 100 + tz_index <= usize::MAX,
    ensures
        r == (region_index + 1) * 100 + tz_index,
{
    (region_index + 1) * 100 + tz_index
}

/// Whether a user is enabled; users without the flag are enabled.
pub fn user_enabled(user: &User) -> (r: bool)
    ensures
        r == match user.enabled {
            Some(e) => e,
            None => true,
        },
{
    match user.enabled {
        Some(e) => e,
        None => true,
    }
}

/// Whether a user is an administrator; users without the flag are not.
pub fn user_is_admin(user: &User) -> (r: bool)
    ensures
        r == (user.is_admin == Some(true)),
{
    match user.is_admin {
        Some(a) => a,
        None => false,
    }
}

/// The text of a comment to post: trimmed; nothing to post when empty.
pub fn comment_to_post(text: &str) -> (r: Option<String>)
    ensures
        match r {
            Some(v) => v@ == trim(text@) && v@.len() > 0,
            None => trim(text@).len() == 0,
        },
{
    optional_field(text)
}

/// Whether the registration form can be submitted: address, password and
/// name are all filled in.
pub fn can_register(email: &str, password: &str, name: &str) -> (r: bool)
    ensures
        r == (email@.len() > 0 && password@.len() > 0 && name@.len() > 0),
{
    !email.is_empty() && !password.is_empty() && !name.is_empty()
}

/// Whether the sign-in form can be submitted: address and password are
/// filled in.
pub fn can_sign_in(email: &str, password: &str) -> (r: bool)
    ensures
        r == (email@.len() > 0 && password@.len() > 0),
{
    !email.is_empty() && !password.is_empty()
}

/// `s` holds `p` somewhere.
pub open spec fn contains_text(s: Seq<char>, p: Seq<char>) -> bool {
    exists|i: int| 0 <= i && i + p.len() <= s.len() && #[trigger] s.subrange(i, i + p.len()) == p
}

fn has_text(s: &Vec<char>, p: &Vec<char>) -> (r: bool)
    ensures
        r == contains_text(s@, p@),
{
    if p.len() == 0 {
        assert(s@.subrange(0int, 0int + p@.len()) =~= p@);
        return true;
    }
    if p.len() > s.len() {
        return false;
    }
    let last = s.len() - p.len();
    let mut i: usize = 0;
    while i <= last
        invariant
            last == s.len() - p.len(),
            p@.len() > 0,
            i <= last + 1,
            forall|j: int| 0 <= j < i && j + p@.len() <= s@.len() ==> #[trigger] s@.subrange(j, j + p@.len()) != p@,
        decreases last + 1 - i,
    {
        if occurs_at(s, p, i) {
            assert(s@.subrange(i as int, i + p@.len()) == p@);
            return true;
        }
        i += 1;
    }
    false
}

/// The classes of a dropdown panel: the base classes (without the top margin
/// when the custom classes open it upwards with `bottom-full`), followed by
/// the custom classes.
pub open spec fn dropdown_class(custom: Option<Seq<char>>) -> Seq<char> {
    let upward = match custom {
        Some(c) => contains_text(c, "bottom-full"@),
        None => false,
    };
    let base = if upward {
        "absolute z-10 w-64 rounded-lg bg-white p-2 shadow-lg ring-1 ring-black ring-opacity-5 dark:bg-zinc-800 dark:ring-white/10"@
    } else {
        "absolute z-10 mt-2 w-64 rounded-lg bg-white p-2 shadow-lg ring-1 ring-black ring-opacity-5 dark:bg-zinc-800 dark:ring-white/10"@
    };
    match custom {
        Some(c) => base + seq![' '] + c,
        None => base,
    }
}

/// The classes of a dropdown panel (see `dropdown_class`).
pub fn dropdown_content_class(custom: Option<&str>) -> (r: String)
    ensures
        r@ == dropdown_class(
            match custom {
                Some(c) => Some(c@),
                None => None,
            },
        ),
{
    let upward = match custom {
        Some(c) => has_text(&chars_of(c), &chars_of("bottom-full")),
        None => false,
    };
    let base = if upward {
        "absolute z-10 w-64 rounded-lg bg-white p-2 shadow-lg ring-1 ring-black ring-opacity-5 dark:bg-zinc-800 dark:ring-white/10"
    } else {
        "absolute z-10 mt-2 w-64 rounded-lg bg-white p-2 shadow-lg ring-1 ring-black ring-opacity-5 dark:bg-zinc-800 dark:ring-white/10"
    };
    let mut out = chars_of(base);
    match custom {
        Some(c) => {
            out.push(' ');
            append(&mut out, chars_of(c));
        },
        None => {},
    }
    string_from_chars(&out)
}

/// The classes of a simple dropdown's panel: the base classes, the
/// positioning (above the trigger when the custom classes hold
/// `bottom-full`, below it otherwise), then the custom classes.
pub open spec fn simple_dropdown_class(custom: Option<Seq<char>>) -> Seq<char> {
    let upward = match custom {
        Some(c) => contains_text(c, "bottom-full"@),
        None => false,
    };
    let base = "absolute z-50 w-56 rounded-lg bg-white p-2 shadow-lg ring-1 ring-black ring-opacity-5 dark:bg-zinc-800 dark:ring-white/10"@;
    let position = if upward {
        "bottom-full mb-2 left-0"@
    } else {
        "top-full mt-2 left-0"@
    };
    match custom {
        Some(c) => base + seq![' '] + position + seq![' '] + c,
        None => base + seq![' '] + position,
    }
}

/// The classes of a simple dropdown's panel (see `simple_dropdown_class`).
pub fn simple_dropdown_content_class(custom: Option<&str>) -> (r: String)
    ensures
        r@ == simple_dropdown_class(
            match custom {
                Some(c) => Some(c@),
                None => None,
            },
        ),
{
    let upward = match custom {
        Some(c) => has_text(&chars_of(c), &chars_of("bottom-full")),
        None => false,
    };
    let position = if upward {
        "bottom-full mb-2 left-0"
    } else {
        "top-full mt-2 left-0"
    };
    let mut out = chars_of(
        "absolute z-50 w-56 rounded-lg bg-white p-2 shadow-lg ring-1 ring-black ring-opacity-5 dark:bg-zinc-800 dark:ring-white/10",
    );
    out.push(' ');
    append(&mut out, chars_of(position));
    match custom {
        Some(c) => {
            out.push(' ');
            append(&mut out, chars_of(c));
        },
        None => {},
    }
    string_from_chars(&out)
}

} // verus!
