//! Dates shown in the e-mail list.

use vstd::prelude::*;

verus! {

/// The text of the date-time that `text` parses to as RFC 3339, rendered
/// with the strftime pattern `fmt`; `None` when it does not parse
/// (`chrono::DateTime::parse_from_rfc3339`, then `format`).
pub uninterp spec fn rfc3339_rendered(text: Seq<char>, fmt: Seq<char>) -> Option<Seq<char>>;

/// The text of the date-time that `text` parses to with the strftime pattern
/// `parse_fmt`, rendered with the pattern `fmt`; `None` when it does not
/// parse (`chrono::DateTime::parse_from_str`, then `format`).
pub uninterp spec fn pattern_rendered(text: Seq<char>, parse_fmt: Seq<char>, fmt: Seq<char>) -> Option<
    Seq<char>,
>;

/// `%b %d, %Y`: abbreviated month, zero-padded day, year (`Jan 05, 2024`).
pub open spec fn short_date_pattern() -> Seq<char> {
    seq!['%', 'b', ' ', '%', 'd', ',', ' ', '%', 'Y']
}

/// `%a, %d %b %Y %H:%M:%S %z`: the date form of e-mail headers
/// (`Fri, 05 Jan 2024 10:00:00 +0000`).
pub open spec fn mail_date_pattern() -> Seq<char> {
    seq![
        '%', 'a', ',', ' ', '%', 'd', ' ', '%', 'b', ' ', '%', 'Y', ' ', '%', 'H', ':', '%', 'M',
        ':', '%', 'S', ' ', '%', 'z',
    ]
}

/// Calls `chrono::DateTime::parse_from_rfc3339` and, when it parses, renders
/// the date-time with `format(fmt)`. Claimed: the result is the named
/// rendering. The pattern is held to the short-date pattern, whose every
/// specifier renders (a pattern that fails to render would panic).
#[verifier::external_body]
fn render_rfc3339(text: &str, fmt: &str) -> (r: Option<String>)
    requires
        fmt@ == short_date_pattern(),
    ensures
        match r {
            Some(d) => rfc3339_rendered(text@, fmt@) == Some(d@),
            None => rfc3339_rendered(text@, fmt@).is_none(),
        },
{
    match chrono::DateTime::parse_from_rfc3339(text) {
        Ok(dt) => Some(dt.format(fmt).to_string()),
        Err(_) => None,
    }
}

/// Calls `chrono::DateTime::parse_from_str` with the pattern `parse_fmt`
/// and, when it parses, renders the date-time with `format(fmt)`. Claimed:
/// the result is the named rendering. The output pattern is held to the
/// short-date pattern, as above.
#[verifier::external_body]
fn render_with_pattern(text: &str, parse_fmt: &str, fmt: &str) -> (r: Option<String>)
    requires
        fmt@ == short_date_pattern(),
    ensures
        match r {
            Some(d) => pattern_rendered(text@, parse_fmt@, fmt@) == Some(d@),
            None => pattern_rendered(text@, parse_fmt@, fmt@).is_none(),
        },
{
    match chrono::DateTime::parse_from_str(text, parse_fmt) {
        Ok(dt) => Some(dt.format(fmt).to_string()),
        Err(_) => None,
    }
}

/// The date text shown for an e-mail, from what the two readings of its date
/// gave: the RFC 3339 reading when there is one, else the e-mail header
/// reading, else the date as stored.
pub fn pick_date_text(rfc3339: Option<String>, mail_header: Option<String>, stored: &str) -> (r: String)
    ensures
        r@ == match rfc3339 {
            Some(d) => d@,
            None => match mail_header {
                Some(d) => d@,
                None => stored@,
            },
        },
{
    match rfc3339 {
        Some(d) => d,
        None => match mail_header {
            Some(d) => d,
            None => crate::text::string_from_chars(&crate::text::chars_of(stored)),
        },
    }
}

/// The date of an e-mail as shown in the list: `Jan 05, 2024` when the stored
/// date parses as RFC 3339 or in the e-mail header form, else the stored
/// text unchanged.
pub fn format_date(date_str: &str) -> (r: String)
    ensures
        r@ == match rfc3339_rendered(date_str@, short_date_pattern()) {
            Some(d) => d,
            None => match pattern_rendered(date_str@, mail_date_pattern(), short_date_pattern()) {
                Some(d) => d,
                None => date_str@,
            },
        },
{
    let short = "%b %d, %Y";
    let mail = "%a, %d %b %Y %H:%M:%S %z";
    proof {
        reveal_strlit("%b %d, %Y");
        reveal_strlit("%a, %d %b %Y %H:%M:%S %z");
        assert(short@ =~= short_date_pattern());
        assert(mail@ =~= mail_date_pattern());
    }
    let first = render_rfc3339(date_str, short);
    if first.is_some() {
        pick_date_text(first, None, date_str)
    } else {
        let second = render_with_pattern(date_str, mail, short);
        pick_date_text(first, second, date_str)
    }
}

} // verus!
