//! Jobs: the job record, input validation, and the normalisation of job
//! identifiers read back from the database.

use vstd::prelude::*;
use crate::text::{chars_eq, chars_of, string_from_chars};

verus! {

/// A job application.
#[derive(Debug, Clone, PartialEq, Eq)]
pub struct Job {
    pub id: Option<String>,
    pub title: String,
    pub company: String,
    pub location: Option<String>,
    pub status: String,
    pub description: Option<String>,
    pub created_at: Option<String>,
    pub updated_at: Option<String>,
}

/// A job status (pipeline stage).
#[derive(Debug, Clone, PartialEq, Eq)]
pub struct JobStatus {
    pub id: i32,
    pub name: String,
    pub display_name: String,
    pub description: Option<String>,
}

/// The status a job gets when none is given ("open").
pub const DEFAULT_STATUS_ID: i32 = 100;

/// Why a job input is refused.
#[derive(Debug, Clone, PartialEq, Eq)]
pub enum JobInputError {
    /// The title or the company is empty.
    TitleAndCompanyRequired,
    /// No status has the requested id.
    InvalidStatusId,
}

/// The decimal digit for `d` (0 to 9).
pub open spec fn digit_char(d: int) -> char {
    if d == 0 {
        '0'
    } else if d == 1 {
        '1'
    } else if d == 2 {
        '2'
    } else if d == 3 {
        '3'
    } else if d == 4 {
        '4'
    } else if d == 5 {
        '5'
    } else if d == 6 {
        '6'
    } else if d == 7 {
        '7'
    } else if d == 8 {
        '8'
    } else {
        '9'
    }
}

/// The decimal text of a natural number, without leading zeros.
pub open spec fn decimal_of(n: nat) -> Seq<char>
    decreases n,
{
    if n < 10 {
        seq![digit_char(n as int)]
    } else {
        decimal_of(n / 10).push(digit_char((n % 10) as int))
    }
}

/// The decimal text of an integer, with a leading `-` when it is negative
/// (what `Display` prints for the integer types).
pub open spec fn int_text(i: int) -> Seq<char> {
    if i < 0 {
        seq!['-'] + decimal_of((-i) as nat)
    } else {
        decimal_of(i as nat)
    }
}

/// The decimal digit character for `d` (0 to 9).
pub fn decimal_digit(d: u64) -> (c: char)
    requires
        d < 10,
    ensures
        c == digit_char(d as int),
{
    if d == 0 {
        '0'
    } else if d == 1 {
        '1'
    } else if d == 2 {
        '2'
    } else if d == 3 {
        '3'
    } else if d == 4 {
        '4'
    } else if d == 5 {
        '5'
    } else if d == 6 {
        '6'
    } else if d == 7 {
        '7'
    } else if d == 8 {
        '8'
    } else {
        '9'
    }
}

/// Append the decimal digits of `n` to `out`.
pub fn push_decimal(n: u64, out: &mut Vec<char>)
    ensures
        final(out)@ == old(out)@ + decimal_of(n as nat),
    decreases n,
{
    if n >= 10 {
        push_decimal(n / 10, out);
    }
    let ghost mid = out@;
    out.push(decimal_digit(n % 10));
    if n >= 10 {
        assert(final(out)@ =~= old(out)@ + decimal_of(n as nat));
    } else {
        assert(final(out)@ =~= old(out)@ + decimal_of(n as nat));
    }
}

/// The decimal text of an unsigned integer.
pub fn u64_text(n: u64) -> (r: String)
    ensures
        r@ == int_text(n as int),
{
    let mut v: Vec<char> = Vec::new();
    push_decimal(n, &mut v);
    assert(v@ =~= decimal_of(n as nat));
    string_from_chars(&v)
}

/// The decimal text of a signed integer.
pub fn i64_text(i: i64) -> (r: String)
    ensures
        r@ == int_text(i as int),
{
    let mut v: Vec<char> = Vec::new();
    if i < 0 {
        v.push('-');
        let wide = i as i128;
        let magnitude = (-wide) as u64;
        push_decimal(magnitude, &mut v);
        assert(v@ =~= seq!['-'] + decimal_of((-(i as int)) as nat));
    } else {
        push_decimal(i as u64, &mut v);
        assert(v@ =~= decimal_of(i as nat));
    }
    string_from_chars(&v)
}

/// The value stored in a job row's `id` column, as the database reports it.
#[derive(Debug, Clone, PartialEq, Eq)]
pub enum JobIdValue {
    Text(String),
    Signed(i64),
    Unsigned(u64),
    Other,
}

/// `new` is the id `old` normalised to text: an integer becomes its decimal
/// text; text, other values and a missing id are kept.
pub open spec fn normalized_id(old: Option<JobIdValue>, new: Option<JobIdValue>) -> bool {
    match old {
        Some(JobIdValue::Signed(i)) => new matches Some(JobIdValue::Text(t)) && t@ == int_text(
            i as int,
        ),
        Some(JobIdValue::Unsigned(u)) => new matches Some(JobIdValue::Text(t)) && t@ == int_text(
            u as int,
        ),
        _ => new == old,
    }
}

/// Normalise a job's `id` to text (see `normalized_id`).
pub fn normalize_job_id(id: &mut Option<JobIdValue>)
    ensures
        normalized_id(*old(id), *final(id)),
{
    let replacement = match id {
        Some(JobIdValue::Signed(i)) => Some(JobIdValue::Text(i64_text(*i))),
        Some(JobIdValue::Unsigned(u)) => Some(JobIdValue::Text(u64_text(*u))),
        _ => None,
    };
    if let Some(r) = replacement {
        *id = Some(r);
    }
}

/// Check a job input: the title and the company must be non-empty. On
/// success, the status the job gets: the given one, or the default.
pub fn validate_job(job: &Job, status_id: Option<i32>) -> (r: Result<i32, JobInputError>)
    ensures
        job.title@.len() == 0 || job.company@.len() == 0 <==> r is Err,
        r matches Err(e) ==> e is TitleAndCompanyRequired,
        r matches Ok(s) ==> s == match status_id {
            Some(v) => v,
            None => DEFAULT_STATUS_ID,
        },
{
    if job.title.as_str().is_empty() || job.company.as_str().is_empty() {
        return Err(JobInputError::TitleAndCompanyRequired);
    }
    match status_id {
        Some(v) => Ok(v),
        None => Ok(DEFAULT_STATUS_ID),
    }
}

/// Normalising an id twice gives what normalising it once gives.
pub proof fn lemma_normalize_idempotent(
    id: Option<JobIdValue>,
    once: Option<JobIdValue>,
    twice: Option<JobIdValue>,
)
    requires
        normalized_id(id, once),
        normalized_id(once, twice),
    ensures
        twice == once,
{
}

/// The status of a job input once it has been looked up: kept when a status
/// with that id exists.
pub fn accept_status(status_id: i32, status_found: bool) -> (r: Result<i32, JobInputError>)
    ensures
        status_found ==> (r matches Ok(s) && s == status_id),
        !status_found ==> r matches Err(JobInputError::InvalidStatusId),
{
    if status_found {
        Ok(status_id)
    } else {
        Err(JobInputError::InvalidStatusId)
    }
}

/// The text `true`.
pub open spec fn true_text() -> Seq<char> {
    seq!['t', 'r', 'u', 'e']
}

/// Whether an update touches only the description: the `description_only`
/// query parameter is present and is exactly `true`.
pub fn is_description_only(param: Option<&str>) -> (r: bool)
    ensures
        r == (param matches Some(p) && p@ == true_text()),
{
    match param {
        Some(p) => {
            let t = vec!['t', 'r', 'u', 'e'];
            assert(t@ =~= true_text());
            chars_eq(&chars_of(p), &t)
        },
        None => false,
    }
}

} // verus!
