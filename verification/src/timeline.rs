//! The timeline of a job: its creation, its last status change, the e-mails
//! linked to it and its comments, newest first.

use vstd::prelude::*;
use crate::text::{chars_of, chars_eq};

verus! {

/// What the timeline reads of a job row.
#[derive(Debug, Clone, PartialEq, Eq)]
pub struct JobFacts {
    pub created_at: Option<String>,
    pub updated_at: Option<String>,
    pub title: Option<String>,
    pub status: Option<String>,
}

/// What the timeline reads of an e-mail row.
#[derive(Debug, Clone, PartialEq, Eq)]
pub struct EmailFacts {
    pub date: Option<String>,
    pub subject: Option<String>,
    pub from: Option<String>,
    pub gmail_id: Option<String>,
}

/// What the timeline reads of a comment row.
#[derive(Debug, Clone, PartialEq, Eq)]
pub struct CommentFacts {
    pub created_at: Option<String>,
    pub content: Option<String>,
    pub name: Option<String>,
    pub picture: Option<String>,
}

/// The payload of a timeline event.
#[derive(Debug, Clone, PartialEq, Eq)]
pub enum TimelineData {
    JobCreated { title: String },
    StatusChanged { status: String },
    EmailReceived { subject: String, from: String, gmail_id: String },
    CommentAdded { content: String, user_name: Option<String>, user_picture: Option<String> },
}

/// One timeline event.
#[derive(Debug, Clone, PartialEq, Eq)]
pub struct TimelineEvent {
    pub timestamp: String,
    pub data: TimelineData,
}

/// The mathematical value of a timeline payload.
pub enum DataView {
    JobCreated { title: Seq<char> },
    StatusChanged { status: Seq<char> },
    EmailReceived { subject: Seq<char>, from: Seq<char>, gmail_id: Seq<char> },
    CommentAdded {
        content: Seq<char>,
        user_name: Option<Seq<char>>,
        user_picture: Option<Seq<char>>,
    },
}

/// The mathematical value of a timeline event.
pub struct EventView {
    pub timestamp: Seq<char>,
    pub data: DataView,
}

/// The text of an optional string; missing text reads as empty.
pub open spec fn text_or_empty(s: Option<String>) -> Seq<char> {
    match s {
        Some(t) => t@,
        None => Seq::empty(),
    }
}

/// The text of an optional string, kept optional.
pub open spec fn opt_text(s: Option<String>) -> Option<Seq<char>> {
    match s {
        Some(t) => Some(t@),
        None => None,
    }
}

impl View for TimelineData {
    type V = DataView;

    open spec fn view(&self) -> DataView {
        match self {
            TimelineData::JobCreated { title } => DataView::JobCreated { title: title@ },
            TimelineData::StatusChanged { status } => DataView::StatusChanged { status: status@ },
            TimelineData::EmailReceived { subject, from, gmail_id } => DataView::EmailReceived {
                subject: subject@,
                from: from@,
                gmail_id: gmail_id@,
            },
            TimelineData::CommentAdded { content, user_name, user_picture } =>
                DataView::CommentAdded {
                content: content@,
                user_name: opt_text(*user_name),
                user_picture: opt_text(*user_picture),
            },
        }
    }
}

impl View for TimelineEvent {
    type V = EventView;

    open spec fn view(&self) -> EventView {
        EventView { timestamp: self.timestamp@, data: self.data@ }
    }
}

/// The values of a list of events.
pub open spec fn events_view(s: Seq<TimelineEvent>) -> Seq<EventView> {
    s.map_values(|e: TimelineEvent| e@)
}

/// The events of the job itself: its creation when it has a creation time,
/// then a status change when its update time differs from its creation time.
pub open spec fn job_events(job: JobFacts) -> Seq<EventView> {
    let created = match job.created_at {
        Some(c) => seq![
            EventView {
                timestamp: c@,
                data: DataView::JobCreated { title: text_or_empty(job.title) },
            },
        ],
        None => Seq::empty(),
    };
    let changed = match (job.created_at, job.updated_at) {
        (Some(c), Some(u)) => if c@ != u@ {
            seq![
                EventView {
                    timestamp: u@,
                    data: DataView::StatusChanged { status: text_or_empty(job.status) },
                },
            ]
        } else {
            Seq::empty()
        },
        _ => Seq::empty(),
    };
    created + changed
}

/// The events of the e-mails that have a date, in order.
pub open spec fn email_events(emails: Seq<EmailFacts>) -> Seq<EventView>
    decreases emails.len(),
{
    if emails.len() == 0 {
        Seq::empty()
    } else {
        let rest = email_events(emails.drop_last());
        let e = emails.last();
        match e.date {
            Some(d) => rest.push(
                EventView {
                    timestamp: d@,
                    data: DataView::EmailReceived {
                        subject: text_or_empty(e.subject),
                        from: text_or_empty(e.from),
                        gmail_id: text_or_empty(e.gmail_id),
                    },
                },
            ),
            None => rest,
        }
    }
}

/// The events of the comments that have a creation time, in order.
pub open spec fn comment_events(comments: Seq<CommentFacts>) -> Seq<EventView>
    decreases comments.len(),
{
    if comments.len() == 0 {
        Seq::empty()
    } else {
        let rest = comment_events(comments.drop_last());
        let c = comments.last();
        match c.created_at {
            Some(t) => rest.push(
                EventView {
                    timestamp: t@,
                    data: DataView::CommentAdded {
                        content: text_or_empty(c.content),
                        user_name: opt_text(c.name),
                        user_picture: opt_text(c.picture),
                    },
                },
            ),
            None => rest,
        }
    }
}

/// All events before ordering: the job's, then the e-mails', then the
/// comments'.
pub open spec fn unordered_events(
    job: JobFacts,
    emails: Seq<EmailFacts>,
    comments: Seq<CommentFacts>,
) -> Seq<EventView> {
    job_events(job) + email_events(emails) + comment_events(comments)
}

/// `a` comes strictly before `b` in the lexicographic order of texts (by
/// code point, which is the byte order of their UTF-8 encodings).
pub open spec fn text_lt(a: Seq<char>, b: Seq<char>) -> bool
    decreases a.len(),
{
    if b.len() == 0 {
        false
    } else if a.len() == 0 {
        true
    } else if (a[0] as int) < (b[0] as int) {
        true
    } else if a[0] == b[0] {
        text_lt(a.drop_first(), b.drop_first())
    } else {
        false
    }
}

/// The events are ordered newest first: no timestamp is smaller than a later
/// one.
pub open spec fn newest_first(s: Seq<EventView>) -> bool {
    forall|i: int, j: int| 0 <= i < j < s.len() ==> !text_lt(s[i].timestamp, s[j].timestamp)
}

/// `p` is a permutation of `0..n`.
pub open spec fn is_permutation(p: Seq<int>, n: nat) -> bool {
    &&& p.len() == n
    &&& forall|k: int| 0 <= k < n ==> 0 <= #[trigger] p[k] < n
    &&& forall|k: int, l: int| 0 <= k < l < n ==> p[k] != p[l]
}

/// `out` is `input` sorted newest first by a stable sort: it has as many
/// events as `input`, a permutation places each input event, and events with
/// equal timestamps keep their input order.
pub open spec fn is_stable_newest_first(input: Seq<EventView>, out: Seq<EventView>) -> bool {
    &&& out.len() == input.len()
    &&& newest_first(out)
    &&& exists|p: Seq<int>|
        {
            &&& is_permutation(p, input.len())
            &&& forall|k: int| 0 <= k < out.len() ==> #[trigger] out[k] == input[p[k]]
            &&& forall|k: int, l: int|
                0 <= k < l < out.len() && out[k].timestamp == out[l].timestamp ==> p[k] < p[l]
        }
}

// ---------------------------------------------------------------------------
// Order lemmas
// ---------------------------------------------------------------------------

proof fn lemma_text_lt_irreflexive(a: Seq<char>)
    ensures
        !text_lt(a, a),
    decreases a.len(),
{
    if a.len() > 0 {
        lemma_text_lt_irreflexive(a.drop_first());
    }
}

proof fn lemma_text_lt_asymmetric(a: Seq<char>, b: Seq<char>)
    ensures
        !(text_lt(a, b) && text_lt(b, a)),
    decreases a.len(),
{
    if a.len() > 0 && b.len() > 0 && a[0] == b[0] {
        lemma_text_lt_asymmetric(a.drop_first(), b.drop_first());
    }
}

proof fn lemma_text_lt_total(a: Seq<char>, b: Seq<char>)
    ensures
        text_lt(a, b) || text_lt(b, a) || a == b,
    decreases a.len(),
{
    if a.len() > 0 && b.len() > 0 {
        if a[0] == b[0] {
            lemma_text_lt_total(a.drop_first(), b.drop_first());
            if a.drop_first() == b.drop_first() {
                assert(a =~= seq![a[0]] + a.drop_first());
                assert(b =~= seq![b[0]] + b.drop_first());
            }
        } else {
            assert((a[0] as int) != (b[0] as int));
        }
    } else if a.len() == 0 && b.len() == 0 {
        assert(a =~= b);
    }
}

proof fn lemma_text_lt_transitive(a: Seq<char>, b: Seq<char>, c: Seq<char>)
    requires
        text_lt(a, b),
        text_lt(b, c),
    ensures
        text_lt(a, c),
    decreases a.len(),
{
    if a.len() > 0 && b.len() > 0 && c.len() > 0 && a[0] == b[0] && b[0] == c[0] {
        lemma_text_lt_transitive(a.drop_first(), b.drop_first(), c.drop_first());
    }
}

/// A permutation of `0..n` reaches every position.
proof fn lemma_permutation_onto(p: Seq<int>, n: nat, k: int)
    requires
        is_permutation(p, n),
        0 <= k < n,
    ensures
        exists|j: int| 0 <= j < n && p[j] == k,
{
    assert(p.no_duplicates()) by {
        assert forall|a: int, b: int| 0 <= a < p.len() && 0 <= b < p.len() && a != b implies p[a]
            != p[b] by {
            if a < b {
            } else {
            }
        }
    }
    p.unique_seq_to_set();
    vstd::set_lib::lemma_int_range(0, n as int);
    assert(p.to_set().subset_of(vstd::set_lib::set_int_range(0, n as int))) by {
        assert forall|v: int| p.to_set().contains(v) implies vstd::set_lib::set_int_range(
            0,
            n as int,
        ).contains(v) by {
            let j = choose|j: int| 0 <= j < p.len() && p[j] == v;
            assert(0 <= p[j] < n);
        }
    }
    vstd::seq_lib::seq_to_set_is_finite(p);
    vstd::set_lib::lemma_subset_equality(p.to_set(), vstd::set_lib::set_int_range(0, n as int));
    assert(vstd::set_lib::set_int_range(0, n as int).contains(k));
    assert(p.to_set().contains(k));
}

/// `e` is one of the events of `s`.
pub open spec fn has_event(s: Seq<EventView>, e: EventView) -> bool {
    exists|j: int| 0 <= j < s.len() && s[j] == e
}

/// Every event of the job, of its e-mails and of its comments appears in a
/// timeline built from them: a stable newest-first ordering drops nothing.
pub proof fn lemma_timeline_keeps_every_event(input: Seq<EventView>, out: Seq<EventView>)
    requires
        is_stable_newest_first(input, out),
    ensures
        forall|k: int| 0 <= k < input.len() ==> has_event(out, #[trigger] input[k]),
{
    let p = choose|p: Seq<int>|
        {
            &&& is_permutation(p, input.len())
            &&& forall|k: int| 0 <= k < out.len() ==> #[trigger] out[k] == input[p[k]]
            &&& forall|k: int, l: int|
                0 <= k < l < out.len() && out[k].timestamp == out[l].timestamp ==> p[k] < p[l]
        };
    assert forall|k: int| 0 <= k < input.len() implies has_event(out, #[trigger] input[k]) by {
        lemma_permutation_onto(p, input.len(), k);
        let j = choose|j: int| 0 <= j < input.len() && p[j] == k;
        assert(out.len() == input.len());
        assert(out[j] == input[p[j]]);
        assert(0 <= j < out.len() && out[j] == input[k]);
    }
}

/// A timeline built for a job shows that the job was created when the job
/// has a creation time, and that its status changed when its update time is
/// present and differs from the creation time.
pub proof fn lemma_timeline_shows_job_events(
    job: JobFacts,
    emails: Seq<EmailFacts>,
    comments: Seq<CommentFacts>,
    out: Seq<EventView>,
)
    requires
        is_stable_newest_first(unordered_events(job, emails, comments), out),
    ensures
        job.created_at matches Some(c) ==> has_event(
            out,
            (EventView { timestamp: c@, data: DataView::JobCreated { title: text_or_empty(job.title) } }),
        ),
        (job.created_at matches Some(c) && job.updated_at matches Some(u) && c@ != u@) ==> has_event(
            out,
            (EventView {
                timestamp: job.updated_at->0@,
                data: DataView::StatusChanged { status: text_or_empty(job.status) },
            }),
        ),
{
    let input = unordered_events(job, emails, comments);
    lemma_timeline_keeps_every_event(input, out);
    let je = job_events(job);
    assert forall|k: int| 0 <= k < je.len() implies input[k] == je[k] by {
        assert(input == je + email_events(emails) + comment_events(comments));
    }
    if job.created_at is Some {
        assert(input[0] == je[0]);
        assert(has_event(out, input[0]));
    }
    if let (Some(c), Some(u)) = (job.created_at, job.updated_at) {
        if c@ != u@ {
            assert(input[1] == je[1]);
            assert(has_event(out, input[1]));
        }
    }
}

/// The event of a comment that has a creation time: its content, and the
/// name and picture of its author.
spec fn comment_event_of(c: CommentFacts) -> EventView {
    EventView {
        timestamp: c.created_at->0@,
        data: DataView::CommentAdded {
            content: text_or_empty(c.content),
            user_name: opt_text(c.name),
            user_picture: opt_text(c.picture),
        },
    }
}

/// The event of an e-mail that has a date: its subject, sender and message id.
spec fn email_event_of(e: EmailFacts) -> EventView {
    EventView {
        timestamp: e.date->0@,
        data: DataView::EmailReceived {
            subject: text_or_empty(e.subject),
            from: text_or_empty(e.from),
            gmail_id: text_or_empty(e.gmail_id),
        },
    }
}

proof fn lemma_has_event_push(s: Seq<EventView>, x: EventView, e: EventView)
    requires
        has_event(s, e),
    ensures
        has_event(s.push(x), e),
{
    let j = choose|j: int| 0 <= j < s.len() && s[j] == e;
    assert(s.push(x)[j] == e);
}

proof fn lemma_comment_events_hold(comments: Seq<CommentFacts>, k: int)
    requires
        0 <= k < comments.len(),
        comments[k].created_at is Some,
    ensures
        has_event(comment_events(comments), comment_event_of(comments[k])),
    decreases comments.len(),
{
    let rest = comment_events(comments.drop_last());
    if k == comments.len() - 1 {
        let all = comment_events(comments);
        assert(all == rest.push(comment_event_of(comments[k])));
        assert(all[rest.len() as int] == comment_event_of(comments[k]));
    } else {
        assert(comments.drop_last()[k] == comments[k]);
        lemma_comment_events_hold(comments.drop_last(), k);
        let last = comments.last();
        if last.created_at is Some {
            lemma_has_event_push(rest, comment_event_of(last), comment_event_of(comments[k]));
        }
    }
}

proof fn lemma_email_events_hold(emails: Seq<EmailFacts>, k: int)
    requires
        0 <= k < emails.len(),
        emails[k].date is Some,
    ensures
        has_event(email_events(emails), email_event_of(emails[k])),
    decreases emails.len(),
{
    let rest = email_events(emails.drop_last());
    if k == emails.len() - 1 {
        let all = email_events(emails);
        assert(all == rest.push(email_event_of(emails[k])));
        assert(all[rest.len() as int] == email_event_of(emails[k]));
    } else {
        assert(emails.drop_last()[k] == emails[k]);
        lemma_email_events_hold(emails.drop_last(), k);
        let last = emails.last();
        if last.date is Some {
            lemma_has_event_push(rest, email_event_of(last), email_event_of(emails[k]));
        }
    }
}

/// A timeline built for a job shows every comment that has a creation time,
/// at that time, with its content and its author's name and picture; and every
/// e-mail that has a date, at that date, with its subject, sender and message
/// id.
pub proof fn lemma_timeline_shows_comments_and_emails(
    job: JobFacts,
    emails: Seq<EmailFacts>,
    comments: Seq<CommentFacts>,
    out: Seq<EventView>,
)
    requires
        is_stable_newest_first(unordered_events(job, emails, comments), out),
    ensures
        forall|k: int|
            0 <= k < comments.len() && (#[trigger] comments[k]).created_at is Some ==> has_event(
                out,
                (EventView {
                    timestamp: comments[k].created_at->0@,
                    data: DataView::CommentAdded {
                        content: text_or_empty(comments[k].content),
                        user_name: opt_text(comments[k].name),
                        user_picture: opt_text(comments[k].picture),
                    },
                }),
            ),
        forall|k: int|
            0 <= k < emails.len() && (#[trigger] emails[k]).date is Some ==> has_event(
                out,
                (EventView {
                    timestamp: emails[k].date->0@,
                    data: DataView::EmailReceived {
                        subject: text_or_empty(emails[k].subject),
                        from: text_or_empty(emails[k].from),
                        gmail_id: text_or_empty(emails[k].gmail_id),
                    },
                }),
            ),
{
    let input = unordered_events(job, emails, comments);
    lemma_timeline_keeps_every_event(input, out);
    let je = job_events(job);
    let ee = email_events(emails);
    let ce = comment_events(comments);
    assert(input == je + ee + ce);
    assert forall|k: int|
        0 <= k < comments.len() && (#[trigger] comments[k]).created_at is Some implies has_event(
        out,
        comment_event_of(comments[k]),
    ) by {
        lemma_comment_events_hold(comments, k);
        let j = choose|j: int| 0 <= j < ce.len() && ce[j] == comment_event_of(comments[k]);
        let i = je.len() + ee.len() + j;
        assert(input[i] == ce[j]);
        let m = choose|m: int| 0 <= m < out.len() && out[m] == input[i];
        assert(out[m] == comment_event_of(comments[k]));
    }
    assert forall|k: int|
        0 <= k < emails.len() && (#[trigger] emails[k]).date is Some implies has_event(
        out,
        email_event_of(emails[k]),
    ) by {
        lemma_email_events_hold(emails, k);
        let j = choose|j: int| 0 <= j < ee.len() && ee[j] == email_event_of(emails[k]);
        let i = je.len() + j;
        assert(input[i] == ee[j]);
        let m = choose|m: int| 0 <= m < out.len() && out[m] == input[i];
        assert(out[m] == email_event_of(emails[k]));
    }
}

// ---------------------------------------------------------------------------
// Executable code
// ---------------------------------------------------------------------------

fn text_lt_exec(a: &Vec<char>, b: &Vec<char>) -> (r: bool)
    ensures
        r == text_lt(a@, b@),
{
    let mut i: usize = 0;
    assert(a@.skip(0) =~= a@);
    assert(b@.skip(0) =~= b@);
    while i < a.len() && i < b.len() && a[i] == b[i]
        invariant
            i <= a.len(),
            i <= b.len(),
            text_lt(a@, b@) == text_lt(a@.skip(i as int), b@.skip(i as int)),
        decreases a.len() - i,
    {
        let ghost sa = a@.skip(i as int);
        let ghost sb = b@.skip(i as int);
        assert(sa.drop_first() =~= a@.skip(i + 1));
        assert(sb.drop_first() =~= b@.skip(i + 1));
        i += 1;
    }
    let ghost sa = a@.skip(i as int);
    let ghost sb = b@.skip(i as int);
    if i == b.len() {
        assert(sb.len() == 0);
        false
    } else if i == a.len() {
        true
    } else {
        assert(sa[0] == a@[i as int] && sb[0] == b@[i as int]);
        a[i] < b[i]
    }
}

fn clone_text(s: &Option<String>) -> (r: Option<String>)
    ensures
        opt_text(r) == opt_text(*s),
{
    match s {
        Some(t) => Some(t.clone()),
        None => None,
    }
}

fn text_or_blank(s: &Option<String>) -> (r: String)
    ensures
        r@ == text_or_empty(*s),
{
    match s {
        Some(t) => t.clone(),
        None => String::new(),
    }
}

/// Insert `ev` after every event whose timestamp is not smaller than its own.
fn insert_newest_first(out: &mut Vec<TimelineEvent>, ev: TimelineEvent)
    requires
        newest_first(events_view(old(out)@)),
    ensures
        exists|pos: int|
            0 <= pos <= old(out)@.len() && events_view(final(out)@)
                == events_view(old(out)@).insert(pos, ev@) && (forall|k: int|
                0 <= k < pos ==> !text_lt(
                    #[trigger] events_view(old(out)@)[k].timestamp,
                    ev@.timestamp,
                )) && (forall|k: int|
                pos <= k < old(out)@.len() ==> text_lt(
                    #[trigger] events_view(old(out)@)[k].timestamp,
                    ev@.timestamp,
                )),
        newest_first(events_view(final(out)@)),
        final(out)@.len() == old(out)@.len() + 1,
{
    let ghost v = events_view(out@);
    let ts = chars_of(ev.timestamp.as_str());
    let mut pos: usize = 0;
    while pos < out.len()
        invariant
            pos <= out.len(),
            v == events_view(out@),
            ts@ == ev@.timestamp,
            forall|k: int| 0 <= k < pos ==> !text_lt(#[trigger] v[k].timestamp, ts@),
        ensures
            pos <= out.len(),
            pos < out.len() ==> text_lt(v[pos as int].timestamp, ts@),
            forall|k: int| 0 <= k < pos ==> !text_lt(#[trigger] v[k].timestamp, ts@),
        decreases out.len() - pos,
    {
        let cur = chars_of(out[pos].timestamp.as_str());
        assert(v[pos as int].timestamp == cur@);
        if text_lt_exec(&cur, &ts) {
            break;
        }
        pos += 1;
    }
    proof {
        assert forall|k: int| pos <= k < v.len() implies text_lt(#[trigger] v[k].timestamp, ev@.timestamp) by {
            if k > pos {
                assert(!text_lt(v[pos as int].timestamp, v[k].timestamp));
                lemma_text_lt_total(v[pos as int].timestamp, v[k].timestamp);
                if v[k].timestamp != v[pos as int].timestamp {
                    lemma_text_lt_transitive(v[k].timestamp, v[pos as int].timestamp, ev@.timestamp);
                }
            }
        }
    }
    out.insert(pos, ev);
    proof {
        let w = events_view(out@);
        assert(w =~= v.insert(pos as int, ev@));
        assert forall|i: int, j: int| 0 <= i < j < w.len() implies !text_lt(
            w[i].timestamp,
            w[j].timestamp,
        ) by {
            if i < pos && j == pos {
            } else if i == pos && j > pos {
                assert(w[j] == v[j - 1]);
                assert(text_lt(v[j - 1].timestamp, ev@.timestamp));
                lemma_text_lt_asymmetric(v[j - 1].timestamp, ev@.timestamp);
            } else if i < pos && j < pos {
                assert(w[i] == v[i] && w[j] == v[j]);
            } else if i < pos && j > pos {
                assert(w[i] == v[i] && w[j] == v[j - 1]);
            } else {
                assert(w[i] == v[i - 1] && w[j] == v[j - 1]);
            }
        }
    }
}

/// Build the timeline of a job from the job row, its e-mails and its
/// comments, ordered newest first (stable for equal timestamps).
pub fn build_timeline_events(
    job: &JobFacts,
    emails: &Vec<EmailFacts>,
    comments: &Vec<CommentFacts>,
) -> (r: Vec<TimelineEvent>)
    ensures
        is_stable_newest_first(
            unordered_events(*job, emails@, comments@),
            events_view(r@),
        ),
        forall|k: int|
            0 <= k < comments@.len() && (#[trigger] comments@[k]).created_at is Some ==> has_event(
                events_view(r@),
                (EventView {
                    timestamp: comments@[k].created_at->0@,
                    data: DataView::CommentAdded {
                        content: text_or_empty(comments@[k].content),
                        user_name: opt_text(comments@[k].name),
                        user_picture: opt_text(comments@[k].picture),
                    },
                }),
            ),
        forall|k: int|
            0 <= k < emails@.len() && (#[trigger] emails@[k]).date is Some ==> has_event(
                events_view(r@),
                (EventView {
                    timestamp: emails@[k].date->0@,
                    data: DataView::EmailReceived {
                        subject: text_or_empty(emails@[k].subject),
                        from: text_or_empty(emails@[k].from),
                        gmail_id: text_or_empty(emails@[k].gmail_id),
                    },
                }),
            ),
{
    let mut events: Vec<TimelineEvent> = Vec::new();
    if let Some(created) = &job.created_at {
        events.push(
            TimelineEvent {
                timestamp: created.clone(),
                data: TimelineData::JobCreated { title: text_or_blank(&job.title) },
            },
        );
    }
    let ghost after_created = events_view(events@);
    if let (Some(created), Some(updated)) = (&job.created_at, &job.updated_at) {
        let c = chars_of(created.as_str());
        let u = chars_of(updated.as_str());
        if !chars_eq(&c, &u) {
            events.push(
                TimelineEvent {
                    timestamp: updated.clone(),
                    data: TimelineData::StatusChanged { status: text_or_blank(&job.status) },
                },
            );
        }
    }
    assert(events_view(events@) =~= job_events(*job));
    let mut k: usize = 0;
    while k < emails.len()
        invariant
            k <= emails.len(),
            events_view(events@) =~= job_events(*job) + email_events(
                emails@.subrange(0, k as int),
            ),
        decreases emails.len() - k,
    {
        let e = &emails[k];
        assert(emails@.subrange(0, k + 1).drop_last() =~= emails@.subrange(0, k as int));
        assert(emails@.subrange(0, k + 1).last() == emails@[k as int]);
        if let Some(d) = &e.date {
            let ghost before = events@;
            events.push(
                TimelineEvent {
                    timestamp: d.clone(),
                    data: TimelineData::EmailReceived {
                        subject: text_or_blank(&e.subject),
                        from: text_or_blank(&e.from),
                        gmail_id: text_or_blank(&e.gmail_id),
                    },
                },
            );
            assert(events_view(events@) =~= before.map_values(
                |e: TimelineEvent| e@,
            ).push(events@[events@.len() - 1]@));
        }
        k += 1;
    }
    assert(emails@.subrange(0, emails.len() as int) =~= emails@);
    let mut k: usize = 0;
    while k < comments.len()
        invariant
            k <= comments.len(),
            events_view(events@) =~= job_events(*job) + email_events(emails@)
                + comment_events(comments@.subrange(0, k as int)),
        decreases comments.len() - k,
    {
        let c = &comments[k];
        assert(comments@.subrange(0, k + 1).drop_last() =~= comments@.subrange(0, k as int));
        assert(comments@.subrange(0, k + 1).last() == comments@[k as int]);
        if let Some(t) = &c.created_at {
            let ghost before = events@;
            events.push(
                TimelineEvent {
                    timestamp: t.clone(),
                    data: TimelineData::CommentAdded {
                        content: text_or_blank(&c.content),
                        user_name: clone_text(&c.name),
                        user_picture: clone_text(&c.picture),
                    },
                },
            );
            assert(events_view(events@) =~= before.map_values(
                |e: TimelineEvent| e@,
            ).push(events@[events@.len() - 1]@));
        }
        k += 1;
    }
    assert(comments@.subrange(0, comments.len() as int) =~= comments@);
    let ghost input = events_view(events@);
    assert(input == unordered_events(*job, emails@, comments@));
    // Stable insertion sort, newest first.
    let mut out: Vec<TimelineEvent> = Vec::new();
    let ghost mut perm: Seq<int> = Seq::empty();
    let n = events.len();
    let mut rest = events;
    assert(input.subrange(0, n as int) =~= input);
    let mut i: usize = 0;
    while rest.len() > 0
        invariant
            i + rest@.len() == n == input.len(),
            events_view(rest@) =~= input.subrange(i as int, n as int),
            newest_first(events_view(out@)),
            is_permutation(perm, i as nat),
            out@.len() == i,
            forall|k: int|
                0 <= k < i ==> #[trigger] events_view(out@)[k] == input[perm[k]],
            forall|k: int, l: int|
                0 <= k < l < i && events_view(out@)[k].timestamp == events_view(out@)[l].timestamp ==> perm[k] < perm[l],
        decreases rest.len(),
    {
        let ghost before_rest = rest@;
        let ghost old_out = events_view(out@);
        let e = rest.remove(0);
        proof {
            assert(events_view(before_rest)[0] == e@);
            assert(input.subrange(i as int, n as int)[0] == input[i as int]);
            assert(e@ == input[i as int]);
            assert(rest@ =~= before_rest.subrange(1, before_rest.len() as int));
            assert(events_view(rest@) =~= events_view(before_rest).subrange(
                1,
                before_rest.len() as int,
            ));
            assert(events_view(before_rest).subrange(1, before_rest.len() as int) =~= input.subrange(
                i + 1,
                n as int,
            ));
        }
        insert_newest_first(&mut out, e);
        proof {
            let w = events_view(out@);
            let pos = choose|pos: int|
                0 <= pos <= old_out.len() && w == old_out.insert(pos, input[i as int]) && (forall|
                    k: int,
                | 0 <= k < pos ==> !text_lt(#[trigger] old_out[k].timestamp, input[i as int].timestamp))
                    && (forall|k: int|
                    pos <= k < old_out.len() ==> text_lt(
                        #[trigger] old_out[k].timestamp,
                        input[i as int].timestamp,
                    ));
            let new_perm = perm.insert(pos, i as int);
            assert forall|k: int| 0 <= k < i + 1 implies 0 <= #[trigger] new_perm[k] < i + 1 by {
                if k < pos {
                    assert(new_perm[k] == perm[k]);
                } else if k > pos {
                    assert(new_perm[k] == perm[k - 1]);
                }
            }
            assert forall|k: int, l: int| 0 <= k < l < i + 1 implies new_perm[k] != new_perm[l] by {
                if k < pos && l < pos {
                } else if k < pos && l == pos {
                    assert(new_perm[k] == perm[k]);
                } else if k < pos && l > pos {
                    assert(new_perm[k] == perm[k] && new_perm[l] == perm[l - 1]);
                } else if k == pos {
                    assert(new_perm[l] == perm[l - 1]);
                } else {
                    assert(new_perm[k] == perm[k - 1] && new_perm[l] == perm[l - 1]);
                }
            }
            assert forall|k: int| 0 <= k < i + 1 implies #[trigger] w[k] == input[new_perm[k]] by {
                if k < pos {
                    assert(w[k] == old_out[k]);
                } else if k > pos {
                    assert(w[k] == old_out[k - 1]);
                }
            }
            assert forall|k: int, l: int|
                0 <= k < l < i + 1 && w[k].timestamp == w[l].timestamp implies new_perm[k]
                < new_perm[l] by {
                if k < pos && l < pos {
                    assert(w[k] == old_out[k] && w[l] == old_out[l]);
                } else if k < pos && l == pos {
                    assert(new_perm[k] == perm[k]);
                } else if k < pos && l > pos {
                    assert(w[k] == old_out[k] && w[l] == old_out[l - 1]);
                    assert(new_perm[k] == perm[k] && new_perm[l] == perm[l - 1]);
                } else if k == pos {
                    assert(w[l] == old_out[l - 1]);
                    assert(text_lt(old_out[l - 1].timestamp, input[i as int].timestamp));
                    lemma_text_lt_irreflexive(input[i as int].timestamp);
                } else {
                    assert(w[k] == old_out[k - 1] && w[l] == old_out[l - 1]);
                    assert(new_perm[k] == perm[k - 1] && new_perm[l] == perm[l - 1]);
                }
            }
            perm = new_perm;
        }
        i += 1;
    }
    proof {
        let w = events_view(out@);
        assert(is_permutation(perm, input.len()));
        assert(w.len() == input.len());
        assert(forall|k: int| 0 <= k < w.len() ==> #[trigger] w[k] == input[perm[k]]);
        assert(is_stable_newest_first(input, w));
        lemma_timeline_shows_comments_and_emails(*job, emails@, comments@, w);
        assert(w.len() == input.len());
        assert(forall|k: int| 0 <= k < w.len() ==> #[trigger] w[k] == input[perm[k]]);
    }
    out
}

} // verus!
