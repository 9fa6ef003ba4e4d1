//! The timeline of a job.

use applymonitor::timeline::{
    build_timeline_events, CommentFacts, EmailFacts, JobFacts, TimelineData, TimelineEvent,
};

fn s(x: &str) -> Option<String> {
    Some(x.to_string())
}

fn email(date: Option<String>, subject: &str) -> EmailFacts {
    EmailFacts { date, subject: s(subject), from: s("a@x.com"), gmail_id: s("g") }
}

fn stamps(events: &[TimelineEvent]) -> Vec<&str> {
    events.iter().map(|e| e.timestamp.as_str()).collect()
}

#[test]
fn timeline_is_newest_first() {
    let job = JobFacts {
        created_at: s("2024-01-01 10:00:00"),
        updated_at: s("2024-02-01 09:00:00"),
        title: s("Engineer"),
        status: s("interviewing"),
    };
    let emails = vec![email(s("2024-01-15 08:00:00"), "Hello"), email(None, "No date")];
    let comments = vec![CommentFacts {
        created_at: s("2024-01-20 12:00:00"),
        content: s("Called back"),
        name: s("Jane"),
        picture: None,
    }];
    let events = build_timeline_events(&job, &emails, &comments);
    assert_eq!(
        stamps(&events),
        vec!["2024-02-01 09:00:00", "2024-01-20 12:00:00", "2024-01-15 08:00:00", "2024-01-01 10:00:00"]
    );
    assert_eq!(events[0].data, TimelineData::StatusChanged { status: "interviewing".to_string() });
    assert_eq!(
        events[1].data,
        TimelineData::CommentAdded {
            content: "Called back".to_string(),
            user_name: s("Jane"),
            user_picture: None,
        }
    );
    assert_eq!(
        events[2].data,
        TimelineData::EmailReceived {
            subject: "Hello".to_string(),
            from: "a@x.com".to_string(),
            gmail_id: "g".to_string(),
        }
    );
    assert_eq!(events[3].data, TimelineData::JobCreated { title: "Engineer".to_string() });
}

#[test]
fn timeline_without_status_change_when_times_equal() {
    let job = JobFacts { created_at: s("t1"), updated_at: s("t1"), title: None, status: s("applied") };
    let events = build_timeline_events(&job, &Vec::new(), &Vec::new());
    assert_eq!(events.len(), 1);
    assert_eq!(events[0].data, TimelineData::JobCreated { title: String::new() });
}

#[test]
fn timeline_without_creation_time() {
    let job = JobFacts { created_at: None, updated_at: s("t2"), title: s("x"), status: s("y") };
    assert!(build_timeline_events(&job, &Vec::new(), &Vec::new()).is_empty());
}

#[test]
fn timeline_keeps_input_order_for_equal_timestamps() {
    let job = JobFacts { created_at: None, updated_at: None, title: None, status: None };
    let emails = vec![email(s("2024-05-05"), "first"), email(s("2024-05-05"), "second")];
    let comments = vec![CommentFacts { created_at: s("2024-05-05"), content: None, name: None, picture: None }];
    let events = build_timeline_events(&job, &emails, &comments);
    assert_eq!(events.len(), 3);
    match (&events[0].data, &events[1].data, &events[2].data) {
        (
            TimelineData::EmailReceived { subject: a, .. },
            TimelineData::EmailReceived { subject: b, .. },
            TimelineData::CommentAdded { content, .. },
        ) => {
            assert_eq!(a, "first");
            assert_eq!(b, "second");
            assert_eq!(content, "");
        }
        _ => panic!("unexpected order"),
    }
}

#[test]
fn timeline_orders_by_code_point() {
    let job = JobFacts { created_at: None, updated_at: None, title: None, status: None };
    let emails = vec![email(s("b"), "1"), email(s("ab"), "2"), email(s("abc"), "3"), email(s(""), "4")];
    let events = build_timeline_events(&job, &emails, &Vec::new());
    assert_eq!(stamps(&events), vec!["b", "abc", "ab", ""]);
}

#[test]
fn timeline_of_one_email_and_one_comment() {
    let job = JobFacts {
        created_at: s("2024-01-01"),
        updated_at: s("2024-01-01"),
        title: s("Eng"),
        status: None,
    };
    let emails = vec![EmailFacts {
        date: s("2024-01-03"),
        subject: s("Hi"),
        from: s("a@x.com"),
        gmail_id: s("g1"),
    }];
    let comments = vec![CommentFacts { created_at: s("2024-01-02"), content: s("note"), name: None, picture: None }];
    let events = build_timeline_events(&job, &emails, &comments);
    assert_eq!(
        events,
        vec![
            TimelineEvent {
                timestamp: "2024-01-03".to_string(),
                data: TimelineData::EmailReceived {
                    subject: "Hi".to_string(),
                    from: "a@x.com".to_string(),
                    gmail_id: "g1".to_string(),
                },
            },
            TimelineEvent {
                timestamp: "2024-01-02".to_string(),
                data: TimelineData::CommentAdded { content: "note".to_string(), user_name: None, user_picture: None },
            },
            TimelineEvent { timestamp: "2024-01-01".to_string(), data: TimelineData::JobCreated { title: "Eng".to_string() } },
        ]
    );
}
