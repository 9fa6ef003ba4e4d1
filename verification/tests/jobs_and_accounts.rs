//! Job input rules, job identifiers and the account decisions.

use applymonitor::accounts::{
    after_email_lookup, after_provider_lookup, can_unlink, decide_link, decide_local_registration,
    decide_unlink, is_provider_linked, reset_token_user, AccountError, EmailStep, LinkDecision,
    LoginStep, User,
};
use applymonitor::jobs::{
    accept_status, i64_text, is_description_only, normalize_job_id, u64_text, validate_job, Job, JobIdValue,
    JobInputError, DEFAULT_STATUS_ID,
};

fn job(title: &str, company: &str) -> Job {
    Job {
        id: None,
        title: title.to_string(),
        company: company.to_string(),
        location: None,
        status: "applied".to_string(),
        description: None,
        created_at: None,
        updated_at: None,
    }
}

fn user(providers: &[&str]) -> User {
    User {
        id: "u1".to_string(),
        email: Some("u@x.com".to_string()),
        name: None,
        picture: None,
        created_at: None,
        updated_at: None,
        providers: providers.iter().map(|p| p.to_string()).collect(),
        timezone: None,
        is_admin: None,
        enabled: None,
    }
}

#[test]
fn validate_job_requires_title_and_company() {
    assert_eq!(validate_job(&job("", "Acme"), None), Err(JobInputError::TitleAndCompanyRequired));
    assert_eq!(validate_job(&job("Engineer", ""), Some(200)), Err(JobInputError::TitleAndCompanyRequired));
}

#[test]
fn validate_job_defaults_status_to_open() {
    assert_eq!(DEFAULT_STATUS_ID, 100);
    assert_eq!(validate_job(&job("Engineer", "Acme"), None), Ok(100));
    assert_eq!(validate_job(&job("Engineer", "Acme"), Some(300)), Ok(300));
}

#[test]
fn integer_texts() {
    assert_eq!(u64_text(0), "0");
    assert_eq!(u64_text(1234567890), "1234567890");
    assert_eq!(u64_text(u64::MAX), "18446744073709551615");
    assert_eq!(i64_text(-42), "-42");
    assert_eq!(i64_text(7), "7");
    assert_eq!(i64_text(i64::MIN), "-9223372036854775808");
    assert_eq!(i64_text(i64::MAX), "9223372036854775807");
}

#[test]
fn normalize_job_id_turns_integers_into_text() {
    let mut id = Some(JobIdValue::Signed(-5));
    normalize_job_id(&mut id);
    assert_eq!(id, Some(JobIdValue::Text("-5".to_string())));

    let mut id = Some(JobIdValue::Unsigned(18446744073709551615));
    normalize_job_id(&mut id);
    assert_eq!(id, Some(JobIdValue::Text("18446744073709551615".to_string())));

    let mut id = Some(JobIdValue::Text("abc".to_string()));
    normalize_job_id(&mut id);
    assert_eq!(id, Some(JobIdValue::Text("abc".to_string())));

    let mut id = Some(JobIdValue::Other);
    normalize_job_id(&mut id);
    assert_eq!(id, Some(JobIdValue::Other));

    let mut id = None;
    normalize_job_id(&mut id);
    assert_eq!(id, None);
}

#[test]
fn description_only_flag() {
    assert!(is_description_only(Some("true")));
    assert!(!is_description_only(Some("True")));
    assert!(!is_description_only(Some("1")));
    assert!(!is_description_only(None));
}

#[test]
fn provider_login_steps() {
    assert_eq!(
        after_provider_lookup(Some(Some("u1".to_string())), true),
        Ok(LoginStep::UseLinkedUser { user_id: "u1".to_string(), update_profile: true })
    );
    assert_eq!(
        after_provider_lookup(Some(Some("u1".to_string())), false),
        Ok(LoginStep::UseLinkedUser { user_id: "u1".to_string(), update_profile: false })
    );
    assert_eq!(after_provider_lookup(Some(None), true), Err(AccountError::MissingUserId));
    assert_eq!(after_provider_lookup(None, true), Ok(LoginStep::LookUpEmail));
    assert_eq!(after_provider_lookup(None, false), Ok(LoginStep::CreateUser));
}

#[test]
fn email_lookup_steps() {
    assert_eq!(
        after_email_lookup(Some(Some("u2".to_string()))),
        Ok(EmailStep::LinkExisting { user_id: "u2".to_string() })
    );
    assert_eq!(after_email_lookup(Some(None)), Err(AccountError::MissingUserId));
    assert_eq!(after_email_lookup(None), Ok(EmailStep::CreateUser));
}

#[test]
fn link_decisions() {
    assert_eq!(decide_link(true, Some(Some("other".to_string())), "u1"), Ok(LinkDecision::AlreadyLinked));
    assert_eq!(decide_link(false, None, "u1"), Ok(LinkDecision::Insert));
    assert_eq!(decide_link(false, Some(Some("u1".to_string())), "u1"), Ok(LinkDecision::Insert));
    assert_eq!(
        decide_link(false, Some(Some("u9".to_string())), "u1"),
        Err(AccountError::ProviderLinkedElsewhere)
    );
    assert_eq!(decide_link(false, Some(None), "u1"), Err(AccountError::MissingUserId));
}

#[test]
fn unlink_needs_another_provider() {
    assert_eq!(decide_unlink(Some(1), "google"), Err(AccountError::LastProvider));
    assert_eq!(decide_unlink(None, "google"), Err(AccountError::LastProvider));
    assert_eq!(decide_unlink(Some(0), "local"), Err(AccountError::LastProvider));
    let plan = decide_unlink(Some(2), "local").unwrap();
    assert!(plan.delete_credentials);
    let plan = decide_unlink(Some(3), "google").unwrap();
    assert!(!plan.delete_credentials);
}

#[test]
fn local_registration_refuses_taken_address() {
    assert_eq!(decide_local_registration(true), Err(AccountError::EmailAlreadyRegistered));
    assert_eq!(decide_local_registration(false), Ok(()));
}

#[test]
fn reset_token_lookup() {
    assert_eq!(reset_token_user(Some(Some("u3".to_string()))), Ok(Some("u3".to_string())));
    assert_eq!(reset_token_user(Some(None)), Err(AccountError::MissingUserId));
    assert_eq!(reset_token_user(None), Ok(None));
}

#[test]
fn provider_linked_and_unlinkable() {
    let u = user(&["google", "local"]);
    assert!(is_provider_linked(&u, "local"));
    assert!(!is_provider_linked(&u, "github"));
    assert!(!is_provider_linked(&user(&[]), "local"));
    assert!(can_unlink(2));
    assert!(!can_unlink(1));
    assert!(!can_unlink(0));
}

#[test]
fn normalizing_an_id_twice_changes_nothing_more() {
    let mut id = Some(JobIdValue::Signed(12));
    normalize_job_id(&mut id);
    let once = id.clone();
    normalize_job_id(&mut id);
    assert_eq!(id, once);
    assert_eq!(id, Some(JobIdValue::Text("12".to_string())));
}

#[test]
fn looked_up_status_must_exist() {
    assert_eq!(accept_status(200, true), Ok(200));
    assert_eq!(accept_status(999, false), Err(JobInputError::InvalidStatusId));
}

#[test]
fn empty_title_is_refused_before_status_lookup() {
    assert_eq!(validate_job(&job("", ""), Some(999)), Err(JobInputError::TitleAndCompanyRequired));
}
