//! The decisions and texts of the user interface.

use applymonitor::accounts::User;
use applymonitor::jobs::{Job, JobStatus};
use applymonitor::ui::{
    badge_classes, can_register, can_sign_in, capitalize_first, comment_to_post, company_initial,
    contact_display_name, dashboard_counts, dropdown_content_class, get_initials, optional_field,
    profile_initials, recent_count, scan_result_message, sender_company_name,
    show_convert_suggestion, simple_dropdown_content_class, stat_card_classes, step_states, suggested_job_title, timezone_choice,
    timezone_option_index, user_enabled, user_is_admin,
};

fn job(status: &str) -> Job {
    Job {
        id: None,
        title: "t".to_string(),
        company: "c".to_string(),
        location: None,
        status: status.to_string(),
        description: None,
        created_at: None,
        updated_at: None,
    }
}

fn status(id: i32) -> JobStatus {
    JobStatus { id, name: format!("s{}", id), display_name: format!("S{}", id), description: None }
}

fn user(is_admin: Option<bool>, enabled: Option<bool>) -> User {
    User {
        id: "u".to_string(),
        email: None,
        name: None,
        picture: None,
        created_at: None,
        updated_at: None,
        providers: Vec::new(),
        timezone: None,
        is_admin,
        enabled,
    }
}

#[test]
fn initials_of_names() {
    assert_eq!(get_initials("jane doe"), "JD");
    assert_eq!(get_initials("  madonna "), "M");
    assert_eq!(get_initials(""), "?");
    assert_eq!(get_initials(" \t "), "?");
    assert_eq!(get_initials("mary ann van dyke"), "MD");
    assert_eq!(get_initials("éric"), "É");
    assert_eq!(get_initials("ß x"), "SSX");
}

#[test]
fn profile_initials_from_name_or_address() {
    assert_eq!(profile_initials(Some("jane doe"), Some("x@y.z")), "jd");
    assert_eq!(profile_initials(Some("Jane Mary Doe"), None), "JM");
    assert_eq!(profile_initials(Some("Jane"), Some("bob@x.com")), "B");
    assert_eq!(profile_initials(Some("Élise"), Some("bob@x.com")), "É");
    assert_eq!(profile_initials(None, None), "U");
    assert_eq!(profile_initials(Some(""), Some("")), "U");
}

#[test]
fn capitalized_statuses() {
    assert_eq!(capitalize_first("applied"), "Applied");
    assert_eq!(capitalize_first(""), "");
    assert_eq!(capitalize_first("ßa"), "SSa");
}

#[test]
fn company_letters_and_names() {
    assert_eq!(company_initial("acme"), "A");
    assert_eq!(company_initial(""), "?");
    assert_eq!(sender_company_name(Some("\"Acme Corp\" <hr@acme.com>")), "Acme Corp");
    assert_eq!(sender_company_name(Some("hr@acme.com")), "hr@acme.com");
    assert_eq!(sender_company_name(Some(" 'Initech' ")), "'Initech'");
    assert_eq!(sender_company_name(Some("'Initech' ")), "Initech'");
    assert_eq!(sender_company_name(None), "Unknown Company");
}

#[test]
fn contact_names_and_fields() {
    assert_eq!(contact_display_name(&Some("Jane".to_string()), &"j@x.com".to_string()), "Jane");
    assert_eq!(contact_display_name(&None, &"j@x.com".to_string()), "j@x.com");
    assert_eq!(optional_field("  https://x.com "), Some("https://x.com".to_string()));
    assert_eq!(optional_field("   "), None);
}

#[test]
fn badge_and_card_colours() {
    assert_eq!(badge_classes("offer"), ("bg-green-100 dark:bg-green-900", "text-green-800 dark:text-green-200"));
    assert_eq!(badge_classes("applied"), ("bg-blue-100 dark:bg-blue-900", "text-blue-800 dark:text-blue-200"));
    assert_eq!(badge_classes("Offer"), ("bg-gray-100 dark:bg-gray-800", "text-gray-800 dark:text-gray-200"));
    assert_eq!(
        stat_card_classes("purple"),
        (
            "bg-purple-50 dark:bg-purple-900/20 border-purple-200 dark:border-purple-800",
            "text-purple-600 dark:text-purple-400"
        )
    );
    assert_eq!(
        stat_card_classes("orange"),
        ("bg-gray-50 dark:bg-gray-800 border-gray-200 dark:border-gray-700", "text-gray-600 dark:text-gray-400")
    );
}

#[test]
fn dashboard_statistics() {
    let jobs = vec![job("applied"), job("offer"), job("applied"), job("rejected"), job("open"), job("interviewing")];
    let c = dashboard_counts(&jobs);
    assert_eq!(c.total, 6);
    assert_eq!(c.applied, 2);
    assert_eq!(c.interviewing, 1);
    assert_eq!(c.offers, 1);
    assert_eq!(c.rejected, 1);
    assert!(c.applied + c.interviewing + c.offers + c.rejected <= c.total);
    let empty = dashboard_counts(&Vec::new());
    assert_eq!((empty.total, empty.applied), (0, 0));
}

#[test]
fn recent_jobs_at_most_five() {
    assert_eq!(recent_count(0), 0);
    assert_eq!(recent_count(3), 3);
    assert_eq!(recent_count(5), 5);
    assert_eq!(recent_count(40), 5);
}

#[test]
fn scan_messages() {
    assert_eq!(scan_result_message(1), "Found 1 email in your Gmail.");
    assert_eq!(scan_result_message(0), "Found 0 emails in your Gmail.");
    assert_eq!(scan_result_message(12), "Found 12 emails in your Gmail.");
}

#[test]
fn stepper_marks_completed_and_current() {
    let statuses = vec![status(100), status(200), status(300)];
    let steps = step_states(&statuses, Some(200));
    assert_eq!(steps.len(), 3);
    assert_eq!((steps[0].index, steps[0].status_id, steps[0].is_completed, steps[0].is_current), (1, 100, true, false));
    assert_eq!((steps[1].index, steps[1].is_completed, steps[1].is_current, steps[1].is_last), (2, false, true, false));
    assert_eq!((steps[2].index, steps[2].is_completed, steps[2].is_current, steps[2].is_last), (3, false, false, true));
    assert_eq!(steps.iter().filter(|s| s.is_current).count(), 1);
    let none = step_states(&statuses, None);
    assert!(none.iter().all(|s| !s.is_completed && !s.is_current));
}

#[test]
fn small_interface_decisions() {
    assert!(show_convert_suggestion(true, false));
    assert!(!show_convert_suggestion(true, true));
    assert!(!show_convert_suggestion(false, false));
    assert_eq!(timezone_choice(Some(String::new())), None);
    assert_eq!(timezone_choice(Some("Europe/Paris".to_string())), Some("Europe/Paris".to_string()));
    assert_eq!(timezone_choice(None), None);
    assert_eq!(timezone_option_index(0, 3), 103);
    assert_eq!(timezone_option_index(4, 0), 500);
    assert!(user_enabled(&user(None, None)));
    assert!(!user_enabled(&user(None, Some(false))));
    assert!(user_is_admin(&user(Some(true), None)));
    assert!(!user_is_admin(&user(None, None)));
    assert_eq!(comment_to_post("  hi there  "), Some("hi there".to_string()));
    assert_eq!(comment_to_post(" \n "), None);
    assert!(can_register("a@b.c", "pw", "Ann"));
    assert!(!can_register("a@b.c", "", "Ann"));
    assert!(can_sign_in("a@b.c", "pw"));
    assert!(!can_sign_in("", "pw"));
}

#[test]
fn dropdown_panel_classes() {
    let base = "absolute z-10 mt-2 w-64 rounded-lg bg-white p-2 shadow-lg ring-1 ring-black ring-opacity-5 dark:bg-zinc-800 dark:ring-white/10";
    assert_eq!(dropdown_content_class(None), base);
    assert_eq!(dropdown_content_class(Some("right-0")), format!("{} right-0", base));
    assert_eq!(
        dropdown_content_class(Some("bottom-full mb-2")),
        "absolute z-10 w-64 rounded-lg bg-white p-2 shadow-lg ring-1 ring-black ring-opacity-5 dark:bg-zinc-800 dark:ring-white/10 bottom-full mb-2"
    );
}

#[test]
fn job_title_from_subject() {
    assert_eq!(suggested_job_title(&Some("Your application".to_string())), "Your application");
    assert_eq!(suggested_job_title(&Some(String::new())), "");
    assert_eq!(suggested_job_title(&None), "New Job Application");
}

#[test]
fn simple_dropdown_panel_classes() {
    let base = "absolute z-50 w-56 rounded-lg bg-white p-2 shadow-lg ring-1 ring-black ring-opacity-5 dark:bg-zinc-800 dark:ring-white/10";
    assert_eq!(simple_dropdown_content_class(None), format!("{} top-full mt-2 left-0", base));
    assert_eq!(
        simple_dropdown_content_class(Some("right-0")),
        format!("{} top-full mt-2 left-0 right-0", base)
    );
    assert_eq!(
        simple_dropdown_content_class(Some("bottom-full w-40")),
        format!("{} bottom-full mb-2 left-0 bottom-full w-40", base)
    );
}
