//! Addresses, contacts and the people of a job's e-mails.

use applymonitor::contacts::{
    contact_address, db_flag, extract_email_address, extract_emails_from_field,
    field_has_brackets_in_order, has_brackets_in_order, new_contact, normalize_email,
    push_unique_contact, sender_name, ContactError, EmailContact,
};
use applymonitor::people::extract_people_from_emails;

fn contact(email: &str) -> EmailContact {
    EmailContact {
        email: email.to_string(),
        user_id: "u1".to_string(),
        name: None,
        linkedin: None,
        website: None,
        is_system: false,
    }
}

#[test]
fn normalize_email_trims_and_lowercases() {
    assert_eq!(normalize_email("  Jane.Doe@Example.COM \n"), "jane.doe@example.com");
    assert_eq!(normalize_email(""), "");
}

#[test]
fn extract_email_address_from_named_form() {
    assert_eq!(extract_email_address("Jane Doe <Jane@Example.com>"), "jane@example.com");
    assert_eq!(extract_email_address("<a@b.c>"), "a@b.c");
}

#[test]
fn extract_email_address_bare_address() {
    assert_eq!(extract_email_address("  BOB@example.org "), "bob@example.org");
}

#[test]
fn extract_email_address_without_at_is_empty() {
    assert_eq!(extract_email_address("Support Team"), "");
    assert_eq!(extract_email_address("Name <not-an-address>"), "");
    assert_eq!(extract_email_address("<>"), "");
}

#[test]
fn extract_email_address_unclosed_bracket_keeps_whole_value() {
    assert_eq!(extract_email_address("Jane <Jane@example.com"), "jane <jane@example.com");
}

#[test]
fn extract_emails_from_field_splits_on_commas() {
    let got = extract_emails_from_field("Jane <JANE@x.com>, bob@y.org , , nobody, \"C\" <c@z.io>");
    assert_eq!(got, vec!["jane@x.com".to_string(), "bob@y.org".to_string(), "c@z.io".to_string()]);
}

#[test]
fn extract_emails_from_field_empty_field() {
    assert!(extract_emails_from_field("").is_empty());
    assert!(extract_emails_from_field(" , ,").is_empty());
}

#[test]
fn sender_name_only_with_bracket() {
    assert_eq!(sender_name("\"Jane Doe\" <jane@x.com>"), Some("Jane Doe".to_string()));
    assert_eq!(sender_name("'Recruiting' <r@x.com>"), Some("Recruiting".to_string()));
    assert_eq!(sender_name("<r@x.com>"), Some(String::new()));
    assert_eq!(sender_name("r@x.com"), None);
}

#[test]
fn db_flag_reads_integers() {
    assert!(db_flag(Some(1)));
    assert!(db_flag(Some(-3)));
    assert!(!db_flag(Some(0)));
    assert!(!db_flag(None));
}

#[test]
fn contact_address_accepts_and_refuses() {
    assert_eq!(contact_address("Jane <Jane@X.com>"), Ok("jane@x.com".to_string()));
    assert_eq!(
        contact_address("no address here"),
        Err(ContactError::InvalidEmail("no address here".to_string()))
    );
}

#[test]
fn new_contact_takes_the_display_name() {
    let c = new_contact("\"Jane Doe\" <jane@x.com>", "jane@x.com".to_string(), "user-7");
    assert_eq!(c.email, "jane@x.com");
    assert_eq!(c.user_id, "user-7");
    assert_eq!(c.name, Some("Jane Doe".to_string()));
    assert_eq!(c.linkedin, None);
    assert_eq!(c.website, None);
    assert!(!c.is_system);
    let plain = new_contact("jane@x.com", "jane@x.com".to_string(), "user-7");
    assert_eq!(plain.name, None);
}

#[test]
fn push_unique_contact_skips_known_addresses() {
    let mut list = Vec::new();
    push_unique_contact(&mut list, contact("a@x.com"));
    push_unique_contact(&mut list, contact("b@x.com"));
    let mut again = contact("a@x.com");
    again.name = Some("Other".to_string());
    push_unique_contact(&mut list, again);
    assert_eq!(list.len(), 2);
    assert_eq!(list[0].email, "a@x.com");
    assert_eq!(list[0].name, None);
    assert_eq!(list[1].email, "b@x.com");
}

#[test]
fn people_are_unique_in_first_occurrence_order() {
    let froms = vec![
        Some("Jane Doe <jane@x.com>".to_string()),
        None,
        Some("bob@y.org".to_string()),
        Some("J. Doe <jane@x.com>".to_string()),
        Some("  Carol   <carol@z.io>".to_string()),
    ];
    let people = extract_people_from_emails(&froms);
    assert_eq!(people.len(), 3);
    assert_eq!(people[0].email, "jane@x.com");
    assert_eq!(people[0].name, "Jane Doe");
    assert_eq!(people[1].email, "bob@y.org");
    assert_eq!(people[1].name, "bob@y.org");
    assert_eq!(people[2].email, "carol@z.io");
    assert_eq!(people[2].name, "Carol");
}

#[test]
fn people_keep_address_case_as_written() {
    let froms = vec![Some("A <Jane@X.com>".to_string()), Some("B <jane@x.com>".to_string())];
    let people = extract_people_from_emails(&froms);
    assert_eq!(people.len(), 2);
    assert_eq!(people[0].email, "Jane@X.com");
}

#[test]
fn people_of_no_emails() {
    assert!(extract_people_from_emails(&Vec::new()).is_empty());
    assert!(extract_people_from_emails(&vec![None, None]).is_empty());
}

#[test]
fn bracket_order_checks() {
    assert!(has_brackets_in_order("Jane <j@x.com>"));
    assert!(has_brackets_in_order("no brackets"));
    assert!(has_brackets_in_order("only > here"));
    assert!(has_brackets_in_order("<>"));
    assert!(!has_brackets_in_order("a > b < c"));
    assert!(field_has_brackets_in_order("A <a@x.com>, b@y.org"));
    assert!(field_has_brackets_in_order(""));
    assert!(!field_has_brackets_in_order("A <a@x.com>, x > y <z"));
}

#[test]
fn extracting_twice_changes_nothing() {
    for v in ["Jane Doe <Jane@Example.COM>", "  BOB@X.org ", "a<b@x>", "Jane <J@x.com", "no address", "<>"] {
        let once = extract_email_address(v);
        assert_eq!(extract_email_address(&once), once, "{}", v);
    }
}
