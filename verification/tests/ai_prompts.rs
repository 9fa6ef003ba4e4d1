//! Prompts of the classification pipeline.

use applymonitor::ai::{active_prompt_index, can_save_prompt, stored_flag, AiPrompt};

fn prompt(id: &str, active: bool) -> AiPrompt {
    AiPrompt {
        id: id.to_string(),
        name: format!("prompt {}", id),
        stage: "classify".to_string(),
        prompt: "text".to_string(),
        is_active: active,
        created_at: String::new(),
        updated_at: String::new(),
    }
}

#[test]
fn stored_flag_reading_order() {
    assert!(stored_flag(Some(true), Some(0), Some(false)));
    assert!(!stored_flag(Some(false), Some(1), Some(true)));
    assert!(stored_flag(None, Some(2), Some(false)));
    assert!(!stored_flag(None, Some(0), Some(true)));
    assert!(stored_flag(None, None, Some(true)));
    assert!(!stored_flag(None, None, None));
}

#[test]
fn first_active_prompt_is_shown() {
    let prompts = vec![prompt("a", false), prompt("b", true), prompt("c", true)];
    assert_eq!(active_prompt_index(&prompts), Some(1));
    assert_eq!(active_prompt_index(&vec![prompt("a", false)]), None);
    assert_eq!(active_prompt_index(&Vec::new()), None);
}

#[test]
fn prompt_saving_needs_name_and_text() {
    assert!(can_save_prompt("v2", "Classify {{subject}}"));
    assert!(!can_save_prompt("", "text"));
    assert!(!can_save_prompt("v2", ""));
    assert!(can_save_prompt(" ", " "));
}
