use linutil_core::confirmation::{ConfirmPrompt, FloatEvent, KeyInput};

fn prompt_from(names: &[&str]) -> ConfirmPrompt {
    let names: Vec<String> = names.iter().map(|n| n.to_string()).collect();
    ConfirmPrompt::new(&names)
}

#[test]
fn labels_are_one_indexed() {
    let p = prompt_from(&["a", "b", "c"]);
    assert_eq!(p.names, vec!["1. a", "2. b", "3. c"]);
}

#[test]
fn labels_grow_to_two_digits() {
    let names: Vec<String> = (0..12).map(|i| format!("n{i}")).collect();
    let p = ConfirmPrompt::new(&names);
    assert_eq!(p.names[9], "10. n9");
    assert_eq!(p.names[11], "12. n11");
}

#[test]
fn scroll_down_moves_visible_start() {
    let mut p = prompt_from(&["a", "b", "c"]);
    p.scroll_down();
    let visible = p.visible_labels();
    assert_eq!(visible, vec!["2. b", "3. c"]);
}

#[test]
fn scroll_up_at_top_is_a_no_op() {
    let mut p = prompt_from(&["a", "b", "c"]);
    p.scroll_up();
    assert_eq!(p.visible_labels(), vec!["1. a", "2. b", "3. c"]);
}

#[test]
fn scroll_down_clamps_at_bottom() {
    let mut p = prompt_from(&["a", "b", "c"]);
    for _ in 0..10 {
        p.scroll_down();
    }
    assert_eq!(p.visible_labels(), vec!["3. c"]);
    p.scroll_up();
    assert_eq!(p.visible_labels(), vec!["2. b", "3. c"]);
}

#[test]
fn confirm_keys_emit_confirm() {
    let mut p = prompt_from(&["a", "b", "c"]);
    assert_eq!(p.handle_key_event(KeyInput::Char('y')), FloatEvent::ConfirmSelection);
    assert_eq!(p.handle_key_event(KeyInput::Char('Y')), FloatEvent::ConfirmSelection);
}

#[test]
fn abort_keys_emit_abort_at_any_offset() {
    let mut p = prompt_from(&["a", "b", "c"]);
    p.scroll_down();
    p.scroll_down();
    assert_eq!(p.handle_key_event(KeyInput::Char('n')), FloatEvent::AbortConfirmation);
    assert_eq!(p.handle_key_event(KeyInput::Char('N')), FloatEvent::AbortConfirmation);
    assert_eq!(p.handle_key_event(KeyInput::Esc), FloatEvent::AbortConfirmation);
}

#[test]
fn other_input_changes_nothing() {
    let mut p = prompt_from(&["a", "b"]);
    assert_eq!(p.handle_key_event(KeyInput::Char('x')), FloatEvent::NoEvent);
    assert_eq!(p.handle_key_event(KeyInput::Other), FloatEvent::NoEvent);
    assert_eq!(p.visible_labels(), vec!["1. a", "2. b"]);
}

#[test]
fn scroll_keys_scroll() {
    let mut p = prompt_from(&["a", "b", "c"]);
    assert_eq!(p.handle_key_event(KeyInput::Char('j')), FloatEvent::NoEvent);
    assert_eq!(p.visible_labels(), vec!["2. b", "3. c"]);
    assert_eq!(p.handle_key_event(KeyInput::Char('k')), FloatEvent::NoEvent);
    assert_eq!(p.visible_labels(), vec!["1. a", "2. b", "3. c"]);
}

#[test]
fn offset_stays_in_bounds_under_arbitrary_scrolling() {
    let mut p = prompt_from(&["a", "b", "c", "d"]);
    let inputs = ['j', 'j', 'k', 'j', 'j', 'j', 'j', 'k', 'k', 'k', 'k', 'k', 'j'];
    for c in inputs {
        p.handle_key_event(KeyInput::Char(c));
        assert!(p.scroll < 4);
        assert!(!p.visible_labels().is_empty());
    }
}

#[test]
fn dialog_is_finished_on_construction() {
    let p = prompt_from(&["a"]);
    assert!(p.is_finished());
}

#[test]
fn shortcut_list_documents_bindings() {
    let p = prompt_from(&["a"]);
    let (title, shortcuts) = p.get_shortcut_list();
    assert_eq!(title, "Confirmation prompt");
    assert_eq!(shortcuts.len(), 5);
    assert_eq!(shortcuts[0].action, "Continue");
    assert_eq!(shortcuts[0].keys, vec!["Y", "y"]);
    assert_eq!(shortcuts[1].action, "Abort");
    assert_eq!(shortcuts[1].keys, vec!["N", "n"]);
    assert_eq!(shortcuts[2].action, "Scroll down");
    assert_eq!(shortcuts[2].keys, vec!["j"]);
    assert_eq!(shortcuts[3].action, "Scroll up");
    assert_eq!(shortcuts[3].keys, vec!["k"]);
    assert_eq!(shortcuts[4].action, "Close linutil");
    assert_eq!(shortcuts[4].keys, vec!["CTRL-c", "q"]);
}

#[test]
fn empty_selection_builds_empty_prompt() {
    let p = prompt_from(&[]);
    assert!(p.names.is_empty());
    assert!(p.visible_labels().is_empty());
}
