use e3wm::keybinding_parser::{
    keycodes_of_keysym, match_key_press, parse_chord, parse_command, ChordError, Command,
    KeyBinding, Keybindings, KeyToken, KEYSYM_ESCAPE, KEYSYM_RETURN, KEYSYM_TAB, MASK_CONTROL,
    MASK_MOD1, MASK_MOD4, MASK_SHIFT,
};

#[test]
fn chord_with_modifiers_and_bracketed_key() {
    let r = parse_chord(&b"C-S-M-<tab>".to_vec()).unwrap();
    assert_eq!(r.0, MASK_CONTROL | MASK_SHIFT | MASK_MOD4);
    assert_eq!(r.1, KeyToken::Keysym(KEYSYM_TAB));
}

#[test]
fn chord_bracketed_names_are_case_insensitive() {
    let r = parse_chord(&b"M-<ENTER>".to_vec()).unwrap();
    assert_eq!(r.0, MASK_MOD4);
    assert_eq!(r.1, KeyToken::Keysym(KEYSYM_RETURN));
}

#[test]
fn chord_unknown_bracketed_key_is_escape() {
    let r = parse_chord(&b"A-<menu>".to_vec()).unwrap();
    assert_eq!(r.0, MASK_MOD1);
    assert_eq!(r.1, KeyToken::Keysym(KEYSYM_ESCAPE));
}

#[test]
fn chord_named_key_is_lowered() {
    let r = parse_chord(&b"C-Return".to_vec()).unwrap();
    assert_eq!(r.0, MASK_CONTROL);
    assert_eq!(r.1, KeyToken::Named(b"return".to_vec()));
}

#[test]
fn chord_single_key_has_empty_mask() {
    let r = parse_chord(&b"t".to_vec()).unwrap();
    assert_eq!(r.0, 0);
    assert_eq!(r.1, KeyToken::Named(b"t".to_vec()));
}

#[test]
fn chord_is_trimmed() {
    let r = parse_chord(&b"  C-t  ".to_vec()).unwrap();
    assert_eq!(r.0, MASK_CONTROL);
    assert_eq!(r.1, KeyToken::Named(b"t".to_vec()));
}

#[test]
fn chord_with_embedded_space_is_rejected() {
    assert_eq!(parse_chord(&b"C-x C-s".to_vec()), Err(ChordError::KeySequence));
}

#[test]
fn chord_with_unknown_modifier_is_rejected() {
    assert_eq!(parse_chord(&b"Q-t".to_vec()), Err(ChordError::UnknownModifier));
}

#[test]
fn chord_with_half_bracket_is_rejected() {
    assert_eq!(parse_chord(&b"C-<tab".to_vec()), Err(ChordError::MixedBracket));
    assert_eq!(parse_chord(&b"C-tab>".to_vec()), Err(ChordError::MixedBracket));
}

#[test]
fn chord_ending_in_modifier_names_no_key() {
    assert_eq!(parse_chord(&b"C-S".to_vec()), Err(ChordError::NoKey));
}

#[test]
fn command_names_are_classified() {
    assert_eq!(parse_command(&b"quit".to_vec()), Command::Quit);
    assert_eq!(parse_command(&b"change_layout".to_vec()), Command::ChangeLayout);
    assert_eq!(
        parse_command(&b"cycle_window_focus_forward".to_vec()),
        Command::CycleWindowFocusForward
    );
    assert_eq!(
        parse_command(&b"cycle_window_focus_backward".to_vec()),
        Command::CycleWindowFocusBackward
    );
    assert_eq!(parse_command(&b"cycle_window_forward".to_vec()), Command::CycleWindowForward);
    assert_eq!(parse_command(&b"cycle_window_backward".to_vec()), Command::CycleWindowBackward);
    assert_eq!(parse_command(&b"firefox".to_vec()), Command::Spawn);
    assert_eq!(parse_command(&b"".to_vec()), Command::Spawn);
}

#[test]
fn goto_tag_takes_a_numeric_argument() {
    assert_eq!(parse_command(&b"goto_tag,2".to_vec()), Command::GotoTag(2));
    assert_eq!(parse_command(&b"goto_tag,10".to_vec()), Command::GotoTag(10));
    assert_eq!(parse_command(&b"goto_tag".to_vec()), Command::Invalid);
    assert_eq!(parse_command(&b"goto_tag,".to_vec()), Command::Invalid);
    assert_eq!(parse_command(&b"goto_tag,two".to_vec()), Command::Invalid);
    assert_eq!(parse_command(&b"goto_tag,12345678901".to_vec()), Command::Invalid);
}

#[test]
fn keycode_scan_finds_all_rows() {
    // three keycodes starting at 8, two keysym columns per keycode
    let syms: Vec<u32> = vec![100, 200, 300, 100, 100, 400];
    assert_eq!(keycodes_of_keysym(8, 2, &syms, 100), vec![8, 9, 10]);
    assert_eq!(keycodes_of_keysym(8, 2, &syms, 300), vec![9]);
    assert_eq!(keycodes_of_keysym(8, 2, &syms, 999), Vec::<u8>::new());
}

#[test]
fn first_matching_binding_wins() {
    let mut kb = Keybindings::new();
    kb.keyseqs.push(KeyBinding {
        keycodes: vec![10, 11],
        modifiers: MASK_CONTROL,
        command: b"quit".to_vec(),
        group: "wm".to_string(),
        description: "first".to_string(),
    });
    kb.keyseqs.push(KeyBinding {
        keycodes: vec![11],
        modifiers: MASK_CONTROL,
        command: b"other".to_vec(),
        group: "wm".to_string(),
        description: "second".to_string(),
    });
    assert_eq!(match_key_press(&kb, 11, MASK_CONTROL), Some(0));
    assert_eq!(match_key_press(&kb, 11, MASK_CONTROL | 16), Some(0));
    assert_eq!(match_key_press(&kb, 12, MASK_CONTROL), None);
    assert_eq!(match_key_press(&kb, 11, 0), None);
}
