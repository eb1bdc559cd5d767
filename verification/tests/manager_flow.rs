use e3wm::config_parser::ParsedConfig;
use e3wm::event::{contains_bar, Event, Events};
use e3wm::keybinding_parser::{KeyBinding, Keybindings};
use e3wm::workspaces::Workspaces;
use e3wm::x::{Session, Window, XRequest};

fn config(dynamic: bool, layouts: &[&str]) -> ParsedConfig {
    ParsedConfig {
        workspaces: vec![1, 2],
        enabled_layouts: layouts.iter().map(|s| s.to_string()).collect(),
        dynamic,
        keybindings: Vec::new(),
    }
}

fn manager(dynamic: bool, layouts: &[&str]) -> Events {
    let cfg = config(dynamic, layouts);
    let mut session = Session::new(1, 1920, 1080);
    session.bar_height = 26;
    let workspaces = Workspaces::new(&cfg);
    Events::new(cfg, session, workspaces, Keybindings::new())
}

fn map(e: &mut Events, id: u32) -> Vec<XRequest> {
    let out = e.handle_event(Event::MapRequest {
        window: Window::new(id, 0, 0, 100, 100),
        wm_class: b"xterm".to_vec(),
    });
    assert!(!out.quit);
    out.requests
}

fn active_ids(e: &Events) -> Vec<u32> {
    e.workspaces.workspaces[e.workspaces.focus_workspace]
        .windows
        .iter()
        .map(|w| w.win)
        .collect()
}

#[test]
fn map_request_first_window_in_tile() {
    let mut e = manager(true, &["tile"]);
    let reqs = map(&mut e, 10);
    assert_eq!(reqs.len(), 4);
    assert_eq!(reqs[0], XRequest::RegisterWindowEvents { window: 10 });
    match reqs[1] {
        XRequest::Configure { window, rect } => {
            assert_eq!(window, 10);
            assert_eq!((rect.x, rect.y, rect.width, rect.height), (5, 31, 1900, 1034));
        }
        _ => panic!("expected a configure request"),
    }
    assert_eq!(reqs[2], XRequest::SetBorder { window: 10, focused: true });
    assert_eq!(reqs[3], XRequest::MapWindow { window: 10 });
    assert_eq!(active_ids(&e), vec![10]);
}

#[test]
fn map_request_second_window_splits_tile() {
    let mut e = manager(true, &["tile"]);
    map(&mut e, 10);
    let reqs = map(&mut e, 11);
    assert_eq!(reqs.len(), 6);
    match reqs[1] {
        XRequest::Configure { window, rect } => {
            assert_eq!(window, 10);
            assert_eq!((rect.x, rect.y, rect.width, rect.height), (5, 31, 940, 1034));
        }
        _ => panic!("expected a configure request"),
    }
    match reqs[3] {
        XRequest::Configure { window, rect } => {
            assert_eq!(window, 11);
            assert_eq!((rect.x, rect.y, rect.width, rect.height), (965, 31, 940, 1034));
        }
        _ => panic!("expected a configure request"),
    }
    assert_eq!(e.workspaces.workspaces[0].focus_win, 1);
}

#[test]
fn map_request_for_bar_records_height() {
    let mut e = manager(true, &["tile"]);
    e.session.bar_height = 0;
    let out = e.handle_event(Event::MapRequest {
        window: Window::new(7, 0, 0, 1920, 26),
        wm_class: b"polybar".to_vec(),
    });
    assert_eq!(e.session.bar_height, 26);
    assert_eq!(out.requests, vec![XRequest::MapWindow { window: 7 }]);
    assert!(active_ids(&e).is_empty());
}

#[test]
fn configure_request_from_bar_is_ignored() {
    let mut e = manager(true, &["tile"]);
    let out = e.handle_event(Event::ConfigureRequest {
        window: Window::new(7, 0, 0, 1920, 26),
        changes: e3wm::geometry::WindowChanges {
            x: 0,
            y: 0,
            width: 500,
            height: 26,
            border_width: 0,
        },
    });
    assert!(out.requests.is_empty());
}

#[test]
fn configure_request_is_honoured_unmodified() {
    let mut e = manager(true, &["tile"]);
    let out = e.handle_event(Event::ConfigureRequest {
        window: Window::new(9, 0, 0, 300, 200),
        changes: e3wm::geometry::WindowChanges {
            x: 40,
            y: 50,
            width: 500,
            height: 400,
            border_width: 1,
        },
    });
    assert_eq!(out.requests.len(), 1);
    match out.requests[0] {
        XRequest::Configure { window, rect } => {
            assert_eq!(window, 9);
            assert_eq!((rect.x, rect.y, rect.width, rect.height, rect.border_width),
                (40, 50, 500, 400, 1));
        }
        _ => panic!("expected a configure request"),
    }
}

#[test]
fn destroy_focused_refocuses_and_retiles() {
    let mut e = manager(true, &["tile"]);
    map(&mut e, 10);
    map(&mut e, 11);
    map(&mut e, 12);
    let out = e.handle_event(Event::DestroyNotify { window: 12 });
    assert_eq!(active_ids(&e), vec![10, 11]);
    assert_eq!(e.workspaces.workspaces[0].focus_win, 1);
    assert_eq!(out.requests[0], XRequest::SetInputFocus { window: 11 });
    // the remaining pair is re-tiled: master left, stack right
    match out.requests[1] {
        XRequest::Configure { window, rect } => {
            assert_eq!(window, 10);
            assert_eq!((rect.x, rect.y, rect.width, rect.height), (5, 31, 940, 1034));
        }
        _ => panic!("expected a configure request"),
    }
    assert_eq!(out.requests.len(), 5);
}

#[test]
fn destroy_of_unmanaged_window_is_ignored() {
    let mut e = manager(true, &["tile"]);
    map(&mut e, 10);
    let out = e.handle_event(Event::DestroyNotify { window: 77 });
    assert!(out.requests.is_empty());
    assert_eq!(active_ids(&e), vec![10]);
}

#[test]
fn ignored_events_change_nothing() {
    let mut e = manager(true, &["tile"]);
    map(&mut e, 10);
    for ev in [
        Event::CreateNotify,
        Event::MapNotify,
        Event::MappingNotify,
        Event::LeaveNotify,
        Event::EnterNotify,
    ] {
        let out = e.handle_event(ev);
        assert!(out.requests.is_empty());
        assert!(!out.quit);
        assert!(out.spawn.is_none());
    }
    assert_eq!(active_ids(&e), vec![10]);
}

#[test]
fn manual_vertical_split_then_remove() {
    let mut e = manager(false, &["float"]);
    // first window fills the screen under the recorded bar
    let reqs_a = map(&mut e, 10);
    assert_eq!(reqs_a.len(), 4);
    match reqs_a[1] {
        XRequest::Configure { window, rect } => {
            assert_eq!(window, 10);
            assert_eq!((rect.x, rect.y, rect.width, rect.height), (5, 31, 1900, 1034));
        }
        _ => panic!("expected a configure request"),
    }
    // the second window splits the root leaf vertically into halves
    let reqs_b = map(&mut e, 11);
    assert_eq!(reqs_b.len(), 6);
    match reqs_b[1] {
        XRequest::Configure { window, rect } => {
            assert_eq!(window, 10);
            assert_eq!((rect.x, rect.y, rect.width, rect.height), (5, 31, 940, 1034));
        }
        _ => panic!("expected a configure request"),
    }
    match reqs_b[2] {
        XRequest::Configure { window, rect } => {
            assert_eq!(window, 11);
            assert_eq!((rect.x, rect.y, rect.width, rect.height), (965, 31, 940, 1034));
        }
        _ => panic!("expected a configure request"),
    }
    assert_eq!(reqs_b[3], XRequest::SetBorder { window: 10, focused: false });
    assert_eq!(reqs_b[4], XRequest::SetBorder { window: 11, focused: true });
    // destroying the second window promotes the sibling back to full screen
    let out = e.handle_event(Event::DestroyNotify { window: 11 });
    assert_eq!(active_ids(&e), vec![10]);
    match out.requests[0] {
        XRequest::Configure { window, rect } => {
            assert_eq!(window, 10);
            assert_eq!((rect.x, rect.y, rect.width, rect.height), (5, 31, 1900, 1034));
        }
        _ => panic!("expected a configure request"),
    }
    assert_eq!(out.requests[1], XRequest::SetInputFocus { window: 10 });
}

#[test]
fn manual_horizontal_split_halves_height() {
    let mut e = manager(false, &["float"]);
    e.session.vertical = false;
    map(&mut e, 10);
    let reqs = map(&mut e, 11);
    match reqs[1] {
        XRequest::Configure { window, rect } => {
            assert_eq!(window, 10);
            assert_eq!((rect.x, rect.y, rect.width, rect.height), (5, 31, 1900, 494));
        }
        _ => panic!("expected a configure request"),
    }
    match reqs[2] {
        XRequest::Configure { window, rect } => {
            assert_eq!(window, 11);
            assert_eq!((rect.x, rect.y, rect.width, rect.height), (5, 571, 1900, 494));
        }
        _ => panic!("expected a configure request"),
    }
}

#[test]
fn key_press_quit_and_spawn() {
    let mut e = manager(true, &["tile"]);
    e.keybindings.keyseqs.push(KeyBinding {
        keycodes: vec![24],
        modifiers: 64,
        command: b"quit".to_vec(),
        group: "wm".to_string(),
        description: "exit".to_string(),
    });
    e.keybindings.keyseqs.push(KeyBinding {
        keycodes: vec![25],
        modifiers: 64,
        command: b"alacritty".to_vec(),
        group: "launch".to_string(),
        description: "terminal".to_string(),
    });
    let out = e.handle_event(Event::KeyPress { detail: 24, state: 64 });
    assert!(out.quit);
    let out = e.handle_event(Event::KeyPress { detail: 25, state: 64 });
    assert!(!out.quit);
    assert_eq!(out.spawn, Some(b"alacritty".to_vec()));
    // with NumLock engaged (Mod2) the binding still matches
    let out = e.handle_event(Event::KeyPress { detail: 24, state: 64 | 16 });
    assert!(out.quit);
    // a different modifier state does not match
    let out = e.handle_event(Event::KeyPress { detail: 24, state: 0 });
    assert!(!out.quit);
    assert!(out.spawn.is_none());
}

#[test]
fn key_press_goto_tag_switches_workspace() {
    let mut e = manager(true, &["tile"]);
    map(&mut e, 10);
    e.keybindings.keyseqs.push(KeyBinding {
        keycodes: vec![30],
        modifiers: 0,
        command: b"goto_tag,2".to_vec(),
        group: "wm".to_string(),
        description: "second tag".to_string(),
    });
    let out = e.handle_event(Event::KeyPress { detail: 30, state: 0 });
    assert_eq!(e.workspaces.focus_workspace, 1);
    assert_eq!(
        out.requests,
        vec![
            XRequest::UnmapWindow { window: 10 },
            XRequest::SetCurrentDesktop { index: 1 },
            XRequest::SetInputFocus { window: 1 },
        ]
    );
}

#[test]
fn bar_class_detection() {
    assert!(contains_bar(b"polybar\0Polybar"));
    assert!(contains_bar(b"bar"));
    assert!(!contains_bar(b"xterm\0XTerm"));
    assert!(!contains_bar(b"ba"));
    assert!(!contains_bar(b""));
}

#[test]
fn kill_window_targets_the_focused_window() {
    let mut e = manager(true, &["tile"]);
    map(&mut e, 10);
    map(&mut e, 11);
    let reqs = e.session.kill_window(&e.workspaces, &e.config);
    assert_eq!(reqs, vec![XRequest::DestroyWindow { window: 11 }]);
}

#[test]
fn key_press_change_layout_reapplies() {
    let mut e = manager(true, &["tile", "max"]);
    map(&mut e, 10);
    map(&mut e, 11);
    e.keybindings.keyseqs.push(KeyBinding {
        keycodes: vec![40],
        modifiers: 0,
        command: b"change_layout".to_vec(),
        group: "wm".to_string(),
        description: "rotate layout".to_string(),
    });
    let out = e.handle_event(Event::KeyPress { detail: 40, state: 0 });
    // now in max: both windows configured to the full screen
    let mut full = 0;
    for r in &out.requests {
        if let XRequest::Configure { rect, .. } = r {
            assert_eq!((rect.x, rect.y, rect.width, rect.height), (5, 31, 1900, 1034));
            full += 1;
        }
    }
    assert_eq!(full, 2);
}

#[test]
fn key_press_cycle_commands_route_to_active_workspace() {
    let mut e = manager(true, &["tile"]);
    map(&mut e, 10);
    map(&mut e, 11);
    map(&mut e, 12);
    e.keybindings.keyseqs.push(KeyBinding {
        keycodes: vec![44],
        modifiers: 0,
        command: b"cycle_window_forward".to_vec(),
        group: "wm".to_string(),
        description: "swap forward".to_string(),
    });
    e.keybindings.keyseqs.push(KeyBinding {
        keycodes: vec![45],
        modifiers: 0,
        command: b"cycle_window_focus_forward".to_vec(),
        group: "wm".to_string(),
        description: "focus forward".to_string(),
    });
    e.handle_event(Event::KeyPress { detail: 44, state: 0 });
    assert_eq!(active_ids(&e), vec![10, 12, 11]);
    assert_eq!(e.workspaces.workspaces[0].focus_win, 1);
    e.handle_event(Event::KeyPress { detail: 45, state: 0 });
    assert_eq!(e.workspaces.workspaces[0].focus_win, 0);
}

#[test]
fn key_press_goto_tag_out_of_range_is_ignored() {
    let mut e = manager(true, &["tile"]);
    e.keybindings.keyseqs.push(KeyBinding {
        keycodes: vec![31],
        modifiers: 0,
        command: b"goto_tag,9".to_vec(),
        group: "wm".to_string(),
        description: "missing tag".to_string(),
    });
    let out = e.handle_event(Event::KeyPress { detail: 31, state: 0 });
    assert!(out.requests.is_empty());
    assert_eq!(e.workspaces.focus_workspace, 0);
}

#[test]
fn map_request_in_max_raises_new_window() {
    let mut e = manager(true, &["max"]);
    map(&mut e, 10);
    let reqs = map(&mut e, 11);
    // both windows get the full screen; only the newcomer is highlighted
    assert!(reqs.contains(&XRequest::SetBorder { window: 10, focused: false }));
    assert!(reqs.contains(&XRequest::SetBorder { window: 11, focused: true }));
    assert_eq!(e.workspaces.workspaces[0].focus_win, 1);
}

#[test]
fn each_window_lives_in_exactly_one_workspace() {
    let mut e = manager(true, &["tile"]);
    map(&mut e, 10);
    map(&mut e, 11);
    e.keybindings.keyseqs.push(KeyBinding {
        keycodes: vec![30],
        modifiers: 0,
        command: b"goto_tag,2".to_vec(),
        group: "wm".to_string(),
        description: "second tag".to_string(),
    });
    e.handle_event(Event::KeyPress { detail: 30, state: 0 });
    map(&mut e, 12);
    for id in [10u32, 11, 12] {
        let owners = e
            .workspaces
            .workspaces
            .iter()
            .filter(|l| l.windows.iter().any(|w| w.win == id))
            .count();
        assert_eq!(owners, 1);
    }
}
