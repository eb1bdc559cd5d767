use e3wm::config_parser::ParsedConfig;
use e3wm::layouts::{Layouts, WmLayouts};
use e3wm::tree::Tree;
use e3wm::workspaces::Workspaces;
use e3wm::x::{Session, Window, XRequest};

fn win(id: u32) -> Window {
    Window::new(id, 0, 0, 100, 100)
}

fn layout(ids: &[u32], focus: usize, mode: WmLayouts) -> Layouts {
    Layouts {
        windows: ids.iter().map(|&id| win(id)).collect(),
        focus_win: focus,
        current_layout: mode,
        tree: Tree::new(),
    }
}

fn dynamic_config(layouts: &[&str]) -> ParsedConfig {
    ParsedConfig {
        workspaces: vec![1, 2],
        enabled_layouts: layouts.iter().map(|s| s.to_string()).collect(),
        dynamic: true,
        keybindings: Vec::new(),
    }
}

fn ids(l: &Layouts) -> Vec<u32> {
    l.windows.iter().map(|w| w.win).collect()
}

#[test]
fn max_rotate_moves_top_to_back() {
    let session = Session::new(1, 1920, 1080);
    let config = dynamic_config(&["max"]);
    let mut l = layout(&[10, 11, 12], 0, WmLayouts::Max);
    let reqs = l.cycle_window_forward(&session, &config);
    assert_eq!(ids(&l), vec![11, 12, 10]);
    assert_eq!(l.focus_win, 0);
    assert_eq!(reqs.len(), 2);
    assert_eq!(reqs[0], XRequest::StackBelow { window: 10, sibling: 11 });
    assert_eq!(reqs[1], XRequest::SetInputFocus { window: 11 });
}

#[test]
fn max_rotate_back_restores() {
    let session = Session::new(1, 1920, 1080);
    let config = dynamic_config(&["max"]);
    let mut l = layout(&[10, 11, 12], 0, WmLayouts::Max);
    l.cycle_window_forward(&session, &config);
    l.cycle_window_backward(&session, &config);
    assert_eq!(ids(&l), vec![10, 11, 12]);
}

#[test]
fn swap_cycle_carries_focused_window() {
    let session = Session::new(1, 1920, 1080);
    let config = dynamic_config(&["tile"]);
    let mut l = layout(&[10, 11, 12], 2, WmLayouts::Tile);
    l.cycle_window_forward(&session, &config);
    assert_eq!(ids(&l), vec![10, 12, 11]);
    assert_eq!(l.focus_win, 1);
    assert_eq!(l.windows[l.focus_win].win, 12);
}

#[test]
fn swap_cycle_is_a_rotation() {
    let session = Session::new(1, 1920, 1080);
    let config = dynamic_config(&["tile"]);
    let mut l = layout(&[10, 11, 12], 2, WmLayouts::Tile);
    for _ in 0..3 {
        l.cycle_window_forward(&session, &config);
    }
    assert_eq!(ids(&l), vec![10, 11, 12]);
    assert_eq!(l.focus_win, 2);
}

#[test]
fn swap_cycle_wraps_by_rotating() {
    let session = Session::new(1, 1920, 1080);
    let config = dynamic_config(&["tile"]);
    let mut l = layout(&[10, 11, 12], 0, WmLayouts::Tile);
    l.cycle_window_forward(&session, &config);
    assert_eq!(ids(&l), vec![11, 12, 10]);
    assert_eq!(l.focus_win, 2);
}

#[test]
fn focus_cycle_is_a_rotation() {
    let session = Session::new(1, 1920, 1080);
    let config = dynamic_config(&["tile"]);
    let mut l = layout(&[10, 11, 12], 1, WmLayouts::Tile);
    let before = ids(&l);
    for _ in 0..3 {
        l.cycle_window_focus_forward(&session, &config);
    }
    assert_eq!(l.focus_win, 1);
    assert_eq!(ids(&l), before);
}

#[test]
fn focus_cycle_updates_borders_and_focus() {
    let session = Session::new(1, 1920, 1080);
    let config = dynamic_config(&["tile"]);
    let mut l = layout(&[10, 11], 1, WmLayouts::Tile);
    let reqs = l.cycle_window_focus_forward(&session, &config);
    assert_eq!(l.focus_win, 0);
    assert_eq!(reqs[0], XRequest::SetBorder { window: 11, focused: false });
    assert_eq!(reqs[1], XRequest::SetBorder { window: 10, focused: true });
    assert_eq!(reqs[2], XRequest::SetInputFocus { window: 10 });
}

#[test]
fn focus_cycle_is_noop_in_max() {
    let session = Session::new(1, 1920, 1080);
    let config = dynamic_config(&["max"]);
    let mut l = layout(&[10, 11], 1, WmLayouts::Max);
    let reqs = l.cycle_window_focus_forward(&session, &config);
    assert_eq!(l.focus_win, 1);
    assert!(reqs.is_empty());
}

#[test]
fn change_layout_rotates_enabled_layouts() {
    let session = Session::new(1, 1920, 1080);
    let config = dynamic_config(&["tile", "max"]);
    let mut l = layout(&[10], 0, WmLayouts::Tile);
    l.change_layout(&config, &session);
    assert!(matches!(l.current_layout, WmLayouts::Max));
    l.change_layout(&config, &session);
    assert!(matches!(l.current_layout, WmLayouts::Tile));
}

#[test]
fn layout_names_round_trip() {
    let l = Layouts::new(&dynamic_config(&["max", "tile"]));
    assert!(matches!(l.current_layout, WmLayouts::Max));
    assert_eq!(l.get_layout_from_enum(), "max".to_string());
    assert!(matches!(
        Layouts::get_enum_from_layout(&"tile".to_string()),
        WmLayouts::Tile
    ));
    assert!(matches!(
        Layouts::get_enum_from_layout(&"anything".to_string()),
        WmLayouts::Float
    ));
}

#[test]
fn workspace_switch_unmaps_and_maps_cohorts() {
    let session = Session::new(99, 1920, 1080);
    let l0 = layout(&[10, 11], 1, WmLayouts::Tile);
    let l1 = layout(&[12], 0, WmLayouts::Tile);
    let mut w = Workspaces { workspaces: vec![l0, l1], focus_workspace: 0 };
    let reqs = w.go_to_tag(1, &session);
    assert_eq!(w.focus_workspace, 1);
    assert_eq!(
        reqs,
        vec![
            XRequest::UnmapWindow { window: 10 },
            XRequest::UnmapWindow { window: 11 },
            XRequest::MapWindow { window: 12 },
            XRequest::SetCurrentDesktop { index: 1 },
            XRequest::SetInputFocus { window: 12 },
        ]
    );
    let back = w.go_to_tag(0, &session);
    assert_eq!(w.focus_workspace, 0);
    assert_eq!(
        back,
        vec![
            XRequest::UnmapWindow { window: 12 },
            XRequest::MapWindow { window: 10 },
            XRequest::MapWindow { window: 11 },
            XRequest::SetCurrentDesktop { index: 0 },
            XRequest::SetInputFocus { window: 11 },
        ]
    );
}

#[test]
fn workspace_switch_to_empty_focuses_root() {
    let session = Session::new(99, 1920, 1080);
    let l0 = layout(&[10], 0, WmLayouts::Tile);
    let l1 = layout(&[], 0, WmLayouts::Tile);
    let mut w = Workspaces { workspaces: vec![l0, l1], focus_workspace: 0 };
    let reqs = w.go_to_tag(1, &session);
    assert_eq!(
        reqs,
        vec![
            XRequest::UnmapWindow { window: 10 },
            XRequest::SetCurrentDesktop { index: 1 },
            XRequest::SetInputFocus { window: 99 },
        ]
    );
}

#[test]
fn switch_away_and_back_restores_state() {
    let session = Session::new(99, 1920, 1080);
    let l0 = layout(&[10, 11], 1, WmLayouts::Tile);
    let l1 = layout(&[12], 0, WmLayouts::Tile);
    let mut w = Workspaces { workspaces: vec![l0, l1], focus_workspace: 0 };
    w.go_to_tag(1, &session);
    let snapshot: Vec<Vec<u32>> = w.workspaces.iter().map(|l| ids(l)).collect();
    let focus = w.focus_workspace;
    w.go_to_tag(0, &session);
    w.go_to_tag(1, &session);
    let after: Vec<Vec<u32>> = w.workspaces.iter().map(|l| ids(l)).collect();
    assert_eq!(after, snapshot);
    assert_eq!(w.focus_workspace, focus);
}

#[test]
fn manual_split_is_noop_in_dynamic_mode() {
    let session = Session::new(1, 1920, 1080);
    let config = dynamic_config(&["tile"]);
    let mut l = layout(&[], 0, WmLayouts::Float);
    let reqs = l.split_window_vertical(&session, win(10), &config);
    assert!(reqs.is_empty());
    assert!(ids(&l).is_empty());
}

#[test]
fn manual_resize_doubles_primary_dimension() {
    let session = Session::new(1, 1920, 1080);
    let mut config = dynamic_config(&["float"]);
    config.dynamic = false;
    let mut l = layout(&[], 0, WmLayouts::Float);
    l.split_window_vertical(&session, win(10), &config);
    l.split_window_vertical(&session, win(11), &config);
    // the focused leaf (the new right half, 960 wide) grows to double width
    let reqs = l.resize(&session);
    assert_eq!(reqs.len(), 1);
    match reqs[0] {
        XRequest::Configure { window, rect } => {
            assert_eq!(window, 11);
            assert_eq!(rect.width, 1920 - 20);
        }
        _ => panic!("expected a configure request"),
    }
}

#[test]
fn manual_remove_of_root_empties_the_tree() {
    let session = Session::new(1, 1920, 1080);
    let mut config = dynamic_config(&["float"]);
    config.dynamic = false;
    let mut l = layout(&[], 0, WmLayouts::Float);
    l.split_window_vertical(&session, win(10), &config);
    assert_eq!(ids(&l), vec![10]);
    l.remove();
    assert!(ids(&l).is_empty());
    assert!(l.tree.root.is_none());
    assert_eq!(l.focus_win, 0);
}

#[test]
fn float_swap_keeps_descriptors() {
    let session = Session::new(1, 1920, 1080);
    let config = dynamic_config(&["float"]);
    let mut l = layout(&[10, 11], 1, WmLayouts::Float);
    let reqs = l.cycle_window_forward(&session, &config);
    assert!(reqs.is_empty());
    assert_eq!(ids(&l), vec![11, 10]);
    assert_eq!(l.focus_win, 0);
}

#[test]
fn config_defaults_are_empty_and_dynamic() {
    let c = ParsedConfig::new();
    assert!(c.workspaces.is_empty());
    assert!(c.enabled_layouts.is_empty());
    assert!(c.dynamic);
    assert!(c.keybindings.is_empty());
}
