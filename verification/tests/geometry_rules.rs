use e3wm::geometry::{configured_geometry, WindowChanges, BAR_HEIGHT, BORDER_WIDTH, GAPS};
use e3wm::max::max;
use e3wm::layouts::{Layouts, WmLayouts};
use e3wm::tile::tile;
use e3wm::tree::Tree;
use e3wm::x::{Session, Window, XRequest};

fn win(id: u32) -> Window {
    Window::new(id, 0, 0, 100, 100)
}

fn tile_layout(ids: &[u32], focus: usize) -> Layouts {
    Layouts {
        windows: ids.iter().map(|&id| win(id)).collect(),
        focus_win: focus,
        current_layout: WmLayouts::Tile,
        tree: Tree::new(),
    }
}

#[test]
fn algebra_full_screen() {
    let c = WindowChanges { x: 0, y: 0, width: 1920, height: 1080, border_width: 0 };
    let r = configured_geometry(&c, BORDER_WIDTH, BAR_HEIGHT, GAPS);
    assert_eq!(r.x, 5);
    assert_eq!(r.y, 31);
    assert_eq!(r.width, 1900);
    assert_eq!(r.height, 1034);
    assert_eq!(r.border_width, 5);
}

#[test]
fn algebra_clamps_collapsed_dimensions() {
    let c = WindowChanges { x: 0, y: 0, width: 8, height: 20, border_width: 0 };
    let r = configured_geometry(&c, BORDER_WIDTH, BAR_HEIGHT, GAPS);
    assert_eq!(r.width, 1);
    assert_eq!(r.height, 1);
}

#[test]
fn algebra_zero_decorations_is_identity() {
    let c = WindowChanges { x: 7, y: 9, width: 300, height: 200, border_width: 2 };
    let r = configured_geometry(&c, 0, 0, 0);
    assert_eq!(r.x, 7);
    assert_eq!(r.y, 9);
    assert_eq!(r.width, 300);
    assert_eq!(r.height, 200);
    assert_eq!(r.border_width, 2);
}

#[test]
fn first_window_fills_screen() {
    let session = Session::new(1, 1920, 1080);
    let mut l = tile_layout(&[10], 0);
    let reqs = tile(&mut l, &session);
    assert_eq!(reqs.len(), 2);
    match reqs[0] {
        XRequest::Configure { window, rect } => {
            assert_eq!(window, 10);
            assert_eq!(rect.x, 5);
            assert_eq!(rect.y, 31);
            assert_eq!(rect.width, 1900);
            assert_eq!(rect.height, 1034);
        }
        _ => panic!("expected a configure request"),
    }
    assert_eq!(reqs[1], XRequest::SetBorder { window: 10, focused: true });
}

#[test]
fn two_windows_split_left_and_right() {
    let session = Session::new(1, 1920, 1080);
    let mut l = tile_layout(&[10, 11], 1);
    let reqs = tile(&mut l, &session);
    assert_eq!(reqs.len(), 4);
    match reqs[0] {
        XRequest::Configure { window, rect } => {
            assert_eq!(window, 10);
            assert_eq!((rect.x, rect.y, rect.width, rect.height), (5, 31, 940, 1034));
        }
        _ => panic!("expected a configure request"),
    }
    assert_eq!(reqs[1], XRequest::SetBorder { window: 10, focused: false });
    match reqs[2] {
        XRequest::Configure { window, rect } => {
            assert_eq!(window, 11);
            assert_eq!((rect.x, rect.y, rect.width, rect.height), (965, 31, 940, 1034));
        }
        _ => panic!("expected a configure request"),
    }
    assert_eq!(reqs[3], XRequest::SetBorder { window: 11, focused: true });
}

#[test]
fn three_windows_stack_without_overlap() {
    let session = Session::new(1, 1920, 1080);
    let mut l = tile_layout(&[10, 11, 12], 0);
    let reqs = tile(&mut l, &session);
    assert_eq!(reqs.len(), 6);
    let rects: Vec<_> = reqs
        .iter()
        .filter_map(|r| match r {
            XRequest::Configure { rect, .. } => Some(*rect),
            _ => None,
        })
        .collect();
    assert_eq!((rects[0].x, rects[0].y, rects[0].width, rects[0].height), (5, 31, 940, 1034));
    assert_eq!((rects[1].x, rects[1].y, rects[1].width, rects[1].height), (965, 31, 940, 494));
    assert_eq!((rects[2].x, rects[2].y, rects[2].width, rects[2].height), (965, 545, 940, 520));
    // the stack windows abut without a seam and stay on screen
    assert!(rects[1].y + rects[1].height <= rects[2].y);
    assert!(rects[2].y + rects[2].height <= 1080);
    assert!(rects[0].x + rects[0].width <= rects[1].x);
}

#[test]
fn max_gives_every_window_the_screen() {
    let session = Session::new(1, 1920, 1080);
    let mut l = tile_layout(&[10, 11], 0);
    l.current_layout = WmLayouts::Max;
    let reqs = max(&mut l, &session);
    assert_eq!(reqs.len(), 4);
    for r in &reqs {
        if let XRequest::Configure { rect, .. } = r {
            assert_eq!((rect.x, rect.y, rect.width, rect.height), (5, 31, 1900, 1034));
        }
    }
    assert_eq!(reqs[1], XRequest::SetBorder { window: 10, focused: true });
    assert_eq!(reqs[3], XRequest::SetBorder { window: 11, focused: false });
}
