use zos_wm::tiling::dwindle::{DwindleTree, LayoutNode, Orientation};
use zos_wm::tiling::{Direction, Edge, IdCounter, Rect, WindowKey};

fn work_area() -> Rect {
    Rect::new(0, 0, 1920, 1080)
}

#[test]
fn insert_into_empty_tree_makes_single_leaf() {
    let mut keys = IdCounter::new();
    let mut tree = DwindleTree::new(work_area());
    let w1 = WindowKey::allocate(&mut keys);
    tree.insert(w1);

    assert_eq!(tree.len(), 1);
    let r = tree.rect_for(w1).expect("w1 should have a rect");
    assert_eq!(r, work_area(), "lone window fills the whole work area");
    assert!(matches!(tree.root, Some(LayoutNode::Tile(_))));
}

#[test]
fn insert_second_window_horizontal_split() {
    let mut keys = IdCounter::new();
    let mut tree = DwindleTree::new(work_area());
    let w1 = WindowKey::allocate(&mut keys);
    let w2 = WindowKey::allocate(&mut keys);
    tree.insert(w1);
    tree.insert(w2);

    assert_eq!(tree.len(), 2);
    let r1 = tree.rect_for(w1).expect("w1 rect");
    let r2 = tree.rect_for(w2).expect("w2 rect");
    assert_eq!(r1, Rect::new(0, 0, 960, 1080));
    assert_eq!(r2, Rect::new(960, 0, 960, 1080));
    assert!(matches!(
        tree.root,
        Some(LayoutNode::Split {
            orientation: Orientation::Horizontal,
            ..
        })
    ));
}

#[test]
fn remove_collapses_split_back_to_single_leaf() {
    let mut keys = IdCounter::new();
    let mut tree = DwindleTree::new(work_area());
    let w1 = WindowKey::allocate(&mut keys);
    let w2 = WindowKey::allocate(&mut keys);
    tree.insert(w1);
    tree.insert(w2);
    tree.remove(w2);

    assert_eq!(tree.len(), 1);
    assert!(tree.rect_for(w2).is_none());
    let r1 = tree.rect_for(w1).expect("w1 should still be there");
    assert_eq!(r1, work_area(), "w1 should expand back to full area");
    assert!(matches!(tree.root, Some(LayoutNode::Tile(_))));
}

#[test]
fn remove_first_window_promotes_sibling() {
    let mut keys = IdCounter::new();
    let mut tree = DwindleTree::new(work_area());
    let w1 = WindowKey::allocate(&mut keys);
    let w2 = WindowKey::allocate(&mut keys);
    tree.insert(w1);
    tree.insert(w2);
    tree.remove(w1);

    assert_eq!(tree.len(), 1);
    let r2 = tree.rect_for(w2).expect("w2 should remain");
    assert_eq!(r2, work_area());
}

#[test]
fn remove_unknown_window_is_noop() {
    let mut keys = IdCounter::new();
    let mut tree = DwindleTree::new(work_area());
    let w1 = WindowKey::allocate(&mut keys);
    let phantom = WindowKey::allocate(&mut keys);
    tree.insert(w1);
    tree.remove(phantom);
    assert_eq!(tree.len(), 1);
    assert_eq!(tree.rect_for(w1), Some(work_area()));
}

#[test]
fn focus_in_direction_finds_horizontal_neighbour() {
    let mut keys = IdCounter::new();
    let mut tree = DwindleTree::new(work_area());
    let w1 = WindowKey::allocate(&mut keys);
    let w2 = WindowKey::allocate(&mut keys);
    tree.insert(w1);
    tree.insert(w2);
    assert_eq!(tree.focus_in_direction(w1, Direction::Right), Some(w2));
    assert_eq!(tree.focus_in_direction(w2, Direction::Left), Some(w1));
    assert_eq!(tree.focus_in_direction(w1, Direction::Up), None);
    assert_eq!(tree.focus_in_direction(w2, Direction::Down), None);
}

#[test]
fn resize_edge_adjusts_horizontal_ratio() {
    let mut keys = IdCounter::new();
    let mut tree = DwindleTree::new(work_area());
    let w1 = WindowKey::allocate(&mut keys);
    let w2 = WindowKey::allocate(&mut keys);
    tree.insert(w1);
    tree.insert(w2);
    tree.resize_edge(w1, Edge::Right, 192);
    let r1 = tree.rect_for(w1).expect("w1 rect");
    let r2 = tree.rect_for(w2).expect("w2 rect");
    assert_eq!(r1.w, 1152);
    assert_eq!(r2.w, 1920 - 1152);
    assert_eq!(r2.x, 1152);
}

// ---------------------------------------------------------------------------
// Further cases
// ---------------------------------------------------------------------------

#[test]
fn keys_count_up_from_one_and_wrap() {
    let mut keys = IdCounter::new();
    assert_eq!(WindowKey::allocate(&mut keys).raw(), 1);
    assert_eq!(WindowKey::allocate(&mut keys).raw(), 2);
    assert_eq!(keys.take_next(), 3);
}

#[test]
fn tall_area_splits_vertically() {
    let mut keys = IdCounter::new();
    let mut tree = DwindleTree::new(Rect::new(0, 0, 1080, 1920));
    let w1 = WindowKey::allocate(&mut keys);
    let w2 = WindowKey::allocate(&mut keys);
    tree.insert(w1);
    tree.insert(w2);
    assert_eq!(tree.rect_for(w1), Some(Rect::new(0, 0, 1080, 960)));
    assert_eq!(tree.rect_for(w2), Some(Rect::new(0, 960, 1080, 960)));
    assert!(matches!(
        tree.root,
        Some(LayoutNode::Split {
            orientation: Orientation::Vertical,
            ..
        })
    ));
}

#[test]
fn odd_width_rounds_first_share() {
    let mut keys = IdCounter::new();
    let mut tree = DwindleTree::new(Rect::new(10, 20, 1001, 500));
    let w1 = WindowKey::allocate(&mut keys);
    let w2 = WindowKey::allocate(&mut keys);
    tree.insert(w1);
    tree.insert(w2);
    let r1 = tree.rect_for(w1).unwrap();
    let r2 = tree.rect_for(w2).unwrap();
    // 1001 * 0.5 = 500.5 rounds to 501; the second gets the rest.
    assert_eq!(r1, Rect::new(10, 20, 501, 500));
    assert_eq!(r2, Rect::new(511, 20, 500, 500));
}

#[test]
fn third_window_splits_first_leaf_again() {
    let mut keys = IdCounter::new();
    let mut tree = DwindleTree::new(work_area());
    let w1 = WindowKey::allocate(&mut keys);
    let w2 = WindowKey::allocate(&mut keys);
    let w3 = WindowKey::allocate(&mut keys);
    tree.insert(w1);
    tree.insert(w2);
    tree.insert(w3);
    assert_eq!(tree.len(), 3);
    // The left half (960x1080) is taller than wide, so it splits vertically.
    assert_eq!(tree.rect_for(w1), Some(Rect::new(0, 0, 960, 540)));
    assert_eq!(tree.rect_for(w3), Some(Rect::new(0, 540, 960, 540)));
    assert_eq!(tree.rect_for(w2), Some(Rect::new(960, 0, 960, 1080)));
    // The tiles cover the work area exactly.
    let area: i64 = tree
        .windows()
        .iter()
        .map(|k| {
            let r = tree.rect_for(*k).unwrap();
            r.w as i64 * r.h as i64
        })
        .sum();
    assert_eq!(area, 1920 * 1080);
}

#[test]
fn remove_after_insert_restores_layout() {
    let mut keys = IdCounter::new();
    let mut tree = DwindleTree::new(work_area());
    let w1 = WindowKey::allocate(&mut keys);
    let w2 = WindowKey::allocate(&mut keys);
    tree.insert(w1);
    tree.insert(w2);
    let before: Vec<(WindowKey, Rect)> = tree.windows().iter().map(|k| (*k, tree.rect_for(*k).unwrap())).collect();
    let w3 = WindowKey::allocate(&mut keys);
    tree.insert(w3);
    tree.remove(w3);
    let after: Vec<(WindowKey, Rect)> = tree.windows().iter().map(|k| (*k, tree.rect_for(*k).unwrap())).collect();
    assert_eq!(before, after);
}

#[test]
fn resize_is_clamped_and_keeps_windows() {
    let mut keys = IdCounter::new();
    let mut tree = DwindleTree::new(work_area());
    let w1 = WindowKey::allocate(&mut keys);
    let w2 = WindowKey::allocate(&mut keys);
    tree.insert(w1);
    tree.insert(w2);
    tree.resize_edge(w1, Edge::Right, 5000);
    // The ratio stops at 0.95: 1920 * 0.95 = 1824.
    assert_eq!(tree.rect_for(w1).unwrap().w, 1824);
    assert_eq!(tree.len(), 2);
    // Dragging the outer edge of the split changes nothing.
    tree.resize_edge(w1, Edge::Left, -100);
    assert_eq!(tree.rect_for(w1).unwrap().w, 1824);
    // The right window's left edge moves the same split.
    tree.resize_edge(w2, Edge::Left, -1824 + 96);
    assert_eq!(tree.rect_for(w1).unwrap().w, 96);
}

#[test]
fn set_work_area_relayouts() {
    let mut keys = IdCounter::new();
    let mut tree = DwindleTree::new(work_area());
    let w1 = WindowKey::allocate(&mut keys);
    tree.insert(w1);
    tree.set_work_area(Rect::new(0, 0, 800, 600));
    assert_eq!(tree.rect_for(w1), Some(Rect::new(0, 0, 800, 600)));
    assert!(!tree.is_empty());
}

#[test]
fn windows_are_listed_depth_first() {
    let mut keys = IdCounter::new();
    let mut tree = DwindleTree::new(work_area());
    let w1 = WindowKey::allocate(&mut keys);
    let w2 = WindowKey::allocate(&mut keys);
    let w3 = WindowKey::allocate(&mut keys);
    tree.insert(w1);
    tree.insert(w2);
    tree.insert(w3);
    // w3 split w1's tile: the first half of the root holds w1 then w3.
    assert_eq!(tree.windows(), vec![w1, w3, w2]);
    // A tree built the same way lists its windows the same way.
    let mut again = DwindleTree::new(work_area());
    again.insert(w1);
    again.insert(w2);
    again.insert(w3);
    assert_eq!(again.windows(), tree.windows());
    tree.remove(w1);
    assert_eq!(tree.windows(), vec![w3, w2]);
    assert!(DwindleTree::new(work_area()).windows().is_empty());
}

#[test]
fn inserting_keeps_other_tiles_in_place() {
    let mut keys = IdCounter::new();
    let mut tree = DwindleTree::new(work_area());
    let w1 = WindowKey::allocate(&mut keys);
    let w2 = WindowKey::allocate(&mut keys);
    let w3 = WindowKey::allocate(&mut keys);
    tree.insert(w1);
    tree.insert(w2);
    let w2_before = tree.rect_for(w2);
    tree.insert(w3);
    assert_eq!(tree.rect_for(w2), w2_before);
    // The tiles do not overlap.
    let a = tree.rect_for(w1).unwrap();
    let b = tree.rect_for(w3).unwrap();
    assert!(a.y + a.h <= b.y);
}

#[test]
fn dragging_an_untiled_window_changes_nothing() {
    let mut keys = IdCounter::new();
    let mut tree = DwindleTree::new(work_area());
    let w1 = WindowKey::allocate(&mut keys);
    let w2 = WindowKey::allocate(&mut keys);
    let stranger = WindowKey::allocate(&mut keys);
    tree.insert(w1);
    tree.resize_edge(w1, Edge::Right, 100);
    assert_eq!(tree.rect_for(w1), Some(work_area()));
    tree.insert(w2);
    let before = tree.rect_for(w1);
    tree.resize_edge(stranger, Edge::Right, 100);
    assert_eq!(tree.rect_for(w1), before);
    // A vertical edge has no horizontal split to move here.
    tree.resize_edge(w1, Edge::Bottom, 100);
    assert_eq!(tree.rect_for(w1), before);
}

#[test]
fn one_counter_hands_out_distinct_increasing_ids() {
    let mut keys = IdCounter::new();
    let a = WindowKey::allocate(&mut keys);
    let b = WindowKey::allocate(&mut keys);
    let c = WindowKey::allocate(&mut keys);
    assert_eq!((a.raw(), b.raw(), c.raw()), (1, 2, 3));
    assert!(a != b && b != c);
}
