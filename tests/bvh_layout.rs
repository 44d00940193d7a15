use ray::bvh::{BvhLayout, BvhNode, BvhSlot};

fn slots(layout: &BvhLayout) -> Vec<BvhSlot> {
    (0..layout.slot_count()).map(|k| layout.slot(k)).collect()
}

fn leaves(layout: &BvhLayout) -> Vec<usize> {
    slots(layout)
        .iter()
        .filter_map(|s| match s.node {
            BvhNode::Leaf(p) => Some(p),
            BvhNode::Node { .. } => None,
        })
        .collect()
}

fn depth(layout: &BvhLayout, k: usize) -> usize {
    match layout.slot(k).node {
        BvhNode::Leaf(_) => 1,
        BvhNode::Node { left, right } => 1 + depth(layout, left).max(depth(layout, right)),
    }
}

#[test]
fn single_object_is_one_leaf() {
    let layout = BvhLayout::new(1);
    assert_eq!(layout.slot_count(), 1);
    assert_eq!(
        layout.slot(0),
        BvhSlot { node: BvhNode::Leaf(0), start: 0, end: 1 }
    );
    assert_eq!(layout.count(), 1);
}

#[test]
fn three_objects_split_at_midpoint() {
    let layout = BvhLayout::new(3);
    let expected = vec![
        BvhSlot { node: BvhNode::Node { left: 1, right: 2 }, start: 0, end: 3 },
        BvhSlot { node: BvhNode::Leaf(0), start: 0, end: 1 },
        BvhSlot { node: BvhNode::Node { left: 3, right: 4 }, start: 1, end: 3 },
        BvhSlot { node: BvhNode::Leaf(1), start: 1, end: 2 },
        BvhSlot { node: BvhNode::Leaf(2), start: 2, end: 3 },
    ];
    assert_eq!(slots(&layout), expected);
}

#[test]
fn four_objects_layout() {
    let layout = BvhLayout::new(4);
    let expected = vec![
        BvhSlot { node: BvhNode::Node { left: 1, right: 4 }, start: 0, end: 4 },
        BvhSlot { node: BvhNode::Node { left: 2, right: 3 }, start: 0, end: 2 },
        BvhSlot { node: BvhNode::Leaf(0), start: 0, end: 1 },
        BvhSlot { node: BvhNode::Leaf(1), start: 1, end: 2 },
        BvhSlot { node: BvhNode::Node { left: 5, right: 6 }, start: 2, end: 4 },
        BvhSlot { node: BvhNode::Leaf(2), start: 2, end: 3 },
        BvhSlot { node: BvhNode::Leaf(3), start: 3, end: 4 },
    ];
    assert_eq!(slots(&layout), expected);
}

#[test]
fn count_equals_number_of_objects() {
    for n in 1..=300usize {
        let layout = BvhLayout::new(n);
        assert_eq!(layout.count(), n);
        assert_eq!(layout.slot_count(), 2 * n - 1);
    }
}

#[test]
fn leaves_hold_each_object_once_in_order() {
    for n in [1usize, 2, 5, 16, 17, 484, 1000] {
        let layout = BvhLayout::new(n);
        assert_eq!(leaves(&layout), (0..n).collect::<Vec<_>>());
    }
}

#[test]
fn children_follow_parent_and_split_its_range() {
    let layout = BvhLayout::new(37);
    assert_eq!((layout.slot(0).start, layout.slot(0).end), (0, 37));
    for k in 0..layout.slot_count() {
        let s = layout.slot(k);
        if let BvhNode::Node { left, right } = s.node {
            let mid = s.start + (s.end - s.start) / 2;
            assert!(k < left && left < right && right < layout.slot_count());
            assert_eq!((layout.slot(left).start, layout.slot(left).end), (s.start, mid));
            assert_eq!((layout.slot(right).start, layout.slot(right).end), (mid, s.end));
        }
    }
}

#[test]
fn depth_is_logarithmic() {
    assert_eq!(depth(&BvhLayout::new(1), 0), 1);
    assert_eq!(depth(&BvhLayout::new(2), 0), 2);
    assert_eq!(depth(&BvhLayout::new(1024), 0), 11);
    assert_eq!(depth(&BvhLayout::new(1025), 0), 12);
    assert_eq!(depth(&BvhLayout::new(100_000), 0), 18);
}

#[test]
fn clone_keeps_every_slot() {
    let layout = BvhLayout::new(9);
    let copy = layout.clone();
    assert_eq!(slots(&copy), slots(&layout));
    assert_eq!(copy.count(), 9);
}
