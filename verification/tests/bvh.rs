use pyre::geometry::bvh::{
    next_layout_step, partition_by_side, start_layout, LayoutNode, LayoutStep, SplitChoice,
};

#[test]
fn partition_moves_marked_indices_first() {
    let mut items = vec![10, 11, 12, 13, 14, 15];
    let mut sides = vec![false, true, false, true];
    let mid = partition_by_side(&mut items, &mut sides, 1);
    assert_eq!(mid, 3);
    assert_eq!(items, vec![10, 14, 12, 13, 11, 15]);
    assert_eq!(sides, vec![true, true, false, false]);
}

#[test]
fn partition_keeps_the_range_as_a_permutation() {
    let mut items: Vec<u32> = (0..20).collect();
    let mut sides: Vec<bool> = (5..17).map(|i| i % 3 == 0).collect();
    let mid = partition_by_side(&mut items, &mut sides, 5);
    assert_eq!(mid, 5 + 4);
    assert!(items[5..mid].iter().all(|i| i % 3 == 0));
    assert!(items[mid..17].iter().all(|i| i % 3 != 0));
    assert_eq!(&items[..5], &[0, 1, 2, 3, 4]);
    assert_eq!(&items[17..], &[17, 18, 19]);
    let mut range = items[5..17].to_vec();
    range.sort();
    assert_eq!(range, (5..17).collect::<Vec<u32>>());
}

#[test]
fn partition_of_one_sided_or_empty_ranges() {
    let mut items = vec![1, 2, 3];
    let mut sides = vec![true, true, true];
    assert_eq!(partition_by_side(&mut items, &mut sides, 0), 3);
    assert_eq!(items, vec![1, 2, 3]);

    // Unmarked elements are swapped towards the end as they are met.
    let mut sides = vec![false, false];
    assert_eq!(partition_by_side(&mut items, &mut sides, 1), 1);
    assert_eq!(items, vec![1, 3, 2]);

    let mut sides = vec![];
    assert_eq!(partition_by_side(&mut items, &mut sides, 3), 3);
    assert_eq!(items, vec![1, 3, 2]);
}

#[test]
fn layout_is_depth_first_with_right_child_offsets() {
    let (mut layout, mut step) = start_layout(4);
    let mut asked = Vec::new();
    let script = [
        SplitChoice::Split { axis: 1, mid: 2 },
        SplitChoice::Leaf,
        SplitChoice::Split { axis: 0, mid: 3 },
        SplitChoice::Leaf,
        SplitChoice::Leaf,
    ];
    for choice in script {
        match step {
            LayoutStep::Decide { start, end } => asked.push((start, end)),
            LayoutStep::Done => panic!("finished early"),
        }
        step = next_layout_step(&mut layout, choice);
    }
    assert_eq!(step, LayoutStep::Done);
    assert_eq!(asked, vec![(0, 4), (0, 2), (2, 4), (2, 3), (3, 4)]);
    let node = |offset, n_primitives, axis| LayoutNode { offset, n_primitives, axis };
    assert_eq!(
        layout.into_nodes(),
        vec![node(2, 0, 1), node(0, 2, 0), node(4, 0, 0), node(2, 1, 0), node(3, 1, 0)]
    );
}

#[test]
fn empty_layout_is_done_at_once() {
    let (layout, step) = start_layout(0);
    assert_eq!(step, LayoutStep::Done);
    assert!(layout.into_nodes().is_empty());
}

#[test]
fn large_leaf_count_saturates() {
    let (mut layout, step) = start_layout(70_000);
    assert_eq!(step, LayoutStep::Decide { start: 0, end: 70_000 });
    assert_eq!(next_layout_step(&mut layout, SplitChoice::Leaf), LayoutStep::Done);
    assert_eq!(layout.into_nodes(), vec![LayoutNode { offset: 0, n_primitives: u16::MAX, axis: 0 }]);
}

#[test]
fn balanced_layout_tiles_every_primitive() {
    let n = 100u32;
    let (mut layout, mut step) = start_layout(n);
    while let LayoutStep::Decide { start, end } = step {
        let choice = if end - start > 1 {
            SplitChoice::Split { axis: 2, mid: (start + end) / 2 }
        } else {
            SplitChoice::Leaf
        };
        step = next_layout_step(&mut layout, choice);
    }
    let nodes = layout.into_nodes();
    assert_eq!(nodes.len(), 2 * n as usize - 1);
    let mut next = 0;
    for (i, nd) in nodes.iter().enumerate() {
        if nd.n_primitives > 0 {
            assert_eq!(nd.offset, next);
            next += nd.n_primitives as u32;
        } else {
            assert!(nd.offset as usize > i + 1 && (nd.offset as usize) < nodes.len());
        }
    }
    assert_eq!(next, n);
}
