use course_assets::normalize::normalize_module_tree;
use course_assets::resolve::{keep_active, resolve_module_tree, reversed};
use course_assets::tree::{LessonsListItem, ModuleTreeItem};

fn row(id: usize, parent_id: Option<usize>, is_category: bool, position: usize) -> LessonsListItem {
    LessonsListItem {
        id,
        name: format!("item {id}"),
        active: true,
        content_page_id: if is_category { None } else { Some(id + 1000) },
        is_category,
        parent_id,
        position,
    }
}

fn category(id: usize, parent_id: Option<usize>, position: usize) -> LessonsListItem {
    row(id, parent_id, true, position)
}

fn lesson(id: usize, parent_id: Option<usize>, position: usize) -> LessonsListItem {
    row(id, parent_id, false, position)
}

fn ids(level: &[ModuleTreeItem]) -> Vec<usize> {
    level.iter().map(|node| node.item().id).collect()
}

fn count(level: &[ModuleTreeItem]) -> usize {
    level.iter().map(|node| 1 + count(node.children())).sum()
}

#[test]
fn resolves_every_row_of_a_sound_catalog() {
    let stack = vec![
        lesson(11, Some(1), 2),
        category(2, None, 2),
        lesson(10, Some(1), 1),
        category(1, None, 1),
        category(3, Some(2), 1),
        lesson(12, Some(3), 1),
        lesson(13, None, 3),
    ];
    let (tree, remaining) = resolve_module_tree(None, stack);
    assert!(remaining.is_empty());
    assert_eq!(count(&tree), 7);
    assert_eq!(ids(&tree), vec![1, 2, 13]);
    assert_eq!(ids(tree[0].children()), vec![10, 11]);
    assert_eq!(ids(tree[1].children()), vec![3]);
    assert_eq!(ids(tree[1].children()[0].children()), vec![12]);
    assert!(tree[2].children().is_empty());
    assert!(tree[0].is_category());
    assert!(!tree[2].is_category());
}

#[test]
fn resolving_nothing_yields_nothing() {
    let (tree, remaining) = resolve_module_tree(None, Vec::new());
    assert!(tree.is_empty());
    assert!(remaining.is_empty());
}

#[test]
fn row_with_a_missing_parent_remains_with_its_descendants() {
    let stack = vec![
        category(1, None, 1),
        category(5, Some(99), 1),
        lesson(6, Some(5), 1),
        lesson(2, Some(1), 1),
    ];
    let (tree, remaining) = resolve_module_tree(None, stack);
    assert_eq!(ids(&tree), vec![1]);
    assert_eq!(ids(tree[0].children()), vec![2]);
    let mut left: Vec<usize> = remaining.iter().map(|r| r.id).collect();
    left.sort();
    assert_eq!(left, vec![5, 6]);
}

#[test]
fn row_below_a_lesson_remains() {
    let stack = vec![lesson(1, None, 1), lesson(2, Some(1), 1), category(3, Some(2), 1)];
    let (tree, remaining) = resolve_module_tree(None, stack);
    assert_eq!(tree, vec![ModuleTreeItem::Lesson { item: lesson(1, None, 1) }]);
    let mut left: Vec<usize> = remaining.iter().map(|r| r.id).collect();
    left.sort();
    assert_eq!(left, vec![2, 3]);
}

#[test]
fn rows_that_name_each_other_remain() {
    let stack = vec![category(1, Some(2), 1), category(2, Some(1), 1), lesson(3, None, 1)];
    let (tree, remaining) = resolve_module_tree(None, stack);
    assert_eq!(ids(&tree), vec![3]);
    assert_eq!(remaining.len(), 2);
}

#[test]
fn siblings_stand_in_order_of_position() {
    let stack = vec![
        lesson(1, None, 30),
        lesson(2, None, 10),
        category(3, None, 20),
        lesson(4, Some(3), 7),
        lesson(5, Some(3), 3),
        lesson(6, Some(3), 5),
    ];
    let (tree, remaining) = resolve_module_tree(None, stack);
    assert!(remaining.is_empty());
    assert_eq!(ids(&tree), vec![2, 3, 1]);
    assert_eq!(ids(tree[1].children()), vec![5, 6, 4]);
}

#[test]
fn resolving_below_a_parent_takes_only_its_subtree() {
    let stack = vec![lesson(1, None, 1), category(2, Some(7), 1), lesson(3, Some(2), 1)];
    let (tree, remaining) = resolve_module_tree(Some(7), stack);
    assert_eq!(ids(&tree), vec![2]);
    assert_eq!(ids(tree[0].children()), vec![3]);
    assert_eq!(remaining, vec![lesson(1, None, 1)]);
}

#[test]
fn reversed_puts_the_last_first() {
    assert_eq!(reversed(vec![1, 2, 3]), vec![3, 2, 1]);
    assert_eq!(reversed(Vec::<u8>::new()), Vec::<u8>::new());
}

fn named(id: usize, name: &str, is_category: bool) -> LessonsListItem {
    LessonsListItem {
        id,
        name: name.to_string(),
        active: true,
        content_page_id: None,
        is_category,
        parent_id: None,
        position: id,
    }
}

fn leaf(id: usize, name: &str) -> ModuleTreeItem {
    ModuleTreeItem::Lesson { item: named(id, name, false) }
}

fn branch(id: usize, name: &str, children: Vec<ModuleTreeItem>) -> ModuleTreeItem {
    ModuleTreeItem::Category { item: named(id, name, true), children }
}

#[test]
fn lessons_move_into_the_empty_category_before_them() {
    let root = vec![
        branch(1, "Intro", vec![]),
        leaf(2, "L1"),
        leaf(3, "L2"),
        branch(4, "Main", vec![leaf(5, "X")]),
    ];
    let expected = vec![
        branch(1, "Intro", vec![leaf(2, "L1"), leaf(3, "L2")]),
        branch(4, "Main", vec![leaf(5, "X")]),
    ];
    assert_eq!(normalize_module_tree(root), expected);
}

#[test]
fn normalizing_twice_is_normalizing_once() {
    let root = vec![
        leaf(1, "first"),
        branch(2, "A", vec![]),
        branch(3, "B", vec![]),
        leaf(4, "L1"),
        branch(5, "C", vec![leaf(6, "X")]),
        leaf(7, "L2"),
        branch(8, "D", vec![]),
    ];
    let once = normalize_module_tree(root);
    let expected = vec![
        leaf(1, "first"),
        branch(2, "A", vec![]),
        branch(3, "B", vec![leaf(4, "L1")]),
        branch(5, "C", vec![leaf(6, "X")]),
        leaf(7, "L2"),
        branch(8, "D", vec![]),
    ];
    assert_eq!(once, expected);
    assert_eq!(normalize_module_tree(once), expected);
}

#[test]
fn adjacent_empty_categories_stay_as_they_are() {
    let root = vec![branch(1, "A", vec![]), branch(2, "B", vec![])];
    let expected = vec![branch(1, "A", vec![]), branch(2, "B", vec![])];
    assert_eq!(normalize_module_tree(root), expected);
}

#[test]
fn nested_categories_are_not_scanned() {
    let inner = vec![branch(2, "inner", vec![]), leaf(3, "L")];
    let root = vec![branch(1, "outer", inner)];
    let expected = vec![branch(1, "outer", vec![branch(2, "inner", vec![]), leaf(3, "L")])];
    assert_eq!(normalize_module_tree(root), expected);
}

#[test]
fn lessons_behind_a_filled_category_stay_at_the_root() {
    let root = vec![branch(1, "A", vec![leaf(2, "X")]), leaf(3, "L")];
    let expected = vec![branch(1, "A", vec![leaf(2, "X")]), leaf(3, "L")];
    assert_eq!(normalize_module_tree(root), expected);
    assert_eq!(normalize_module_tree(Vec::new()), Vec::new());
}

#[test]
fn remaining_rows_keep_the_order_of_the_catalog() {
    let stack = vec![
        lesson(9, Some(70), 1),
        lesson(1, None, 1),
        lesson(8, Some(71), 1),
        category(2, None, 2),
        lesson(7, Some(72), 1),
        lesson(3, Some(2), 1),
        lesson(6, Some(70), 1),
    ];
    let (tree, remaining) = resolve_module_tree(None, stack);
    assert_eq!(ids(&tree), vec![1, 2]);
    let left: Vec<usize> = remaining.iter().map(|r| r.id).collect();
    assert_eq!(left, vec![9, 8, 7, 6]);
}

#[test]
fn siblings_of_equal_position_keep_the_order_of_the_catalog() {
    let stack = vec![
        lesson(4, None, 2),
        lesson(1, None, 1),
        lesson(5, None, 2),
        lesson(2, None, 1),
        lesson(6, None, 2),
        lesson(3, None, 0),
    ];
    let (tree, remaining) = resolve_module_tree(None, stack);
    assert!(remaining.is_empty());
    assert_eq!(ids(&tree), vec![3, 1, 2, 4, 5, 6]);
}

#[test]
fn only_active_rows_are_kept() {
    let mut hidden = lesson(2, None, 2);
    hidden.active = false;
    let mut gone = category(4, None, 4);
    gone.active = false;
    let list = vec![lesson(1, None, 1), hidden, lesson(3, None, 3), gone];
    assert_eq!(keep_active(list), vec![lesson(1, None, 1), lesson(3, None, 3)]);
    assert_eq!(keep_active(Vec::new()), Vec::new());
}
