//! Building the module tree from the flat catalog.

use crate::tree::{forest_items, forest_view, lemma_category_view, lemma_forest_items_insert, node_items};
use crate::tree::{Id, LessonsListItem, ModuleTreeItem, Position, TreeView};
use vstd::multiset::Multiset;
use vstd::prelude::*;

verus! {

/// Whether siblings stand in ascending order of position.
pub open spec fn ascending(level: Seq<TreeView>) -> bool {
    forall|i: int, j: int|
        0 <= i < j < level.len() ==> (#[trigger] level[i]).item().position <= (
        #[trigger] level[j]).item().position
}

/// A tree level hangs together: every node's row names `parent` as its
/// parent, siblings stand in ascending order of position, a category node
/// carries a category row and its children form a level under its id, and a
/// lesson node carries a row that is no category.
pub open spec fn well_placed(parent: Option<Id>, level: Seq<TreeView>) -> bool
    decreases level,
{
    &&& forall|i: int| 0 <= i < level.len() ==> (#[trigger] level[i]).item().parent_id == parent
    &&& ascending(level)
    &&& forall|i: int|
        0 <= i < level.len() ==> match #[trigger] level[i] {
            TreeView::Category { item, children } => item.is_category && well_placed(
                Some(item.id),
                children,
            ),
            TreeView::Lesson { item } => !item.is_category,
        }
}

/// Whether `part` is made of rows of `whole` at the indices `at`, which rise.
pub open spec fn stands_at(
    part: Seq<LessonsListItem>,
    whole: Seq<LessonsListItem>,
    at: Seq<int>,
) -> bool {
    &&& at.len() == part.len()
    &&& forall|i: int|
        0 <= i < part.len() ==> 0 <= #[trigger] at[i] < whole.len() && part[i] == whole[at[i]]
    &&& forall|i: int, j: int| 0 <= i < j < part.len() ==> #[trigger] at[i] < #[trigger] at[j]
}

/// Whether `part` is made of rows of `whole`, in the order in which they
/// stand there.
pub open spec fn keeps_order(part: Seq<LessonsListItem>, whole: Seq<LessonsListItem>) -> bool {
    exists|at: Seq<int>| stands_at(part, whole, at)
}

/// A part of a part, each in order, is a part in order.
pub proof fn lemma_keeps_order_twice(
    a: Seq<LessonsListItem>,
    b: Seq<LessonsListItem>,
    c: Seq<LessonsListItem>,
)
    requires
        keeps_order(a, b),
        keeps_order(b, c),
    ensures
        keeps_order(a, c),
{
    let inner = choose|at: Seq<int>| stands_at(a, b, at);
    let outer = choose|at: Seq<int>| stands_at(b, c, at);
    let both = Seq::new(a.len(), |i: int| outer[inner[i]]);
    assert(stands_at(a, c, both));
}

/// Whether the nodes of `level` carry rows of `stack` at the indices `at`, no
/// index twice, and nodes of equal position in the order of their indices.
pub open spec fn ties_at(level: Seq<TreeView>, stack: Seq<LessonsListItem>, at: Seq<int>) -> bool {
    &&& at.len() == level.len()
    &&& forall|i: int|
        0 <= i < level.len() ==> 0 <= #[trigger] at[i] < stack.len() && level[i].item()
            == stack[at[i]]
    &&& forall|i: int, j: int|
        0 <= i < j < level.len() ==> #[trigger] at[i] != #[trigger] at[j] && (
        level[i].item().position == level[j].item().position ==> at[i] < at[j])
}

/// Whether, at every level of the tree, siblings of equal position stand in
/// the order in which their rows stand in `stack`.
pub open spec fn stable(level: Seq<TreeView>, stack: Seq<LessonsListItem>) -> bool
    decreases level,
{
    &&& exists|at: Seq<int>| ties_at(level, stack, at)
    &&& forall|i: int|
        0 <= i < level.len() ==> match #[trigger] level[i] {
            TreeView::Category { item, children } => stable(children, stack),
            TreeView::Lesson { item } => true,
        }
}

/// A tree that is stable for a part of a list, which keeps the list's order,
/// is stable for the list.
pub proof fn lemma_stable_in_whole(
    level: Seq<TreeView>,
    part: Seq<LessonsListItem>,
    whole: Seq<LessonsListItem>,
)
    requires
        stable(level, part),
        keeps_order(part, whole),
    ensures
        stable(level, whole),
    decreases level,
{
    let at = choose|at: Seq<int>| ties_at(level, part, at);
    let up = choose|up: Seq<int>| stands_at(part, whole, up);
    let both = Seq::new(level.len(), |i: int| up[at[i]]);
    assert(ties_at(level, whole, both)) by {
        assert forall|i: int, j: int| 0 <= i < j < level.len() implies #[trigger] both[i]
            != #[trigger] both[j] && (level[i].item().position == level[j].item().position
            ==> both[i] < both[j]) by {
            assert(at[i] != at[j]);
            if at[i] < at[j] {
                assert(up[at[i]] < up[at[j]]);
            } else {
                assert(up[at[j]] < up[at[i]]);
            }
        }
    }
    assert forall|i: int| 0 <= i < level.len() implies match #[trigger] level[i] {
        TreeView::Category { item, children } => stable(children, whole),
        TreeView::Lesson { item } => true,
    } by {
        match level[i] {
            TreeView::Category { item, children } => {
                lemma_stable_in_whole(children, part, whole);
            },
            TreeView::Lesson { item } => {},
        }
    }
}

/// What resolving `stack` under `parent` yields: `tree` and `remaining` share
/// out the rows of `stack`, each row going to exactly one of them; `tree` is a
/// well-placed level under `parent`; nothing in `remaining` could still be
/// attached, neither under `parent` nor under a category of `tree`;
/// `remaining` keeps the order of `stack`; and so do siblings of equal
/// position.
pub open spec fn resolved(
    parent: Option<Id>,
    stack: Seq<LessonsListItem>,
    tree: Seq<TreeView>,
    remaining: Seq<LessonsListItem>,
) -> bool {
    &&& forest_items(tree).add(remaining.to_multiset()) == stack.to_multiset()
    &&& well_placed(parent, tree)
    &&& forall|k: int| 0 <= k < remaining.len() ==> (#[trigger] remaining[k]).parent_id != parent
    &&& forall|k: int, c: LessonsListItem|
        0 <= k < remaining.len() && c.is_category && #[trigger] forest_items(tree).count(c) > 0
            ==> (#[trigger] remaining[k]).parent_id != Some(c.id)
    &&& keeps_order(remaining, stack)
    &&& stable(tree, stack)
}

/// The same elements, last first.
pub fn reversed<T>(v: Vec<T>) -> (r: Vec<T>)
    ensures
        r@ == v@.reverse(),
{
    let ghost orig = v@;
    let mut v = v;
    let mut out: Vec<T> = Vec::new();
    while v.len() > 0
        invariant
            out@.len() + v@.len() == orig.len(),
            forall|i: int| 0 <= i < v@.len() ==> v@[i] == orig[i],
            forall|i: int| 0 <= i < out@.len() ==> out@[i] == orig[orig.len() - 1 - i],
        decreases v@.len(),
    {
        let x = v.pop().unwrap();
        out.push(x);
    }
    assert(out@ =~= orig.reverse());
    out
}

/// Splits `stack` into the rows that name `parent_id` as their parent and the
/// others, each part in the order of `stack`.
fn split_children(parent_id: Option<Id>, stack: Vec<LessonsListItem>) -> (r: (
    Vec<LessonsListItem>,
    Vec<LessonsListItem>,
))
    ensures
        r.0@.to_multiset().add(r.1@.to_multiset()) == stack@.to_multiset(),
        r.0@.len() + r.1@.len() == stack@.len(),
        forall|i: int| 0 <= i < r.0@.len() ==> (#[trigger] r.0@[i]).parent_id == parent_id,
        forall|i: int| 0 <= i < r.1@.len() ==> (#[trigger] r.1@[i]).parent_id != parent_id,
        keeps_order(r.0@, stack@),
        keeps_order(r.1@, stack@),
{
    broadcast use vstd::multiset::group_multiset_axioms;
    broadcast use vstd::seq_lib::group_to_multiset_ensures;

    let ghost orig = stack@;
    let ghost mut level_at: Seq<int> = Seq::empty();
    let ghost mut others_at: Seq<int> = Seq::empty();
    let mut rest = reversed(stack);
    let mut level: Vec<LessonsListItem> = Vec::new();
    let mut others: Vec<LessonsListItem> = Vec::new();
    assert(orig.take(0) =~= Seq::<LessonsListItem>::empty());
    while rest.len() > 0
        invariant
            rest@.len() <= orig.len(),
            forall|i: int| 0 <= i < rest@.len() ==> rest@[i] == orig[orig.len() - 1 - i],
            level@.to_multiset().add(others@.to_multiset()) =~= orig.take(
                orig.len() - rest@.len(),
            ).to_multiset(),
            level@.len() + others@.len() == orig.len() - rest@.len(),
            forall|i: int| 0 <= i < level@.len() ==> (#[trigger] level@[i]).parent_id == parent_id,
            forall|i: int| 0 <= i < others@.len() ==> (#[trigger] others@[i]).parent_id != parent_id,
            stands_at(level@, orig, level_at),
            stands_at(others@, orig, others_at),
            forall|i: int| 0 <= i < level_at.len() ==> #[trigger] level_at[i] < orig.len() - rest@.len(),
            forall|i: int|
                0 <= i < others_at.len() ==> #[trigger] others_at[i] < orig.len() - rest@.len(),
        decreases rest@.len(),
    {
        let ghost k = orig.len() - rest@.len();
        let item = rest.pop().unwrap();
        proof {
            assert(item == orig[k]);
            assert(orig.take(k + 1) =~= orig.take(k).push(item));
        }
        let ghost level_before = level@;
        let ghost others_before = others@;
        if item.parent_id == parent_id {
            level.push(item);
            proof {
                level_at = level_at.push(k);
            }
        } else {
            others.push(item);
            proof {
                others_at = others_at.push(k);
            }
        }
        proof {
            vstd::seq_lib::to_multiset_build(orig.take(k), item);
            vstd::seq_lib::to_multiset_build(level_before, item);
            vstd::seq_lib::to_multiset_build(others_before, item);
        }
    }
    assert(orig.take(orig.len() as int) =~= orig);
    (level, others)
}

/// The rows that are active, in order.
pub open spec fn active_rows(list: Seq<LessonsListItem>) -> Seq<LessonsListItem>
    decreases list.len(),
{
    if list.len() == 0 {
        list
    } else if list.last().active {
        active_rows(list.drop_last()).push(list.last())
    } else {
        active_rows(list.drop_last())
    }
}

/// Keeps the active rows of the catalog, in order: only they are resolved.
pub fn keep_active(list: Vec<LessonsListItem>) -> (r: Vec<LessonsListItem>)
    ensures
        r@ == active_rows(list@),
{
    let ghost orig = list@;
    let mut rest = reversed(list);
    let mut out: Vec<LessonsListItem> = Vec::new();
    proof {
        assert(orig.take(0) =~= Seq::<LessonsListItem>::empty());
    }
    while rest.len() > 0
        invariant
            rest@.len() <= orig.len(),
            forall|i: int| 0 <= i < rest@.len() ==> rest@[i] == orig[orig.len() - 1 - i],
            out@ == active_rows(orig.take(orig.len() - rest@.len())),
        decreases rest@.len(),
    {
        let ghost k = orig.len() - rest@.len();
        let item = rest.pop().unwrap();
        proof {
            assert(orig.take(k + 1).drop_last() =~= orig.take(k));
            assert(orig.take(k + 1).last() == item);
        }
        if item.active {
            out.push(item);
        }
    }
    proof {
        assert(orig.take(orig.len() as int) =~= orig);
    }
    out
}

/// The place at which a node of the given position joins an ascending level:
/// behind every node whose position is not greater.
fn insertion_index(level: &Vec<ModuleTreeItem>, position: Position) -> (at: usize)
    requires
        ascending(forest_view(level@)),
    ensures
        at <= level@.len(),
        forall|i: int| 0 <= i < at ==> (#[trigger] forest_view(level@)[i]).item().position <= position,
        forall|i: int|
            at <= i < level@.len() ==> position < (#[trigger] forest_view(level@)[i]).item().position,
{
    let mut at: usize = 0;
    while at < level.len() && level[at].item().position <= position
        invariant
            at <= level@.len(),
            forall|i: int| 0 <= i < at ==> (#[trigger] forest_view(level@)[i]).item().position <= position,
        decreases level@.len() - at,
    {
        at += 1;
    }
    proof {
        assert forall|i: int| at <= i < level@.len() implies position < (#[trigger] forest_view(
            level@,
        )[i]).item().position by {
            let first = forest_view(level@)[at as int];
            assert(first.item().position > position);
        }
    }
    at
}

/// Rows of `rest` all occur in `pool` when `pool` is `rest` and something more.
proof fn lemma_part_of_pool(
    extra: Multiset<LessonsListItem>,
    rest: Seq<LessonsListItem>,
    pool: Seq<LessonsListItem>,
)
    requires
        extra.add(rest.to_multiset()) == pool.to_multiset(),
    ensures
        forall|k: int| 0 <= k < rest.len() ==> pool.contains(#[trigger] rest[k]),
        rest.len() + extra.len() == pool.len(),
{
    broadcast use vstd::multiset::group_multiset_axioms;

    rest.to_multiset_ensures();
    pool.to_multiset_ensures();
    assert forall|k: int| 0 <= k < rest.len() implies pool.contains(#[trigger] rest[k]) by {
        assert(rest.contains(rest[k]));
        assert(rest.to_multiset().count(rest[k]) > 0);
        assert(pool.to_multiset().count(rest[k]) > 0);
    }
}

/// Resolves the flat catalog `stack` into the tree level under `parent_id`
/// (absent for the root) and the rows that found no place.
///
/// The rows that name `parent_id` form the level, in ascending order of
/// position. A category among them takes as its children, in the same way, the
/// level under its own id from what is still in the pool. A lesson takes
/// nothing: rows that name a lesson as their parent stay in the pool, as do
/// rows whose parent is missing.
pub fn resolve_module_tree(parent_id: Option<Id>, stack: Vec<LessonsListItem>) -> (r: (
    Vec<ModuleTreeItem>,
    Vec<LessonsListItem>,
))
    ensures
        resolved(parent_id, stack@, forest_view(r.0@), r.1@),
        r.1@.len() <= stack@.len(),
    decreases stack@.len(),
{
    broadcast use vstd::multiset::group_multiset_axioms;

    let ghost orig = stack@;
    let (level, rest) = split_children(parent_id, stack);
    let ghost rows = level@;
    let ghost rows_at = choose|at: Seq<int>| stands_at(rows, orig, at);
    let ghost mut tree_at: Seq<int> = Seq::empty();
    let mut queue = reversed(level);
    let mut pool = rest;
    let mut tree_level: Vec<ModuleTreeItem> = Vec::new();
    proof {
        level@.lemma_reverse_to_multiset();
        assert(forest_view(tree_level@) =~= Seq::<TreeView>::empty());
        assert(forest_items(forest_view(tree_level@)).add(queue@.to_multiset()).add(
            pool@.to_multiset(),
        ) =~= orig.to_multiset());
        assert forall|i: int| 0 <= i < queue@.len() implies (#[trigger] queue@[i]).parent_id
            == parent_id by {
            assert(queue@[i] == level@[level@.len() - 1 - i]);
        }
    }
    while queue.len() > 0
        invariant
            forest_items(forest_view(tree_level@)).add(queue@.to_multiset()).add(
                pool@.to_multiset(),
            ) =~= orig.to_multiset(),
            pool@.len() + queue@.len() <= orig.len(),
            orig == stack@,
            keeps_order(pool@, orig),
            stands_at(rows, orig, rows_at),
            queue@.len() <= rows.len(),
            forall|i: int| 0 <= i < queue@.len() ==> queue@[i] == rows[rows.len() - 1 - i],
            ties_at(forest_view(tree_level@), orig, tree_at),
            forall|i: int, m: int|
                0 <= i < tree_at.len() && rows.len() - queue@.len() <= m < rows.len()
                    ==> #[trigger] tree_at[i] < #[trigger] rows_at[m],
            forall|i: int|
                0 <= i < tree_level@.len() ==> match #[trigger] forest_view(tree_level@)[i] {
                    TreeView::Category { item, children } => stable(children, orig),
                    TreeView::Lesson { item } => true,
                },
            well_placed(parent_id, forest_view(tree_level@)),
            forall|i: int| 0 <= i < queue@.len() ==> (#[trigger] queue@[i]).parent_id == parent_id,
            forall|k: int| 0 <= k < pool@.len() ==> (#[trigger] pool@[k]).parent_id != parent_id,
            forall|k: int, c: LessonsListItem|
                0 <= k < pool@.len() && c.is_category && #[trigger] forest_items(
                    forest_view(tree_level@),
                ).count(c) > 0 ==> (#[trigger] pool@[k]).parent_id != Some(c.id),
        decreases queue@.len(),
    {
        let ghost queue_before = queue@;
        let ghost pool_before = pool@;
        let ghost tree_before = forest_view(tree_level@);
        let ghost tree_at_before = tree_at;
        let ghost turn = rows.len() - queue@.len();
        let item = queue.pop().unwrap();
        proof {
            assert(item == rows[turn]);
            assert(item == orig[rows_at[turn]]);
            assert(queue_before =~= queue@.push(item));
            vstd::seq_lib::to_multiset_build(queue@, item);
        }
        let position = item.position;
        let node = if item.is_category {
            let (children, remaining) = resolve_module_tree(Some(item.id), pool);
            proof {
                lemma_part_of_pool(forest_items(forest_view(children@)), remaining@, pool_before);
                lemma_keeps_order_twice(remaining@, pool_before, orig);
                lemma_stable_in_whole(forest_view(children@), pool_before, orig);
            }
            pool = remaining;
            ModuleTreeItem::Category { item, children }
        } else {
            ModuleTreeItem::Lesson { item }
        };
        proof {
            if node is Category {
                lemma_category_view(node);
            }
            assert(node_items(node@).add(pool@.to_multiset()) =~= pool_before.to_multiset().insert(
                item,
            ));
        }
        let at = insertion_index(&tree_level, position);
        tree_level.insert(at, node);
        proof {
            let tree_after = forest_view(tree_level@);
            assert(tree_after =~= tree_before.insert(at as int, node@));
            tree_at = tree_at_before.insert(at as int, rows_at[turn]);
            assert(node@.item() == orig[rows_at[turn]]);
            assert forall|i: int| 0 <= i < tree_after.len() implies 0 <= #[trigger] tree_at[i]
                < orig.len() && tree_after[i].item() == orig[tree_at[i]] by {
                if i < at {
                    assert(tree_at[i] == tree_at_before[i]);
                    assert(tree_after[i] == tree_before[i]);
                } else if i > at {
                    assert(tree_at[i] == tree_at_before[i - 1]);
                    assert(tree_after[i] == tree_before[i - 1]);
                }
            }
            assert forall|i: int, j: int| 0 <= i < j < tree_after.len() implies #[trigger] tree_at[i]
                != #[trigger] tree_at[j] && (tree_after[i].item().position
                == tree_after[j].item().position ==> tree_at[i] < tree_at[j]) by {
                if i < at {
                    assert(tree_at[i] == tree_at_before[i]);
                    assert(tree_after[i] == tree_before[i]);
                    assert(tree_at_before[i] < rows_at[turn]);
                } else if i > at {
                    assert(tree_at[i] == tree_at_before[i - 1]);
                    assert(tree_after[i] == tree_before[i - 1]);
                    assert(tree_at_before[i - 1] < rows_at[turn]);
                }
                if j < at {
                    assert(tree_at[j] == tree_at_before[j]);
                    assert(tree_after[j] == tree_before[j]);
                    assert(tree_at_before[j] < rows_at[turn]);
                } else if j > at {
                    assert(tree_at[j] == tree_at_before[j - 1]);
                    assert(tree_after[j] == tree_before[j - 1]);
                    assert(tree_at_before[j - 1] < rows_at[turn]);
                }
            }
            assert forall|i: int, m: int|
                0 <= i < tree_at.len() && rows.len() - queue@.len() <= m < rows.len()
                    implies #[trigger] tree_at[i] < #[trigger] rows_at[m] by {
                assert(rows_at[turn] < rows_at[m]);
                if i < at {
                    assert(tree_at[i] == tree_at_before[i]);
                    assert(tree_at_before[i] < rows_at[turn]);
                } else if i > at {
                    assert(tree_at[i] == tree_at_before[i - 1]);
                    assert(tree_at_before[i - 1] < rows_at[turn]);
                }
            }
            assert forall|i: int| 0 <= i < tree_after.len() implies match #[trigger] tree_after[i] {
                TreeView::Category { item, children } => stable(children, orig),
                TreeView::Lesson { item } => true,
            } by {
                if i < at {
                    assert(tree_after[i] == tree_before[i]);
                } else if i > at {
                    assert(tree_after[i] == tree_before[i - 1]);
                }
            }
            lemma_forest_items_insert(tree_before, at as int, node@);
            assert(forest_items(tree_after).add(queue@.to_multiset()).add(pool@.to_multiset())
                =~= orig.to_multiset());
            assert forall|i: int| 0 <= i < tree_after.len() implies (#[trigger] tree_after[i]).item().parent_id
                == parent_id by {
                if i < at {
                    assert(tree_after[i] == tree_before[i]);
                } else if i > at {
                    assert(tree_after[i] == tree_before[i - 1]);
                }
            }
            assert forall|i: int, j: int| 0 <= i < j < tree_after.len() implies (
            #[trigger] tree_after[i]).item().position <= (#[trigger] tree_after[j]).item().position by {
                if i < at {
                    assert(tree_after[i] == tree_before[i]);
                } else if i > at {
                    assert(tree_after[i] == tree_before[i - 1]);
                }
                if j < at {
                    assert(tree_after[j] == tree_before[j]);
                } else if j > at {
                    assert(tree_after[j] == tree_before[j - 1]);
                }
            }
            assert forall|i: int| 0 <= i < tree_after.len() implies match #[trigger] tree_after[i] {
                TreeView::Category { item, children } => item.is_category && well_placed(
                    Some(item.id),
                    children,
                ),
                TreeView::Lesson { item } => !item.is_category,
            } by {
                if i < at {
                    assert(tree_after[i] == tree_before[i]);
                } else if i > at {
                    assert(tree_after[i] == tree_before[i - 1]);
                }
            }
            assert forall|k: int, c: LessonsListItem|
                0 <= k < pool@.len() && c.is_category && #[trigger] forest_items(tree_after).count(
                    c,
                ) > 0 implies (#[trigger] pool@[k]).parent_id != Some(c.id) by {
                assert(pool_before.contains(pool@[k]));
                let k0 = choose|k0: int| 0 <= k0 < pool_before.len() && pool_before[k0] == pool@[k];
                assert(pool_before[k0].parent_id != parent_id);
                if forest_items(tree_before).count(c) > 0 {
                    assert(pool_before[k0].parent_id != Some(c.id));
                }
            }
        }
    }
    proof {
        assert(queue@.to_multiset() =~= Multiset::<LessonsListItem>::empty()) by {
            queue@.to_multiset_ensures();
            assert(queue@.to_multiset().len() == 0);
        }
        assert(forest_items(forest_view(tree_level@)).add(pool@.to_multiset()) =~= orig.to_multiset());
    }
    (tree_level, pool)
}

/// A row that occurs in a well-placed level names as its parent either the
/// level's own parent or a category that occurs in the level.
pub proof fn lemma_parent_in_tree(parent: Option<Id>, tree: Seq<TreeView>, x: LessonsListItem)
    requires
        well_placed(parent, tree),
        forest_items(tree).count(x) > 0,
    ensures
        x.parent_id == parent || exists|c: LessonsListItem|
            c.is_category && #[trigger] forest_items(tree).count(c) > 0 && x.parent_id == Some(
                c.id,
            ),
    decreases tree,
{
    broadcast use vstd::multiset::group_multiset_axioms;

    let front = tree.drop_last();
    let last = tree.last();
    if forest_items(front).count(x) > 0 {
        assert forall|i: int| 0 <= i < front.len() implies front[i] == tree[i] by {}
        assert(well_placed(parent, front));
        lemma_parent_in_tree(parent, front, x);
        if x.parent_id != parent {
            let c = choose|c: LessonsListItem|
                c.is_category && #[trigger] forest_items(front).count(c) > 0 && x.parent_id == Some(
                    c.id,
                );
            assert(forest_items(tree).count(c) > 0);
        }
    } else {
        assert(node_items(last).count(x) > 0);
        assert(last == tree[tree.len() - 1]);
        match last {
            TreeView::Category { item, children } => {
                assert(forest_items(tree).count(item) > 0);
                if x != item {
                    assert(forest_items(children).count(x) > 0);
                    lemma_parent_in_tree(Some(item.id), children, x);
                    if x.parent_id != Some(item.id) {
                        let c = choose|c: LessonsListItem|
                            c.is_category && #[trigger] forest_items(children).count(c) > 0
                                && x.parent_id == Some(c.id);
                        assert(forest_items(tree).count(c) > 0);
                    }
                }
            },
            TreeView::Lesson { item } => {},
        }
    }
}

/// Whether row `i` of `stack` names as its parent a category row of `stack`.
pub open spec fn parent_resolves(stack: Seq<LessonsListItem>, i: int) -> bool {
    exists|j: int|
        0 <= j < stack.len() && (#[trigger] stack[j]).is_category && stack[i].parent_id == Some(
            stack[j].id,
        )
}

/// Whether `depth` ranks the rows of `stack` so that every row that has a
/// parent finds it among the category rows of smaller depth: each parent
/// reference resolves, and no row is its own ancestor.
pub open spec fn ranked(stack: Seq<LessonsListItem>, depth: Seq<nat>) -> bool {
    &&& depth.len() == stack.len()
    &&& forall|i: int|
        0 <= i < stack.len() && (#[trigger] stack[i]).parent_id is Some ==> exists|j: int|
            0 <= j < stack.len() && (#[trigger] stack[j]).is_category && stack[i].parent_id == Some(
                stack[j].id,
            ) && depth[j] < depth[i]
}

/// A row of a ranked list does not stay in the remaining pool.
proof fn lemma_ranked_row_is_placed(
    stack: Seq<LessonsListItem>,
    tree: Seq<TreeView>,
    remaining: Seq<LessonsListItem>,
    depth: Seq<nat>,
    i: int,
)
    requires
        resolved(None, stack, tree, remaining),
        ranked(stack, depth),
        0 <= i < stack.len(),
    ensures
        !remaining.contains(stack[i]),
    decreases depth[i],
{
    broadcast use vstd::multiset::group_multiset_axioms;

    if remaining.contains(stack[i]) {
        let k = choose|k: int| 0 <= k < remaining.len() && remaining[k] == stack[i];
        assert(remaining[k].parent_id != None::<Id>);
        let j = choose|j: int|
            0 <= j < stack.len() && (#[trigger] stack[j]).is_category && stack[i].parent_id == Some(
                stack[j].id,
            ) && depth[j] < depth[i];
        lemma_ranked_row_is_placed(stack, tree, remaining, depth, j);
        stack.to_multiset_ensures();
        remaining.to_multiset_ensures();
        assert(stack.contains(stack[j]));
        assert(stack.to_multiset().count(stack[j]) > 0);
        assert(remaining.to_multiset().count(stack[j]) == 0);
        assert(forest_items(tree).count(stack[j]) > 0);
        assert(false);
    }
}

/// Where every row that has a parent names a category row of the list, and no
/// row is its own ancestor, resolving from the root places every row in the
/// tree, exactly as often as the list holds it, and leaves nothing over.
pub proof fn lemma_resolves_every_row(
    stack: Seq<LessonsListItem>,
    tree: Seq<TreeView>,
    remaining: Seq<LessonsListItem>,
    depth: Seq<nat>,
)
    requires
        resolved(None, stack, tree, remaining),
        ranked(stack, depth),
    ensures
        remaining.len() == 0,
        forest_items(tree) == stack.to_multiset(),
{
    broadcast use vstd::multiset::group_multiset_axioms;

    stack.to_multiset_ensures();
    remaining.to_multiset_ensures();
    if remaining.len() > 0 {
        let x = remaining[0];
        assert(remaining.contains(x));
        assert(stack.to_multiset().count(x) > 0);
        assert(stack.contains(x));
        let i = choose|i: int| 0 <= i < stack.len() && stack[i] == x;
        lemma_ranked_row_is_placed(stack, tree, remaining, depth, i);
    }
    assert(remaining.to_multiset() =~= Multiset::<LessonsListItem>::empty());
    assert(forest_items(tree) =~= stack.to_multiset());
}

/// A row whose parent reference names no category row of the list stays in the
/// remaining pool, which is therefore not empty.
pub proof fn lemma_unresolved_row_remains(
    stack: Seq<LessonsListItem>,
    tree: Seq<TreeView>,
    remaining: Seq<LessonsListItem>,
    i: int,
)
    requires
        resolved(None, stack, tree, remaining),
        0 <= i < stack.len(),
        stack[i].parent_id is Some,
        !parent_resolves(stack, i),
    ensures
        remaining.contains(stack[i]),
        remaining.len() > 0,
{
    broadcast use vstd::multiset::group_multiset_axioms;

    stack.to_multiset_ensures();
    remaining.to_multiset_ensures();
    let x = stack[i];
    assert(stack.contains(x));
    if forest_items(tree).count(x) > 0 {
        lemma_parent_in_tree(None, tree, x);
        let c = choose|c: LessonsListItem|
            c.is_category && #[trigger] forest_items(tree).count(c) > 0 && x.parent_id == Some(c.id);
        assert(stack.to_multiset().count(c) > 0);
        assert(stack.contains(c));
        let j = choose|j: int| 0 <= j < stack.len() && stack[j] == c;
        assert(stack[j].is_category);
        assert(false);
    }
    assert(stack.to_multiset().count(x) > 0);
    assert(forest_items(tree).add(remaining.to_multiset()).count(x) > 0);
    assert(remaining.to_multiset().count(x) > 0);
}

/// Where no two rows of the list share an id, a row whose parent stays in the
/// remaining pool stays there too: the pool keeps the whole subtree of a row
/// that could not be attached.
pub proof fn lemma_descendant_remains(
    stack: Seq<LessonsListItem>,
    tree: Seq<TreeView>,
    remaining: Seq<LessonsListItem>,
    i: int,
    j: int,
)
    requires
        resolved(None, stack, tree, remaining),
        forall|a: int, b: int|
            0 <= a < stack.len() && 0 <= b < stack.len() && a != b ==> (#[trigger] stack[a]).id != (
            #[trigger] stack[b]).id,
        0 <= i < stack.len(),
        0 <= j < stack.len(),
        stack[i].parent_id == Some(stack[j].id),
        remaining.contains(stack[j]),
    ensures
        remaining.contains(stack[i]),
{
    broadcast use vstd::multiset::group_multiset_axioms;

    stack.to_multiset_ensures();
    remaining.to_multiset_ensures();
    let x = stack[i];
    assert(stack.contains(x));
    if forest_items(tree).count(x) > 0 {
        lemma_parent_in_tree(None, tree, x);
        let c = choose|c: LessonsListItem|
            c.is_category && #[trigger] forest_items(tree).count(c) > 0 && x.parent_id == Some(c.id);
        assert(stack.to_multiset().count(c) > 0);
        assert(stack.contains(c));
        let m = choose|m: int| 0 <= m < stack.len() && stack[m] == c;
        assert(m == j);
        assert(stack.no_duplicates());
        stack.lemma_multiset_has_no_duplicates();
        assert(stack.to_multiset().contains(c));
        assert(remaining.to_multiset().count(c) > 0);
        assert(false);
    }
    assert(stack.to_multiset().count(x) > 0);
    assert(forest_items(tree).add(remaining.to_multiset()).count(x) > 0);
    assert(remaining.to_multiset().count(x) > 0);
}

/// A row stays in the remaining pool only for want of a parent in the tree:
/// every category row of the list that has the id which the row names as its
/// parent stays in the pool as well.
pub proof fn lemma_remaining_row_is_unattached(
    stack: Seq<LessonsListItem>,
    tree: Seq<TreeView>,
    remaining: Seq<LessonsListItem>,
    k: int,
    j: int,
)
    requires
        resolved(None, stack, tree, remaining),
        0 <= k < remaining.len(),
        0 <= j < stack.len(),
        stack[j].is_category,
        remaining[k].parent_id == Some(stack[j].id),
    ensures
        remaining.contains(stack[j]),
{
    broadcast use vstd::multiset::group_multiset_axioms;

    stack.to_multiset_ensures();
    remaining.to_multiset_ensures();
    let c = stack[j];
    assert(stack.contains(c));
    assert(stack.to_multiset().count(c) > 0);
    assert(forest_items(tree).add(remaining.to_multiset()).count(c) > 0);
    if forest_items(tree).count(c) > 0 {
        assert(remaining[k].parent_id != Some(c.id));
    }
    assert(remaining.to_multiset().count(c) > 0);
}

/// Of two siblings, the one with the smaller position stands first.
pub proof fn lemma_siblings_in_position_order(
    parent: Option<Id>,
    level: Seq<TreeView>,
    a: int,
    b: int,
)
    requires
        well_placed(parent, level),
        0 <= a < level.len(),
        0 <= b < level.len(),
        level[a].item().position < level[b].item().position,
    ensures
        a < b,
{
    if b < a {
        assert(level[b].item().position <= level[a].item().position);
    }
}

} // verus!
