//! Re-homing root lessons under the empty root category that precedes them.

use crate::resolve::reversed;
use crate::tree::{forest_items, forest_view, lemma_category_view, node_items};
use crate::tree::{ModuleTreeItem, TreeView};
use vstd::prelude::*;

verus! {

/// The state of the scan over the root sequence: what has been put out so
/// far, and whether its last node is a category that still collects the
/// lessons that follow it.
pub ghost struct Scan {
    pub out: Seq<TreeView>,
    pub armed: bool,
}

/// The category `node` with `lesson` as one more child, behind the others.
pub open spec fn adopt(node: TreeView, lesson: TreeView) -> TreeView
    recommends
        node is Category,
{
    TreeView::Category {
        item: node->Category_item,
        children: node->Category_children.push(lesson),
    }
}

/// One step of the scan. A category always joins the root, and collects what
/// follows if and only if it has no children. A lesson joins the collecting
/// category if there is one, else the root.
pub open spec fn absorb(state: Scan, node: TreeView) -> Scan {
    match node {
        TreeView::Category { children, .. } => Scan {
            out: state.out.push(node),
            armed: children.len() == 0,
        },
        TreeView::Lesson { .. } => if state.armed && state.out.len() > 0
            && state.out.last() is Category {
            Scan {
                out: state.out.drop_last().push(adopt(state.out.last(), node)),
                armed: true,
            }
        } else {
            Scan { out: state.out.push(node), armed: false }
        },
    }
}

/// The scan over a whole root sequence, first node first.
pub open spec fn scan(root: Seq<TreeView>) -> Scan
    decreases root.len(),
{
    if root.len() == 0 {
        Scan { out: Seq::empty(), armed: false }
    } else {
        absorb(scan(root.drop_last()), root.last())
    }
}

/// The normalized root sequence.
pub open spec fn normalized(root: Seq<TreeView>) -> Seq<TreeView> {
    scan(root).out
}

/// Normalizes the module tree: a root lesson that follows an empty root
/// category, directly or behind other such lessons, becomes a child of that
/// category. Everything else keeps its place, and nothing below the root is
/// looked at.
pub fn normalize_module_tree(module_tree: Vec<ModuleTreeItem>) -> (r: Vec<ModuleTreeItem>)
    ensures
        forest_view(r@) == normalized(forest_view(module_tree@)),
{
    let ghost root = forest_view(module_tree@);
    let mut queue = reversed(module_tree);
    let mut out: Vec<ModuleTreeItem> = Vec::new();
    let mut armed = false;
    proof {
        assert(root.take(0) =~= Seq::<TreeView>::empty());
        assert(forest_view(out@) =~= Seq::<TreeView>::empty());
    }
    while queue.len() > 0
        invariant
            queue@.len() <= root.len(),
            forall|i: int| 0 <= i < queue@.len() ==> (#[trigger] queue@[i])@ == root[root.len() - 1 - i],
            forest_view(out@) == scan(root.take(root.len() - queue@.len())).out,
            armed == scan(root.take(root.len() - queue@.len())).armed,
        decreases queue@.len(),
    {
        let ghost k = root.len() - queue@.len();
        let ghost before = scan(root.take(k));
        let ghost out_before = out@;
        let node = queue.pop().unwrap();
        proof {
            assert(node@ == root[k]);
            assert(root.take(k + 1).drop_last() =~= root.take(k));
            assert(root.take(k + 1).last() == node@);
            assert(scan(root.take(k + 1)) == absorb(before, node@));
        }
        if node.is_category() {
            let empty = node.children().len() == 0;
            out.push(node);
            armed = empty;
            proof {
                assert(forest_view(out@) =~= before.out.push(node@));
            }
        } else if armed && out.len() > 0 && out[out.len() - 1].is_category() {
            let last = out.pop().unwrap();
            proof {
                assert(last@ == before.out.last());
                lemma_category_view(last);
            }
            match last {
                ModuleTreeItem::Category { item, children } => {
                    let ghost kids_before = children@;
                    let mut kids = children;
                    kids.push(node);
                    let grown = ModuleTreeItem::Category { item, children: kids };
                    proof {
                        lemma_category_view(grown);
                        assert(forest_view(kids@) =~= forest_view(kids_before).push(node@));
                        assert(grown@ == adopt(before.out.last(), node@));
                    }
                    out.push(grown);
                    proof {
                        assert(forest_view(out@) =~= before.out.drop_last().push(grown@));
                    }
                },
                ModuleTreeItem::Lesson { item } => {
                    proof {
                        assert(false);
                    }
                    out.push(ModuleTreeItem::Lesson { item });
                },
            }
        } else {
            out.push(node);
            armed = false;
            proof {
                assert(forest_view(out@) =~= before.out.push(node@));
            }
        }
    }
    proof {
        assert(root.take(root.len() as int) =~= root);
    }
    out
}

/// Whether no root lesson stands directly behind an empty root category.
pub open spec fn settled(root: Seq<TreeView>) -> bool {
    forall|i: int|
        0 < i < root.len() && (#[trigger] root[i]) is Lesson ==> !root[i - 1].is_empty_category()
}

/// A settled root sequence is left as it is.
pub proof fn lemma_settled_is_fixed(root: Seq<TreeView>)
    requires
        settled(root),
    ensures
        scan(root).out == root,
        scan(root).armed == (root.len() > 0 && root.last().is_empty_category()),
    decreases root.len(),
{
    if root.len() > 0 {
        let front = root.drop_last();
        assert forall|i: int| 0 < i < front.len() && (#[trigger] front[i]) is Lesson implies !front[i
            - 1].is_empty_category() by {
            assert(front[i] == root[i]);
            assert(front[i - 1] == root[i - 1]);
        }
        lemma_settled_is_fixed(front);
        if root.last() is Lesson && front.len() > 0 {
            assert(root[root.len() - 1] is Lesson);
            assert(front.last() == root[root.len() - 2]);
        }
        assert(scan(root).out =~= root);
    }
}

/// What the scan puts out is settled; while it is collecting, its last node
/// is a category, and otherwise its last node is no empty category.
pub proof fn lemma_scan_settles(root: Seq<TreeView>)
    ensures
        settled(scan(root).out),
        scan(root).armed ==> scan(root).out.len() > 0 && scan(root).out.last() is Category,
        !scan(root).armed && scan(root).out.len() > 0 ==> !scan(root).out.last().is_empty_category(),
    decreases root.len(),
{
    if root.len() > 0 {
        let before = scan(root.drop_last());
        let after = scan(root);
        lemma_scan_settles(root.drop_last());
        assert(after == absorb(before, root.last()));
        assert forall|i: int| 0 < i < after.out.len() && (#[trigger] after.out[i]) is Lesson implies !after.out[i
            - 1].is_empty_category() by {
            if i < before.out.len() {
                assert(after.out[i] == before.out[i]);
                if i - 1 < after.out.len() - 1 || after.out.len() == before.out.len() + 1 {
                    assert(after.out[i - 1] == before.out[i - 1]);
                }
            }
        }
    }
}

/// Normalizing a second time changes nothing.
pub proof fn lemma_normalize_idempotent(root: Seq<TreeView>)
    ensures
        normalized(normalized(root)) == normalized(root),
{
    lemma_scan_settles(root);
    lemma_settled_is_fixed(scan(root).out);
}

/// One step of the scan adds the rows of the node it takes, and no others.
pub proof fn lemma_absorb_keeps_rows(state: Scan, node: TreeView)
    ensures
        forest_items(absorb(state, node).out) == forest_items(state.out).add(node_items(node)),
{
    broadcast use vstd::multiset::group_multiset_axioms;

    let after = absorb(state, node);
    if node is Lesson && state.armed && state.out.len() > 0 && state.out.last() is Category {
        let last = state.out.last();
        let grown = adopt(last, node);
        let kids = last->Category_children;
        assert(after.out.drop_last() =~= state.out.drop_last());
        assert(after.out.last() == grown);
        assert(kids.push(node).drop_last() =~= kids);
        assert(forest_items(kids.push(node)) == forest_items(kids).add(node_items(node)));
        assert(node_items(grown) =~= node_items(last).add(node_items(node)));
        assert(forest_items(after.out) =~= forest_items(state.out).add(node_items(node)));
    } else {
        assert(after.out.drop_last() =~= state.out);
        assert(after.out.last() == node);
    }
}

/// Normalizing keeps every row of the tree, each as often as before.
pub proof fn lemma_normalized_keeps_rows(root: Seq<TreeView>)
    ensures
        forest_items(normalized(root)) == forest_items(root),
    decreases root.len(),
{
    if root.len() > 0 {
        lemma_normalized_keeps_rows(root.drop_last());
        lemma_absorb_keeps_rows(scan(root.drop_last()), root.last());
    }
}

} // verus!
