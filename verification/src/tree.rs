//! The catalog's rows and the module tree that is built from them.

use vstd::multiset::Multiset;
use vstd::prelude::*;

verus! {

/// Identifier of a catalog row.
pub type Id = usize;

/// Ordering key of a row among its siblings.
pub type Position = usize;

/// One row of the flat catalog.
#[derive(Clone, Debug, PartialEq, Eq)]
pub struct LessonsListItem {
    pub id: Id,
    pub name: String,
    pub active: bool,
    pub content_page_id: Option<Id>,
    pub is_category: bool,
    pub parent_id: Option<Id>,
    pub position: Position,
}

/// A node of the module tree. A lesson never has children.
#[derive(Debug, PartialEq, Eq)]
pub enum ModuleTreeItem {
    Category { item: LessonsListItem, children: Vec<ModuleTreeItem> },
    Lesson { item: LessonsListItem },
}

/// The mathematical model of a tree node: children are a sequence of models.
pub ghost enum TreeView {
    Category { item: LessonsListItem, children: Seq<TreeView> },
    Lesson { item: LessonsListItem },
}

impl TreeView {
    /// The catalog row that the node carries.
    pub open spec fn item(self) -> LessonsListItem {
        match self {
            TreeView::Category { item, .. } => item,
            TreeView::Lesson { item } => item,
        }
    }

    /// Whether the node is a category without children.
    pub open spec fn is_empty_category(self) -> bool {
        match self {
            TreeView::Category { children, .. } => children.len() == 0,
            TreeView::Lesson { .. } => false,
        }
    }
}

/// The model of a node: its row, and for a category the models of its children.
pub open spec fn node_view(node: ModuleTreeItem) -> TreeView
    decreases node,
{
    match node {
        ModuleTreeItem::Category { item, children } => TreeView::Category {
            item,
            children: Seq::new(
                children@.len(),
                |i: int|
                    if 0 <= i < children@.len() {
                        node_view(children@[i])
                    } else {
                        TreeView::Lesson { item }
                    },
            ),
        },
        ModuleTreeItem::Lesson { item } => TreeView::Lesson { item },
    }
}

impl View for ModuleTreeItem {
    type V = TreeView;

    open spec fn view(&self) -> TreeView {
        node_view(*self)
    }
}

/// The models of a sequence of nodes, in order.
pub open spec fn forest_view(nodes: Seq<ModuleTreeItem>) -> Seq<TreeView> {
    Seq::new(nodes.len(), |i: int| nodes[i]@)
}

/// A category's model holds the models of its children.
pub proof fn lemma_category_view(node: ModuleTreeItem)
    requires
        node is Category,
    ensures
        node@ == (TreeView::Category {
            item: node->Category_item,
            children: forest_view(node->Category_children@),
        }),
{
    reveal_with_fuel(node_view, 2);
    assert(node@->Category_children =~= forest_view(node->Category_children@));
}

/// Every catalog row that occurs in a node, the node's own row included.
pub open spec fn node_items(node: TreeView) -> Multiset<LessonsListItem>
    decreases node,
{
    match node {
        TreeView::Category { item, children } => forest_items(children).insert(item),
        TreeView::Lesson { item } => Multiset::singleton(item),
    }
}

/// Every catalog row that occurs anywhere in a sequence of nodes.
pub open spec fn forest_items(forest: Seq<TreeView>) -> Multiset<LessonsListItem>
    decreases forest,
{
    if forest.len() == 0 {
        Multiset::empty()
    } else {
        forest_items(forest.drop_last()).add(node_items(forest.last()))
    }
}

/// Inserting a node anywhere adds exactly that node's rows.
pub proof fn lemma_forest_items_insert(forest: Seq<TreeView>, at: int, node: TreeView)
    requires
        0 <= at <= forest.len(),
    ensures
        forest_items(forest.insert(at, node)) == forest_items(forest).add(node_items(node)),
    decreases forest.len(),
{
    broadcast use vstd::multiset::group_multiset_axioms;

    let grown = forest.insert(at, node);
    if at == forest.len() {
        assert(grown.drop_last() =~= forest);
        assert(grown.last() == node);
    } else {
        assert(grown.drop_last() =~= forest.drop_last().insert(at, node));
        assert(grown.last() == forest.last());
        lemma_forest_items_insert(forest.drop_last(), at, node);
        assert(forest_items(grown) =~= forest_items(forest).add(node_items(node)));
    }
}

impl ModuleTreeItem {
    /// The catalog row that the node carries.
    pub fn item(&self) -> (r: &LessonsListItem)
        ensures
            *r == self@.item(),
    {
        match self {
            ModuleTreeItem::Category { item, .. } => item,
            ModuleTreeItem::Lesson { item } => item,
        }
    }

    /// Whether the node is a category.
    pub fn is_category(&self) -> (r: bool)
        ensures
            r == (self@ is Category),
    {
        match self {
            ModuleTreeItem::Category { .. } => true,
            ModuleTreeItem::Lesson { .. } => false,
        }
    }

    /// The node's children: those of a category, none for a lesson.
    pub fn children(&self) -> (r: &[ModuleTreeItem])
        ensures
            self@ is Category ==> forest_view(r@) == self@->Category_children,
            self@ is Lesson ==> r@.len() == 0,
    {
        match self {
            ModuleTreeItem::Category { children, .. } => {
                proof {
                    lemma_category_view(*self);
                }
                children.as_slice()
            },
            ModuleTreeItem::Lesson { .. } => &[],
        }
    }
}

} // verus!
