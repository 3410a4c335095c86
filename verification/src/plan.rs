//! The directories that mirror the module tree, in the order in which the
//! tree is walked.

use crate::embed::texts;
use crate::sanitize::{safe_name, safe_path};
use crate::text::{copy_strings, push_char};
use crate::tree::{forest_view, lemma_category_view, Id, ModuleTreeItem, TreeView};
use vstd::prelude::*;

verus! {

/// The character of a decimal digit.
pub open spec fn digit_char(d: nat) -> char {
    if d == 0 {
        '0'
    } else if d == 1 {
        '1'
    } else if d == 2 {
        '2'
    } else if d == 3 {
        '3'
    } else if d == 4 {
        '4'
    } else if d == 5 {
        '5'
    } else if d == 6 {
        '6'
    } else if d == 7 {
        '7'
    } else if d == 8 {
        '8'
    } else {
        '9'
    }
}

/// The decimal digits of `n`, without leading zeros.
pub open spec fn decimal(n: nat) -> Seq<char>
    decreases n,
{
    if n < 10 {
        seq![digit_char(n)]
    } else {
        decimal(n / 10).push(digit_char(n % 10))
    }
}

/// The decimal digits of `n`, with a leading zero where there is one digit.
pub open spec fn two_digits(n: nat) -> Seq<char> {
    if n < 10 {
        seq!['0'] + decimal(n)
    } else {
        decimal(n)
    }
}

/// The name of the directory of the node at `index` among its siblings
/// (counted from zero): the index counted from one, in two digits, a space,
/// and the sanitized display name.
pub open spec fn directory_name(index: nat, name: Seq<char>) -> Seq<char> {
    two_digits(index + 1) + seq![' '] + safe_name(name)
}

/// The character of the decimal digit `d`.
fn digit(d: usize) -> (c: char)
    requires
        d < 10,
    ensures
        c == digit_char(d as nat),
{
    if d == 0 {
        '0'
    } else if d == 1 {
        '1'
    } else if d == 2 {
        '2'
    } else if d == 3 {
        '3'
    } else if d == 4 {
        '4'
    } else if d == 5 {
        '5'
    } else if d == 6 {
        '6'
    } else if d == 7 {
        '7'
    } else if d == 8 {
        '8'
    } else {
        '9'
    }
}

/// Appends the decimal digits of `n`.
fn push_decimal(n: usize, out: &mut String)
    ensures
        final(out)@ == old(out)@ + decimal(n as nat),
    decreases n,
{
    if n >= 10 {
        push_decimal(n / 10, out);
    }
    push_char(out, digit(n % 10));
    proof {
        assert(out@ =~= old(out)@ + decimal(n as nat));
    }
}

/// The directory name for the node at `index` (counted from zero) with the
/// given display name.
pub fn directory_for(index: usize, name: &str) -> (r: String)
    requires
        index < usize::MAX,
    ensures
        r@ == directory_name(index as nat, name@),
{
    let mut out = String::new();
    let number: usize = index + 1;
    if number < 10 {
        push_char(&mut out, '0');
    }
    push_decimal(number, &mut out);
    push_char(&mut out, ' ');
    let safe = safe_path(name);
    out.append(safe.as_str());
    proof {
        assert(out@ =~= directory_name(index as nat, name@));
    }
    out
}

/// What the walk finds at a directory.
#[derive(Clone, Copy, Debug, PartialEq, Eq, Structural)]
pub enum VisitKind {
    /// A category: its directory is made, and its children follow.
    Category,
    /// A lesson: its directory is made, and its content is fetched by the
    /// lesson's id and its content page, which the catalog may lack.
    Lesson { lesson_id: Id, content_page_id: Option<Id> },
}

/// One stop of the walk through the module tree.
#[derive(Clone, Debug, PartialEq, Eq)]
pub struct Visit {
    /// The directory of the node, as path segments below the course directory.
    pub path: Vec<String>,
    pub kind: VisitKind,
}

/// The model of a stop.
pub ghost struct VisitView {
    pub path: Seq<Seq<char>>,
    pub kind: VisitKind,
}

impl View for Visit {
    type V = VisitView;

    open spec fn view(&self) -> VisitView {
        VisitView { path: texts(self.path@), kind: self.kind }
    }
}

/// The models of a sequence of stops.
pub open spec fn visits(stops: Seq<Visit>) -> Seq<VisitView> {
    stops.map_values(|v: Visit| v@)
}

/// The stops for one node: the node itself, then, for a category, the stops
/// of its children below the node's directory.
pub open spec fn node_walk(node: TreeView, base: Seq<Seq<char>>, index: nat) -> Seq<VisitView>
    decreases node,
{
    let path = base.push(directory_name(index, node.item().name@));
    match node {
        TreeView::Category { item, children } => seq![
            VisitView { path, kind: VisitKind::Category },
        ] + level_walk(children, path),
        TreeView::Lesson { item } => seq![
            VisitView {
                path,
                kind: VisitKind::Lesson {
                    lesson_id: item.id,
                    content_page_id: item.content_page_id,
                },
            },
        ],
    }
}

/// The stops for a tree level below `base`: depth first, siblings in order,
/// each node before its descendants.
pub open spec fn level_walk(level: Seq<TreeView>, base: Seq<Seq<char>>) -> Seq<VisitView>
    decreases level,
{
    if level.len() == 0 {
        Seq::empty()
    } else {
        level_walk(level.drop_last(), base) + node_walk(
            level.last(),
            base,
            (level.len() - 1) as nat,
        )
    }
}

/// Whether `path` lies below `base`: it is longer and starts with it.
pub open spec fn lies_below(path: Seq<Seq<char>>, base: Seq<Seq<char>>) -> bool {
    path.len() > base.len() && path.take(base.len() as int) == base
}

/// Every stop of the walk through a level lies below the level's base. So
/// the stops that follow a category's own stop, which are those of its
/// children, all lie below the category's directory, which is made first.
pub proof fn lemma_walk_lies_below(level: Seq<TreeView>, base: Seq<Seq<char>>)
    ensures
        forall|k: int|
            0 <= k < level_walk(level, base).len() ==> lies_below(
                (#[trigger] level_walk(level, base)[k]).path,
                base,
            ),
    decreases level,
{
    if level.len() > 0 {
        let front = level_walk(level.drop_last(), base);
        let node = level.last();
        let index = (level.len() - 1) as nat;
        let path = base.push(directory_name(index, node.item().name@));
        lemma_walk_lies_below(level.drop_last(), base);
        assert(path.take(base.len() as int) =~= base);
        match node {
            TreeView::Category { item, children } => {
                lemma_walk_lies_below(children, path);
                let below = level_walk(children, path);
                assert forall|k: int| 0 <= k < below.len() implies lies_below(
                    (#[trigger] below[k]).path,
                    base,
                ) by {
                    assert(lies_below(below[k].path, path));
                    assert(below[k].path.take(base.len() as int) =~= path.take(base.len() as int));
                }
            },
            TreeView::Lesson { item } => {},
        }
        let all = level_walk(level, base);
        assert forall|k: int| 0 <= k < all.len() implies lies_below((#[trigger] all[k]).path, base) by {
            if k < front.len() {
                assert(all[k] == front[k]);
            } else {
                assert(all[k] == node_walk(node, base, index)[k - front.len()]);
            }
        }
    }
}

/// Appends the stops of the walk through `level` below `base`.
pub fn walk_into(level: &[ModuleTreeItem], base: &Vec<String>, out: &mut Vec<Visit>)
    ensures
        visits(final(out)@) == visits(old(out)@) + level_walk(forest_view(level@), texts(base@)),
    decreases level@,
{
    let ghost start = visits(out@);
    let ghost nodes = forest_view(level@);
    let mut i: usize = 0;
    proof {
        assert(nodes.take(0) =~= Seq::<TreeView>::empty());
        assert(start + level_walk(nodes.take(0), texts(base@)) =~= start);
    }
    while i < level.len()
        invariant
            i <= level@.len(),
            nodes == forest_view(level@),
            visits(out@) == start + level_walk(nodes.take(i as int), texts(base@)),
        decreases level@.len() - i,
    {
        let ghost before = visits(out@);
        let node = &level[i];
        proof {
            assert(nodes.take(i + 1).drop_last() =~= nodes.take(i as int));
            assert(nodes.take(i + 1).last() == node@);
        }
        let item = node.item();
        let mut path = copy_strings(base);
        proof {
            assert(texts(path@) =~= texts(base@));
        }
        path.push(directory_for(i, item.name.as_str()));
        let ghost here = texts(path@);
        proof {
            assert(here =~= texts(base@).push(directory_name(i as nat, item.name@)));
        }
        match node {
            ModuleTreeItem::Category { children, .. } => {
                let below = copy_strings(&path);
                proof {
                    assert(texts(below@) =~= here);
                }
                let stop = Visit { path, kind: VisitKind::Category };
                out.push(stop);
                proof {
                    lemma_category_view(*node);
                    assert(visits(out@) =~= before + seq![
                        VisitView { path: here, kind: VisitKind::Category },
                    ]);
                }
                walk_into(children.as_slice(), &below, out);
                proof {
                    assert(visits(out@) =~= before + node_walk(node@, texts(base@), i as nat));
                }
            },
            ModuleTreeItem::Lesson { .. } => {
                let kind = VisitKind::Lesson {
                    lesson_id: item.id,
                    content_page_id: item.content_page_id,
                };
                out.push(Visit { path, kind });
                proof {
                    assert(visits(out@) =~= before + node_walk(node@, texts(base@), i as nat));
                }
            },
        }
        proof {
            assert(visits(out@) =~= start + level_walk(nodes.take(i + 1), texts(base@)));
        }
        i += 1;
    }
    proof {
        assert(nodes.take(nodes.len() as int) =~= nodes);
    }
}

/// The walk through the module tree below the course directory `base`: one
/// stop for each node, depth first and siblings in order, each node before
/// its descendants, with the node's directory.
pub fn walk(tree: &Vec<ModuleTreeItem>, base: &Vec<String>) -> (r: Vec<Visit>)
    ensures
        visits(r@) == level_walk(forest_view(tree@), texts(base@)),
{
    let mut out: Vec<Visit> = Vec::new();
    proof {
        assert(visits(out@) =~= Seq::<VisitView>::empty());
    }
    walk_into(tree.as_slice(), base, &mut out);
    proof {
        assert(Seq::<VisitView>::empty() + level_walk(forest_view(tree@), texts(base@))
            =~= level_walk(forest_view(tree@), texts(base@)));
    }
    out
}

/// The course directory below the output root: the sanitized seller, then
/// the sanitized product.
pub fn course_directory(seller: &str, product: &str) -> (r: Vec<String>)
    ensures
        texts(r@) == seq![safe_name(seller@), safe_name(product@)],
{
    let mut out: Vec<String> = Vec::new();
    out.push(safe_path(seller));
    out.push(safe_path(product));
    proof {
        assert(texts(out@) =~= seq![safe_name(seller@), safe_name(product@)]);
    }
    out
}

} // verus!
