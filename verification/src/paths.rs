//! What holds of resolution along paths through a tree.

use crate::whichtree::{
    first_with_key, lemma_first_with_key, menu_of, node_at, resolve_spec, KindView, NodeView,
    ResolutionView,
};
use vstd::prelude::*;

verus! {

/// Resolution goes step by step: what `front + back` leads to from `node` is
/// what `back` leads to from the node that `front` leads to, and nothing where
/// `front` leads nowhere.
pub proof fn lemma_node_at_concat(node: NodeView, front: Seq<char>, back: Seq<char>)
    ensures
        node_at(node, front + back) == match node_at(node, front) {
            Some(reached) => node_at(reached, back),
            None => None,
        },
    decreases front.len(),
{
    if front.len() == 0 {
        assert(front + back =~= back);
    } else {
        let whole = front + back;
        assert(whole[0] == front[0]);
        assert(whole.drop_first() =~= front.drop_first() + back);
        match node.kind {
            KindView::Command(_) => {},
            KindView::Children(children) => {
                match first_with_key(children, front[0], 0) {
                    None => {},
                    Some(i) => {
                        lemma_node_at_concat(children[i], front.drop_first(), back);
                    },
                }
            },
        }
    }
}

/// `steps` is a way from `node` down to `target` along `path`: at each level
/// it names a child that carries the next character of `path`, and that no
/// earlier child of the same branch shadows by carrying the same character.
pub open spec fn leads_to(node: NodeView, path: Seq<char>, steps: Seq<int>, target: NodeView) -> bool
    decreases path.len(),
{
    if path.len() == 0 {
        steps.len() == 0 && target == node
    } else {
        &&& steps.len() == path.len()
        &&& node.kind is Children
        &&& 0 <= steps[0] < node.children().len()
        &&& node.children()[steps[0]].key == Some(path[0])
        &&& forall|j: int| 0 <= j < steps[0] ==> (#[trigger] node.children()[j]).key != Some(path[0])
        &&& leads_to(node.children()[steps[0]], path.drop_first(), steps.drop_first(), target)
    }
}

/// `steps` names, level by level, children from `node` down to `target` that
/// carry the characters of `path`, whether or not an earlier child carries
/// the same character.
pub open spec fn way(node: NodeView, path: Seq<char>, steps: Seq<int>, target: NodeView) -> bool
    decreases path.len(),
{
    if path.len() == 0 {
        steps.len() == 0 && target == node
    } else {
        &&& steps.len() == path.len()
        &&& node.kind is Children
        &&& 0 <= steps[0] < node.children().len()
        &&& node.children()[steps[0]].key == Some(path[0])
        &&& way(node.children()[steps[0]], path.drop_first(), steps.drop_first(), target)
    }
}

/// Where no two children of one branch carry the same key, nothing is
/// shadowed: every way down the tree is one that resolution takes.
pub proof fn lemma_way_with_distinct_keys(
    node: NodeView,
    path: Seq<char>,
    steps: Seq<int>,
    target: NodeView,
)
    requires
        node.distinct_keys(),
        way(node, path, steps, target),
    ensures
        leads_to(node, path, steps, target),
    decreases path.len(),
{
    if path.len() > 0 {
        let children = node.kind->Children_0;
        assert(children == node.children());
        assert forall|j: int| 0 <= j < steps[0] implies (#[trigger] node.children()[j]).key != Some(
            path[0],
        ) by {
            assert(children[j].key != children[steps[0]].key);
        }
        assert(children[steps[0]].distinct_keys());
        lemma_way_with_distinct_keys(
            children[steps[0]],
            path.drop_first(),
            steps.drop_first(),
            target,
        );
    }
}

/// A way down the tree is the way that resolution takes.
pub proof fn lemma_leads_to_node_at(
    node: NodeView,
    path: Seq<char>,
    steps: Seq<int>,
    target: NodeView,
)
    requires
        leads_to(node, path, steps, target),
    ensures
        node_at(node, path) == Some(target),
    decreases path.len(),
{
    if path.len() > 0 {
        let children = node.children();
        lemma_first_with_key(children, path[0], 0);
        match first_with_key(children, path[0], 0) {
            None => {
                assert(children[steps[0]].key != Some(path[0]));
            },
            Some(i) => {
                if i < steps[0] {
                    assert(children[i].key != Some(path[0]));
                } else if i > steps[0] {
                    assert(children[steps[0]].key != Some(path[0]));
                }
            },
        }
        lemma_leads_to_node_at(children[steps[0]], path.drop_first(), steps.drop_first(), target);
    }
}

/// Conversely, the way that resolution takes is a way down the tree: a node
/// found lies one child per character of the path below the start.
pub proof fn lemma_node_at_leads_to(node: NodeView, path: Seq<char>, target: NodeView) -> (steps:
    Seq<int>)
    requires
        node_at(node, path) == Some(target),
    ensures
        leads_to(node, path, steps, target),
    decreases path.len(),
{
    if path.len() == 0 {
        Seq::empty()
    } else {
        let children = node.children();
        lemma_first_with_key(children, path[0], 0);
        let i = first_with_key(children, path[0], 0)->0;
        let rest = lemma_node_at_leads_to(children[i], path.drop_first(), target);
        let steps = seq![i] + rest;
        assert(steps.drop_first() =~= rest);
        steps
    }
}

/// A path that leads to a leaf resolves to the command of that leaf, and with
/// anything typed after it to no match.
pub proof fn lemma_leaf_resolves_to_command(
    root: NodeView,
    path: Seq<char>,
    steps: Seq<int>,
    leaf: NodeView,
    more: Seq<char>,
)
    requires
        leads_to(root, path, steps, leaf),
        leaf.kind is Command,
    ensures
        resolve_spec(root, path) == ResolutionView::Command(leaf.kind->Command_0),
        more.len() > 0 ==> resolve_spec(root, path + more) == ResolutionView::NoMatch,
{
    lemma_leads_to_node_at(root, path, steps, leaf);
    lemma_node_at_concat(root, path, more);
}

/// A path that leads into a branch resolves to the menu over the children of
/// that branch.
pub proof fn lemma_branch_resolves_to_menu(
    root: NodeView,
    path: Seq<char>,
    steps: Seq<int>,
    branch: NodeView,
)
    requires
        leads_to(root, path, steps, branch),
        branch.kind is Children,
    ensures
        resolve_spec(root, path) == ResolutionView::Menu(menu_of(branch.children())),
{
    lemma_leads_to_node_at(root, path, steps, branch);
}

/// The empty buffer resolves to the menu over the children of the root, and
/// that menu is made of the keys and labels of those children alone: two roots
/// whose children agree in key and label, one by one, show the same menu
/// whatever lies below.
pub proof fn lemma_empty_buffer_resolves_to_top_menu(root: NodeView, other: NodeView)
    requires
        root.is_head(),
        other.is_head(),
        other.children().len() == root.children().len(),
        forall|i: int|
            0 <= i < root.children().len() ==> {
                &&& (#[trigger] other.children()[i]).key == root.children()[i].key
                &&& other.children()[i].label == root.children()[i].label
            },
    ensures
        resolve_spec(root, Seq::empty()) == ResolutionView::Menu(menu_of(root.children())),
        resolve_spec(other, Seq::empty()) == resolve_spec(root, Seq::empty()),
{
    assert(menu_of(other.children()) =~= menu_of(root.children()));
}

/// A character that no child of the current branch carries resolves to no
/// match, whatever was typed before it.
pub proof fn lemma_unknown_key_resolves_to_no_match(root: NodeView, buffer: Seq<char>, x: char)
    requires
        node_at(root, buffer) matches Some(current) && forall|i: int|
            0 <= i < current.children().len() ==> (#[trigger] current.children()[i]).key != Some(x),
    ensures
        resolve_spec(root, buffer.push(x)) == ResolutionView::NoMatch,
{
    let current = node_at(root, buffer)->0;
    lemma_node_at_concat(root, buffer, seq![x]);
    assert(buffer + seq![x] =~= buffer.push(x));
    match current.kind {
        KindView::Command(_) => {},
        KindView::Children(children) => {
            lemma_first_with_key(children, x, 0);
            match first_with_key(children, x, 0) {
                Some(i) => {
                    assert(current.children()[i].key != Some(x));
                },
                None => {},
            }
        },
    }
}

} // verus!
