//! The tree of bindings, its mathematical model, and the search for the node
//! that a sequence of typed characters leads to.

use vstd::prelude::*;

verus! {

/// One node of the binding tree.
///
/// The root carries no key and an empty label; every other node carries the
/// character that selects it and the text shown for it.
#[derive(Debug, PartialEq, Eq)]
pub struct WhichTreeNode {
    pub key: Option<char>,
    pub label: String,
    pub kind: WhichTreeKind,
}

/// What a node stands for: a command to run, or a further menu.
#[derive(Debug, PartialEq, Eq)]
pub enum WhichTreeKind {
    Command(String),
    Children(Vec<WhichTreeNode>),
}

/// Model of a [`WhichTreeNode`]: strings are sequences of characters and the
/// children of a branch form a sequence of models.
pub struct NodeView {
    pub key: Option<char>,
    pub label: Seq<char>,
    pub kind: KindView,
}

/// Model of a [`WhichTreeKind`].
pub enum KindView {
    Command(Seq<char>),
    Children(Seq<NodeView>),
}

/// The model of a node, by recursion over the tree.
pub open spec fn node_view(node: WhichTreeNode) -> NodeView
    decreases node,
{
    NodeView { key: node.key, label: node.label@, kind: kind_view(node.kind) }
}

/// The model of a node's kind.
pub open spec fn kind_view(kind: WhichTreeKind) -> KindView
    decreases kind,
{
    match kind {
        WhichTreeKind::Command(command) => KindView::Command(command@),
        WhichTreeKind::Children(children) => KindView::Children(nodes_view(children@)),
    }
}

/// The models of a list of nodes, in the same order.
pub open spec fn nodes_view(nodes: Seq<WhichTreeNode>) -> Seq<NodeView>
    decreases nodes,
{
    Seq::new(
        nodes.len(),
        |i: int|
            if 0 <= i < nodes.len() {
                node_view(nodes[i])
            } else {
                arbitrary()
            },
    )
}

impl View for WhichTreeNode {
    type V = NodeView;

    open spec fn view(&self) -> NodeView {
        node_view(*self)
    }
}

impl View for WhichTreeKind {
    type V = KindView;

    open spec fn view(&self) -> KindView {
        kind_view(*self)
    }
}

impl NodeView {
    /// The shape of a root: no key, and a menu rather than a command.
    pub open spec fn is_head(self) -> bool {
        self.key is None && self.kind is Children
    }

    /// The children of a branch, in order; a command has none.
    pub open spec fn children(self) -> Seq<NodeView> {
        match self.kind {
            KindView::Command(_) => Seq::empty(),
            KindView::Children(children) => children,
        }
    }

    /// This node and every node below it carries a key.
    pub open spec fn keyed(self) -> bool
        decreases self,
    {
        &&& self.key is Some
        &&& match self.kind {
            KindView::Command(_) => true,
            KindView::Children(children) => forall|i: int|
                0 <= i < children.len() ==> (#[trigger] children[i]).keyed(),
        }
    }

    /// No two children of one branch carry the same key, at this node and at
    /// every node below it.
    pub open spec fn distinct_keys(self) -> bool
        decreases self,
    {
        match self.kind {
            KindView::Command(_) => true,
            KindView::Children(children) => {
                &&& forall|i: int, j: int|
                    0 <= i < j < children.len() ==> (#[trigger] children[i]).key != (
                    #[trigger] children[j]).key
                &&& forall|i: int|
                    0 <= i < children.len() ==> (#[trigger] children[i]).distinct_keys()
            },
        }
    }

    /// A whole tree: the root has the shape of a root and every other node
    /// carries a key.
    pub open spec fn well_formed(self) -> bool {
        &&& self.is_head()
        &&& forall|i: int|
            0 <= i < self.children().len() ==> (#[trigger] self.children()[i]).keyed()
    }
}

/// The position of the first node at or after `from` whose key is `c`.
pub open spec fn first_with_key(nodes: Seq<NodeView>, c: char, from: int) -> Option<int>
    decreases nodes.len() - from,
{
    if from < 0 || from >= nodes.len() {
        None
    } else if nodes[from].key == Some(c) {
        Some(from)
    } else {
        first_with_key(nodes, c, from + 1)
    }
}

/// The node that `path` leads to from `node`, one character per level: at each
/// branch the first child with the next character is taken; a missing child, or
/// a character left over at a command, leads nowhere.
pub open spec fn node_at(node: NodeView, path: Seq<char>) -> Option<NodeView>
    decreases path.len(),
{
    if path.len() == 0 {
        Some(node)
    } else {
        match node.kind {
            KindView::Command(_) => None,
            KindView::Children(children) => match first_with_key(children, path[0], 0) {
                None => None,
                Some(i) => node_at(children[i], path.drop_first()),
            },
        }
    }
}

/// What is left of `s` from position `from` on.
pub open spec fn suffix(s: Seq<char>, from: int) -> Seq<char> {
    if 0 <= from < s.len() {
        s.subrange(from, s.len() as int)
    } else {
        Seq::empty()
    }
}

/// The model of a node found, if any.
pub open spec fn found_view(found: Option<&WhichTreeNode>) -> Option<NodeView> {
    match found {
        Some(node) => Some(node@),
        None => None,
    }
}

/// `first_with_key` finds the first match and nothing else: a position it
/// gives is in range at or after `from`, holds the key, and no position
/// between `from` and it does; where it gives none, no position from `from` on
/// holds the key.
pub proof fn lemma_first_with_key(nodes: Seq<NodeView>, c: char, from: int)
    requires
        0 <= from,
    ensures
        match first_with_key(nodes, c, from) {
            Some(i) => {
                &&& from <= i < nodes.len()
                &&& nodes[i].key == Some(c)
                &&& forall|j: int| from <= j < i ==> (#[trigger] nodes[j]).key != Some(c)
            },
            None => forall|j: int| from <= j < nodes.len() ==> (#[trigger] nodes[j]).key != Some(c),
        },
    decreases nodes.len() - from,
{
    if from < nodes.len() && nodes[from].key != Some(c) {
        lemma_first_with_key(nodes, c, from + 1);
    }
}

/// Whether two keys are the same.
fn same_key(a: &Option<char>, b: &Option<char>) -> (same: bool)
    ensures
        same == (*a == *b),
{
    match (a, b) {
        (Some(x), Some(y)) => *x == *y,
        (None, None) => true,
        _ => false,
    }
}

/// The first child whose key is `c`.
fn find_child(children: &Vec<WhichTreeNode>, c: char) -> (r: Option<usize>)
    ensures
        match r {
            Some(i) => i < children.len() && first_with_key(nodes_view(children@), c, 0) == Some(
                i as int,
            ),
            None => first_with_key(nodes_view(children@), c, 0) is None,
        },
{
    let mut i: usize = 0;
    while i < children.len()
        invariant
            i <= children.len(),
            first_with_key(nodes_view(children@), c, 0) == first_with_key(
                nodes_view(children@),
                c,
                i as int,
            ),
        decreases children.len() - i,
    {
        let hit = match children[i].key {
            Some(k) => k == c,
            None => false,
        };
        if hit {
            return Some(i);
        }
        i += 1;
    }
    None
}

/// Follows the characters of `chars` from position `index` on, starting at
/// `node`: the node they lead to, or `None` where they lead nowhere.
fn search_recursive<'a>(node: &'a WhichTreeNode, chars: &[char], index: usize) -> (r: Option<
    &'a WhichTreeNode,
>)
    ensures
        found_view(r) == node_at(node@, suffix(chars@, index as int)),
    decreases chars.len() - index,
{
    if index >= chars.len() {
        return Some(node);
    }
    let current_char = chars[index];
    proof {
        assert(suffix(chars@, index as int)[0] == current_char);
        assert(suffix(chars@, index as int).drop_first() =~= suffix(chars@, index + 1));
    }
    match &node.kind {
        WhichTreeKind::Children(children) => match find_child(children, current_char) {
            Some(i) => {
                let child = &children[i];
                match &child.kind {
                    WhichTreeKind::Children(_) => search_recursive(child, chars, index + 1),
                    WhichTreeKind::Command(_) => {
                        if index == chars.len() - 1 {
                            Some(child)
                        } else {
                            None
                        }
                    },
                }
            },
            None => None,
        },
        WhichTreeKind::Command(_) => None,
    }
}

/// The characters of `s`, in order.
pub fn chars_of(s: &str) -> (v: Vec<char>)
    ensures
        v@ == s@,
{
    let mut v: Vec<char> = Vec::new();
    for c in it: s.chars()
        invariant
            it.seq() == s@,
            v@ == it.seq().take(it.index() as int),
    {
        v.push(c);
    }
    v
}

/// Finds the node that the characters of `s` lead to from the root `tree`.
///
/// The empty string leads to the root itself. A character that no child of the
/// current branch carries, or one typed after a command was reached, gives
/// `None`.
pub fn search_which_tree<'a>(tree: &'a WhichTreeNode, s: &str) -> (r: Option<&'a WhichTreeNode>)
    requires
        tree@.is_head(),
    ensures
        found_view(r) == node_at(tree@, s@),
{
    if s.is_empty() {
        return Some(tree);
    }
    let chars = chars_of(s);
    proof {
        assert(suffix(chars@, 0) =~= s@);
    }
    search_recursive(tree, chars.as_slice(), 0)
}

impl WhichTreeNode {
    /// Whether this node has the shape of a root.
    pub fn is_head(&self) -> (b: bool)
        ensures
            b == self@.is_head(),
    {
        let menu = match &self.kind {
            WhichTreeKind::Children(_) => true,
            WhichTreeKind::Command(_) => false,
        };
        menu && self.key.is_none()
    }

    /// The key of a node that has one.
    pub fn key_char(&self) -> (c: char)
        requires
            self.key is Some,
        ensures
            self.key == Some(c),
    {
        self.key.unwrap()
    }

    /// Whether this node and every node below it carries a key.
    pub fn is_keyed(&self) -> (b: bool)
        ensures
            b == self@.keyed(),
        decreases self,
    {
        if self.key.is_none() {
            return false;
        }
        match &self.kind {
            WhichTreeKind::Command(_) => true,
            WhichTreeKind::Children(children) => {
                let b = all_keyed(children);
                proof {
                    let below = self@.kind->Children_0;
                    assert(below == nodes_view(children@));
                    if !b {
                        let i = choose|i: int|
                            0 <= i < children.len() && !(#[trigger] nodes_view(children@)[i]).keyed();
                        assert(!below[i].keyed());
                    }
                }
                b
            },
        }
    }

    /// Whether no two children of one branch carry the same key, at this node
    /// and at every node below it.
    #[verifier::loop_isolation(false)]
    pub fn has_distinct_keys(&self) -> (b: bool)
        ensures
            b == self@.distinct_keys(),
        decreases self,
    {
        match &self.kind {
            WhichTreeKind::Command(_) => true,
            WhichTreeKind::Children(children) => {
                let ghost below = self@.kind->Children_0;
                let mut j: usize = 0;
                while j < children.len()
                    invariant
                        j <= children.len(),
                        forall|a: int, b: int|
                            0 <= a < b < j ==> (#[trigger] below[a]).key != (#[trigger] below[b]).key,
                        forall|a: int| 0 <= a < j ==> (#[trigger] below[a]).distinct_keys(),
                    decreases children.len() - j,
                {
                    if !children[j].has_distinct_keys() {
                        assert(!below[j as int].distinct_keys());
                        return false;
                    }
                    let mut i: usize = 0;
                    while i < j
                        invariant
                            i <= j < children.len(),
                            forall|a: int| 0 <= a < i ==> (#[trigger] below[a]).key != below[j as int].key,
                        decreases j - i,
                    {
                        assert(below[i as int] == children@[i as int]@);
                        assert(below[j as int] == children@[j as int]@);
                        if same_key(&children[i].key, &children[j].key) {
                            return false;
                        }
                        i += 1;
                    }
                    j += 1;
                }
                true
            },
        }
    }

    /// Whether this node is the root of a whole tree.
    pub fn is_well_formed(&self) -> (b: bool)
        ensures
            b == self@.well_formed(),
    {
        if self.key.is_some() {
            return false;
        }
        match &self.kind {
            WhichTreeKind::Command(_) => false,
            WhichTreeKind::Children(children) => {
                assert(self@.children() == nodes_view(children@));
                all_keyed(children)
            },
        }
    }
}

/// Whether every node of the list, with all that is below it, carries a key.
fn all_keyed(nodes: &Vec<WhichTreeNode>) -> (b: bool)
    ensures
        b == (forall|i: int| 0 <= i < nodes.len() ==> (#[trigger] nodes_view(nodes@)[i]).keyed()),
    decreases nodes,
{
    let mut i: usize = 0;
    while i < nodes.len()
        invariant
            i <= nodes.len(),
            forall|j: int| 0 <= j < i ==> (#[trigger] nodes_view(nodes@)[j]).keyed(),
        decreases nodes.len() - i,
    {
        if !nodes[i].is_keyed() {
            assert(!nodes_view(nodes@)[i as int].keyed());
            return false;
        }
        i += 1;
    }
    true
}

/// One line of a menu: the key to press and the text shown for it.
#[derive(Clone, Debug, PartialEq, Eq)]
pub struct MenuEntry {
    pub key: char,
    pub label: String,
}

impl View for MenuEntry {
    /// The pair of the key and the characters of the label.
    type V = (char, Seq<char>);

    open spec fn view(&self) -> (char, Seq<char>) {
        (self.key, self.label@)
    }
}

/// The outcome of resolving what was typed so far against a tree.
#[derive(Clone, Debug, PartialEq, Eq)]
pub enum Resolution {
    /// A branch was reached: its children, in order, are the next choices.
    Menu(Vec<MenuEntry>),
    /// A command was reached.
    Command(String),
    /// What was typed leads nowhere.
    NoMatch,
}

/// Model of a [`Resolution`].
pub enum ResolutionView {
    Menu(Seq<(char, Seq<char>)>),
    Command(Seq<char>),
    NoMatch,
}

impl View for Resolution {
    type V = ResolutionView;

    open spec fn view(&self) -> ResolutionView {
        match self {
            Resolution::Menu(entries) => ResolutionView::Menu(
                entries@.map_values(|e: MenuEntry| e@),
            ),
            Resolution::Command(command) => ResolutionView::Command(command@),
            Resolution::NoMatch => ResolutionView::NoMatch,
        }
    }
}

/// The menu over `children`: one entry per child, in order, with the child's
/// key and label.
pub open spec fn menu_of(children: Seq<NodeView>) -> Seq<(char, Seq<char>)> {
    Seq::new(children.len(), |i: int| (children[i].key->0, children[i].label))
}

/// The resolution that a found node, or none, stands for.
pub open spec fn resolution_of(found: Option<NodeView>) -> ResolutionView {
    match found {
        None => ResolutionView::NoMatch,
        Some(node) => match node.kind {
            KindView::Command(command) => ResolutionView::Command(command),
            KindView::Children(children) => ResolutionView::Menu(menu_of(children)),
        },
    }
}

/// The resolution of `buffer` against the tree under `root`.
pub open spec fn resolve_spec(root: NodeView, buffer: Seq<char>) -> ResolutionView {
    resolution_of(node_at(root, buffer))
}

/// Every child of `node` is keyed, with all that is below it.
pub open spec fn children_keyed(node: NodeView) -> bool {
    forall|i: int| 0 <= i < node.children().len() ==> (#[trigger] node.children()[i]).keyed()
}

/// Below a node whose children are all keyed, every node that a path leads to
/// has keyed children too.
pub proof fn lemma_node_at_children_keyed(node: NodeView, path: Seq<char>)
    requires
        children_keyed(node),
    ensures
        node_at(node, path) matches Some(found) ==> children_keyed(found),
    decreases path.len(),
{
    if path.len() > 0 {
        match node.kind {
            KindView::Command(_) => {},
            KindView::Children(children) => {
                lemma_first_with_key(children, path[0], 0);
                match first_with_key(children, path[0], 0) {
                    None => {},
                    Some(i) => {
                        assert(node.children()[i].keyed());
                        lemma_node_at_children_keyed(children[i], path.drop_first());
                    },
                }
            },
        }
    }
}

/// The menu entries for `children`.
fn menu_entries(children: &Vec<WhichTreeNode>) -> (entries: Vec<MenuEntry>)
    requires
        forall|i: int| 0 <= i < children.len() ==> (#[trigger] nodes_view(children@)[i]).key is Some,
    ensures
        entries@.map_values(|e: MenuEntry| e@) == menu_of(nodes_view(children@)),
{
    let mut entries: Vec<MenuEntry> = Vec::new();
    let mut i: usize = 0;
    while i < children.len()
        invariant
            i <= children.len(),
            entries.len() == i,
            forall|j: int|
                0 <= j < children.len() ==> (#[trigger] nodes_view(children@)[j]).key is Some,
            forall|j: int|
                0 <= j < i ==> (#[trigger] entries@[j])@ == menu_of(nodes_view(children@))[j],
        decreases children.len() - i,
    {
        let child = &children[i];
        assert(nodes_view(children@)[i as int] == child@);
        entries.push(MenuEntry { key: child.key_char(), label: child.label.clone() });
        i += 1;
    }
    assert(entries@.map_values(|e: MenuEntry| e@) =~= menu_of(nodes_view(children@)));
    entries
}

/// Resolves what was typed so far against the tree under `root`: the menu of
/// the branch it leads to, the command of the leaf it leads to, or no match.
pub fn resolve(root: &WhichTreeNode, buffer: &str) -> (r: Resolution)
    requires
        root@.well_formed(),
    ensures
        r@ == resolve_spec(root@, buffer@),
{
    match search_which_tree(root, buffer) {
        None => Resolution::NoMatch,
        Some(node) => match &node.kind {
            WhichTreeKind::Command(command) => Resolution::Command(command.clone()),
            WhichTreeKind::Children(children) => {
                proof {
                    lemma_node_at_children_keyed(root@, buffer@);
                    assert forall|i: int| 0 <= i < children.len() implies (#[trigger] nodes_view(
                        children@,
                    )[i]).key is Some by {
                        assert(node@.children()[i].keyed());
                    }
                }
                Resolution::Menu(menu_entries(children))
            },
        },
    }
}

impl Clone for WhichTreeNode {
    /// A copy with the same model.
    fn clone(&self) -> (res: Self)
        ensures
            res@ == self@,
        decreases self,
    {
        WhichTreeNode { key: self.key, label: self.label.clone(), kind: self.kind.clone() }
    }
}

impl Clone for WhichTreeKind {
    /// A copy with the same model.
    #[verifier::loop_isolation(false)]
    fn clone(&self) -> (res: Self)
        ensures
            res@ == self@,
        decreases self,
    {
        match self {
            WhichTreeKind::Command(command) => WhichTreeKind::Command(command.clone()),
            WhichTreeKind::Children(children) => {
                let mut copies: Vec<WhichTreeNode> = Vec::new();
                let mut i: usize = 0;
                while i < children.len()
                    invariant
                        i <= children.len(),
                        copies.len() == i,
                        forall|j: int| 0 <= j < i ==> (#[trigger] copies@[j])@ == children@[j]@,
                    decreases children.len() - i,
                {
                    copies.push(children[i].clone());
                    i += 1;
                }
                assert(nodes_view(copies@) =~= nodes_view(children@));
                WhichTreeKind::Children(copies)
            },
        }
    }
}

} // verus!
