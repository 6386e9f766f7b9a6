//! The configured bindings and the construction of the tree from them.

use crate::whichtree::{nodes_view, KindView, NodeView, WhichTreeKind, WhichTreeNode};
use vstd::prelude::*;

verus! {

/// One configured binding: a group of further bindings, or a command.
///
/// `key` is meant to hold exactly one character.
#[derive(Debug, PartialEq, Eq)]
pub enum Action {
    SubAction { key: String, description: String, sub_actions: Vec<Action> },
    KeyAction { key: String, description: String, command: String },
}

/// Model of a configured binding.
pub enum ActionView {
    SubAction { key: Seq<char>, description: Seq<char>, sub_actions: Seq<ActionView> },
    KeyAction { key: Seq<char>, description: Seq<char>, command: Seq<char> },
}

/// The model of a binding, by recursion over its groups.
pub open spec fn action_view(action: Action) -> ActionView
    decreases action,
{
    match action {
        Action::SubAction { key, description, sub_actions } => ActionView::SubAction {
            key: key@,
            description: description@,
            sub_actions: actions_view(sub_actions@),
        },
        Action::KeyAction { key, description, command } => ActionView::KeyAction {
            key: key@,
            description: description@,
            command: command@,
        },
    }
}

/// The models of a list of bindings, in the same order.
pub open spec fn actions_view(actions: Seq<Action>) -> Seq<ActionView>
    decreases actions,
{
    Seq::new(
        actions.len(),
        |i: int|
            if 0 <= i < actions.len() {
                action_view(actions[i])
            } else {
                arbitrary()
            },
    )
}

impl View for Action {
    type V = ActionView;

    open spec fn view(&self) -> ActionView {
        action_view(*self)
    }
}

/// The text shown for a binding: its key, a colon and a space, its description.
pub open spec fn label_of(key: Seq<char>, description: Seq<char>) -> Seq<char> {
    key + seq![':', ' '] + description
}

impl ActionView {
    pub open spec fn key(self) -> Seq<char> {
        match self {
            ActionView::SubAction { key, .. } => key,
            ActionView::KeyAction { key, .. } => key,
        }
    }

    pub open spec fn description(self) -> Seq<char> {
        match self {
            ActionView::SubAction { description, .. } => description,
            ActionView::KeyAction { description, .. } => description,
        }
    }

    /// The text shown for this binding.
    pub open spec fn label(self) -> Seq<char> {
        label_of(self.key(), self.description())
    }

    /// The key of this binding, and of every binding below it, is exactly one
    /// character.
    pub open spec fn valid(self) -> bool
        decreases self,
    {
        &&& self.key().len() == 1
        &&& match self {
            ActionView::SubAction { sub_actions, .. } => forall|i: int|
                0 <= i < sub_actions.len() ==> (#[trigger] sub_actions[i]).valid(),
            ActionView::KeyAction { .. } => true,
        }
    }

    /// The node that stands for this binding in the tree.
    pub open spec fn node(self) -> NodeView
        decreases self,
    {
        NodeView {
            key: Some(self.key()[0]),
            label: self.label(),
            kind: match self {
                ActionView::SubAction { sub_actions, .. } => KindView::Children(
                    nodes_of(sub_actions),
                ),
                ActionView::KeyAction { command, .. } => KindView::Command(command),
            },
        }
    }

    /// The label of the first binding, in the order of the configuration, whose
    /// key is not exactly one character: this binding itself, or else the first
    /// such binding below it.
    pub open spec fn first_invalid(self) -> Option<Seq<char>>
        decreases self, 0int,
    {
        if self.key().len() != 1 {
            Some(self.label())
        } else {
            match self {
                ActionView::SubAction { sub_actions, .. } => first_invalid_in(sub_actions, 0),
                ActionView::KeyAction { .. } => None,
            }
        }
    }
}

/// The nodes that stand for a list of bindings, in the same order.
pub open spec fn nodes_of(actions: Seq<ActionView>) -> Seq<NodeView>
    decreases actions,
{
    Seq::new(
        actions.len(),
        |i: int|
            if 0 <= i < actions.len() {
                actions[i].node()
            } else {
                arbitrary()
            },
    )
}

/// Every binding of the list is valid.
pub open spec fn all_valid(actions: Seq<ActionView>) -> bool {
    forall|i: int| 0 <= i < actions.len() ==> (#[trigger] actions[i]).valid()
}

/// The label of the first offending binding among those at or after `from`,
/// each taken with all that is below it before the next.
pub open spec fn first_invalid_in(actions: Seq<ActionView>, from: int) -> Option<Seq<char>>
    decreases actions, actions.len() - from,
{
    if from < 0 || from >= actions.len() {
        None
    } else {
        match actions[from].first_invalid() {
            Some(label) => Some(label),
            None => first_invalid_in(actions, from + 1),
        }
    }
}

/// The tree built from a list of bindings: a root without key or label over
/// the nodes of the bindings.
pub open spec fn tree_of(actions: Seq<ActionView>) -> NodeView {
    NodeView { key: None, label: Seq::empty(), kind: KindView::Children(nodes_of(actions)) }
}

/// A configured key that is not exactly one character.
#[derive(Clone, Debug, PartialEq, Eq)]
pub struct ValidationError {
    /// The label of the offending binding.
    pub label: String,
}

impl ValidationError {
    /// The message for this error: what is wrong, and the label of the
    /// binding.
    pub fn message(&self) -> (text: String)
        ensures
            text@ == "This key is not a single char: "@ + self.label@,
    {
        let mut text = String::from_str("This key is not a single char: ");
        text.append(self.label.as_str());
        text
    }
}

/// Valid bindings are those without an offending one, and conversely.
pub proof fn lemma_first_invalid(action: ActionView)
    ensures
        action.first_invalid() is None <==> action.valid(),
    decreases action, 0int,
{
    match action {
        ActionView::SubAction { sub_actions, .. } => {
            lemma_first_invalid_in(sub_actions, 0);
        },
        ActionView::KeyAction { .. } => {},
    }
}

/// A list has no offending binding from `from` on exactly when every binding
/// from `from` on is valid.
pub proof fn lemma_first_invalid_in(actions: Seq<ActionView>, from: int)
    requires
        0 <= from,
    ensures
        first_invalid_in(actions, from) is None <==> forall|i: int|
            from <= i < actions.len() ==> (#[trigger] actions[i]).valid(),
    decreases actions, actions.len() - from,
{
    if from < actions.len() {
        lemma_first_invalid(actions[from]);
        lemma_first_invalid_in(actions, from + 1);
        if first_invalid_in(actions, from) is None {
            assert forall|i: int| from <= i < actions.len() implies (#[trigger] actions[i]).valid() by {
                if i > from {
                }
            }
        }
    }
}

/// The one character of `s`, if `s` is exactly one character.
pub fn parse_char(s: &str) -> (r: Option<char>)
    ensures
        r == if s@.len() == 1 {
            Some(s@[0])
        } else {
            None::<char>
        },
{
    if s.unicode_len() != 1 {
        None
    } else {
        Some(s.get_char(0))
    }
}

/// The text shown for a binding with this key and description.
fn make_label(key: &str, description: &str) -> (label: String)
    ensures
        label@ == label_of(key@, description@),
{
    let mut label = String::from_str(key);
    label.append(": ");
    label.append(description);
    proof {
        reveal_strlit(": ");
        assert(": "@ =~= seq![':', ' ']);
    }
    label
}

impl Action {
    /// Builds the node for this binding, with the nodes of all bindings below
    /// it, or reports the first binding whose key is not exactly one character.
    #[verifier::loop_isolation(false)]
    pub fn to_tree_node(&self) -> (r: Result<WhichTreeNode, ValidationError>)
        ensures
            r is Ok <==> self@.valid(),
            match r {
                Ok(node) => node@ == self@.node(),
                Err(e) => self@.first_invalid() == Some(e.label@),
            },
        decreases self,
    {
        proof {
            lemma_first_invalid(self@);
        }
        match self {
            Action::SubAction { key, description, sub_actions } => {
                let label = make_label(key.as_str(), description.as_str());
                let key_char = match parse_char(key.as_str()) {
                    Some(c) => c,
                    None => {
                        return Err(ValidationError { label });
                    },
                };
                let ghost below = actions_view(sub_actions@);
                let mut children: Vec<WhichTreeNode> = Vec::new();
                let mut i: usize = 0;
                while i < sub_actions.len()
                    invariant
                        i <= sub_actions.len(),
                        children.len() == i,
                        first_invalid_in(below, 0) == first_invalid_in(below, i as int),
                        forall|j: int| 0 <= j < i ==> (#[trigger] children@[j])@ == below[j].node(),
                    decreases sub_actions.len() - i,
                {
                    match sub_actions[i].to_tree_node() {
                        Ok(child) => {
                            proof {
                                lemma_first_invalid(below[i as int]);
                            }
                            children.push(child);
                        },
                        Err(e) => {
                            return Err(e);
                        },
                    }
                    i += 1;
                }
                proof {
                    assert(nodes_view(children@) =~= nodes_of(below));
                }
                Ok(WhichTreeNode { key: Some(key_char), label, kind: WhichTreeKind::Children(children) })
            },
            Action::KeyAction { key, description, command } => {
                let label = make_label(key.as_str(), description.as_str());
                match parse_char(key.as_str()) {
                    Some(c) => Ok(
                        WhichTreeNode {
                            key: Some(c),
                            label,
                            kind: WhichTreeKind::Command(command.clone()),
                        },
                    ),
                    None => Err(ValidationError { label }),
                }
            },
        }
    }
}

/// Builds the tree for a list of bindings: a root without key or label over
/// the nodes of the bindings, in their order. Where a key is not exactly one
/// character no tree is built, and the first such binding is reported.
pub fn actions_to_tree(actions: &[Action]) -> (r: Result<WhichTreeNode, ValidationError>)
    ensures
        r is Ok <==> all_valid(actions_view(actions@)),
        match r {
            Ok(tree) => tree@ == tree_of(actions_view(actions@)) && tree@.well_formed(),
            Err(e) => first_invalid_in(actions_view(actions@), 0) == Some(e.label@),
        },
{
    let ghost config = actions_view(actions@);
    proof {
        lemma_first_invalid_in(config, 0);
    }
    let mut children: Vec<WhichTreeNode> = Vec::new();
    let mut i: usize = 0;
    while i < actions.len()
        invariant
            i <= actions.len(),
            children.len() == i,
            config == actions_view(actions@),
            first_invalid_in(config, 0) == first_invalid_in(config, i as int),
            forall|j: int| 0 <= j < i ==> (#[trigger] children@[j])@ == config[j].node(),
        decreases actions.len() - i,
    {
        match actions[i].to_tree_node() {
            Ok(child) => {
                proof {
                    lemma_first_invalid(config[i as int]);
                }
                children.push(child);
            },
            Err(e) => {
                return Err(e);
            },
        }
        i += 1;
    }
    proof {
        assert(nodes_view(children@) =~= nodes_of(config));
        lemma_tree_of_well_formed(config);
    }
    Ok(WhichTreeNode { key: None, label: String::new(), kind: WhichTreeKind::Children(children) })
}

/// The node of a valid binding carries a key, and so does every node below it.
pub proof fn lemma_node_keyed(action: ActionView)
    requires
        action.valid(),
    ensures
        action.node().keyed(),
    decreases action,
{
    match action {
        ActionView::SubAction { sub_actions, .. } => {
            let below = action.node().kind->Children_0;
            assert(below == nodes_of(sub_actions));
            assert forall|i: int| 0 <= i < below.len() implies (#[trigger] below[i]).keyed() by {
                lemma_node_keyed(sub_actions[i]);
            }
        },
        ActionView::KeyAction { .. } => {},
    }
}

/// The tree built from valid bindings is a whole tree: its root has no key and
/// is a branch, and every other node carries a key.
pub proof fn lemma_tree_of_well_formed(actions: Seq<ActionView>)
    requires
        all_valid(actions),
    ensures
        tree_of(actions).key is None,
        tree_of(actions).kind is Children,
        tree_of(actions).well_formed(),
{
    let tree = tree_of(actions);
    assert forall|i: int| 0 <= i < tree.children().len() implies (#[trigger] tree.children()[i]).keyed() by {
        lemma_node_keyed(actions[i]);
    }
}

/// A configured binding as the tagged form of the configuration writes it. It
/// holds what an [`Action`] holds.
#[derive(Debug, PartialEq, Eq)]
pub enum TypedAction {
    SubAction { key: String, description: String, sub_actions: Vec<TypedAction> },
    KeyAction { key: String, description: String, command: String },
}

/// The model of a tagged binding.
pub open spec fn typed_view(typed: TypedAction) -> ActionView
    decreases typed,
{
    match typed {
        TypedAction::SubAction { key, description, sub_actions } => ActionView::SubAction {
            key: key@,
            description: description@,
            sub_actions: typed_list_view(sub_actions@),
        },
        TypedAction::KeyAction { key, description, command } => ActionView::KeyAction {
            key: key@,
            description: description@,
            command: command@,
        },
    }
}

/// The models of a list of tagged bindings, in the same order.
pub open spec fn typed_list_view(typed: Seq<TypedAction>) -> Seq<ActionView>
    decreases typed,
{
    Seq::new(
        typed.len(),
        |i: int|
            if 0 <= i < typed.len() {
                typed_view(typed[i])
            } else {
                arbitrary()
            },
    )
}

impl View for TypedAction {
    type V = ActionView;

    open spec fn view(&self) -> ActionView {
        typed_view(*self)
    }
}

impl TypedAction {
    /// The binding that this tagged binding writes down: the same keys,
    /// descriptions and commands, in the same order, at every level.
    #[verifier::loop_isolation(false)]
    pub fn into_action(self) -> (action: Action)
        ensures
            action@ == self@,
        decreases self,
    {
        match self {
            TypedAction::SubAction { key, description, sub_actions } => {
                let ghost below = typed_list_view(sub_actions@);
                let mut converted: Vec<Action> = Vec::new();
                for typed in it: sub_actions
                    invariant
                        it.seq() == sub_actions@,
                        converted.len() == it.index(),
                        forall|j: int|
                            0 <= j < it.index() ==> (#[trigger] converted@[j])@ == below[j],
                {
                    converted.push(typed.into_action());
                }
                proof {
                    assert(actions_view(converted@) =~= below);
                }
                Action::SubAction { key, description, sub_actions: converted }
            },
            TypedAction::KeyAction { key, description, command } => Action::KeyAction {
                key,
                description,
                command,
            },
        }
    }
}

impl From<TypedAction> for Action {
    /// The binding that the tagged binding writes down.
    fn from(typed: TypedAction) -> (action: Action)
        ensures
            action@ == typed@,
    {
        typed.into_action()
    }
}

impl vstd::std_specs::convert::FromSpecImpl<TypedAction> for Action {
    /// The conversion is stated over models, in the contract of `from`, and
    /// not as an equation between values.
    open spec fn obeys_from_spec() -> bool {
        false
    }

    open spec fn from_spec(typed: TypedAction) -> Action {
        arbitrary()
    }
}

/// Converts a list of tagged bindings, keeping their order.
pub fn actions_from_typed(typed: Vec<TypedAction>) -> (actions: Vec<Action>)
    ensures
        actions_view(actions@) == typed_list_view(typed@),
{
    let ghost config = typed_list_view(typed@);
    let mut actions: Vec<Action> = Vec::new();
    for item in it: typed
        invariant
            it.seq() == typed@,
            config == typed_list_view(typed@),
            actions.len() == it.index(),
            forall|j: int| 0 <= j < it.index() ==> (#[trigger] actions@[j])@ == config[j],
    {
        actions.push(item.into_action());
    }
    proof {
        assert(actions_view(actions@) =~= config);
    }
    actions
}

/// The tree depends on nothing but what the bindings hold: two lists with the
/// same model are accepted or refused alike, give the same tree where they are
/// accepted, and name the same binding where they are refused.
pub proof fn lemma_build_is_deterministic(first: Seq<Action>, second: Seq<Action>)
    requires
        actions_view(first) == actions_view(second),
    ensures
        all_valid(actions_view(first)) == all_valid(actions_view(second)),
        tree_of(actions_view(first)) == tree_of(actions_view(second)),
        first_invalid_in(actions_view(first), 0) == first_invalid_in(actions_view(second), 0),
{
}

} // verus!
