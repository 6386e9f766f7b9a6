//! The state of one session at the menu and what each key does to it.

use crate::paths::{lemma_node_at_concat, lemma_unknown_key_resolves_to_no_match};
use crate::whichtree::{
    node_at, resolve, resolve_spec, MenuEntry, NodeView, Resolution, ResolutionView, WhichTreeNode,
};
use vstd::prelude::*;

verus! {

/// A key as the session sees it.
#[derive(Clone, Copy, Debug, PartialEq, Eq)]
pub enum KeyInput {
    /// Leave without running anything.
    Escape,
    /// Take back the last character.
    Backspace,
    /// One typed character, with its case already settled.
    Character(char),
    /// Any other key.
    Other,
}

/// What is to be done after a key was handled.
#[derive(Clone, Debug, PartialEq, Eq)]
pub enum Effect {
    /// Show the menu again and wait for the next key.
    Continue,
    /// End the session.
    Exit,
    /// Launch this command, then end the session.
    Run(String),
}

/// Model of an [`Effect`].
pub enum EffectView {
    Continue,
    Exit,
    Run(Seq<char>),
}

impl View for Effect {
    type V = EffectView;

    open spec fn view(&self) -> EffectView {
        match self {
            Effect::Continue => EffectView::Continue,
            Effect::Exit => EffectView::Exit,
            Effect::Run(command) => EffectView::Run(command@),
        }
    }
}

/// What a key does: the buffer after it and the effect, given the tree and the
/// buffer before it.
///
/// A character is kept where the longer buffer resolves to a menu or to a
/// command, and in the second case the command is to be run; where the longer
/// buffer resolves to nothing the buffer stays as it was. Leaving changes
/// nothing of the buffer.
pub open spec fn step(tree: NodeView, buffer: Seq<char>, key: KeyInput) -> (Seq<char>, EffectView) {
    match key {
        KeyInput::Escape => (buffer, EffectView::Exit),
        KeyInput::Backspace => (
            if buffer.len() > 0 {
                buffer.drop_last()
            } else {
                buffer
            },
            EffectView::Continue,
        ),
        KeyInput::Character(c) => match resolve_spec(tree, buffer.push(c)) {
            ResolutionView::NoMatch => (buffer, EffectView::Continue),
            ResolutionView::Menu(_) => (buffer.push(c), EffectView::Continue),
            ResolutionView::Command(command) => (buffer.push(c), EffectView::Run(command)),
        },
        KeyInput::Other => (buffer, EffectView::Continue),
    }
}

/// The tree is whole and the buffer leads somewhere in it: to a menu, or to
/// the command that was just asked for.
pub open spec fn resolvable(tree: NodeView, buffer: Seq<char>) -> bool {
    tree.well_formed() && !(resolve_spec(tree, buffer) is NoMatch)
}

/// No key leaves the buffer where it leads nowhere.
pub proof fn lemma_step_stays_resolvable(tree: NodeView, buffer: Seq<char>, key: KeyInput)
    requires
        resolvable(tree, buffer),
    ensures
        resolvable(tree, step(tree, buffer, key).0),
{
    if key is Backspace && buffer.len() > 0 {
        lemma_node_at_concat(tree, buffer.drop_last(), seq![buffer.last()]);
        assert(buffer.drop_last() + seq![buffer.last()] =~= buffer);
    }
}

/// A key changes the buffer by one character at most: the buffer stays as it
/// was, or gains the character typed, or loses its last character.
pub proof fn lemma_step_changes_one_character(tree: NodeView, buffer: Seq<char>, key: KeyInput)
    ensures
        ({
            let after = step(tree, buffer, key).0;
            ||| after == buffer
            ||| (key matches KeyInput::Character(c) && after == buffer.push(c))
            ||| (key is Backspace && buffer.len() > 0 && after == buffer.drop_last())
        }),
{
}

/// After a command was reached nothing more can be typed: every further
/// character is absorbed, and taking back the last character leads to the menu
/// that the command was chosen from.
pub proof fn lemma_step_after_command(tree: NodeView, buffer: Seq<char>, c: char)
    requires
        tree.is_head(),
        resolve_spec(tree, buffer) is Command,
    ensures
        step(tree, buffer, KeyInput::Character(c)) == (buffer, EffectView::Continue),
        resolve_spec(tree, step(tree, buffer, KeyInput::Backspace).0) is Menu,
{
    lemma_node_at_concat(tree, buffer, seq![c]);
    assert(buffer + seq![c] =~= buffer.push(c));
    if buffer.len() > 0 {
        lemma_node_at_concat(tree, buffer.drop_last(), seq![buffer.last()]);
        assert(buffer.drop_last() + seq![buffer.last()] =~= buffer);
    }
}

/// The menu shown for a buffer: the choices that follow it where it leads to a
/// branch, and nothing where it leads to a command or nowhere.
pub open spec fn menu_shown(tree: NodeView, buffer: Seq<char>) -> Seq<(char, Seq<char>)> {
    match resolve_spec(tree, buffer) {
        ResolutionView::Menu(menu) => menu,
        _ => Seq::empty(),
    }
}

/// A character that no child of the current branch carries is absorbed: the
/// buffer stays as it was and the session goes on.
pub proof fn lemma_unknown_key_is_absorbed(tree: NodeView, buffer: Seq<char>, x: char)
    requires
        node_at(tree, buffer) matches Some(current) && forall|i: int|
            0 <= i < current.children().len() ==> (#[trigger] current.children()[i]).key != Some(x),
    ensures
        step(tree, buffer, KeyInput::Character(x)) == (buffer, EffectView::Continue),
{
    lemma_unknown_key_resolves_to_no_match(tree, buffer, x);
}

/// A session: the tree of bindings and what was typed so far.
pub struct Modali {
    buffer: String,
    whichtree: WhichTreeNode,
}

impl Modali {
    /// What was typed always leads somewhere in the tree.
    #[verifier::type_invariant]
    spec fn inv(self) -> bool {
        resolvable(self.whichtree@, self.buffer@)
    }

    /// What was typed so far.
    pub closed spec fn typed(self) -> Seq<char> {
        self.buffer@
    }

    /// The tree of bindings.
    pub closed spec fn tree(self) -> NodeView {
        self.whichtree@
    }

    /// A session over `whichtree` with nothing typed yet.
    pub fn new(whichtree: WhichTreeNode) -> (state: Modali)
        requires
            whichtree@.well_formed(),
        ensures
            state.tree() == whichtree@,
            state.typed() == Seq::<char>::empty(),
            resolvable(state.tree(), state.typed()),
    {
        Modali { buffer: String::new(), whichtree }
    }

    /// What was typed so far.
    pub fn buffer(&self) -> (s: &str)
        ensures
            s@ == self.typed(),
    {
        self.buffer.as_str()
    }

    /// The tree of bindings.
    pub fn whichtree(&self) -> (tree: &WhichTreeNode)
        ensures
            tree@ == self.tree(),
    {
        &self.whichtree
    }

    /// The menu to show: the choices that follow what was typed so far, and
    /// none once a command was reached.
    pub fn menu(&self) -> (entries: Vec<MenuEntry>)
        ensures
            resolvable(self.tree(), self.typed()),
            entries@.map_values(|e: MenuEntry| e@) == menu_shown(self.tree(), self.typed()),
    {
        proof {
            use_type_invariant(self);
        }
        match resolve(&self.whichtree, self.buffer.as_str()) {
            Resolution::Menu(entries) => entries,
            _ => {
                let entries: Vec<MenuEntry> = Vec::new();
                assert(entries@.map_values(|e: MenuEntry| e@) =~= Seq::empty());
                entries
            },
        }
    }
}

/// Handles one key: changes the buffer as the key asks and says what is to be
/// done next. The tree stays as it is, and what was typed led and leads
/// somewhere in it.
pub fn handle_keyboard_input(state: &mut Modali, key: KeyInput) -> (effect: Effect)
    ensures
        final(state).tree() == old(state).tree(),
        (final(state).typed(), effect@) == step(old(state).tree(), old(state).typed(), key),
        resolvable(old(state).tree(), old(state).typed()),
        resolvable(final(state).tree(), final(state).typed()),
{
    proof {
        use_type_invariant(&*state);
        lemma_step_stays_resolvable(state.whichtree@, state.buffer@, key);
    }
    match key {
        KeyInput::Escape => Effect::Exit,
        KeyInput::Backspace => {
            let mut shorter = state.buffer.clone();
            shorter.pop();
            state.buffer = shorter;
            Effect::Continue
        },
        KeyInput::Character(c) => {
            let mut candidate = state.buffer.clone();
            candidate.push(c);
            match resolve(&state.whichtree, candidate.as_str()) {
                Resolution::NoMatch => Effect::Continue,
                Resolution::Menu(_) => {
                    state.buffer = candidate;
                    Effect::Continue
                },
                Resolution::Command(command) => {
                    state.buffer = candidate;
                    Effect::Run(command)
                },
            }
        },
        KeyInput::Other => Effect::Continue,
    }
}

/// The labels of a menu laid out in three columns.
#[derive(Clone, Debug, PartialEq, Eq)]
pub struct Columns {
    pub left: Vec<String>,
    pub middle: Vec<String>,
    pub right: Vec<String>,
}

/// The labels of a menu, in order.
pub open spec fn labels_of(menu: Seq<(char, Seq<char>)>) -> Seq<Seq<char>> {
    Seq::new(menu.len(), |i: int| menu[i].1)
}

/// The labels that stand in column `c` of three, top down: those at the
/// positions `c`, `c + 3`, `c + 6` and so on.
pub open spec fn column(labels: Seq<Seq<char>>, c: int) -> Seq<Seq<char>> {
    Seq::new(((labels.len() + 2 - c) / 3) as nat, |k: int| labels[3 * k + c])
}

/// The texts of a list of strings, in order.
pub open spec fn texts(strings: Seq<String>) -> Seq<Seq<char>> {
    strings.map_values(|s: String| s@)
}

/// Deals the labels of a menu into three columns, row by row: the first label
/// goes to the left column, the second to the middle, the third to the right,
/// the fourth to the left again.
pub fn menu_columns(entries: &Vec<MenuEntry>) -> (columns: Columns)
    ensures
        texts(columns.left@) == column(labels_of(entries@.map_values(|e: MenuEntry| e@)), 0),
        texts(columns.middle@) == column(labels_of(entries@.map_values(|e: MenuEntry| e@)), 1),
        texts(columns.right@) == column(labels_of(entries@.map_values(|e: MenuEntry| e@)), 2),
{
    let ghost labels = labels_of(entries@.map_values(|e: MenuEntry| e@));
    let mut left: Vec<String> = Vec::new();
    let mut middle: Vec<String> = Vec::new();
    let mut right: Vec<String> = Vec::new();
    let mut i: usize = 0;
    while i < entries.len()
        invariant
            i <= entries.len(),
            labels == labels_of(entries@.map_values(|e: MenuEntry| e@)),
            texts(left@) == column(labels.take(i as int), 0),
            texts(middle@) == column(labels.take(i as int), 1),
            texts(right@) == column(labels.take(i as int), 2),
        decreases entries.len() - i,
    {
        let label = entries[i].label.clone();
        proof {
            let before = labels.take(i as int);
            let after = labels.take(i + 1);
            assert(label@ == labels[i as int]);
            assert(column(after, 0) =~= if i % 3 == 0 {
                column(before, 0).push(label@)
            } else {
                column(before, 0)
            });
            assert(column(after, 1) =~= if i % 3 == 1 {
                column(before, 1).push(label@)
            } else {
                column(before, 1)
            });
            assert(column(after, 2) =~= if i % 3 == 2 {
                column(before, 2).push(label@)
            } else {
                column(before, 2)
            });
        }
        let ghost old_left = left@;
        let ghost old_middle = middle@;
        let ghost old_right = right@;
        if i % 3 == 0 {
            left.push(label);
            assert(texts(left@) =~= texts(old_left).push(label@));
        } else if i % 3 == 1 {
            middle.push(label);
            assert(texts(middle@) =~= texts(old_middle).push(label@));
        } else {
            right.push(label);
            assert(texts(right@) =~= texts(old_right).push(label@));
        }
        i += 1;
    }
    proof {
        assert(labels.take(entries.len() as int) =~= labels);
    }
    Columns { left, middle, right }
}

} // verus!
