use modali::parser::{actions_to_tree, Action};
use modali::whichtree::{
    chars_of, resolve, search_which_tree, MenuEntry, Resolution, WhichTreeKind, WhichTreeNode,
};

fn leaf(key: &str, description: &str, command: &str) -> Action {
    Action::KeyAction {
        key: key.to_string(),
        description: description.to_string(),
        command: command.to_string(),
    }
}

fn branch(key: &str, description: &str, sub_actions: Vec<Action>) -> Action {
    Action::SubAction { key: key.to_string(), description: description.to_string(), sub_actions }
}

fn tree() -> WhichTreeNode {
    actions_to_tree(&[
        branch(
            "a",
            "apps",
            vec![
                leaf("f", "firefox", "firefox"),
                branch("t", "terms", vec![leaf("k", "kitty", "kitty -1"), leaf("F", "foot", "foot")]),
            ],
        ),
        leaf("q", "quit", "pkill modali"),
        branch("e", "empty", vec![]),
    ])
    .unwrap()
}

fn entry(key: char, label: &str) -> MenuEntry {
    MenuEntry { key, label: label.to_string() }
}

#[test]
fn empty_buffer_finds_the_root() {
    let root = tree();
    let found = search_which_tree(&root, "").unwrap();
    assert_eq!(found, &root);
}

#[test]
fn empty_buffer_shows_top_level_menu() {
    assert_eq!(
        resolve(&tree(), ""),
        Resolution::Menu(vec![entry('a', "a: apps"), entry('q', "q: quit"), entry('e', "e: empty")])
    );
}

#[test]
fn top_level_menu_ignores_what_lies_deeper() {
    let shallow = actions_to_tree(&[
        branch("a", "apps", vec![]),
        leaf("q", "quit", "other"),
        branch("e", "empty", vec![leaf("x", "x", "x")]),
    ])
    .unwrap();
    assert_eq!(resolve(&shallow, ""), resolve(&tree(), ""));
}

#[test]
fn path_into_branch_shows_its_children() {
    assert_eq!(
        resolve(&tree(), "a"),
        Resolution::Menu(vec![entry('f', "f: firefox"), entry('t', "t: terms")])
    );
    assert_eq!(
        resolve(&tree(), "at"),
        Resolution::Menu(vec![entry('k', "k: kitty"), entry('F', "F: foot")])
    );
    assert_eq!(resolve(&tree(), "e"), Resolution::Menu(vec![]));
}

#[test]
fn path_to_leaf_gives_its_command() {
    assert_eq!(resolve(&tree(), "q"), Resolution::Command("pkill modali".to_string()));
    assert_eq!(resolve(&tree(), "af"), Resolution::Command("firefox".to_string()));
    assert_eq!(resolve(&tree(), "atk"), Resolution::Command("kitty -1".to_string()));
    assert_eq!(resolve(&tree(), "atF"), Resolution::Command("foot".to_string()));
}

#[test]
fn anything_after_a_leaf_is_no_match() {
    assert_eq!(resolve(&tree(), "qq"), Resolution::NoMatch);
    assert_eq!(resolve(&tree(), "afa"), Resolution::NoMatch);
    assert_eq!(resolve(&tree(), "atkatk"), Resolution::NoMatch);
}

#[test]
fn unknown_key_is_no_match_and_the_rest_is_not_read() {
    assert_eq!(resolve(&tree(), "x"), Resolution::NoMatch);
    assert_eq!(resolve(&tree(), "ax"), Resolution::NoMatch);
    assert_eq!(resolve(&tree(), "xaf"), Resolution::NoMatch);
    assert_eq!(resolve(&tree(), "ex"), Resolution::NoMatch);
}

#[test]
fn keys_match_by_exact_character() {
    assert_eq!(resolve(&tree(), "atf"), Resolution::NoMatch);
    assert_eq!(resolve(&tree(), "A"), Resolution::NoMatch);
}

#[test]
fn search_returns_the_node_reached() {
    let root = tree();
    let found = search_which_tree(&root, "at").unwrap();
    assert_eq!(found.key, Some('t'));
    assert_eq!(found.label, "t: terms");
    let found = search_which_tree(&root, "af").unwrap();
    assert_eq!(found.kind, WhichTreeKind::Command("firefox".to_string()));
    assert!(search_which_tree(&root, "afx").is_none());
    assert!(search_which_tree(&root, "z").is_none());
}

#[test]
fn earlier_sibling_wins_on_equal_keys() {
    let root = actions_to_tree(&[
        leaf("d", "first", "one"),
        branch("d", "second", vec![leaf("x", "x", "two")]),
    ])
    .unwrap();
    assert_eq!(resolve(&root, "d"), Resolution::Command("one".to_string()));
    assert_eq!(resolve(&root, "dx"), Resolution::NoMatch);
    assert_eq!(
        resolve(&root, ""),
        Resolution::Menu(vec![entry('d', "d: first"), entry('d', "d: second")])
    );
}

#[test]
fn shape_checks_tell_roots_from_other_nodes() {
    let root = tree();
    assert!(root.is_head());
    assert!(!root.is_keyed());
    assert!(root.is_well_formed());
    let inner = search_which_tree(&root, "a").unwrap();
    assert!(!inner.is_head());
    assert!(inner.is_keyed());
    assert!(!inner.is_well_formed());
    assert_eq!(inner.key_char(), 'a');
    let keyless_child = WhichTreeNode {
        key: None,
        label: String::new(),
        kind: WhichTreeKind::Children(vec![WhichTreeNode {
            key: None,
            label: "lost".to_string(),
            kind: WhichTreeKind::Command("true".to_string()),
        }]),
    };
    assert!(keyless_child.is_head());
    assert!(!keyless_child.is_well_formed());
    let command_root = WhichTreeNode {
        key: None,
        label: String::new(),
        kind: WhichTreeKind::Command("true".to_string()),
    };
    assert!(!command_root.is_head());
    assert!(!command_root.is_well_formed());
}

#[test]
fn deep_keyless_node_breaks_well_formedness() {
    let root = WhichTreeNode {
        key: None,
        label: String::new(),
        kind: WhichTreeKind::Children(vec![WhichTreeNode {
            key: Some('a'),
            label: "a: a".to_string(),
            kind: WhichTreeKind::Children(vec![WhichTreeNode {
                key: None,
                label: "lost".to_string(),
                kind: WhichTreeKind::Command("true".to_string()),
            }]),
        }]),
    };
    assert!(!root.is_well_formed());
}

#[test]
fn clone_copies_the_whole_tree() {
    let root = tree();
    assert_eq!(root.clone(), root);
    assert_eq!(root.kind.clone(), root.kind);
}

#[test]
fn chars_of_lists_the_characters() {
    assert_eq!(chars_of("aé'"), vec!['a', 'é', '\'']);
    assert_eq!(chars_of(""), Vec::<char>::new());
}

#[test]
fn distinct_keys_are_told_from_shadowed_ones() {
    assert!(tree().has_distinct_keys());
    let shadowed = actions_to_tree(&[
        leaf("d", "first", "one"),
        leaf("e", "other", "two"),
        leaf("d", "second", "three"),
    ])
    .unwrap();
    assert!(!shadowed.has_distinct_keys());
    let deep = actions_to_tree(&[branch(
        "a",
        "apps",
        vec![leaf("x", "one", "one"), leaf("x", "two", "two")],
    )])
    .unwrap();
    assert!(!deep.has_distinct_keys());
    let cousins = actions_to_tree(&[
        branch("a", "apps", vec![leaf("x", "one", "one")]),
        branch("b", "more", vec![leaf("x", "two", "two")]),
    ])
    .unwrap();
    assert!(cousins.has_distinct_keys());
    assert!(actions_to_tree(&[]).unwrap().has_distinct_keys());
}
