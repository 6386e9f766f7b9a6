use modali::parser::{
    actions_from_typed, actions_to_tree, parse_char, Action, TypedAction, ValidationError,
};
use modali::whichtree::{WhichTreeKind, WhichTreeNode};

fn leaf(key: &str, description: &str, command: &str) -> Action {
    Action::KeyAction {
        key: key.to_string(),
        description: description.to_string(),
        command: command.to_string(),
    }
}

fn branch(key: &str, description: &str, sub_actions: Vec<Action>) -> Action {
    Action::SubAction { key: key.to_string(), description: description.to_string(), sub_actions }
}

fn sample() -> Vec<Action> {
    vec![
        branch(
            "a",
            "apps",
            vec![leaf("f", "firefox", "firefox"), branch("t", "terms", vec![leaf("k", "kitty", "kitty -1")])],
        ),
        leaf("q", "quit", "pkill modali"),
    ]
}

#[test]
fn leaf_becomes_command_node_with_label() {
    let node = leaf("s", "status", "git status").to_tree_node().unwrap();
    assert_eq!(
        node,
        WhichTreeNode {
            key: Some('s'),
            label: "s: status".to_string(),
            kind: WhichTreeKind::Command("git status".to_string()),
        }
    );
}

#[test]
fn branch_becomes_node_over_its_children_in_order() {
    let node = branch("g", "git", vec![leaf("s", "status", "git status"), leaf("p", "pull", "git pull")])
        .to_tree_node()
        .unwrap();
    assert_eq!(node.key, Some('g'));
    assert_eq!(node.label, "g: git");
    match node.kind {
        WhichTreeKind::Children(children) => {
            assert_eq!(children.len(), 2);
            assert_eq!(children[0].key, Some('s'));
            assert_eq!(children[0].label, "s: status");
            assert_eq!(children[1].key, Some('p'));
            assert_eq!(children[1].kind, WhichTreeKind::Command("git pull".to_string()));
        }
        WhichTreeKind::Command(_) => panic!("a branch must stay a branch"),
    }
}

#[test]
fn root_has_no_key_no_label_and_is_a_branch() {
    let root = actions_to_tree(&sample()).unwrap();
    assert_eq!(root.key, None);
    assert_eq!(root.label, "");
    assert!(matches!(root.kind, WhichTreeKind::Children(_)));
    assert!(root.is_head());
    assert!(root.is_well_formed());
}

#[test]
fn empty_configuration_gives_empty_root() {
    let root = actions_to_tree(&[]).unwrap();
    assert_eq!(
        root,
        WhichTreeNode { key: None, label: String::new(), kind: WhichTreeKind::Children(vec![]) }
    );
    assert!(root.is_well_formed());
}

#[test]
fn building_twice_gives_the_same_tree() {
    assert_eq!(actions_to_tree(&sample()).unwrap(), actions_to_tree(&sample()).unwrap());
}

#[test]
fn top_level_order_is_kept() {
    let root = actions_to_tree(&sample()).unwrap();
    match root.kind {
        WhichTreeKind::Children(children) => {
            assert_eq!(children.len(), 2);
            assert_eq!(children[0].label, "a: apps");
            assert_eq!(children[1].label, "q: quit");
        }
        WhichTreeKind::Command(_) => panic!("the root must be a branch"),
    }
}

#[test]
fn empty_key_is_refused_with_its_label() {
    let r = actions_to_tree(&[leaf("", "nothing", "true")]);
    assert_eq!(r, Err(ValidationError { label: ": nothing".to_string() }));
}

#[test]
fn long_key_is_refused_with_its_label() {
    let r = leaf("ab", "two", "true").to_tree_node();
    assert_eq!(r, Err(ValidationError { label: "ab: two".to_string() }));
}

#[test]
fn key_of_one_wide_character_is_accepted() {
    let node = leaf("é", "accent", "true").to_tree_node().unwrap();
    assert_eq!(node.key, Some('é'));
    assert_eq!(node.label, "é: accent");
}

#[test]
fn nested_bad_key_is_refused() {
    let config = vec![branch("g", "git", vec![leaf("s", "status", "git status"), leaf("xy", "bad", "true")])];
    assert_eq!(actions_to_tree(&config), Err(ValidationError { label: "xy: bad".to_string() }));
}

#[test]
fn first_bad_key_in_configuration_order_is_reported() {
    let config = vec![
        leaf("o", "ok", "true"),
        branch("bad", "outer", vec![leaf("", "inner", "true")]),
        leaf("zz", "later", "true"),
    ];
    assert_eq!(actions_to_tree(&config), Err(ValidationError { label: "bad: outer".to_string() }));
    let config = vec![
        branch("b", "outer", vec![leaf("", "inner", "true")]),
        leaf("zz", "later", "true"),
    ];
    assert_eq!(actions_to_tree(&config), Err(ValidationError { label: ": inner".to_string() }));
}

#[test]
fn validation_message_names_the_label() {
    let e = ValidationError { label: "ab: two".to_string() };
    assert_eq!(e.message(), "This key is not a single char: ab: two");
}

#[test]
fn parse_char_takes_exactly_one_character() {
    assert_eq!(parse_char("a"), Some('a'));
    assert_eq!(parse_char("ß"), Some('ß'));
    assert_eq!(parse_char(""), None);
    assert_eq!(parse_char("ab"), None);
}

fn typed_sample() -> Vec<TypedAction> {
    vec![
        TypedAction::SubAction {
            key: "g".to_string(),
            description: "git".to_string(),
            sub_actions: vec![
                TypedAction::KeyAction {
                    key: "s".to_string(),
                    description: "status".to_string(),
                    command: "git status".to_string(),
                },
                TypedAction::SubAction {
                    key: "r".to_string(),
                    description: "remote".to_string(),
                    sub_actions: vec![],
                },
            ],
        },
        TypedAction::KeyAction {
            key: "q".to_string(),
            description: "quit".to_string(),
            command: "exit".to_string(),
        },
    ]
}

fn untyped_sample() -> Vec<Action> {
    vec![
        branch("g", "git", vec![leaf("s", "status", "git status"), branch("r", "remote", vec![])]),
        leaf("q", "quit", "exit"),
    ]
}

#[test]
fn tagged_binding_converts_to_the_same_binding() {
    let mut typed = typed_sample();
    let second = Action::from(typed.pop().unwrap());
    let first: Action = typed.pop().unwrap().into();
    let mut expected = untyped_sample();
    assert_eq!(second, expected.pop().unwrap());
    assert_eq!(first, expected.pop().unwrap());
}

#[test]
fn tagged_list_converts_in_order() {
    assert_eq!(actions_from_typed(typed_sample()), untyped_sample());
    assert_eq!(actions_from_typed(vec![]), Vec::<Action>::new());
}

#[test]
fn into_action_keeps_what_is_held() {
    let typed = TypedAction::KeyAction {
        key: "k".to_string(),
        description: "d".to_string(),
        command: "c 'x'".to_string(),
    };
    assert_eq!(typed.into_action(), leaf("k", "d", "c 'x'"));
}
