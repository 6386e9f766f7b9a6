use modali::launch::detached_command_line;

#[test]
fn plain_command_is_wrapped() {
    assert_eq!(
        detached_command_line("git status"),
        "nohup sh -c 'exec git status' >/dev/null 2>&1 &"
    );
}

#[test]
fn empty_command_is_wrapped() {
    assert_eq!(detached_command_line(""), "nohup sh -c 'exec ' >/dev/null 2>&1 &");
}

#[test]
fn single_quotes_are_replaced() {
    assert_eq!(
        detached_command_line("echo 'hi'"),
        "nohup sh -c 'exec echo '\"'\"'hi'\"'\"'' >/dev/null 2>&1 &"
    );
    assert_eq!(detached_command_line("'"), "nohup sh -c 'exec '\"'\"'' >/dev/null 2>&1 &");
}

#[test]
fn other_characters_stay_as_they_are() {
    assert_eq!(
        detached_command_line("notify-send \"é\" $HOME \\ `x`"),
        "nohup sh -c 'exec notify-send \"é\" $HOME \\ `x`' >/dev/null 2>&1 &"
    );
}

#[test]
fn wrapping_agrees_with_replace() {
    for cmd in ["a'b'c", "''", "no quotes", "end'"] {
        let expected =
            format!("nohup sh -c 'exec {}' >/dev/null 2>&1 &", cmd.replace("'", "'\"'\"'"));
        assert_eq!(detached_command_line(cmd), expected);
    }
}
