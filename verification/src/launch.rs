//! The shell line that starts a command detached from the session.

use vstd::prelude::*;

verus! {

/// What stands for one character of a command inside single quotes: a single
/// quote closes the quotes, stands between double quotes, and opens them
/// again; any other character stands for itself.
pub open spec fn quoted_char(c: char) -> Seq<char> {
    if c == '\'' {
        seq!['\'', '"', '\'', '"', '\'']
    } else {
        seq![c]
    }
}

/// `s` with every single quote replaced as [`quoted_char`] says.
pub open spec fn quoted(s: Seq<char>) -> Seq<char>
    decreases s.len(),
{
    if s.len() == 0 {
        Seq::empty()
    } else {
        quoted(s.drop_last()) + quoted_char(s.last())
    }
}

/// The shell line for `cmd`.
pub open spec fn detached_line(cmd: Seq<char>) -> Seq<char> {
    "nohup sh -c 'exec "@ + quoted(cmd) + "' >/dev/null 2>&1 &"@
}

/// The line to hand to `sh -c` so that `cmd` runs in a shell of its own,
/// outlives the session and writes nowhere: `cmd` between single quotes after
/// `exec`, each single quote of its own replaced so that the shell reads it as
/// a quote.
pub fn detached_command_line(cmd: &str) -> (line: String)
    ensures
        line@ == detached_line(cmd@),
{
    let mut line = String::from_str("nohup sh -c 'exec ");
    for c in it: cmd.chars()
        invariant
            it.seq() == cmd@,
            line@ == "nohup sh -c 'exec "@ + quoted(it.seq().take(it.index() as int)),
    {
        proof {
            let before = it.seq().take(it.index() as int);
            let after = it.seq().take(it.index() + 1);
            assert(after.drop_last() =~= before);
            assert(after.last() == c);
            reveal_strlit("'\"'\"'");
            assert("'\"'\"'"@ =~= seq!['\'', '"', '\'', '"', '\'']);
        }
        if c == '\'' {
            line.append("'\"'\"'");
        } else {
            line.push(c);
        }
    }
    proof {
        assert(cmd@.take(cmd@.len() as int) =~= cmd@);
    }
    line.append("' >/dev/null 2>&1 &");
    line
}

} // verus!
