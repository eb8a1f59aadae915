//! The text command grammar and its execution against the network.
//!
//! Commands are whitespace-tokenized. Only `move <server>` reaches this
//! core's validator; the `msg` and `upd` forms are recognized and reserved
//! for node-specific actions outside this core. Anything else is a bad
//! command: the user is notified and no state changes.

use vstd::prelude::*;
use vstd::string::StrSliceExecFns;

use crate::NetError;
use crate::network::Network;

verus! {

/// Whitespace for command tokenization.
pub open spec fn is_space(c: char) -> bool {
    c == ' ' || c == '\t' || c == '\n' || c == '\r'
}

/// Length of the leading run of non-space characters.
pub open spec fn token_len(s: Seq<char>) -> int
    decreases s.len(),
{
    if s.len() == 0 || is_space(s[0]) {
        0
    } else {
        1 + token_len(s.drop_first())
    }
}

/// A scan that stops at the first space (or the end) finds `token_len`.
proof fn lemma_token_len_pins(s: Seq<char>, k: int)
    requires
        0 <= k <= s.len(),
        forall|j: int| 0 <= j < k ==> !is_space(s[j]),
        k < s.len() ==> is_space(s[k]),
    ensures
        token_len(s) == k,
    decreases s.len(),
{
    if k == 0 {
    } else {
        assert(!is_space(s[0]));
        assert forall|j: int| 0 <= j < k - 1 implies !is_space(s.drop_first()[j]) by {
            assert(s.drop_first()[j] == s[j + 1]);
        }
        if k - 1 < s.drop_first().len() {
            assert(s.drop_first()[k - 1] == s[k]);
        }
        lemma_token_len_pins(s.drop_first(), k - 1);
    }
}

/// The whitespace tokenization of a character sequence: the maximal runs
/// of non-space characters, in order.
pub open spec fn split_ws(s: Seq<char>) -> Seq<Seq<char>>
    decreases s.len(),
    when s.len() >= 0
    via split_ws_decreases
{
    if s.len() == 0 {
        Seq::empty()
    } else if is_space(s[0]) {
        split_ws(s.drop_first())
    } else {
        seq![s.take(token_len(s))] + split_ws(s.skip(token_len(s)))
    }
}

#[via_fn]
proof fn split_ws_decreases(s: Seq<char>) {
    if s.len() > 0 && !is_space(s[0]) {
        lemma_token_len_bounds(s);
        lemma_token_len_bounds(s.drop_first());
        assert(token_len(s) == 1 + token_len(s.drop_first()));
    }
}

/// `token_len` stays within the sequence and marks only non-spaces.
proof fn lemma_token_len_bounds(s: Seq<char>)
    ensures
        0 <= token_len(s) <= s.len(),
        forall|j: int| 0 <= j < token_len(s) ==> !is_space(s[j]),
        token_len(s) < s.len() ==> is_space(s[token_len(s)]),
    decreases s.len(),
{
    if s.len() == 0 || is_space(s[0]) {
    } else {
        lemma_token_len_bounds(s.drop_first());
        assert forall|j: int| 0 <= j < token_len(s) implies !is_space(s[j]) by {
            if j > 0 {
                assert(s.drop_first()[j - 1] == s[j]);
            }
        }
        if token_len(s) < s.len() {
            assert(s.drop_first()[token_len(s) - 1] == s[token_len(s)]);
        }
    }
}

/// Whether `c` is tokenization whitespace.
fn space_char(c: char) -> (r: bool)
    ensures
        r == is_space(c),
{
    c == ' ' || c == '\t' || c == '\n' || c == '\r'
}

/// The end of the token starting at position 0: the first space, or `n`.
fn token_end(s: &str, n: usize) -> (k: usize)
    requires
        n == s@.len(),
        n >= 1,
        !is_space(s@[0]),
    ensures
        1 <= k <= n,
        k as int == token_len(s@),
{
    let mut k: usize = 1;
    while k < n
        invariant
            1 <= k <= n,
            n == s@.len(),
            forall|j: int| 0 <= j < k ==> !is_space(s@[j]),
        decreases n - k,
    {
        if space_char(s.get_char(k)) {
            proof {
                lemma_token_len_pins(s@, k as int);
            }
            return k;
        }
        k += 1;
    }
    proof {
        lemma_token_len_pins(s@, n as int);
    }
    n
}

/// Split a command line into its whitespace-separated tokens.
pub fn tokenize(s: &str) -> (toks: Vec<String>)
    ensures
        toks@.len() == split_ws(s@).len(),
        forall|i: int| 0 <= i < toks@.len() ==> (#[trigger] toks@[i])@ == split_ws(s@)[i],
    decreases s@.len(),
{
    let n = s.unicode_len();
    if n == 0 {
        return Vec::new();
    }
    let c0 = s.get_char(0);
    if space_char(c0) {
        let rest = s.substring_char(1, n);
        proof {
            assert(rest@ =~= s@.drop_first());
        }
        return tokenize(rest);
    }
    let k = token_end(s, n);
    let tok = s.substring_char(0, k).to_owned();
    let tail = s.substring_char(k, n);
    proof {
        assert(tail@ =~= s@.skip(k as int));
        assert(tok@ =~= s@.take(k as int));
    }
    let rest = tokenize(tail);
    let mut out: Vec<String> = Vec::new();
    out.push(tok);
    let mut i: usize = 0;
    while i < rest.len()
        invariant
            0 <= i <= rest@.len(),
            out@.len() == i + 1,
            out@[0]@ == s@.take(token_len(s@)),
            forall|j: int| 0 <= j < i ==> (#[trigger] out@[j + 1])@ == rest@[j]@,
        decreases rest@.len() - i,
    {
        out.push(rest[i].clone());
        i += 1;
    }
    proof {
        let sw = split_ws(s@);
        assert(sw == seq![s@.take(token_len(s@))] + split_ws(s@.skip(token_len(s@))));
        assert forall|i2: int| 0 <= i2 < out@.len() implies (#[trigger] out@[i2])@ == sw[i2] by {
            if i2 > 0 {
                assert(out@[(i2 - 1) + 1]@ == rest@[i2 - 1]@);
            }
        }
    }
    out
}

/// A node-specific action a `msg` command can carry.
#[derive(Clone, Copy, PartialEq, Eq, Structural, Debug)]
pub enum ServerAction {
    Reboot,
    Cycle,
    Heat,
}

/// A network-wide action an `upd` command can carry.
#[derive(Clone, Copy, PartialEq, Eq, Structural, Debug)]
pub enum UpdAction {
    Cycle,
    Heat,
}

/// A recognized command.
pub enum Command {
    Move(String),
    Msg(String, ServerAction),
    MsgHack(String, String),
    Upd(UpdAction),
    UpdHack(String),
}

pub open spec fn action_matches(t: Seq<char>, a: ServerAction) -> bool {
    match a {
        ServerAction::Reboot => t == "reboot"@,
        ServerAction::Cycle => t == "cycle"@,
        ServerAction::Heat => t == "heat"@,
    }
}

pub open spec fn upd_matches(t: Seq<char>, a: UpdAction) -> bool {
    match a {
        UpdAction::Cycle => t == "cycle"@,
        UpdAction::Heat => t == "heat"@,
    }
}

/// The parsed command reads back exactly as the token list.
pub open spec fn cmd_matches(toks: Seq<Seq<char>>, c: Command) -> bool {
    match c {
        Command::Move(name) => toks.len() == 2 && toks[0] == "move"@ && name@ == toks[1],
        Command::Msg(server, a) => toks.len() == 3 && toks[0] == "msg"@ && server@ == toks[1]
            && action_matches(toks[2], a),
        Command::MsgHack(from, to) => toks.len() == 4 && toks[0] == "msg"@ && toks[2] == "hack"@
            && from@ == toks[1] && to@ == toks[3],
        Command::Upd(a) => toks.len() == 2 && toks[0] == "upd"@ && upd_matches(toks[1], a),
        Command::UpdHack(server) => toks.len() == 3 && toks[0] == "upd"@ && toks[1] == "hack"@
            && server@ == toks[2],
    }
}

/// The token lists the grammar accepts.
pub open spec fn some_command(toks: Seq<Seq<char>>) -> bool {
    ||| (toks.len() == 2 && toks[0] == "move"@)
    ||| (toks.len() == 3 && toks[0] == "msg"@ && (toks[2] == "reboot"@ || toks[2] == "cycle"@
        || toks[2] == "heat"@))
    ||| (toks.len() == 4 && toks[0] == "msg"@ && toks[2] == "hack"@)
    ||| (toks.len() == 2 && toks[0] == "upd"@ && (toks[1] == "cycle"@ || toks[1] == "heat"@))
    ||| (toks.len() == 3 && toks[0] == "upd"@ && toks[1] == "hack"@)
}

/// The views of a token list.
pub open spec fn toks_view(tokens: Seq<String>) -> Seq<Seq<char>> {
    tokens.map_values(|t: String| t@)
}

/// Whether a token equals a keyword.
fn is_tok(a: &String, b: &str) -> (r: bool)
    ensures
        r == (a@ == b@),
{
    *a == b.to_owned()
}

/// Parse a token list against the command grammar; `None` is a bad command.
pub fn parse_command(tokens: &Vec<String>) -> (r: Option<Command>)
    ensures
        match r {
            Some(c) => cmd_matches(toks_view(tokens@), c),
            None => !some_command(toks_view(tokens@)),
        },
        some_command(toks_view(tokens@)) ==> r is Some,
{
    proof {
        assert(toks_view(tokens@).len() == tokens@.len());
        assert forall|i: int| 0 <= i < tokens@.len() implies toks_view(tokens@)[i] == (
        #[trigger] tokens@[i])@ by {}
    }
    if tokens.len() == 2 {
        if is_tok(&tokens[0], "move") {
            Some(Command::Move(tokens[1].clone()))
        } else if is_tok(&tokens[0], "upd") && is_tok(&tokens[1], "cycle") {
            Some(Command::Upd(UpdAction::Cycle))
        } else if is_tok(&tokens[0], "upd") && is_tok(&tokens[1], "heat") {
            Some(Command::Upd(UpdAction::Heat))
        } else {
            None
        }
    } else if tokens.len() == 3 {
        if is_tok(&tokens[0], "msg") && is_tok(&tokens[2], "reboot") {
            Some(Command::Msg(tokens[1].clone(), ServerAction::Reboot))
        } else if is_tok(&tokens[0], "msg") && is_tok(&tokens[2], "cycle") {
            Some(Command::Msg(tokens[1].clone(), ServerAction::Cycle))
        } else if is_tok(&tokens[0], "msg") && is_tok(&tokens[2], "heat") {
            Some(Command::Msg(tokens[1].clone(), ServerAction::Heat))
        } else if is_tok(&tokens[0], "upd") && is_tok(&tokens[1], "hack") {
            Some(Command::UpdHack(tokens[2].clone()))
        } else {
            None
        }
    } else if tokens.len() == 4 {
        if is_tok(&tokens[0], "msg") && is_tok(&tokens[2], "hack") {
            Some(Command::MsgHack(tokens[1].clone(), tokens[3].clone()))
        } else {
            None
        }
    } else {
        None
    }
}

/// What executing one command line came to.
#[derive(Clone, Copy, PartialEq, Eq, Structural, Debug)]
pub enum CommandOutcome {
    /// A legal `move`: the infection token moved to the target.
    Moved,
    /// A well-formed `move` whose target is not a legal destination; the
    /// request was discarded and the user notified.
    MoveRejected,
    /// A recognized `msg`/`upd` command, reserved for actions outside this
    /// core; nothing changed.
    Reserved,
    /// An unrecognized command: the user is notified, nothing changed.
    BadCommand,
}

/// Parse one command line and execute it against the network. Only a legal
/// `move` mutates anything; every other outcome leaves the network as it
/// was. An error reports a violated infection invariant.
pub fn execute_command(net: &mut Network, line: &str) -> (r: Result<CommandOutcome, NetError>)
    requires
        old(net).wf(),
    ensures
        final(net).wf(),
        ({
            let toks = split_ws(line@);
            &&& (r == Ok::<CommandOutcome, NetError>(CommandOutcome::BadCommand) <==> !some_command(
                toks,
            ))
            &&& (r == Ok::<CommandOutcome, NetError>(CommandOutcome::Reserved) <==> (some_command(
                toks,
            ) && !(toks.len() == 2 && toks[0] == "move"@)))
            &&& (r != Ok::<CommandOutcome, NetError>(CommandOutcome::Moved) ==> *final(net) == *old(
                net,
            ))
            &&& (r is Err ==> (toks.len() == 2 && toks[0] == "move"@ && !(exists|i: int|
                old(net).is_unique_infected(i))))
            &&& (r == Ok::<CommandOutcome, NetError>(CommandOutcome::MoveRejected) ==> (toks.len()
                == 2 && toks[0] == "move"@ && (exists|i: int| old(net).is_unique_infected(i))
                && !old(net).move_legal(old(net).infected_node(), toks[1])))
            &&& (r == Ok::<CommandOutcome, NetError>(CommandOutcome::Moved) ==> (toks.len() == 2
                && toks[0] == "move"@ && (exists|i: int| old(net).is_unique_infected(i)) && old(
                net,
            ).move_legal(old(net).infected_node(), toks[1]) && final(net).is_unique_infected(
                old(net).server_named(toks[1]),
            )))
        }),
    {
        let tokens = tokenize(line);
        proof {
            assert(toks_view(tokens@) =~= split_ws(line@));
        }
        let ghost toks = split_ws(line@);
        match parse_command(&tokens) {
            None => Ok(CommandOutcome::BadCommand),
            Some(Command::Move(name)) => {
                match net.try_move(name.as_str()) {
                    Ok(true) => Ok(CommandOutcome::Moved),
                    Ok(false) => Ok(CommandOutcome::MoveRejected),
                    Err(e) => Err(e),
                }
            },
            Some(Command::Msg(_, a)) => {
                proof {
                    match a {
                        ServerAction::Reboot => assert(toks[2] == "reboot"@),
                        ServerAction::Cycle => assert(toks[2] == "cycle"@),
                        ServerAction::Heat => assert(toks[2] == "heat"@),
                    }
                    assert(some_command(toks));
                }
                Ok(CommandOutcome::Reserved)
            },
            Some(Command::MsgHack(_, _)) => {
                proof {
                    assert(some_command(toks));
                }
                Ok(CommandOutcome::Reserved)
            },
            Some(Command::Upd(a)) => {
                proof {
                    match a {
                        UpdAction::Cycle => assert(toks[1] == "cycle"@),
                        UpdAction::Heat => assert(toks[1] == "heat"@),
                    }
                    assert(some_command(toks));
                    reveal_strlit("move");
                    reveal_strlit("upd");
                    assert(("move"@).len() != ("upd"@).len());
                }
                Ok(CommandOutcome::Reserved)
            },
            Some(Command::UpdHack(_)) => {
                proof {
                    assert(some_command(toks));
                }
                Ok(CommandOutcome::Reserved)
            },
        }
    }

} // verus!
