use wirenet::command::{
    execute_command, parse_command, tokenize, Command, CommandOutcome, ServerAction, UpdAction,
};
use wirenet::network::Network;
use wirenet::server::{Node, ServerState};
use wirenet::wire::WireKind;

fn states(net: &Network) -> Vec<ServerState> {
    net.nodes
        .iter()
        .map(|n| match n {
            Node::Server(s) => s.state,
            Node::Generator => ServerState::Healthy,
        })
        .collect()
}

fn three_node_net() -> Network {
    let mut net = Network::new();
    let a = net.add_server("A".to_string(), ServerState::Infected).unwrap();
    let b = net.add_server("B".to_string(), ServerState::Corrupted).unwrap();
    let c = net.add_server("C".to_string(), ServerState::Healthy).unwrap();
    net.connect(a, b, WireKind::Communication, 10).unwrap();
    net.connect(a, c, WireKind::Communication, 10).unwrap();
    net
}

#[test]
fn tokenize_splits_on_whitespace() {
    let toks = tokenize("move A");
    assert_eq!(toks, vec!["move".to_string(), "A".to_string()]);
    let toks = tokenize("  msg   b\treboot \n");
    assert_eq!(toks, vec!["msg".to_string(), "b".to_string(), "reboot".to_string()]);
    let toks = tokenize("   ");
    assert!(toks.is_empty());
    let toks = tokenize("");
    assert!(toks.is_empty());
}

#[test]
fn parse_recognizes_the_grammar() {
    assert!(matches!(
        parse_command(&tokenize("move A")),
        Some(Command::Move(name)) if name == "A"
    ));
    assert!(matches!(
        parse_command(&tokenize("msg b reboot")),
        Some(Command::Msg(s, ServerAction::Reboot)) if s == "b"
    ));
    assert!(matches!(
        parse_command(&tokenize("msg b cycle")),
        Some(Command::Msg(_, ServerAction::Cycle))
    ));
    assert!(matches!(
        parse_command(&tokenize("msg b heat")),
        Some(Command::Msg(_, ServerAction::Heat))
    ));
    assert!(matches!(
        parse_command(&tokenize("msg b hack c")),
        Some(Command::MsgHack(from, to)) if from == "b" && to == "c"
    ));
    assert!(matches!(
        parse_command(&tokenize("upd cycle")),
        Some(Command::Upd(UpdAction::Cycle))
    ));
    assert!(matches!(
        parse_command(&tokenize("upd heat")),
        Some(Command::Upd(UpdAction::Heat))
    ));
    assert!(matches!(
        parse_command(&tokenize("upd hack b")),
        Some(Command::UpdHack(s)) if s == "b"
    ));
}

#[test]
fn parse_rejects_everything_else() {
    assert!(parse_command(&tokenize("jump X")).is_none());
    assert!(parse_command(&tokenize("move")).is_none());
    assert!(parse_command(&tokenize("move a b")).is_none());
    assert!(parse_command(&tokenize("msg b jump")).is_none());
    assert!(parse_command(&tokenize("upd hack")).is_none());
    assert!(parse_command(&tokenize("")).is_none());
    assert!(parse_command(&tokenize("MOVE A")).is_none());
}

#[test]
fn bad_command_leaves_network_unchanged() {
    // "jump X" is rejected with a user notice; no graph or node mutation.
    let mut net = three_node_net();
    let before = states(&net);
    let r = execute_command(&mut net, "jump X");
    assert_eq!(r, Ok(CommandOutcome::BadCommand));
    assert_eq!(states(&net), before);
    assert_eq!(net.find_infected(), Ok(0));
}

#[test]
fn move_command_applies_a_legal_move() {
    let mut net = three_node_net();
    let r = execute_command(&mut net, "move B");
    assert_eq!(r, Ok(CommandOutcome::Moved));
    assert_eq!(
        states(&net),
        vec![ServerState::Corrupted, ServerState::Infected, ServerState::Healthy]
    );
}

#[test]
fn move_command_rejects_an_illegal_target() {
    let mut net = three_node_net();
    let before = states(&net);
    let r = execute_command(&mut net, "move C");
    assert_eq!(r, Ok(CommandOutcome::MoveRejected));
    assert_eq!(states(&net), before);
}

#[test]
fn reserved_commands_change_nothing() {
    let mut net = three_node_net();
    let before = states(&net);
    assert_eq!(execute_command(&mut net, "msg B reboot"), Ok(CommandOutcome::Reserved));
    assert_eq!(execute_command(&mut net, "upd heat"), Ok(CommandOutcome::Reserved));
    assert_eq!(execute_command(&mut net, "msg B hack C"), Ok(CommandOutcome::Reserved));
    assert_eq!(execute_command(&mut net, "upd hack B"), Ok(CommandOutcome::Reserved));
    assert_eq!(states(&net), before);
}

#[test]
fn move_without_an_infected_node_is_an_invariant_fault() {
    let mut net = Network::new();
    let a = net.add_server("A".to_string(), ServerState::Healthy).unwrap();
    let b = net.add_server("B".to_string(), ServerState::Corrupted).unwrap();
    net.connect(a, b, WireKind::Communication, 10).unwrap();
    assert_eq!(
        execute_command(&mut net, "move B"),
        Err(wirenet::NetError::NoInfectedNode)
    );
}
