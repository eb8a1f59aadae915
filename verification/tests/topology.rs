use wirenet::network::Network;
use wirenet::server::{Node, ServerState};
use wirenet::wire::{UpdateWire, WireKind, WireOperation};
use wirenet::NetError;

fn state_of(net: &Network, id: usize) -> ServerState {
    match &net.nodes[id] {
        Node::Server(s) => s.state,
        Node::Generator => panic!("expected a server"),
    }
}

#[test]
fn connect_records_both_directions() {
    let mut net = Network::new();
    let a = net.add_server("a".to_string(), ServerState::Infected).unwrap();
    let b = net.add_server("b".to_string(), ServerState::Healthy).unwrap();
    let w = net.connect(a, b, WireKind::Communication, 10).unwrap();
    let na = net.neighbors(a).unwrap();
    let nb = net.neighbors(b).unwrap();
    assert!(na.contains(&(w, b)));
    assert!(nb.contains(&(w, a)));
}

#[test]
fn connect_rejects_self_loop() {
    let mut net = Network::new();
    let a = net.add_server("a".to_string(), ServerState::Infected).unwrap();
    assert_eq!(net.connect(a, a, WireKind::Power, 10), Err(NetError::InvalidTopology));
}

#[test]
fn connect_rejects_unknown_node() {
    let mut net = Network::new();
    let a = net.add_server("a".to_string(), ServerState::Infected).unwrap();
    assert_eq!(net.connect(a, 7, WireKind::Power, 10), Err(NetError::UnknownNode));
}

#[test]
fn connect_rejects_duplicate_wire() {
    let mut net = Network::new();
    let a = net.add_server("a".to_string(), ServerState::Infected).unwrap();
    let b = net.add_server("b".to_string(), ServerState::Healthy).unwrap();
    net.connect(a, b, WireKind::Communication, 10).unwrap();
    assert_eq!(
        net.connect(a, b, WireKind::Communication, 10),
        Err(NetError::InvalidTopology)
    );
}

#[test]
fn neighbors_of_unconnected_node_is_unknown() {
    let mut net = Network::new();
    let a = net.add_server("a".to_string(), ServerState::Infected).unwrap();
    assert!(matches!(net.neighbors(a), Err(NetError::UnknownNode)));
    assert!(matches!(net.neighbors(99), Err(NetError::UnknownNode)));
}

#[test]
fn add_server_rejects_duplicate_name() {
    let mut net = Network::new();
    net.add_server("a".to_string(), ServerState::Infected).unwrap();
    assert_eq!(
        net.add_server("a".to_string(), ServerState::Healthy),
        Err(NetError::InvalidTopology)
    );
}

#[test]
fn cut_operation_on_unknown_wire_fails() {
    let mut net = Network::new();
    assert_eq!(
        net.apply_cut_operation(0, WireOperation::Cut, 3),
        Err(NetError::UnknownWire)
    );
}

#[test]
fn find_infected_reports_invariant_violations() {
    let mut net = Network::new();
    net.add_server("a".to_string(), ServerState::Healthy).unwrap();
    assert_eq!(net.find_infected(), Err(NetError::NoInfectedNode));
    net.add_server("b".to_string(), ServerState::Infected).unwrap();
    assert_eq!(net.find_infected(), Ok(1));
    net.add_server("c".to_string(), ServerState::Infected).unwrap();
    assert_eq!(net.find_infected(), Err(NetError::MultipleInfectedNodes));
}

#[test]
fn move_scenario_three_servers() {
    // Nodes A (infected), B (corrupted), C (healthy); wires A-B and A-C.
    let mut net = Network::new();
    let a = net.add_server("A".to_string(), ServerState::Infected).unwrap();
    let b = net.add_server("B".to_string(), ServerState::Corrupted).unwrap();
    let c = net.add_server("C".to_string(), ServerState::Healthy).unwrap();
    net.connect(a, b, WireKind::Communication, 10).unwrap();
    net.connect(a, c, WireKind::Communication, 10).unwrap();

    // Moving to C fails: C is healthy, not corrupted. Nothing changes.
    assert_eq!(net.try_move("C"), Ok(false));
    assert_eq!(state_of(&net, a), ServerState::Infected);
    assert_eq!(state_of(&net, b), ServerState::Corrupted);
    assert_eq!(state_of(&net, c), ServerState::Healthy);

    // Moving to B succeeds: A becomes corrupted, B infected.
    assert_eq!(net.try_move("B"), Ok(true));
    assert_eq!(state_of(&net, a), ServerState::Corrupted);
    assert_eq!(state_of(&net, b), ServerState::Infected);
    assert_eq!(state_of(&net, c), ServerState::Healthy);

    // Exactly one infected node remains.
    assert_eq!(net.find_infected(), Ok(b));
}

#[test]
fn move_to_non_adjacent_corrupted_server_fails() {
    let mut net = Network::new();
    let a = net.add_server("A".to_string(), ServerState::Infected).unwrap();
    let b = net.add_server("B".to_string(), ServerState::Corrupted).unwrap();
    let c = net.add_server("C".to_string(), ServerState::Corrupted).unwrap();
    net.connect(a, b, WireKind::Communication, 10).unwrap();
    net.connect(b, c, WireKind::Communication, 10).unwrap();
    // C is corrupted but not adjacent to the infected node A.
    assert_eq!(net.try_move("C"), Ok(false));
    assert_eq!(state_of(&net, a), ServerState::Infected);
}

#[test]
fn validate_move_requires_corrupted_adjacent_target() {
    let mut net = Network::new();
    let a = net.add_server("A".to_string(), ServerState::Infected).unwrap();
    let b = net.add_server("B".to_string(), ServerState::Corrupted).unwrap();
    let g = net.add_generator();
    net.connect(a, b, WireKind::Communication, 10).unwrap();
    net.connect(a, g, WireKind::Power, 10).unwrap();
    assert_eq!(net.validate_move("B"), Ok(true));
    assert_eq!(net.validate_move("A"), Ok(false));
    assert_eq!(net.validate_move("nobody"), Ok(false));
}

#[test]
fn queued_events_apply_in_arrival_order() {
    let mut net = Network::new();
    let a = net.add_server("a".to_string(), ServerState::Infected).unwrap();
    let b = net.add_server("b".to_string(), ServerState::Healthy).unwrap();
    let w = net.connect(a, b, WireKind::Communication, 10).unwrap();
    let events = vec![
        UpdateWire { operation: WireOperation::Cut, wire: w, pos: 4 },
        UpdateWire { operation: WireOperation::Cut, wire: w, pos: 7 },
        // An event against an unknown wire is skipped.
        UpdateWire { operation: WireOperation::Cut, wire: w + 9, pos: 1 },
        // A later join undoes the earlier cut at the same position.
        UpdateWire { operation: WireOperation::Join, wire: w, pos: 4 },
    ];
    net.apply_wire_updates(&events);
    assert!(net.wires[w].cuts.contains(7));
    assert!(!net.wires[w].cuts.contains(4));
    let t = net.tessellate_wire(w, (true, true)).unwrap();
    assert_eq!(t.polylines, vec![vec![0, 1, 2, 3, 4, 5, 6], vec![8, 9]]);
}
