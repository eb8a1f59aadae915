use wirenet::cutset::CutSet;
use wirenet::network::Network;
use wirenet::server::ServerState;
use wirenet::tessellate::{tessellate, Tessellation, WireColor};
use wirenet::wire::{WireKind, WireOperation};

fn poly_samples(t: &Tessellation) -> Vec<Vec<usize>> {
    t.polylines.clone()
}

fn assert_boundary_respecting(t: &Tessellation) {
    assert_eq!(t.indices.len() % 3, 0);
    for tri in 0..t.indices.len() / 3 {
        let i0 = t.indices[3 * tri];
        let i1 = t.indices[3 * tri + 1];
        let i2 = t.indices[3 * tri + 2];
        assert!(i0 < t.vertices.len());
        assert!(i1 < t.vertices.len());
        assert!(i2 < t.vertices.len());
        assert_eq!(t.vertices[i0].polyline, t.vertices[i1].polyline);
        assert_eq!(t.vertices[i0].polyline, t.vertices[i2].polyline);
    }
}

#[test]
fn cut_at_four_splits_ten_samples_into_two_polylines() {
    // Segment count 10, cut set {4}: polylines [0..=3] and [5..=9].
    let mut cuts = CutSet::new();
    cuts.cut(4);
    let t = tessellate(10, &cuts, false);
    assert_eq!(poly_samples(&t), vec![vec![0, 1, 2, 3], vec![5, 6, 7, 8, 9]]);
    // No triangle touches both sides of the gap at sample 4.
    assert_boundary_respecting(&t);
    for v in &t.vertices {
        assert!(v.sample != 4);
    }
    assert_eq!(t.color, WireColor::Severed);
}

#[test]
fn uncut_wire_is_one_polyline() {
    let cuts = CutSet::new();
    let t = tessellate(5, &cuts, false);
    assert_eq!(poly_samples(&t), vec![vec![0, 1, 2, 3, 4]]);
    // Two vertices per sample, one ribbon, quads between consecutive pairs.
    assert_eq!(t.vertices.len(), 10);
    assert_eq!(t.indices.len(), 4 * 6);
    assert_boundary_respecting(&t);
    assert_eq!(t.color, WireColor::Communication);
}

#[test]
fn boundary_respecting_for_many_cut_sets() {
    // Empty, full, and assorted cut sets all yield boundary-respecting
    // index buffers.
    let segments = 8;
    let cut_choices: Vec<Vec<usize>> = vec![
        vec![],
        vec![0],
        vec![7],
        vec![8],
        vec![3, 4],
        vec![1, 3, 5, 7],
        vec![0, 1, 2, 3, 4, 5, 6, 7, 8],
    ];
    for choice in cut_choices {
        let mut cuts = CutSet::new();
        for p in choice {
            cuts.cut(p);
        }
        let t = tessellate(segments, &cuts, true);
        assert_boundary_respecting(&t);
    }
}

#[test]
fn cut_then_join_restores_buffers_byte_for_byte() {
    let mut cuts = CutSet::new();
    cuts.cut(2);
    let before = tessellate(10, &cuts, true);
    cuts.cut(6);
    let severed = tessellate(10, &cuts, true);
    assert!(severed.polylines != before.polylines);
    cuts.join(6);
    let after = tessellate(10, &cuts, true);
    assert_eq!(before.polylines, after.polylines);
    assert_eq!(before.vertices, after.vertices);
    assert_eq!(before.indices, after.indices);
    assert_eq!(before.color, after.color);
}

#[test]
fn cut_and_join_are_idempotent() {
    let mut once = CutSet::new();
    once.cut(3);
    let mut twice = CutSet::new();
    twice.cut(3);
    twice.cut(3);
    let t_once = tessellate(9, &once, false);
    let t_twice = tessellate(9, &twice, false);
    assert_eq!(t_once.polylines, t_twice.polylines);
    assert_eq!(t_once.vertices, t_twice.vertices);
    assert_eq!(t_once.indices, t_twice.indices);

    once.join(3);
    once.join(3);
    twice.join(3);
    let j_once = tessellate(9, &once, false);
    let j_twice = tessellate(9, &twice, false);
    assert_eq!(j_once.polylines, j_twice.polylines);
    assert_eq!(j_once.vertices, j_twice.vertices);
    assert_eq!(j_once.indices, j_twice.indices);
}

#[test]
fn vertices_alternate_sides_along_each_polyline() {
    let cuts = CutSet::new();
    let t = tessellate(4, &cuts, false);
    assert_eq!(t.vertices.len(), 8);
    for (k, v) in t.vertices.iter().enumerate() {
        assert_eq!(v.outward, k % 2 == 0);
        assert_eq!(v.sample, k / 2);
        assert_eq!(v.polyline, 0);
    }
}

#[test]
fn short_polylines_emit_no_vertices() {
    // Cuts {1} leave sample 0 alone in its polyline: no ribbon for it.
    let mut cuts = CutSet::new();
    cuts.cut(1);
    let t = tessellate(5, &cuts, false);
    assert_eq!(poly_samples(&t), vec![vec![0], vec![2, 3, 4]]);
    for v in &t.vertices {
        assert_eq!(v.polyline, 1);
    }
    assert_boundary_respecting(&t);
}

#[test]
fn wire_color_follows_cuts_then_power() {
    let mut net = Network::new();
    let a = net.add_server("a".to_string(), ServerState::Infected).unwrap();
    let b = net.add_server("b".to_string(), ServerState::Healthy).unwrap();
    let g = net.add_generator();
    let com = net.connect(a, b, WireKind::Communication, 10).unwrap();
    let pwr = net.connect(a, g, WireKind::Power, 10).unwrap();

    assert_eq!(
        net.tessellate_wire(com, (true, true)).unwrap().color,
        WireColor::Communication
    );
    assert_eq!(net.tessellate_wire(pwr, (true, true)).unwrap().color, WireColor::Power);

    net.apply_cut_operation(pwr, WireOperation::Cut, 4).unwrap();
    assert_eq!(net.tessellate_wire(pwr, (true, true)).unwrap().color, WireColor::Severed);
    net.apply_cut_operation(pwr, WireOperation::Join, 4).unwrap();
    assert_eq!(net.tessellate_wire(pwr, (true, true)).unwrap().color, WireColor::Power);
}

#[test]
fn tessellate_wire_reports_dangling_terminals() {
    let mut net = Network::new();
    let a = net.add_server("a".to_string(), ServerState::Infected).unwrap();
    let b = net.add_server("b".to_string(), ServerState::Healthy).unwrap();
    let w = net.connect(a, b, WireKind::Communication, 10).unwrap();
    assert!(matches!(
        net.tessellate_wire(w, (false, true)),
        Err(wirenet::NetError::DanglingTerminal)
    ));
    assert!(matches!(
        net.tessellate_wire(w + 1, (true, true)),
        Err(wirenet::NetError::UnknownWire)
    ));
    assert!(net.tessellate_wire(w, (true, true)).is_ok());
}
