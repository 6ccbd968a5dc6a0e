use std::collections::HashSet;

use silent_cartographer::identity::{
    project_all, project_identities, project_one, CanonicalId, Descriptor, DescriptorSegment, SegmentKind, WorkspaceId,
};

fn seg(name: &str, kind: SegmentKind) -> DescriptorSegment {
    DescriptorSegment::new(name, kind)
}

/// A small corpus of distinct Rust-shaped descriptors (no overloading, so none collide).
fn rust_corpus() -> Vec<Descriptor> {
    vec![
        Descriptor::new(
            "crate",
            vec![
                seg("net", SegmentKind::Module),
                seg("Client", SegmentKind::Type),
                seg("connect", SegmentKind::Method),
            ],
        ),
        Descriptor::new(
            "crate",
            vec![
                seg("net", SegmentKind::Module),
                seg("Client", SegmentKind::Type),
                seg("disconnect", SegmentKind::Method),
            ],
        ),
        Descriptor::new(
            "crate",
            vec![seg("util", SegmentKind::Module), seg("parse", SegmentKind::Term)],
        ),
        Descriptor::new("crate", vec![seg("net", SegmentKind::Module)]),
    ]
}

#[test]
fn reprojection_is_byte_identical() {
    let ws = WorkspaceId::new("ws");
    let corpus = rust_corpus();
    let first = project_all(&ws, &corpus);
    let second = project_all(&ws, &corpus);
    assert_eq!(first, second);
}

#[test]
fn projection_is_order_independent() {
    let ws = WorkspaceId::new("ws");
    let corpus = rust_corpus();

    let forward = project_all(&ws, &corpus);

    let mut reversed: Vec<Descriptor> = corpus.clone();
    reversed.reverse();
    let reverse_ids = project_all(&ws, &reversed);

    for (i, descriptor) in corpus.iter().enumerate() {
        let rev_pos = reversed.iter().position(|d| d == descriptor).unwrap();
        assert_eq!(
            forward[i], reverse_ids[rev_pos],
            "identity for {descriptor:?} changed with visitation order"
        );
    }
}

#[test]
fn identical_descriptors_in_two_workspaces_are_distinct() {
    let descriptor = Descriptor::new(
        "crate",
        vec![seg("net", SegmentKind::Module), seg("Client", SegmentKind::Type)],
    );
    let a = project_one(&WorkspaceId::new("workspace-a"), &descriptor);
    let b = project_one(&WorkspaceId::new("workspace-b"), &descriptor);
    assert_ne!(a, b);
}

#[test]
fn distinct_symbols_yield_no_duplicate_identities() {
    let ws = WorkspaceId::new("ws");
    let corpus = rust_corpus();
    let ids = project_all(&ws, &corpus);
    let unique: HashSet<_> = ids.iter().collect();
    assert_eq!(unique.len(), corpus.len(), "identities are not unique: {ids:?}");
}

#[test]
fn rust_symbols_carry_no_disambiguator_suffix() {
    let ws = WorkspaceId::new("ws");
    let corpus = rust_corpus();
    let ids = project_all(&ws, &corpus);
    for id in &ids {
        assert!(
            !id.as_str().contains('#'),
            "non-colliding Rust symbol carries a disambiguator: {id:?}"
        );
    }
}

#[test]
fn observed_collision_is_disambiguated() {
    let ws = WorkspaceId::new("ws");
    let as_term = Descriptor::new(
        "crate",
        vec![seg("m", SegmentKind::Module), seg("f", SegmentKind::Term)],
    );
    let as_method = Descriptor::new(
        "crate",
        vec![seg("m", SegmentKind::Module), seg("f", SegmentKind::Method)],
    );
    assert_ne!(as_term, as_method, "test setup: descriptors must be distinct");

    let ids = project_all(&ws, &[as_term, as_method]);
    assert_ne!(ids[0], ids[1], "colliding descriptors were not disambiguated");
    assert!(
        ids.iter().all(|id| id.as_str().contains('#')),
        "disambiguator not emitted: {ids:?}"
    );
}

#[test]
fn projection_spells_workspace_package_and_segments() {
    let ws = WorkspaceId::new("ws");
    let ids = project_all(&ws, &rust_corpus());
    assert_eq!(ids[0].as_str(), "ws::crate::net::Client::connect");
    assert_eq!(ids[3].as_str(), "ws::crate::net");
}

#[test]
fn collision_ranks_follow_descriptor_order_then_position() {
    let ws = WorkspaceId::new("ws");
    let as_term = Descriptor::new("crate", vec![seg("f", SegmentKind::Term)]);
    let as_method = Descriptor::new("crate", vec![seg("f", SegmentKind::Method)]);
    // The term kind precedes the method kind, whatever the input order.
    let ids = project_all(&ws, &[as_method.clone(), as_term.clone()]);
    assert_eq!(ids[0].as_str(), "ws::crate::f#1");
    assert_eq!(ids[1].as_str(), "ws::crate::f#0");
    // True duplicates are ranked by position.
    let dup = project_all(&ws, &[as_term.clone(), as_term.clone(), as_term]);
    assert_eq!(dup[0].as_str(), "ws::crate::f#0");
    assert_eq!(dup[1].as_str(), "ws::crate::f#1");
    assert_eq!(dup[2].as_str(), "ws::crate::f#2");
}

#[test]
fn eleven_way_collision_renders_two_digit_ranks() {
    let ws = WorkspaceId::new("w");
    let d = Descriptor::new("p", vec![seg("x", SegmentKind::Term)]);
    let all: Vec<Descriptor> = (0..11).map(|_| d.clone()).collect();
    let ids = project_all(&ws, &all);
    assert_eq!(ids[10].as_str(), "w::p::x#10");
}

#[test]
fn terminal_name_and_raw_identity_round_trip() {
    let d = Descriptor::new("crate", vec![seg("m", SegmentKind::Module), seg("f", SegmentKind::Term)]);
    assert_eq!(d.terminal_name(), Some("f"));
    assert_eq!(Descriptor::new("crate", vec![]).terminal_name(), None);
    assert_eq!(CanonicalId::from_raw("ws::a").as_str(), "ws::a");
    assert_eq!(WorkspaceId::new("ws").as_str(), "ws");
}

#[test]
fn local_symbols_receive_no_identity_and_the_rest_project_together() {
    let ws = WorkspaceId::new("ws");
    let f = Descriptor::new("pkg", vec![seg("f", SegmentKind::Term)]);
    let twin = Descriptor::new("pkg", vec![seg("f", SegmentKind::Method)]);
    let ids = project_identities(&ws, &[Some(f.clone()), None, Some(twin.clone())]);
    assert_eq!(ids.len(), 3);
    assert!(ids[1].is_none());
    let together = project_all(&ws, &[f, twin]);
    assert_eq!(ids[0].as_ref(), Some(&together[0]));
    assert_eq!(ids[2].as_ref(), Some(&together[1]));
}

#[test]
fn a_duplicated_descriptor_copy_is_the_same_descriptor() {
    let d = Descriptor::new("pkg", vec![seg("m", SegmentKind::Module), seg("f", SegmentKind::Term)]);
    let copy = d.duplicate();
    assert_eq!(copy, d);
    assert!(copy.same_as(&d));
    let other = Descriptor::new("pkg", vec![seg("m", SegmentKind::Module), seg("f", SegmentKind::Method)]);
    assert!(!other.same_as(&d));
}
