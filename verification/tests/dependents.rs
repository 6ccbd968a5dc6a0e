use silent_cartographer::graph::dependents::sort_dependents;
use silent_cartographer::graph::distance::dependents_within;
use silent_cartographer::graph::store::DependentRow;
use silent_cartographer::identity::CanonicalId;

fn row(id: &str, depth: u32, kind: &str) -> DependentRow {
    DependentRow { id: CanonicalId::from_raw(id), depth, kind: kind.to_string() }
}

#[test]
fn dependents_sort_by_depth_then_kind_order_then_identity() {
    let rows = vec![
        row("z", 2, "uses"),
        row("b", 1, "imports"),
        row("c", 1, "uses"),
        row("a", 1, "imports"),
        row("d", 1, "other"),
    ];
    let sorted = sort_dependents(rows);
    let order: Vec<(&str, u32, &str)> =
        sorted.iter().map(|r| (r.id.as_str(), r.depth, r.kind.as_str())).collect();
    assert_eq!(
        order,
        vec![("c", 1, "uses"), ("a", 1, "imports"), ("b", 1, "imports"), ("d", 1, "other"), ("z", 2, "uses")]
    );
}

#[test]
fn sorting_no_dependents_yields_none() {
    assert!(sort_dependents(Vec::new()).is_empty());
}

/// The dependents of `seeds` over `edges` (source, kind, destination) within `horizon` hops.
fn walk(seeds: &[&str], edges: &[(&str, &str, &str)], horizon: u32) -> Vec<DependentRow> {
    let seeds: Vec<CanonicalId> = seeds.iter().map(|s| CanonicalId::from_raw(s)).collect();
    let edges: Vec<(String, String, String)> =
        edges.iter().map(|(s, k, d)| (s.to_string(), k.to_string(), d.to_string())).collect();
    dependents_within(&edges, &seeds, horizon)
}

// A frontier wider than the store's query batch (900 bound parameters) is still walked within one
// round: a dependent reaching the frontier through every part of it is reported once at its
// shortest distance.
#[test]
fn a_frontier_wider_than_the_batch_limit_batches_within_the_round() {
    let n = 900 + 200;
    let names: Vec<String> = (0..n).map(|i| format!("ws::w_{i}")).collect();
    let mut edges: Vec<(&str, &str, &str)> = Vec::new();
    for name in &names {
        edges.push((name.as_str(), "uses", "ws::seed"));
        edges.push(("ws::outer", "uses", name.as_str()));
    }
    let deps = walk(&["ws::seed"], &edges, 16);
    assert_eq!(deps.len(), n + 1, "all direct dependents plus outer");
    let outer_rows: Vec<_> = deps.iter().filter(|d| d.id.as_str() == "ws::outer").collect();
    assert_eq!(outer_rows.len(), 1, "outer reported once despite reaching every chunk");
    assert_eq!(outer_rows[0].depth, 2);
}

#[test]
fn each_dependent_is_reported_at_its_shortest_distance_with_the_least_kind() {
    let edges = [
        ("b", "imports", "a"),
        ("b", "uses", "a"),
        ("c", "type_hierarchy", "b"),
        ("c", "uses", "a"),
        ("d", "uses", "c"),
    ];
    let deps = walk(&["a"], &edges, 16);
    let got: Vec<(&str, u32, &str)> = deps.iter().map(|r| (r.id.as_str(), r.depth, r.kind.as_str())).collect();
    assert_eq!(got, vec![("b", 1, "uses"), ("c", 1, "uses"), ("d", 2, "uses")]);
    // The horizon bounds the walk.
    assert_eq!(walk(&["a"], &edges, 1).len(), 2);
    // No seeds, no dependents.
    assert!(walk(&[], &edges, 16).is_empty());
}

#[test]
fn a_seed_depending_on_another_seed_is_reported_as_its_dependent() {
    let edges = [("s2", "uses", "s1"), ("x", "uses", "s2")];
    let deps = walk(&["s1", "s2"], &edges, 16);
    let got: Vec<(&str, u32)> = deps.iter().map(|r| (r.id.as_str(), r.depth)).collect();
    assert_eq!(got, vec![("s2", 1), ("x", 1)]);
}

#[test]
fn every_report_lies_within_the_rounds_run() {
    let edges = [("b", "uses", "a"), ("c", "uses", "b"), ("d", "imports", "c"), ("e", "uses", "d")];
    for horizon in 1..=4u32 {
        let rows = walk(&["a"], &edges, horizon);
        assert_eq!(rows.len() as u32, horizon);
        assert!(rows.iter().all(|r| 1 <= r.depth && r.depth <= horizon));
    }
}

#[test]
fn contains_edges_never_count_and_a_lone_seed_is_not_its_own_dependent() {
    let edges = [("p", "contains", "a"), ("a", "uses", "a"), ("q", "uses", "p")];
    assert!(walk(&["a"], &edges, 8).is_empty());
    let deps = walk(&["a", "b"], &[("a", "uses", "x"), ("x", "imports", "b"), ("b", "uses", "a")], 8);
    let got: Vec<(&str, u32, &str)> = deps.iter().map(|r| (r.id.as_str(), r.depth, r.kind.as_str())).collect();
    assert_eq!(got, vec![("b", 1, "uses"), ("x", 1, "imports"), ("a", 2, "uses")]);
}
