use std::collections::{BTreeSet, HashMap};

use txgraph::identity::str_to_uuid;
use txgraph::output::edge_line;
use txgraph::traversal::{Direction, EdgeOutcome, EdgeRow, FetchedEdge, Traversal, VertexRef};

/// A small in-memory store: vertices by label, edges as (from, to, label).
struct Store {
    vertices: Vec<String>,
    edges: Vec<(String, String, String)>,
}

impl Store {
    fn new(vertices: &[&str], edges: &[(&str, &str, &str)]) -> Store {
        Store {
            vertices: vertices.iter().map(|v| v.to_string()).collect(),
            edges: edges
                .iter()
                .map(|(a, b, l)| (a.to_string(), b.to_string(), l.to_string()))
                .collect(),
        }
    }

    fn vertex(&self, label: &str) -> Option<VertexRef> {
        self.vertices
            .iter()
            .find(|v| v.as_str() == label)
            .map(|v| VertexRef { id: str_to_uuid(v), label: v.clone() })
    }

    fn fetch(&self, v: &VertexRef, outbound: bool) -> Vec<FetchedEdge> {
        let by_id: HashMap<u128, &String> = self.vertices.iter().map(|l| (str_to_uuid(l), l)).collect();
        self.edges
            .iter()
            .filter(|(a, b, _)| if outbound { str_to_uuid(a) == v.id } else { str_to_uuid(b) == v.id })
            .map(|(a, b, l)| {
                let far = if outbound { b } else { a };
                FetchedEdge {
                    outbound_id: str_to_uuid(a),
                    inbound_id: str_to_uuid(b),
                    label: l.clone(),
                    far: by_id.get(&str_to_uuid(far)).and_then(|f| self.vertex(f)),
                }
            })
            .collect()
    }
}

fn run(store: &Store, seeds: &[&str], hop: usize, direction: Direction) -> (Vec<(String, String, String)>, Vec<EdgeOutcome>) {
    let seeds: Vec<VertexRef> = seeds.iter().filter_map(|s| store.vertex(s)).collect();
    let mut t = Traversal::new(seeds, hop, direction);
    let mut rows = Vec::new();
    let mut skipped = Vec::new();
    while let Some(v) = t.next_vertex() {
        let outs = store.fetch(&v, true);
        let ins = store.fetch(&v, false);
        for o in t.expand(&outs, &ins) {
            match o {
                EdgeOutcome::Emitted(r) => rows.push((r.from, r.to, r.label)),
                other => skipped.push(other),
            }
        }
    }
    (rows, skipped)
}

fn as_set(rows: &[(String, String, String)]) -> BTreeSet<(String, String, String)> {
    rows.iter().cloned().collect()
}

fn row(a: &str, b: &str, l: &str) -> (String, String, String) {
    (a.to_string(), b.to_string(), l.to_string())
}

#[test]
fn two_hop_outbound_chain() {
    let store = Store::new(&["A", "B", "C", "D"], &[("A", "B", "tx1"), ("B", "C", "tx2")]);
    let (rows, skipped) = run(&store, &["A"], 2, Direction::Out);
    assert_eq!(as_set(&rows), as_set(&[row("A", "B", "tx1"), row("B", "C", "tx2")]));
    assert!(rows.iter().all(|(a, b, _)| a != "D" && b != "D"));
    assert!(skipped.is_empty());
    let (again, _) = run(&store, &["A"], 2, Direction::Out);
    assert_eq!(as_set(&rows), as_set(&again));
}

#[test]
fn zero_hops_emit_nothing() {
    let store = Store::new(&["A", "B"], &[("A", "B", "tx1")]);
    let (rows, _) = run(&store, &["A"], 0, Direction::Both);
    assert!(rows.is_empty());
}

#[test]
fn hop_budget_bounds_the_walk() {
    let store = Store::new(&["A", "B", "C", "D"], &[("A", "B", "t1"), ("B", "C", "t2"), ("C", "D", "t3")]);
    let (one, _) = run(&store, &["A"], 1, Direction::Out);
    assert_eq!(as_set(&one), as_set(&[row("A", "B", "t1")]));
    let (two, _) = run(&store, &["A"], 2, Direction::Out);
    assert_eq!(as_set(&two), as_set(&[row("A", "B", "t1"), row("B", "C", "t2")]));
}

#[test]
fn inbound_walk_keeps_edge_orientation() {
    let store = Store::new(&["A", "B", "C"], &[("A", "B", "tx1"), ("B", "C", "tx2")]);
    let (rows, _) = run(&store, &["C"], 2, Direction::In);
    assert_eq!(as_set(&rows), as_set(&[row("B", "C", "tx2"), row("A", "B", "tx1")]));
}

#[test]
fn cycles_emit_each_edge_once() {
    let store = Store::new(
        &["A", "B", "C"],
        &[("A", "B", "t1"), ("B", "A", "t2"), ("A", "A", "t3"), ("B", "C", "t4"), ("C", "A", "t5")],
    );
    let (rows, _) = run(&store, &["A", "B"], 6, Direction::Both);
    let labels: Vec<&String> = rows.iter().map(|(_, _, l)| l).collect();
    let distinct: BTreeSet<&String> = labels.iter().cloned().collect();
    assert_eq!(labels.len(), distinct.len());
    assert_eq!(distinct.len(), 5);
}

#[test]
fn parallel_edges_are_distinct() {
    let store = Store::new(&["A", "B"], &[("A", "B", "t1"), ("A", "B", "t2")]);
    let (rows, _) = run(&store, &["A"], 1, Direction::Out);
    assert_eq!(as_set(&rows), as_set(&[row("A", "B", "t1"), row("A", "B", "t2")]));
}

#[test]
fn repeated_label_is_taken_once() {
    let store = Store::new(&["V", "X", "Y"], &[("V", "X", "dup"), ("V", "Y", "dup")]);
    let (rows, skipped) = run(&store, &["V"], 1, Direction::Out);
    assert_eq!(rows, vec![row("V", "X", "dup")]);
    assert!(skipped.is_empty());
}

#[test]
fn duplicate_seeds_are_expanded_once() {
    let store = Store::new(&["A", "B"], &[("A", "B", "t1")]);
    let a = store.vertex("A").unwrap();
    let a2 = store.vertex("A").unwrap();
    let mut t = Traversal::new(vec![a, a2], 1, Direction::Out);
    let first = t.next_vertex().unwrap();
    assert_eq!(first.label, "A");
    let outs = store.fetch(&first, true);
    assert_eq!(t.expand(&outs, &Vec::new()).len(), 1);
    assert!(t.next_vertex().is_none());
}

#[test]
fn missing_vertex_is_reported_dangling() {
    let store = Store::new(&["A"], &[("A", "Z", "t1")]);
    let (rows, skipped) = run(&store, &["A"], 2, Direction::Out);
    assert!(rows.is_empty());
    assert_eq!(skipped.len(), 1);
    assert!(matches!(&skipped[0], EdgeOutcome::Dangling(l) if l == "t1"));
}

#[test]
fn edge_of_another_vertex_is_reported_corrupt() {
    let store = Store::new(&["A", "B", "C"], &[("B", "C", "t9")]);
    let a = store.vertex("A").unwrap();
    let b = store.vertex("B").unwrap();
    let mut t = Traversal::new(vec![a], 1, Direction::Out);
    let v = t.next_vertex().unwrap();
    let wrong = store.fetch(&b, true);
    let out = t.expand(&wrong, &Vec::new());
    assert_eq!(out.len(), 1);
    assert!(matches!(&out[0], EdgeOutcome::Corrupt(l) if l == "t9"));
    assert_eq!(v.label, "A");
}

#[test]
fn expand_without_current_vertex_does_nothing() {
    let mut t = Traversal::new(Vec::new(), 3, Direction::Both);
    assert!(t.next_vertex().is_none());
    assert!(t.expand(&Vec::new(), &Vec::new()).is_empty());
}

#[test]
fn edge_line_joins_fields() {
    let r = EdgeRow { from: "A".to_string(), to: "B".to_string(), label: "tx1".to_string() };
    assert_eq!(edge_line(&r, b' '), b"A B tx1\n".to_vec());
    assert_eq!(edge_line(&r, b','), b"A,B,tx1\n".to_vec());
}

#[test]
fn vertex_reached_by_two_parents_is_expanded_once() {
    let store = Store::new(
        &["A", "B", "C", "D", "E"],
        &[("A", "B", "t1"), ("A", "C", "t2"), ("B", "D", "t3"), ("C", "D", "t4"), ("D", "E", "t5")],
    );
    let seeds = vec![store.vertex("A").unwrap()];
    let mut t = Traversal::new(seeds, 3, Direction::Out);
    let mut expanded = Vec::new();
    let mut labels = Vec::new();
    while let Some(v) = t.next_vertex() {
        expanded.push(v.label.clone());
        let outs = store.fetch(&v, true);
        for o in t.expand(&outs, &Vec::new()) {
            if let EdgeOutcome::Emitted(r) = o {
                labels.push(r.label);
            }
        }
    }
    assert_eq!(expanded, vec!["A", "B", "C", "D"]);
    assert_eq!(labels, vec!["t1", "t2", "t3", "t4", "t5"]);
}
