use std::collections::HashMap;
use std::collections::HashSet;
use waitforgraph::graph::dot::render;
use waitforgraph::graph::dot::render_tiny;
use waitforgraph::graph::Edge;
use waitforgraph::graph::WFGraph;
use waitforgraph::lock::LockInfo;
use waitforgraph::lock::LockMode;
use waitforgraph::lock::LockObj;
use waitforgraph::subgraph::induced;
use waitforgraph::subgraph::members;
use waitforgraph::subgraph::reachable;

fn relation(id: i64) -> LockObj {
    let mut obj = LockObj::default();
    obj.relation = Some(id);
    obj
}

fn edges_of(g: &WFGraph) -> HashSet<Edge> {
    let mut set = HashSet::new();
    for id in 0..g.edge_count() {
        assert!(set.insert(g.edge(id)));
    }
    set
}

fn sorted(mut v: Vec<i64>) -> Vec<i64> {
    v.sort();
    v
}

#[test]
fn exclusive_request_waits_for_share_holder() {
    let mut info = LockInfo::new();
    let target = info.get_objid(relation(100));
    info.add_waiter(target, LockMode::AccessExclusiveLock, 10);
    info.add_granted(target, LockMode::AccessShareLock, 20);
    let g = WFGraph::new(info);
    assert_eq!(g.edge_count(), 1);
    let e = g.edge(0);
    assert_eq!(
        e,
        Edge {
            waiter: 10,
            holder: 20,
            wait: LockMode::AccessExclusiveLock,
            hold: LockMode::AccessShareLock,
            obj: target,
        }
    );
    assert_eq!(sorted(g.sessions()), vec![10, 20]);
}

#[test]
fn share_request_does_not_wait_for_share_holder() {
    let mut info = LockInfo::new();
    let target = info.get_objid(relation(200));
    info.add_waiter(target, LockMode::AccessShareLock, 11);
    info.add_granted(target, LockMode::AccessShareLock, 21);
    let g = WFGraph::new(info);
    assert_eq!(g.edge_count(), 0);
    assert!(g.sessions().is_empty());
}

#[test]
fn no_edge_from_a_session_to_itself() {
    let mut info = LockInfo::new();
    let target = info.get_objid(relation(1));
    info.add_waiter(target, LockMode::ExclusiveLock, 5);
    info.add_granted(target, LockMode::ExclusiveLock, 5);
    info.add_granted(target, LockMode::ExclusiveLock, 6);
    let g = WFGraph::new(info);
    let edges = edges_of(&g);
    assert_eq!(edges.len(), 1);
    for e in edges.iter() {
        assert_ne!(e.waiter, e.holder);
        assert_eq!((e.waiter, e.holder), (5, 6));
    }
}

#[test]
fn same_pair_on_two_targets_gives_two_edges() {
    let mut info = LockInfo::new();
    let a = info.get_objid(relation(1));
    let b = info.get_objid(relation(2));
    assert_ne!(a, b);
    info.add_waiter(a, LockMode::AccessExclusiveLock, 1);
    info.add_waiter(b, LockMode::AccessExclusiveLock, 1);
    info.add_granted(a, LockMode::RowShareLock, 2);
    info.add_granted(b, LockMode::RowShareLock, 2);
    let g = WFGraph::new(info);
    assert_eq!(g.edge_count(), 2);
    assert_eq!(sorted(g.sessions()), vec![1, 2]);
    let text = render(&g);
    assert_eq!(text.matches("1 -> 2").count(), 2);
}

#[test]
fn repeated_request_gives_one_edge() {
    let mut info = LockInfo::new();
    let a = info.get_objid(relation(1));
    info.add_waiter(a, LockMode::ShareLock, 1);
    info.add_waiter(a, LockMode::ShareLock, 1);
    info.add_granted(a, LockMode::RowExclusiveLock, 2);
    let g = WFGraph::new(info);
    assert_eq!(g.edge_count(), 1);
}

#[test]
fn building_twice_gives_the_same_sets() {
    let build = || {
        let mut info = LockInfo::new();
        let a = info.get_objid(relation(1));
        let b = info.get_objid(relation(2));
        info.add_waiter(a, LockMode::ShareLock, 1);
        info.add_waiter(b, LockMode::ExclusiveLock, 3);
        info.add_waiter(a, LockMode::AccessExclusiveLock, 4);
        info.add_granted(a, LockMode::RowExclusiveLock, 2);
        info.add_granted(b, LockMode::RowShareLock, 1);
        info.add_granted(b, LockMode::AccessShareLock, 9);
        WFGraph::new(info)
    };
    let g1 = build();
    let g2 = build();
    assert_eq!(edges_of(&g1), edges_of(&g2));
    assert_eq!(sorted(g1.sessions()), sorted(g2.sessions()));
    assert_eq!(sorted(g1.sessions()), vec![1, 2, 3, 4]);
    assert_eq!(edges_of(&g1).len(), 3);
}

#[test]
fn render_of_one_edge() {
    let mut info = LockInfo::new();
    let target = info.get_objid(relation(100));
    info.add_waiter(target, LockMode::AccessExclusiveLock, 10);
    info.add_granted(target, LockMode::AccessShareLock, 20);
    let g = WFGraph::new(info);
    let text = render(&g);
    let a = "strict digraph G {\nlabel=\"WaitForGraph - Generated By hidva/waitforgraph\";\n10;\n20;\n10 -> 20\n}\n/*大吉大利~\nsession 10 waits for AccessExclusiveLock on relation=100; blocked by session 20(granted AccessShareLock);\n*/";
    let b = "strict digraph G {\nlabel=\"WaitForGraph - Generated By hidva/waitforgraph\";\n20;\n10;\n10 -> 20\n}\n/*大吉大利~\nsession 10 waits for AccessExclusiveLock on relation=100; blocked by session 20(granted AccessShareLock);\n*/";
    assert!(text == a || text == b);
}

fn chain() -> HashMap<i64, Vec<i64>> {
    let mut graph = HashMap::new();
    graph.insert(1, vec![2]);
    graph.insert(2, vec![3]);
    graph.insert(4, vec![5]);
    graph
}

#[test]
fn subgraph_of_a_chain() {
    let graph = chain();
    let meet = reachable(&graph, 1);
    let want: HashSet<i64> = [1, 2, 3].into_iter().collect();
    assert_eq!(meet, want);
    let verts = sorted(members(&meet));
    assert_eq!(verts, vec![1, 2, 3]);
    let arcs = induced(&graph, &verts);
    assert_eq!(arcs, vec![(1, 2), (2, 3)]);
    assert_eq!(
        render_tiny(&graph, &verts),
        "strict digraph G {\nlabel=\"WaitForGraph - Generated By hidva/waitforgraph\";\n1;\n2;\n3;\n1 -> 2\n2 -> 3\n}\n/*大吉大利~\n*/"
    );
}

#[test]
fn reachable_walks_a_cycle_once() {
    let mut graph = HashMap::new();
    graph.insert(1, vec![2, 2]);
    graph.insert(2, vec![3]);
    graph.insert(3, vec![1, 4]);
    graph.insert(7, vec![1]);
    let meet = reachable(&graph, 2);
    let want: HashSet<i64> = [1, 2, 3, 4].into_iter().collect();
    assert_eq!(meet, want);
}

#[test]
fn reachable_from_an_unknown_session_is_itself() {
    let graph = chain();
    let meet = reachable(&graph, 42);
    let want: HashSet<i64> = [42].into_iter().collect();
    assert_eq!(meet, want);
}

#[test]
fn a_vertex_knows_its_edges() {
    let mut info = LockInfo::new();
    let a = info.get_objid(relation(1));
    info.add_waiter(a, LockMode::ExclusiveLock, 1);
    info.add_waiter(a, LockMode::AccessExclusiveLock, 3);
    info.add_granted(a, LockMode::RowShareLock, 2);
    info.add_granted(a, LockMode::RowShareLock, 3);
    let g = WFGraph::new(info);
    assert_eq!(g.edge_count(), 3);
    assert_eq!(sorted(g.sessions()), vec![1, 2, 3]);
    assert!(g.vertex(4).is_none());
    for s in [1, 2, 3] {
        let vert = g.vertex(s).unwrap();
        let out: HashSet<usize> = (0..g.edge_count()).filter(|id| g.edge(*id).waiter == s).collect();
        let inn: HashSet<usize> = (0..g.edge_count()).filter(|id| g.edge(*id).holder == s).collect();
        assert_eq!(vert.edges_out(), &out);
        assert_eq!(vert.edges_in(), &inn);
    }
    assert_eq!(g.vertex(1).unwrap().edges_out().len(), 2);
    assert_eq!(g.vertex(2).unwrap().edges_in().len(), 2);
    assert_eq!(g.vertex(3).unwrap().edges_in().len(), 1);
    assert_eq!(g.vertex(3).unwrap().edges_out().len(), 1);
    assert_eq!(g.get_obj(a).relation, Some(1));
}

#[test]
fn the_empty_graph() {
    let g = WFGraph::default();
    assert_eq!(g.edge_count(), 0);
    assert!(g.sessions().is_empty());
    assert_eq!(
        render(&g),
        "strict digraph G {\nlabel=\"WaitForGraph - Generated By hidva/waitforgraph\";\n}\n/*大吉大利~\n*/"
    );
    let g = WFGraph::new(LockInfo::default());
    assert_eq!(g.edge_count(), 0);
}

#[test]
fn sentences_of_two_edges() {
    let mut info = LockInfo::new();
    let mut obj = relation(7);
    obj.locktype = Some(String::from("relation"));
    let a = info.get_objid(obj);
    info.add_waiter(a, LockMode::ShareLock, -5);
    info.add_granted(a, LockMode::RowExclusiveLock, 8);
    let g = WFGraph::new(info);
    let e = g.edge(0);
    assert_eq!(
        g.desc_edge(&e),
        "session -5 waits for ShareLock on locktype=relation,relation=7; blocked by session 8(granted RowExclusiveLock);"
    );
}

#[test]
fn members_and_induced_arcs() {
    let mut graph = HashMap::new();
    graph.insert(1, vec![2, 3, 2]);
    graph.insert(3, vec![1]);
    let set: HashSet<i64> = [3, 1, 9].into_iter().collect();
    assert_eq!(sorted(members(&set)), vec![1, 3, 9]);
    assert_eq!(induced(&graph, &vec![3, 9, 1]), vec![(3, 1), (1, 2), (1, 3), (1, 2)]);
    assert_eq!(induced(&graph, &vec![]), vec![]);
    assert_eq!(
        render_tiny(&graph, &vec![3, 9]),
        "strict digraph G {\nlabel=\"WaitForGraph - Generated By hidva/waitforgraph\";\n3;\n9;\n3 -> 1\n}\n/*大吉大利~\n*/"
    );
}
