//! The blocking chain of one session: what can be reached from it along
//! waiter-to-holder edges.

use vstd::prelude::*;
use std::collections::HashMap;
use std::collections::HashSet;
use vstd::std_specs::hash::*;
use vstd::std_specs::iter::IteratorSpec;
use vstd::set_lib::lemma_len_subset;
use crate::lock::SessionId;
use crate::get_or_default_ex;
use crate::text::chars_of;
use crate::text::find_sub;
use crate::text::first_occurrence;
use crate::text::occurs;
use crate::text::parse_i64;
use crate::text::parse_i64_spec;
use crate::text::slice;
use crate::text::trim;
use crate::text::trimmed;

verus! {

/// The adjacency relation that a map of successor lists stands for.
pub open spec fn adjacency(graph: Map<SessionId, Vec<SessionId>>) -> Map<
    SessionId,
    Seq<SessionId>,
> {
    Map::new(|a: SessionId| graph.contains_key(a), |a: SessionId| graph[a]@)
}

/// `a` waits for `b` directly.
pub open spec fn arc(adj: Map<SessionId, Seq<SessionId>>, a: SessionId, b: SessionId) -> bool {
    adj.contains_key(a) && adj[a].contains(b)
}

/// `p` is a walk along the arcs of `adj`, of at least one session.
pub open spec fn is_path(adj: Map<SessionId, Seq<SessionId>>, p: Seq<SessionId>) -> bool {
    &&& p.len() >= 1
    &&& forall|i: int| 0 <= i < p.len() - 1 ==> arc(adj, #[trigger] p[i], p[i + 1])
}

/// `to` can be reached from `from` in zero or more steps.
pub open spec fn reaches(adj: Map<SessionId, Seq<SessionId>>, from: SessionId, to: SessionId)
    -> bool {
    exists|p: Seq<SessionId>| #[trigger] is_path(adj, p) && p[0] == from && p.last() == to
}

/// `set` holds every direct successor of each of its members.
pub open spec fn closed_under(adj: Map<SessionId, Seq<SessionId>>, set: Set<SessionId>) -> bool {
    forall|a: SessionId, b: SessionId| set.contains(a) && #[trigger] arc(adj, a, b) ==> set.contains(b)
}

/// Everything that can be reached from `from`.
pub open spec fn reach_set(adj: Map<SessionId, Seq<SessionId>>, from: SessionId) -> Set<SessionId> {
    Set::new(|y: SessionId| reaches(adj, from, y))
}

/// Every session reaches itself.
pub proof fn lemma_reaches_self(adj: Map<SessionId, Seq<SessionId>>, x: SessionId)
    ensures
        reaches(adj, x, x),
{
    let p = seq![x];
    assert(is_path(adj, p) && p[0] == x && p.last() == x);
}

/// What is reached stays reached one arc further.
pub proof fn lemma_reaches_step(
    adj: Map<SessionId, Seq<SessionId>>,
    x: SessionId,
    a: SessionId,
    b: SessionId,
)
    requires
        reaches(adj, x, a),
        arc(adj, a, b),
    ensures
        reaches(adj, x, b),
{
    let p = choose|p: Seq<SessionId>| #[trigger] is_path(adj, p) && p[0] == x && p.last() == a;
    let q = p.push(b);
    assert forall|i: int| 0 <= i < q.len() - 1 implies arc(adj, #[trigger] q[i], q[i + 1]) by {
        if i < p.len() - 1 {
            assert(q[i] == p[i] && q[i + 1] == p[i + 1]);
        }
    }
    assert(is_path(adj, q) && q[0] == x && q.last() == b);
}

proof fn lemma_path_stays(adj: Map<SessionId, Seq<SessionId>>, set: Set<SessionId>, p: Seq<SessionId>)
    requires
        is_path(adj, p),
        set.contains(p[0]),
        closed_under(adj, set),
    ensures
        set.contains(p.last()),
    decreases p.len(),
{
    if p.len() > 1 {
        let q = p.drop_last();
        assert forall|i: int| 0 <= i < q.len() - 1 implies arc(adj, #[trigger] q[i], q[i + 1]) by {
            assert(q[i] == p[i] && q[i + 1] == p[i + 1]);
        }
        lemma_path_stays(adj, set, q);
        assert(arc(adj, p[p.len() - 2], p[p.len() - 2 + 1]));
        assert(q.last() == p[p.len() - 2]);
    }
}

/// What can be reached from `x` is the least set that holds `x` and is
/// closed under the arcs: it holds `x`, it is closed, and every set with
/// these two properties includes it.
pub proof fn lemma_reach_set_is_least_fixed_point(adj: Map<SessionId, Seq<SessionId>>, x: SessionId)
    ensures
        reach_set(adj, x).contains(x),
        closed_under(adj, reach_set(adj, x)),
        forall|set: Set<SessionId>|
            set.contains(x) && #[trigger] closed_under(adj, set) ==> reach_set(adj, x).subset_of(set),
{
    lemma_reaches_self(adj, x);
    assert forall|a: SessionId, b: SessionId|
        reach_set(adj, x).contains(a) && #[trigger] arc(adj, a, b) implies reach_set(
        adj,
        x,
    ).contains(b) by {
        lemma_reaches_step(adj, x, a, b);
    }
    assert forall|set: Set<SessionId>|
        set.contains(x) && #[trigger] closed_under(adj, set) implies reach_set(adj, x).subset_of(
        set,
    ) by {
        assert forall|y: SessionId| reach_set(adj, x).contains(y) implies set.contains(y) by {
            let p = choose|p: Seq<SessionId>| #[trigger]
                is_path(adj, p) && p[0] == x && p.last() == y;
            lemma_path_stays(adj, set, p);
        }
    }
}

/// The successors of the sessions in `keys`, all together.
spec fn successors(adj: Map<SessionId, Seq<SessionId>>, keys: Set<SessionId>) -> Set<SessionId>
    decreases keys.len(),
    when keys.finite()
{
    if keys.is_empty() {
        Set::empty()
    } else {
        let k = keys.choose();
        adj[k].to_set().union(successors(adj, keys.remove(k)))
    }
}

proof fn lemma_successors(adj: Map<SessionId, Seq<SessionId>>, keys: Set<SessionId>)
    requires
        keys.finite(),
    ensures
        successors(adj, keys).finite(),
        forall|a: SessionId, b: SessionId|
            keys.contains(a) && #[trigger] adj[a].contains(b) ==> successors(adj, keys).contains(b),
    decreases keys.len(),
{
    if !keys.is_empty() {
        let k = keys.choose();
        lemma_successors(adj, keys.remove(k));
        vstd::seq_lib::seq_to_set_is_finite(adj[k]);
        assert forall|a: SessionId, b: SessionId|
            keys.contains(a) && #[trigger] adj[a].contains(b) implies successors(
            adj,
            keys,
        ).contains(b) by {
            if a == k {
                assert(adj[k].to_set().contains(b));
            } else {
                assert(keys.remove(k).contains(a));
            }
        }
    }
}

/// The sessions that can be reached from `from` along the arcs of `graph`,
/// `from` among them.  Cycles are walked once.
pub fn reachable(graph: &HashMap<SessionId, Vec<SessionId>>, from: SessionId) -> (meet: HashSet<
    SessionId,
>)
    ensures
        meet@ == reach_set(adjacency(graph@), from),
{
    broadcast use group_hash_axioms;

    let ghost adj = adjacency(graph@);
    let ghost universe = successors(adj, adj.dom()).insert(from);
    proof {
        assert(adj.dom() =~= graph@.dom());
        lemma_successors(adj, adj.dom());
        lemma_reaches_self(adj, from);
    }
    let mut meet: HashSet<SessionId> = HashSet::new();
    let mut queue: Vec<SessionId> = Vec::new();
    queue.push(from);
    meet.insert(from);
    assert(queue@[0] == from);
    while queue.len() > 0
        invariant
            adj == adjacency(graph@),
            universe.finite(),
            meet@.finite(),
            meet@.subset_of(universe),
            forall|a: SessionId, b: SessionId| #[trigger] arc(adj, a, b) ==> universe.contains(b),
            forall|y: SessionId| #[trigger] meet@.contains(y) ==> reaches(adj, from, y),
            meet@.contains(from),
            forall|i: int| 0 <= i < queue@.len() ==> meet@.contains(#[trigger] queue@[i]),
            forall|a: SessionId, b: SessionId|
                meet@.contains(a) && !queue@.contains(a) && #[trigger] arc(adj, a, b)
                    ==> meet@.contains(b),
        decreases universe.len() - meet@.len(), queue@.len(),
    {
        let ghost before = queue@;
        let ghost met = meet@;
        proof {
            lemma_len_subset(meet@, universe);
        }
        let sessid = queue.pop().unwrap();
        let ghost pending = queue@;
        assert(forall|a: SessionId| before.contains(a) ==> a == sessid || pending.contains(a)) by {
            assert forall|a: SessionId| before.contains(a) implies a == sessid || pending.contains(
                a,
            ) by {
                let i = choose|i: int| 0 <= i < before.len() && before[i] == a;
                if i < pending.len() {
                    assert(pending[i] == a);
                }
            }
        }
        assert(meet@.contains(sessid)) by {
            assert(before[before.len() - 1] == sessid);
        }
        match graph.get(&sessid) {
            Some(deps) => {
                let mut j: usize = 0;
                while j < deps.len()
                    invariant
                        adj == adjacency(graph@),
                        adj.contains_key(sessid),
                        adj[sessid] == deps@,
                        j <= deps@.len(),
                        universe.finite(),
                        meet@.finite(),
                        meet@.subset_of(universe),
                        met.subset_of(meet@),
                        met.finite(),
                        meet@ == met ==> queue@ == pending,
                        forall|a: SessionId, b: SessionId| #[trigger]
                            arc(adj, a, b) ==> universe.contains(b),
                        forall|y: SessionId| #[trigger]
                            meet@.contains(y) ==> reaches(adj, from, y),
                        meet@.contains(from),
                        meet@.contains(sessid),
                        forall|i: int| 0 <= i < queue@.len() ==> meet@.contains(#[trigger] queue@[i]),
                        forall|i: int| 0 <= i < j ==> meet@.contains(#[trigger] deps@[i]),
                        forall|a: SessionId, b: SessionId|
                            meet@.contains(a) && !queue@.contains(a) && a != sessid && #[trigger] arc(
                                adj,
                                a,
                                b,
                            ) ==> meet@.contains(b),
                    decreases deps@.len() - j,
                {
                    let dep = deps[j];
                    proof {
                        assert(arc(adj, sessid, dep));
                        lemma_reaches_step(adj, from, sessid, dep);
                    }
                    if !meet.contains(&dep) {
                        let ghost line = queue@;
                        queue.push(dep);
                        meet.insert(dep);
                        proof {
                            assert forall|a: SessionId| line.contains(a) implies queue@.contains(
                                a,
                            ) by {
                                let i = choose|i: int| 0 <= i < line.len() && line[i] == a;
                                assert(queue@[i] == a);
                            }
                            assert(queue@[queue@.len() - 1] == dep);
                        }
                    }
                    j += 1;
                }
                proof {
                    assert forall|b: SessionId| arc(adj, sessid, b) implies meet@.contains(b) by {
                        let i = choose|i: int| 0 <= i < deps@.len() && deps@[i] == b;
                        assert(meet@.contains(deps@[i]));
                    }
                }
            },
            None => {},
        }
        proof {
            lemma_len_subset(met, meet@);
            lemma_len_subset(meet@, universe);
            if met.len() == meet@.len() {
                vstd::set_lib::lemma_subset_equality(met, meet@);
            }
        }
    }
    proof {
        lemma_reach_set_is_least_fixed_point(adj, from);
        assert(closed_under(adj, meet@)) by {
            assert forall|a: SessionId, b: SessionId| meet@.contains(a) && #[trigger] arc(
                adj,
                a,
                b,
            ) implies meet@.contains(b) by {
                assert(!queue@.contains(a));
            }
        }
        assert(reach_set(adj, from).subset_of(meet@));
        assert(meet@ =~= reach_set(adj, from));
    }
    meet
}

/// The arcs from `a` to each of `targets`, in order.
pub open spec fn arcs_from(a: SessionId, targets: Seq<SessionId>) -> Seq<(SessionId, SessionId)> {
    Seq::new(targets.len(), |i: int| (a, targets[i]))
}

/// The arcs of `adj` that start at a session of `verts`: for each session
/// in the order of `verts`, its arcs in the order of its successor list.
pub open spec fn induced_arcs(adj: Map<SessionId, Seq<SessionId>>, verts: Seq<SessionId>) -> Seq<
    (SessionId, SessionId),
>
    decreases verts.len(),
{
    if verts.len() == 0 {
        Seq::empty()
    } else {
        induced_arcs(adj, verts.drop_last()) + (if adj.contains_key(verts.last()) {
            arcs_from(verts.last(), adj[verts.last()])
        } else {
            Seq::empty()
        })
    }
}

/// The induced arcs are the arcs whose source is listed.
pub proof fn lemma_induced_arcs(
    adj: Map<SessionId, Seq<SessionId>>,
    verts: Seq<SessionId>,
    a: SessionId,
    b: SessionId,
)
    ensures
        induced_arcs(adj, verts).contains((a, b)) <==> verts.contains(a) && arc(adj, a, b),
    decreases verts.len(),
{
    if verts.len() > 0 {
        let rest = verts.drop_last();
        let v = verts.last();
        let head = induced_arcs(adj, rest);
        let tail = if adj.contains_key(v) {
            arcs_from(v, adj[v])
        } else {
            Seq::empty()
        };
        lemma_induced_arcs(adj, rest, a, b);
        if head.contains((a, b)) {
            let i = choose|i: int| 0 <= i < head.len() && head[i] == (a, b);
            assert((head + tail)[i] == (a, b));
            let j = choose|j: int| 0 <= j < rest.len() && rest[j] == a;
            assert(verts[j] == a);
        }
        if tail.contains((a, b)) {
            let i = choose|i: int| 0 <= i < tail.len() && tail[i] == (a, b);
            assert((head + tail)[head.len() + i] == (a, b));
            assert(adj[v][i] == b);
            assert(verts[verts.len() - 1] == a);
        }
        if (head + tail).contains((a, b)) {
            let i = choose|i: int| 0 <= i < (head + tail).len() && (head + tail)[i] == (a, b);
            if i < head.len() {
                assert(head[i] == (a, b));
            } else {
                assert(tail[i - head.len()] == (a, b));
            }
        }
        if verts.contains(a) && arc(adj, a, b) {
            let j = choose|j: int| 0 <= j < verts.len() && verts[j] == a;
            if j < rest.len() {
                assert(rest[j] == a);
            } else {
                let i = choose|i: int| 0 <= i < adj[v].len() && adj[v][i] == b;
                assert(tail[i] == (a, b));
            }
        }
    }
}

/// The members of a set, each once, in no particular order.
pub fn members(set: &HashSet<SessionId>) -> (list: Vec<SessionId>)
    ensures
        list@.no_duplicates(),
        list@.to_set() == set@,
{
    broadcast use group_hash_axioms;

    let mut list: Vec<SessionId> = Vec::new();
    let ghost order = set.iter().remaining();
    for s in it: set.iter()
        invariant
            it.seq() == order,
            list@.len() == it.index(),
            forall|j: int| 0 <= j < list@.len() ==> list@[j] == *order[j],
    {
        list.push(*s);
    }
    proof {
        assert(list@ =~= order.unref());
    }
    list
}

/// The arcs of `graph` that start at a session of `verts`.
pub fn induced(graph: &HashMap<SessionId, Vec<SessionId>>, verts: &Vec<SessionId>) -> (arcs: Vec<
    (SessionId, SessionId),
>)
    ensures
        arcs@ == induced_arcs(adjacency(graph@), verts@),
{
    broadcast use group_hash_axioms;

    let ghost adj = adjacency(graph@);
    let mut arcs: Vec<(SessionId, SessionId)> = Vec::new();
    let mut i: usize = 0;
    assert(verts@.subrange(0, 0) =~= Seq::<SessionId>::empty());
    while i < verts.len()
        invariant
            i <= verts@.len(),
            adj == adjacency(graph@),
            arcs@ == induced_arcs(adj, verts@.subrange(0, i as int)),
        decreases verts@.len() - i,
    {
        let v = verts[i];
        let ghost head = arcs@;
        proof {
            assert(verts@.subrange(0, i + 1).drop_last() =~= verts@.subrange(0, i as int));
            assert(verts@.subrange(0, i + 1).last() == v);
        }
        match graph.get(&v) {
            Some(deps) => {
                let mut j: usize = 0;
                while j < deps.len()
                    invariant
                        j <= deps@.len(),
                        arcs@ == head + arcs_from(v, deps@.subrange(0, j as int)),
                    decreases deps@.len() - j,
                {
                    arcs.push((v, deps[j]));
                    j += 1;
                    assert(arcs@ =~= head + arcs_from(v, deps@.subrange(0, j as int)));
                }
                assert(deps@.subrange(0, j as int) =~= deps@);
            },
            None => {
                assert(arcs@ =~= head + Seq::<(SessionId, SessionId)>::empty());
            },
        }
        i += 1;
    }
    assert(verts@.subrange(0, i as int) =~= verts@);
    arcs
}

/// Why a line is no arc.
#[derive(Debug, Clone, Copy, PartialEq, Eq, Structural)]
pub enum LineError {
    /// The line does not hold exactly one `->`.
    Arity,
    /// One side of the `->` is no session.
    Session,
}

/// The arc that a line of the form `<waiter> -> <holder>` writes.  White
/// space around the two sessions does not count.
pub open spec fn parse_line(line: Seq<char>) -> Result<(SessionId, SessionId), LineError> {
    if !occurs(line, "->"@) {
        Err(LineError::Arity)
    } else {
        let at = first_occurrence(line, "->"@);
        let left = line.subrange(0, at);
        let right = line.subrange(at + 2, line.len() as int);
        if occurs(right, "->"@) {
            Err(LineError::Arity)
        } else {
            match (parse_i64_spec(trimmed(left)), parse_i64_spec(trimmed(right))) {
                (Some(a), Some(b)) => Ok((a, b)),
                _ => Err(LineError::Session),
            }
        }
    }
}

/// Reads one line as an arc.
pub fn parse_edge(line: &str) -> (r: Result<(SessionId, SessionId), LineError>)
    ensures
        r == parse_line(line@),
{
    proof {
        reveal_strlit("->");
    }
    let chars = chars_of(line);
    let arrow = chars_of("->");
    match find_sub(&chars, &arrow) {
        None => Err(LineError::Arity),
        Some(at) => {
            let n = chars.len();
            assert(arrow@.len() == 2 && at + 2 <= n);
            let left = slice(&chars, 0, at);
            let right = slice(&chars, at + 2, n);
            if find_sub(&right, &arrow).is_some() {
                return Err(LineError::Arity);
            }
            let a = parse_i64(&trim(&left));
            let b = parse_i64(&trim(&right));
            match (a, b) {
                (Some(a), Some(b)) => Ok((a, b)),
                _ => Err(LineError::Session),
            }
        },
    }
}

/// The relation with one more arc, from `a` to `b`, after the arcs that
/// leave `a` already.
pub open spec fn with_arc(adj: Map<SessionId, Seq<SessionId>>, a: SessionId, b: SessionId) -> Map<
    SessionId,
    Seq<SessionId>,
> {
    let so_far = if adj.contains_key(a) {
        adj[a]
    } else {
        Seq::empty()
    };
    adj.insert(a, so_far.push(b))
}

/// Adds the arc that `line` writes; a line that writes none leaves the
/// graph as it is.
pub fn add_graph(graph: &mut HashMap<SessionId, Vec<SessionId>>, line: &str) -> (r: Result<
    (),
    LineError,
>)
    ensures
        match parse_line(line@) {
            Ok((a, b)) => r is Ok && adjacency(final(graph)@) == with_arc(
                adjacency(old(graph)@),
                a,
                b,
            ),
            Err(e) => r == Err::<(), LineError>(e) && final(graph)@ == old(graph)@,
        },
{
    broadcast use group_hash_axioms;

    match parse_edge(line) {
        Err(e) => Err(e),
        Ok((left, right)) => {
            let vexs = get_or_default_ex(graph, left, Vec::new());
            vexs.push(right);
            assert(adjacency(graph@) =~= with_arc(adjacency(old(graph)@), left, right));
            Ok(())
        },
    }
}

} // verus!
