//! The wait-for graph of a snapshot.

use vstd::prelude::*;
use std::collections::HashMap;
use std::collections::HashSet;
use vstd::std_specs::hash::*;
use vstd::std_specs::iter::IteratorSpec;
use vstd::string::StringExecFns;
use crate::get_or_default;
use crate::text::decimal;
use crate::text::push_i64;
use crate::intern::Internment;
use crate::intern::StructEq;
use crate::lock::conflicts;
use crate::lock::Lock;
use crate::lock::LockInfo;
use crate::lock::LockInfoView;
use crate::lock::LockMode;
use crate::lock::LockObj;
use crate::lock::LockObjId;
use crate::lock::SessionId;

verus! {

/// The identity of an interned edge.
pub type EdgeId = usize;

/// A dependency: `waiter` asks for `wait` on `obj` and cannot go on while
/// `holder` holds `hold` on it.
#[derive(Debug, Clone, Copy, PartialEq, Eq, Hash, Structural)]
pub struct Edge {
    pub waiter: SessionId,
    pub holder: SessionId,
    pub wait: LockMode,
    pub hold: LockMode,
    pub obj: LockObjId,
}

impl View for Edge {
    type V = Edge;

    open spec fn view(&self) -> Edge {
        *self
    }
}

impl StructEq for Edge {
    fn same(&self, other: &Edge) -> (b: bool) {
        self.waiter == other.waiter && self.holder == other.holder && self.wait == other.wait
            && self.hold == other.hold && self.obj == other.obj
    }
}

/// A session of the graph with the edges that end and start at it.
pub struct Vertex {
    edges_in: HashSet<EdgeId>,
    edges_out: HashSet<EdgeId>,
}

impl Vertex {
    /// The identities of the edges that end at the vertex.
    pub closed spec fn incoming(&self) -> Set<EdgeId> {
        self.edges_in@
    }

    /// The identities of the edges that start at the vertex.
    pub closed spec fn outgoing(&self) -> Set<EdgeId> {
        self.edges_out@
    }

    /// The edges that end at the vertex: the sessions that wait for it.
    pub fn edges_in(&self) -> (ids: &HashSet<EdgeId>)
        ensures
            ids@ == self.incoming(),
    {
        &self.edges_in
    }

    /// The edges that start at the vertex: the sessions it waits for.
    pub fn edges_out(&self) -> (ids: &HashSet<EdgeId>)
        ensures
            ids@ == self.outgoing(),
    {
        &self.edges_out
    }
}

impl Default for Vertex {
    fn default() -> (v: Vertex)
        ensures
            v.incoming() == Set::<EdgeId>::empty(),
            v.outgoing() == Set::<EdgeId>::empty(),
    {
        Vertex { edges_in: HashSet::new(), edges_out: HashSet::new() }
    }
}

/// Session `s` is the waiter or the holder of `e`.
pub open spec fn touches(e: Edge, s: SessionId) -> bool {
    e.waiter == s || e.holder == s
}

/// `e` is a dependency that the snapshot `info` gives rise to: its waiter
/// requested `wait` on `obj`, its holder holds `hold` on `obj`, the two are
/// different sessions, and `hold` blocks `wait`.
pub open spec fn depends(info: LockInfoView, e: Edge) -> bool {
    &&& info.waits(e.waiter, e.obj, e.wait)
    &&& info.holds(e.obj, e.hold, e.holder)
    &&& e.waiter != e.holder
    &&& conflicts(e.wait, e.hold)
}

/// `e` is a dependency of `waiter` through one of its requests `locks`.
pub open spec fn blocked_through(
    info: LockInfoView,
    waiter: SessionId,
    locks: Seq<Lock>,
    e: Edge,
) -> bool {
    &&& e.waiter == waiter
    &&& locks.contains(Lock { objid: e.obj, mode: e.wait })
    &&& info.holds(e.obj, e.hold, e.holder)
    &&& e.waiter != e.holder
    &&& conflicts(e.wait, e.hold)
}

/// The sentence that says who waits for what and who is in the way.
pub open spec fn edge_description(info: LockInfoView, e: Edge) -> Seq<char> {
    "session "@ + decimal(e.waiter as int) + " waits for "@ + e.wait.name() + " on "@
        + info.objs[e.obj as int].description() + "; blocked by session "@ + decimal(
        e.holder as int,
    ) + "(granted "@ + e.hold.name() + ");"@
}

/// The wait-for graph: the snapshot it was built from, its edges, each
/// once, and its vertices with their incident edges.
pub struct WFGraph {
    data: LockInfo,
    edges: Internment<Edge>,
    sess_vert: HashMap<SessionId, Vertex>,
}

impl WFGraph {
    /// The edges, each at the index that is its identity.
    pub closed spec fn edges(&self) -> Seq<Edge> {
        self.edges@
    }

    /// The sessions that are vertices.
    pub closed spec fn vertices(&self) -> Set<SessionId> {
        self.sess_vert@.dom()
    }

    /// The identities of the edges whose waiter is `s`.
    pub closed spec fn edges_out(&self, s: SessionId) -> Set<EdgeId> {
        self.sess_vert@[s].edges_out@
    }

    /// The identities of the edges whose holder is `s`.
    pub closed spec fn edges_in(&self, s: SessionId) -> Set<EdgeId> {
        self.sess_vert@[s].edges_in@
    }

    /// The snapshot the graph belongs to.
    pub closed spec fn info(&self) -> LockInfoView {
        self.data@
    }

    /// `e` is an edge of the graph.
    pub open spec fn has_edge(&self, e: Edge) -> bool {
        self.edges().contains(e)
    }

    /// Edges and vertices fit together: no edge occurs twice or leads from a
    /// session to itself, the vertices are the sessions that some edge
    /// touches, and each vertex knows exactly its own edges.
    pub open spec fn linked(&self) -> bool {
        &&& self.edges().no_duplicates()
        &&& forall|i: int|
            0 <= i < self.edges().len() ==> (#[trigger] self.edges()[i]).waiter
                != self.edges()[i].holder
        &&& forall|s: SessionId| #[trigger]
            self.vertices().contains(s) <==> exists|i: int|
                0 <= i < self.edges().len() && touches(#[trigger] self.edges()[i], s)
        &&& forall|s: SessionId, id: EdgeId|
            self.vertices().contains(s) ==> (#[trigger] self.edges_out(s).contains(id) <==> id
                < self.edges().len() && self.edges()[id as int].waiter == s)
        &&& forall|s: SessionId, id: EdgeId|
            self.vertices().contains(s) ==> (#[trigger] self.edges_in(s).contains(id) <==> id
                < self.edges().len() && self.edges()[id as int].holder == s)
    }

    /// The graph is linked and its edges are exactly the dependencies of
    /// its snapshot.
    pub open spec fn wf(&self) -> bool {
        &&& self.linked()
        &&& self.info().wf()
        &&& forall|e: Edge| #[trigger] self.has_edge(e) <==> depends(self.info(), e)
    }

    fn empty() -> (g: WFGraph)
        ensures
            g.linked(),
            g.edges() == Seq::<Edge>::empty(),
            g.vertices() == Set::<SessionId>::empty(),
            g.info() == LockInfoView::empty(),
    {
        let g = WFGraph { data: LockInfo::new(), edges: Internment::new(), sess_vert: HashMap::new() };
        assert(g.vertices() =~= Set::<SessionId>::empty());
        g
    }

    fn get_edgeid(&mut self, edge: Edge) -> (id: EdgeId)
        requires
            old(self).edges().no_duplicates(),
        ensures
            (final(self).edges(), id as int) == crate::intern::interned(old(self).edges(), edge),
            final(self).edges().no_duplicates(),
            final(self).sess_vert == old(self).sess_vert,
            final(self).data == old(self).data,
    {
        self.edges.intern(edge)
    }

    fn get_vert(&mut self, sessid: SessionId) -> (vert: &mut Vertex)
        ensures
            old(self).sess_vert@.contains_key(sessid) ==> *vert == old(self).sess_vert@[sessid],
            !old(self).sess_vert@.contains_key(sessid) ==> vert.edges_in@ == Set::<EdgeId>::empty()
                && vert.edges_out@ == Set::<EdgeId>::empty(),
            final(self).sess_vert@ == old(self).sess_vert@.insert(sessid, *final(vert)),
            final(self).edges == old(self).edges,
            final(self).data == old(self).data,
    {
        broadcast use group_hash_axioms;

        get_or_default(&mut self.sess_vert, sessid)
    }

    fn add_dependency(
        &mut self,
        waiter: SessionId,
        holder: SessionId,
        obj: LockObjId,
        wait: LockMode,
        hold: LockMode,
    )
        requires
            old(self).linked(),
            waiter != holder,
        ensures
            final(self).linked(),
            final(self).info() == old(self).info(),
            forall|e: Edge| #[trigger]
                final(self).edges().contains(e) <==> old(self).edges().contains(e) || e == (Edge {
                    waiter,
                    holder,
                    wait,
                    hold,
                    obj,
                }),
    {
        broadcast use group_hash_axioms;

        let edge = Edge { waiter, holder, wait, hold, obj };
        let edgeid = self.get_edgeid(edge);
        let ghost m0 = self.sess_vert@;
        let out = self.get_vert(waiter);
        out.edges_out.insert(edgeid);
        let ghost m1 = self.sess_vert@;
        proof {
            assert(m1.dom() =~= m0.dom().insert(waiter));
            assert(forall|s: SessionId| s != waiter && m0.contains_key(s) ==> m1[s] == m0[s]);
            if m0.contains_key(waiter) {
                assert(m1[waiter].edges_out@ == m0[waiter].edges_out@.insert(edgeid));
                assert(m1[waiter].edges_in@ == m0[waiter].edges_in@);
            } else {
                assert(m1[waiter].edges_out@ == Set::<EdgeId>::empty().insert(edgeid));
                assert(m1[waiter].edges_in@ == Set::<EdgeId>::empty());
            }
        }
        let inn = self.get_vert(holder);
        inn.edges_in.insert(edgeid);
        proof {
            let m2 = self.sess_vert@;
            assert(m2.dom() =~= m1.dom().insert(holder));
            assert(forall|s: SessionId| s != holder && m1.contains_key(s) ==> m2[s] == m1[s]);
            if m1.contains_key(holder) {
                assert(m2[holder].edges_in@ == m1[holder].edges_in@.insert(edgeid));
                assert(m2[holder].edges_out@ == m1[holder].edges_out@);
            } else {
                assert(m2[holder].edges_in@ == Set::<EdgeId>::empty().insert(edgeid));
                assert(m2[holder].edges_out@ == Set::<EdgeId>::empty());
            }
            let before = old(self).edges();
            let after = self.edges();
            assert(after[edgeid as int] == edge);
            assert forall|e: Edge| #[trigger] self.edges().contains(e) implies old(self).edges().contains(e) || e
                == edge by {
                let i = choose|i: int| 0 <= i < after.len() && after[i] == e;
                if i < before.len() {
                    assert(before[i] == e);
                }
            }
            assert forall|e: Edge| old(self).edges().contains(e) || e == edge implies #[trigger]
                self.edges().contains(e) by {
                if e == edge {
                } else {
                    let i = choose|i: int| 0 <= i < before.len() && before[i] == e;
                    assert(after[i] == e);
                }
            }
            assert forall|s: SessionId| #[trigger] self.vertices().contains(s) implies exists|
                i: int,
            |
                0 <= i < after.len() && touches(#[trigger] after[i], s) by {
                if s == waiter || s == holder {
                    assert(touches(after[edgeid as int], s));
                } else {
                    assert(old(self).vertices().contains(s));
                    let i = choose|i: int| 0 <= i < before.len() && touches(#[trigger] before[i], s);
                    assert(touches(after[i], s));
                }
            }
            assert forall|s: SessionId|
                (exists|i: int|
                    0 <= i < after.len() && touches(#[trigger] after[i], s)) implies #[trigger]
                self.vertices().contains(s) by {
                let i = choose|i: int| 0 <= i < after.len() && touches(#[trigger] after[i], s);
                if i < before.len() {
                    assert(touches(before[i], s));
                    assert(old(self).vertices().contains(s));
                }
            }
            assert forall|s: SessionId, id: EdgeId| self.vertices().contains(s) implies (
            #[trigger] self.edges_out(s).contains(id) <==> id < after.len() && after[id as int].waiter
                == s) by {
                let base = if m0.contains_key(s) {
                    m0[s].edges_out@
                } else {
                    Set::<EdgeId>::empty()
                };
                assert(self.edges_out(s) == if s == waiter {
                    base.insert(edgeid)
                } else {
                    base
                });
                if m0.contains_key(s) {
                    assert(old(self).vertices().contains(s));
                    assert(old(self).edges_out(s).contains(id) <==> id < before.len()
                        && before[id as int].waiter == s);
                } else if id < before.len() && before[id as int].waiter == s {
                    assert(touches(before[id as int], s));
                    assert(old(self).vertices().contains(s));
                }
                if id < before.len() {
                    assert(after[id as int] == before[id as int]);
                } else if id < after.len() {
                    assert(id == edgeid);
                }
            }
            assert forall|s: SessionId, id: EdgeId| self.vertices().contains(s) implies (
            #[trigger] self.edges_in(s).contains(id) <==> id < after.len() && after[id as int].holder
                == s) by {
                let base = if m0.contains_key(s) {
                    m0[s].edges_in@
                } else {
                    Set::<EdgeId>::empty()
                };
                assert(self.edges_in(s) == if s == holder {
                    base.insert(edgeid)
                } else {
                    base
                });
                if m0.contains_key(s) {
                    assert(old(self).vertices().contains(s));
                    assert(old(self).edges_in(s).contains(id) <==> id < before.len()
                        && before[id as int].holder == s);
                } else if id < before.len() && before[id as int].holder == s {
                    assert(touches(before[id as int], s));
                    assert(old(self).vertices().contains(s));
                }
                if id < before.len() {
                    assert(after[id as int] == before[id as int]);
                } else if id < after.len() {
                    assert(id == edgeid);
                }
            }
        }
    }

    /// Adds an edge from `waiter` to every session of `holders` but itself:
    /// they hold `hold` on the target of `lock`.
    fn add_blockers(
        &mut self,
        waiter: SessionId,
        lock: Lock,
        hold: LockMode,
        holders: &HashSet<SessionId>,
    )
        requires
            old(self).linked(),
        ensures
            final(self).linked(),
            final(self).info() == old(self).info(),
            forall|e: Edge| #[trigger]
                final(self).edges().contains(e) <==> old(self).edges().contains(e) || (e.waiter == waiter && e.obj
                    == lock.objid && e.wait == lock.mode && e.hold == hold && e.holder != waiter
                    && holders@.contains(e.holder)),
    {
        broadcast use group_hash_axioms;

        let ghost start = self.edges();
        let ghost start_info = self.info();
        let ghost order = holders.iter().remaining();
        let ghost done: int = 0;
        for holder in it: holders.iter()
            invariant
                self.linked(),
                self.info() == start_info,
                it.seq() == order,
                done == it.index(),
                forall|e: Edge| #[trigger]
                    self.edges().contains(e) <==> start.contains(e) || (e.waiter == waiter && e.obj
                        == lock.objid && e.wait == lock.mode && e.hold == hold && e.holder
                        != waiter && exists|j: int| 0 <= j < done && *(#[trigger] order[j]) == e.holder),
        {
            let ghost now = self.edges();
            if waiter != *holder {
                self.add_dependency(waiter, *holder, lock.objid, lock.mode, hold);
            }
            proof {
                assert(*order[done] == *holder);
                done = done + 1;
                assert forall|e: Edge| #[trigger]
                    self.edges().contains(e) <==> start.contains(e) || (e.waiter == waiter && e.obj
                        == lock.objid && e.wait == lock.mode && e.hold == hold && e.holder
                        != waiter && exists|j: int| 0 <= j < done && *(#[trigger] order[j]) == e.holder) by {
                    let reached = exists|j: int| 0 <= j < done - 1 && *(#[trigger] order[j]) == e.holder;
                    if reached {
                        let j = choose|j: int| 0 <= j < done - 1 && *(#[trigger] order[j]) == e.holder;
                        assert(0 <= j < done && *order[j] == e.holder);
                    }
                    if exists|j: int| 0 <= j < done && *(#[trigger] order[j]) == e.holder {
                        let j = choose|j: int| 0 <= j < done && *(#[trigger] order[j]) == e.holder;
                        if j < done - 1 {
                            assert(reached);
                        } else {
                            assert(e.holder == *holder);
                        }
                    }
                    assert(now.contains(e) <==> start.contains(e) || (e.waiter == waiter && e.obj
                        == lock.objid && e.wait == lock.mode && e.hold == hold && e.holder
                        != waiter && reached));
                }
            }
        }
        proof {
            assert(done == order.len());
            let listed = order.unref();
            assert(listed.to_set() == holders@);
            assert forall|e: Edge| #[trigger]
                self.edges().contains(e) <==> old(self).edges().contains(e) || (e.waiter == waiter && e.obj
                    == lock.objid && e.wait == lock.mode && e.hold == hold && e.holder != waiter
                    && holders@.contains(e.holder)) by {
                if exists|j: int| 0 <= j < done && *(#[trigger] order[j]) == e.holder {
                    let j = choose|j: int| 0 <= j < done && *(#[trigger] order[j]) == e.holder;
                    assert(listed[j] == e.holder);
                    assert(listed.contains(e.holder));
                    assert(listed.to_set().contains(e.holder));
                }
                if holders@.contains(e.holder) {
                    assert(listed.to_set().contains(e.holder));
                    assert(listed.contains(e.holder));
                    let j = choose|j: int| 0 <= j < listed.len() && listed[j] == e.holder;
                    assert(*order[j] == e.holder);
                }
            }
        }
    }

    /// Adds the edges that one request of `waiter` gives rise to.
    fn process_lock(&mut self, waiter: SessionId, lock: Lock, info: &LockInfo)
        requires
            old(self).linked(),
            info.wf(),
        ensures
            final(self).linked(),
            final(self).info() == old(self).info(),
            forall|e: Edge| #[trigger]
                final(self).edges().contains(e) <==> old(self).edges().contains(e) || (e.waiter == waiter && e.obj
                    == lock.objid && e.wait == lock.mode && e.holder != waiter && conflicts(
                    e.wait,
                    e.hold,
                ) && info@.holds(e.obj, e.hold, e.holder)),
    {
        let ghost start = self.edges();
        let ghost start_info = self.info();
        let modes = lock.mode.conflict_modes();
        let mut i: usize = 0;
        while i < modes.len()
            invariant
                i <= modes@.len(),
                self.linked(),
                info.wf(),
                self.info() == start_info,
                forall|e: Edge| #[trigger]
                    self.edges().contains(e) <==> start.contains(e) || (e.waiter == waiter && e.obj
                        == lock.objid && e.wait == lock.mode && e.holder != waiter && info@.holds(
                        e.obj,
                        e.hold,
                        e.holder,
                    ) && exists|j: int| 0 <= j < i && #[trigger] modes@[j] == e.hold),
            decreases modes@.len() - i,
        {
            let conflict_mode = modes[i];
            let ghost now = self.edges();
            if let Some(holders) = info.get_holders(conflict_mode, lock.objid) {
                self.add_blockers(waiter, lock, conflict_mode, holders);
            }
            i += 1;
            proof {
                assert forall|e: Edge| #[trigger]
                    self.edges().contains(e) <==> start.contains(e) || (e.waiter == waiter && e.obj
                        == lock.objid && e.wait == lock.mode && e.holder != waiter && info@.holds(
                        e.obj,
                        e.hold,
                        e.holder,
                    ) && exists|j: int| 0 <= j < i && #[trigger] modes@[j] == e.hold) by {
                    let reached = exists|j: int| 0 <= j < i - 1 && #[trigger] modes@[j] == e.hold;
                    if reached {
                        let j = choose|j: int| 0 <= j < i - 1 && #[trigger] modes@[j] == e.hold;
                        assert(0 <= j < i && modes@[j] == e.hold);
                    }
                    if exists|j: int| 0 <= j < i && #[trigger] modes@[j] == e.hold {
                        let j = choose|j: int| 0 <= j < i && #[trigger] modes@[j] == e.hold;
                        if j < i - 1 {
                            assert(reached);
                        } else {
                            assert(e.hold == conflict_mode);
                        }
                    }
                    if e.hold == conflict_mode {
                        assert(modes@[i - 1] == e.hold);
                    }
                    assert(now.contains(e) <==> start.contains(e) || (e.waiter == waiter && e.obj
                        == lock.objid && e.wait == lock.mode && e.holder != waiter && info@.holds(
                        e.obj,
                        e.hold,
                        e.holder,
                    ) && reached));
                }
            }
        }
        proof {
            assert forall|e: Edge| #[trigger]
                self.edges().contains(e) <==> old(self).edges().contains(e) || (e.waiter == waiter && e.obj
                    == lock.objid && e.wait == lock.mode && e.holder != waiter && conflicts(
                    e.wait,
                    e.hold,
                ) && info@.holds(e.obj, e.hold, e.holder)) by {
                if exists|j: int| 0 <= j < i && #[trigger] modes@[j] == e.hold {
                    let j = choose|j: int| 0 <= j < i && #[trigger] modes@[j] == e.hold;
                    assert(modes@.contains(e.hold));
                }
                if e.wait == lock.mode && conflicts(e.wait, e.hold) {
                    assert(modes@.contains(e.hold));
                    let j = choose|j: int| 0 <= j < modes@.len() && modes@[j] == e.hold;
                    assert(0 <= j < i && modes@[j] == e.hold);
                }
            }
        }
    }

    /// Adds the edges that lead from `waiter`, whose requests are `locks`,
    /// to the sessions that block it according to `info`.
    fn process_waiter(&mut self, waiter: SessionId, locks: &Vec<Lock>, info: &LockInfo)
        requires
            old(self).linked(),
            info.wf(),
        ensures
            final(self).linked(),
            final(self).info() == old(self).info(),
            forall|e: Edge| #[trigger]
                final(self).edges().contains(e) <==> old(self).edges().contains(e) || blocked_through(
                    info@,
                    waiter,
                    locks@,
                    e,
                ),
    {
        let ghost start = self.edges();
        let ghost start_info = self.info();
        let mut i: usize = 0;
        while i < locks.len()
            invariant
                i <= locks@.len(),
                self.linked(),
                info.wf(),
                self.info() == start_info,
                forall|e: Edge| #[trigger]
                    self.edges().contains(e) <==> start.contains(e) || blocked_through(
                        info@,
                        waiter,
                        locks@.subrange(0, i as int),
                        e,
                    ),
            decreases locks@.len() - i,
        {
            let lock = locks[i];
            let ghost now = self.edges();
            self.process_lock(waiter, lock, info);
            i += 1;
            proof {
                let shorter = locks@.subrange(0, i - 1);
                let longer = locks@.subrange(0, i as int);
                assert(longer =~= shorter.push(lock));
                assert forall|e: Edge| #[trigger]
                    self.edges().contains(e) <==> start.contains(e) || blocked_through(
                        info@,
                        waiter,
                        longer,
                        e,
                    ) by {
                    let want = Lock { objid: e.obj, mode: e.wait };
                    if shorter.contains(want) {
                        let j = choose|j: int| 0 <= j < shorter.len() && shorter[j] == want;
                        assert(longer[j] == want);
                    }
                    if longer.contains(want) {
                        let j = choose|j: int| 0 <= j < longer.len() && longer[j] == want;
                        if j < shorter.len() {
                            assert(shorter[j] == want);
                        } else {
                            assert(want == lock);
                        }
                    }
                    if want == lock {
                        assert(longer[i - 1] == want);
                    }
                    assert(now.contains(e) <==> start.contains(e) || blocked_through(
                        info@,
                        waiter,
                        shorter,
                        e,
                    ));
                }
            }
        }
        proof {
            assert(locks@.subrange(0, i as int) =~= locks@);
        }
    }

    /// Builds the wait-for graph of a snapshot: an edge for every waiting
    /// session, each of its requests, each mode that blocks the request and
    /// each other session that holds that mode on the same target.
    pub fn new(info: LockInfo) -> (graph: WFGraph)
        requires
            info.wf(),
        ensures
            graph.wf(),
            graph.info() == info@,
    {
        broadcast use group_hash_axioms;

        let mut ret = WFGraph::empty();
        let waiting = info.waiters();
        let ghost order = waiting.iter().remaining();
        let ghost done: int = 0;
        for entry in it: waiting.iter()
            invariant
                ret.linked(),
                info.wf(),
                it.seq() == order,
                done == it.index(),
                forall|e: Edge| #[trigger]
                    ret.edges().contains(e) <==> exists|j: int|
                        0 <= j < done && blocked_through(
                            info@,
                            *(#[trigger] order[j]).0,
                            (*order[j].1)@,
                            e,
                        ),
        {
            let ghost now = ret.edges();
            let (waiter, locks) = entry;
            ret.process_waiter(*waiter, locks, &info);
            proof {
                assert(order[done] == entry);
                done = done + 1;
                assert forall|e: Edge| #[trigger]
                    ret.edges().contains(e) <==> exists|j: int|
                        0 <= j < done && blocked_through(
                            info@,
                            *(#[trigger] order[j]).0,
                            (*order[j].1)@,
                            e,
                        ) by {
                    let reached = exists|j: int|
                        0 <= j < done - 1 && blocked_through(
                            info@,
                            *(#[trigger] order[j]).0,
                            (*order[j].1)@,
                            e,
                        );
                    assert(now.contains(e) <==> reached);
                    if reached {
                        let j = choose|j: int|
                            0 <= j < done - 1 && blocked_through(
                                info@,
                                *(#[trigger] order[j]).0,
                                (*order[j].1)@,
                                e,
                            );
                        assert(0 <= j < done && blocked_through(
                            info@,
                            *order[j].0,
                            (*order[j].1)@,
                            e,
                        ));
                    }
                    if blocked_through(info@, *waiter, locks@, e) {
                        assert(blocked_through(
                            info@,
                            *order[done - 1].0,
                            (*order[done - 1].1)@,
                            e,
                        ));
                    }
                    if exists|j: int|
                        0 <= j < done && blocked_through(
                            info@,
                            *(#[trigger] order[j]).0,
                            (*order[j].1)@,
                            e,
                        ) {
                        let j = choose|j: int|
                            0 <= j < done && blocked_through(
                                info@,
                                *(#[trigger] order[j]).0,
                                (*order[j].1)@,
                                e,
                            );
                        if j < done - 1 {
                            assert(reached);
                        }
                    }
                }
            }
        }
        proof {
            info.lemma_wf_view();
            assert(done == order.len());
            assert forall|e: Edge| #[trigger] ret.edges().contains(e) <==> depends(info@, e) by {
                if ret.edges().contains(e) {
                    let j = choose|j: int|
                        0 <= j < done && blocked_through(
                            info@,
                            *(#[trigger] order[j]).0,
                            (*order[j].1)@,
                            e,
                        );
                    assert(waiting@.contains_key(*order[j].0));
                    assert(waiting@[*order[j].0] == *order[j].1);
                }
                if depends(info@, e) {
                    let k = e.waiter;
                    assert(waiting@.contains_key(k));
                    assert(order.contains((&k, &waiting@[k])));
                    let j = choose|j: int| 0 <= j < order.len() && order[j] == (&k, &waiting@[k]);
                    assert(blocked_through(info@, *order[j].0, (*order[j].1)@, e));
                }
            }
        }
        let ghost built = ret;
        let ghost snapshot = info@;
        ret.data = info;
        proof {
            assert(ret.edges() == built.edges());
            assert(ret.vertices() == built.vertices());
            assert(forall|s: SessionId| ret.edges_out(s) == built.edges_out(s));
            assert(forall|s: SessionId| ret.edges_in(s) == built.edges_in(s));
            assert(ret.linked());
            assert(ret.info() == snapshot);
            assert forall|e: Edge| #[trigger] ret.has_edge(e) <==> depends(ret.info(), e) by {
                assert(built.edges().contains(e) <==> depends(snapshot, e));
            }
        }
        ret
    }

    /// The target behind an identity of the snapshot.
    pub fn get_obj(&self, objid: LockObjId) -> (obj: &LockObj)
        requires
            objid < self.info().objs.len(),
        ensures
            obj@ == self.info().objs[objid as int],
    {
        self.data.get_obj(objid)
    }

    /// The vertex of a session; `None` where no edge touches the session.
    pub fn vertex(&self, sessid: SessionId) -> (found: Option<&Vertex>)
        ensures
            match found {
                Some(vert) => self.vertices().contains(sessid) && vert.incoming() == self.edges_in(
                    sessid,
                ) && vert.outgoing() == self.edges_out(sessid),
                None => !self.vertices().contains(sessid),
            },
    {
        broadcast use group_hash_axioms;

        self.sess_vert.get(&sessid)
    }

    /// The number of edges.
    pub fn edge_count(&self) -> (n: usize)
        ensures
            n == self.edges().len(),
    {
        self.edges.len()
    }

    /// The edge behind an identity.
    pub fn edge(&self, id: EdgeId) -> (e: Edge)
        requires
            id < self.edges().len(),
        ensures
            e == self.edges()[id as int],
    {
        *self.edges.get(id)
    }

    /// The vertices, each once, in no particular order.
    pub fn sessions(&self) -> (list: Vec<SessionId>)
        ensures
            list@.no_duplicates(),
            list@.to_set() == self.vertices(),
    {
        broadcast use group_hash_axioms;

        let mut list: Vec<SessionId> = Vec::new();
        let ghost order = self.sess_vert.keys().remaining();
        for s in it: self.sess_vert.keys()
            invariant
                it.seq() == order,
                list@.len() == it.index(),
                forall|j: int| 0 <= j < list@.len() ==> list@[j] == *order[j],
        {
            list.push(*s);
        }
        proof {
            assert(list@ =~= order.unref());
        }
        list
    }

    /// No edge leads from a session to itself.
    pub proof fn lemma_no_self_edge(&self, e: Edge)
        requires
            self.linked(),
            self.has_edge(e),
        ensures
            e.waiter != e.holder,
    {
        let i = choose|i: int| 0 <= i < self.edges().len() && self.edges()[i] == e;
        assert(self.edges()[i].waiter != self.edges()[i].holder);
    }

    /// An edge is in the graph exactly where its waiter requested its wait
    /// mode on its target, its holder holds its hold mode on that target,
    /// the two are different sessions, and the hold mode blocks the wait
    /// mode.
    pub proof fn lemma_edge_iff_conflict(&self, e: Edge)
        requires
            self.wf(),
        ensures
            self.has_edge(e) <==> self.info().waits(e.waiter, e.obj, e.wait) && self.info().holds(
                e.obj,
                e.hold,
                e.holder,
            ) && e.waiter != e.holder && conflicts(e.wait, e.hold),
    {
        assert(self.has_edge(e) <==> depends(self.info(), e));
    }

    /// A session is a vertex exactly where an edge touches it.
    pub proof fn lemma_vertex_iff_touched(&self, s: SessionId)
        requires
            self.linked(),
        ensures
            self.vertices().contains(s) <==> exists|e: Edge| #[trigger]
                self.has_edge(e) && touches(e, s),
    {
        if self.vertices().contains(s) {
            let i = choose|i: int|
                0 <= i < self.edges().len() && touches(#[trigger] self.edges()[i], s);
            assert(self.has_edge(self.edges()[i]));
        }
        if exists|e: Edge| #[trigger] self.has_edge(e) && touches(e, s) {
            let e = choose|e: Edge| #[trigger] self.has_edge(e) && touches(e, s);
            let i = choose|i: int| 0 <= i < self.edges().len() && self.edges()[i] == e;
            assert(touches(self.edges()[i], s));
        }
    }

    /// Two graphs of the same snapshot have the same edges and the same
    /// vertices, whatever the order in which they were found.
    pub proof fn lemma_same_snapshot_same_graph(&self, other: &WFGraph)
        requires
            self.wf(),
            other.wf(),
            self.info() == other.info(),
        ensures
            self.edges().to_set() == other.edges().to_set(),
            self.vertices() == other.vertices(),
    {
        assert forall|e: Edge| self.has_edge(e) <==> other.has_edge(e) by {
            assert(self.has_edge(e) <==> depends(self.info(), e));
            assert(other.has_edge(e) <==> depends(other.info(), e));
        }
        assert forall|e: Edge|
            self.edges().to_set().contains(e) <==> other.edges().to_set().contains(e) by {
            assert(self.has_edge(e) <==> other.has_edge(e));
        }
        assert(self.edges().to_set() =~= other.edges().to_set());
        assert forall|s: SessionId| self.vertices().contains(s) <==> other.vertices().contains(
            s,
        ) by {
            self.lemma_vertex_iff_touched(s);
            other.lemma_vertex_iff_touched(s);
            if exists|e: Edge| #[trigger] self.has_edge(e) && touches(e, s) {
                let e = choose|e: Edge| #[trigger] self.has_edge(e) && touches(e, s);
                assert(other.has_edge(e) && touches(e, s));
            }
            if exists|e: Edge| #[trigger] other.has_edge(e) && touches(e, s) {
                let e = choose|e: Edge| #[trigger] other.has_edge(e) && touches(e, s);
                assert(self.has_edge(e) && touches(e, s));
            }
        }
        assert(self.vertices() =~= other.vertices());
    }

    /// Every edge of a well-formed graph is on a target of its snapshot.
    pub proof fn lemma_edge_target(&self, id: int)
        requires
            self.wf(),
            0 <= id < self.edges().len(),
        ensures
            self.edges()[id].obj < self.info().objs.len(),
    {
        let e = self.edges()[id];
        assert(self.has_edge(e));
        assert(depends(self.info(), e));
        let want = Lock { objid: e.obj, mode: e.wait };
        let locks = self.info().waiting[e.waiter];
        let i = choose|i: int| 0 <= i < locks.len() && locks[i] == want;
        assert(locks[i].objid < self.info().objs.len());
    }

    /// One sentence for an edge: who waits for which mode on which target,
    /// and who holds which mode in the way.
    pub fn desc_edge(&self, edge: &Edge) -> (s: String)
        requires
            edge.obj < self.info().objs.len(),
        ensures
            s@ == edge_description(self.info(), *edge),
    {
        let target = self.get_obj(edge.obj).describe();
        let mut s = String::from_str("session ");
        push_i64(&mut s, edge.waiter);
        s.append(" waits for ");
        s.append(edge.wait.as_str());
        s.append(" on ");
        s.append(target.as_str());
        s.append("; blocked by session ");
        push_i64(&mut s, edge.holder);
        s.append("(granted ");
        s.append(edge.hold.as_str());
        s.append(");");
        s
    }
}

impl Default for WFGraph {
    /// The graph of the empty snapshot.
    fn default() -> (g: WFGraph)
        ensures
            g.wf(),
            g.edges() == Seq::<Edge>::empty(),
            g.vertices() == Set::<SessionId>::empty(),
            g.info() == LockInfoView::empty(),
    {
        WFGraph::empty()
    }
}

pub mod dot;

} // verus!
