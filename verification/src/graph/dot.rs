//! The graph as text: a `strict digraph` with one line per vertex and one
//! per edge, and after it a comment with one sentence per edge.

use vstd::prelude::*;
use std::collections::HashMap;
use vstd::string::StringExecFns;
use crate::graph::edge_description;
use crate::graph::Edge;
use crate::graph::WFGraph;
use crate::lock::LockInfoView;
use crate::lock::SessionId;
use crate::subgraph::adjacency;
use crate::subgraph::induced;
use crate::subgraph::induced_arcs;
use crate::text::decimal;
use crate::text::join;
use crate::text::push_i64;
use crate::text::put_line;

verus! {

/// The line of a vertex.
pub open spec fn vertex_line(s: SessionId) -> Seq<char> {
    decimal(s as int) + ";"@
}

/// The line of an edge.
pub open spec fn arc_line(waiter: SessionId, holder: SessionId) -> Seq<char> {
    decimal(waiter as int) + " -> "@ + decimal(holder as int)
}

/// The line of each vertex.
pub open spec fn vertex_lines(verts: Seq<SessionId>) -> Seq<Seq<char>> {
    Seq::new(verts.len(), |i: int| vertex_line(verts[i]))
}

/// The line of each edge.
pub open spec fn arc_lines(arcs: Seq<(SessionId, SessionId)>) -> Seq<Seq<char>> {
    Seq::new(arcs.len(), |i: int| arc_line(arcs[i].0, arcs[i].1))
}

/// The characters of each string.
pub open spec fn texts(notes: Seq<String>) -> Seq<Seq<char>> {
    Seq::new(notes.len(), |i: int| notes[i]@)
}

/// The lines of the text: the two header lines, the vertices, the edges,
/// the closing brace, and the comment with its notes.
pub open spec fn dot_lines(
    verts: Seq<SessionId>,
    arcs: Seq<(SessionId, SessionId)>,
    notes: Seq<Seq<char>>,
) -> Seq<Seq<char>> {
    seq![
        "strict digraph G {"@,
        "label=\"WaitForGraph - Generated By hidva/waitforgraph\";"@,
    ] + vertex_lines(verts) + arc_lines(arcs) + seq!["}"@, "/*大吉大利~"@] + notes + seq!["*/"@]
}

/// The text: its lines with a line feed between them.
pub open spec fn dot_text(
    verts: Seq<SessionId>,
    arcs: Seq<(SessionId, SessionId)>,
    notes: Seq<Seq<char>>,
) -> Seq<char> {
    join(dot_lines(verts, arcs, notes), "\n"@)
}

/// Waiter and holder of each edge.
pub open spec fn edge_arcs(edges: Seq<Edge>) -> Seq<(SessionId, SessionId)> {
    Seq::new(edges.len(), |i: int| (edges[i].waiter, edges[i].holder))
}

/// The sentence of each edge.
pub open spec fn edge_notes(info: LockInfoView, edges: Seq<Edge>) -> Seq<Seq<char>> {
    Seq::new(edges.len(), |i: int| edge_description(info, edges[i]))
}

/// Writes the text for the given vertices, edges and notes, in their order.
pub fn render_parts(
    verts: &Vec<SessionId>,
    arcs: &Vec<(SessionId, SessionId)>,
    notes: &Vec<String>,
) -> (text: String)
    ensures
        text@ == dot_text(verts@, arcs@, texts(notes@)),
{
    let mut out = String::new();
    let ghost head = seq![
        "strict digraph G {"@,
        "label=\"WaitForGraph - Generated By hidva/waitforgraph\";"@,
    ];
    let ghost none = Seq::<Seq<char>>::empty();
    let ghost first = seq!["strict digraph G {"@];
    put_line(&mut out, false, "strict digraph G {", Ghost(none));
    assert(none.push("strict digraph G {"@) =~= first);
    put_line(&mut out, true, "label=\"WaitForGraph - Generated By hidva/waitforgraph\";", Ghost(first));
    let ghost mut lines = head;
    assert(seq!["strict digraph G {"@].push(
        "label=\"WaitForGraph - Generated By hidva/waitforgraph\";"@,
    ) =~= head);
    let mut i: usize = 0;
    while i < verts.len()
        invariant
            i <= verts@.len(),
            out@ == join(lines, "\n"@),
            lines.len() > 0,
            lines == head + vertex_lines(verts@.subrange(0, i as int)),
        decreases verts@.len() - i,
    {
        let mut line = String::new();
        push_i64(&mut line, verts[i]);
        line.append(";");
        put_line(&mut out, true, line.as_str(), Ghost(lines));
        proof {
            assert(line@ =~= vertex_line(verts@[i as int]));
            lines = lines.push(line@);
            assert(lines =~= head + vertex_lines(verts@.subrange(0, i + 1)));
        }
        i += 1;
    }
    assert(verts@.subrange(0, i as int) =~= verts@);
    let ghost upto_verts = lines;
    let mut i: usize = 0;
    while i < arcs.len()
        invariant
            i <= arcs@.len(),
            out@ == join(lines, "\n"@),
            lines.len() > 0,
            lines == upto_verts + arc_lines(arcs@.subrange(0, i as int)),
        decreases arcs@.len() - i,
    {
        let mut line = String::new();
        push_i64(&mut line, arcs[i].0);
        line.append(" -> ");
        push_i64(&mut line, arcs[i].1);
        put_line(&mut out, true, line.as_str(), Ghost(lines));
        proof {
            assert(line@ =~= arc_line(arcs@[i as int].0, arcs@[i as int].1));
            lines = lines.push(line@);
            assert(lines =~= upto_verts + arc_lines(arcs@.subrange(0, i + 1)));
        }
        i += 1;
    }
    assert(arcs@.subrange(0, i as int) =~= arcs@);
    put_line(&mut out, true, "}", Ghost(lines));
    let ghost closed = lines.push("}"@);
    put_line(&mut out, true, "/*大吉大利~", Ghost(closed));
    let ghost upto_brace = lines + seq!["}"@, "/*大吉大利~"@];
    proof {
        assert(lines.push("}"@).push("/*大吉大利~"@) =~= upto_brace);
        lines = upto_brace;
    }
    let mut i: usize = 0;
    while i < notes.len()
        invariant
            i <= notes@.len(),
            out@ == join(lines, "\n"@),
            lines.len() > 0,
            lines == upto_brace + texts(notes@.subrange(0, i as int)),
        decreases notes@.len() - i,
    {
        put_line(&mut out, true, notes[i].as_str(), Ghost(lines));
        proof {
            lines = lines.push(notes@[i as int]@);
            assert(lines =~= upto_brace + texts(notes@.subrange(0, i + 1)));
        }
        i += 1;
    }
    assert(notes@.subrange(0, i as int) =~= notes@);
    put_line(&mut out, true, "*/", Ghost(lines));
    proof {
        assert(lines.push("*/"@) =~= dot_lines(verts@, arcs@, texts(notes@)));
    }
    out
}

/// `order` lists the vertices of `wfg`, each once.
pub open spec fn lists_vertices(wfg: &WFGraph, order: Seq<SessionId>) -> bool {
    order.no_duplicates() && order.to_set() == wfg.vertices()
}

/// Writes the whole graph.  The edges come in the order of their
/// identities; the order of the vertices is not fixed.
pub fn render(wfg: &WFGraph) -> (text: String)
    requires
        wfg.wf(),
    ensures
        exists|order: Seq<SessionId>| #[trigger]
            lists_vertices(wfg, order) && text@ == dot_text(
                order,
                edge_arcs(wfg.edges()),
                edge_notes(wfg.info(), wfg.edges()),
            ),
{
    let verts = wfg.sessions();
    let mut arcs: Vec<(SessionId, SessionId)> = Vec::new();
    let mut notes: Vec<String> = Vec::new();
    let n = wfg.edge_count();
    let mut id: usize = 0;
    while id < n
        invariant
            id <= n == wfg.edges().len(),
            wfg.wf(),
            arcs@ == edge_arcs(wfg.edges().subrange(0, id as int)),
            notes@.len() == id,
            texts(notes@) == edge_notes(wfg.info(), wfg.edges().subrange(0, id as int)),
        decreases n - id,
    {
        let edge = wfg.edge(id);
        proof {
            wfg.lemma_edge_target(id as int);
        }
        let ghost prev = notes@;
        arcs.push((edge.waiter, edge.holder));
        let note = wfg.desc_edge(&edge);
        notes.push(note);
        id += 1;
        proof {
            let shorter = edge_notes(wfg.info(), wfg.edges().subrange(0, id - 1));
            let longer = edge_notes(wfg.info(), wfg.edges().subrange(0, id as int));
            assert(arcs@ =~= edge_arcs(wfg.edges().subrange(0, id as int)));
            assert forall|i: int| 0 <= i < notes@.len() implies texts(notes@)[i] == longer[i] by {
                if i < prev.len() {
                    assert(texts(prev)[i] == shorter[i]);
                    assert(notes@[i] == prev[i]);
                } else {
                    assert(notes@[i] == note);
                    assert(wfg.edges().subrange(0, id as int)[i] == edge);
                }
            }
            assert(texts(notes@) =~= longer);
        }
    }
    assert(wfg.edges().subrange(0, id as int) =~= wfg.edges());
    let text = render_parts(&verts, &arcs, &notes);
    assert(lists_vertices(wfg, verts@));
    text
}

/// Writes the part of `graph` that starts at the sessions of `verts`: the
/// vertices in their order, then the arcs that leave them; the comment is
/// empty.
pub fn render_tiny(graph: &HashMap<SessionId, Vec<SessionId>>, verts: &Vec<SessionId>) -> (text:
    String)
    ensures
        text@ == dot_text(
            verts@,
            induced_arcs(adjacency(graph@), verts@),
            Seq::<Seq<char>>::empty(),
        ),
{
    let arcs = induced(graph, verts);
    let notes: Vec<String> = Vec::new();
    assert(texts(notes@) =~= Seq::<Seq<char>>::empty());
    render_parts(verts, &arcs, &notes)
}

} // verus!
