//! Cross-reference resolution: after all sections are parsed, every jump
//! and option target is turned into the index of its destination node, or
//! loading fails naming the dangling title.  Duplicate node titles are
//! rejected first, since a duplicated target would be ambiguous.

use vstd::prelude::*;

use crate::components::{LineType, LineV, NodeV, OptionPossibility, PossV, YarnSpinnerNode,
    graph_view, graph_wf, node_resolved, node_wf};
use crate::errors::YarnSpinnerDialogLoaderError;

verus! {

/// No two nodes carry the same title.
pub open spec fn titles_unique(g: Seq<NodeV>) -> bool {
    forall|i: int, j: int|
        0 <= i < g.len() && 0 <= j < g.len() && i != j ==> g[i].title != g[j].title
}

/// Two nodes, in this order, both carry title `t`.
pub open spec fn has_duplicate_title(g: Seq<NodeV>, t: Seq<char>) -> bool {
    exists|i: int, j: int|
        0 <= i < j < g.len() && (#[trigger] g[i]).title == (#[trigger] g[j]).title && g[j].title
            == t
}

/// Some node carries title `t`.
pub open spec fn title_exists(g: Seq<NodeV>, t: Seq<char>) -> bool {
    exists|i: int| 0 <= i < g.len() && (#[trigger] g[i]).title == t
}

/// Whether line `l` mentions `t` as a jump or option target.
pub open spec fn line_has_target(l: LineV, t: Seq<char>) -> bool {
    ||| (l matches LineV::JumpLine { node_title, .. } && node_title == t)
    ||| (l matches LineV::OptionLine { possibilities, .. } && exists|p: int|
        0 <= p < possibilities.len() && (#[trigger] possibilities[p]).jump_to_node_title == t)
}

/// Whether some line of some node of `g` mentions `t` as a target.
pub open spec fn graph_has_target(g: Seq<NodeV>, t: Seq<char>) -> bool {
    exists|i: int, k: int|
        0 <= i < g.len() && 0 <= k < g[i].lines.len() && line_has_target(#[trigger] g[i].lines[k], t)
}

/// Equality of two possibilities up to the resolved index.
pub open spec fn poss_same_shape(a: PossV, b: PossV) -> bool {
    &&& a.text == b.text
    &&& a.jump_to_node_title == b.jump_to_node_title
    &&& a.condition == b.condition
    &&& a.used == b.used
}

/// Equality of two lines up to resolved indices.
pub open spec fn line_same_shape(a: LineV, b: LineV) -> bool {
    match (a, b) {
        (LineV::JumpLine { node_title: t1, node: _ }, LineV::JumpLine {
            node_title: t2,
            node: _,
        }) => t1 == t2,
        (LineV::OptionLine { speaker: s1, possibilities: p1 }, LineV::OptionLine {
            speaker: s2,
            possibilities: p2,
        }) => s1 == s2 && p1.len() == p2.len() && forall|j: int|
            0 <= j < p1.len() ==> poss_same_shape(#[trigger] p1[j], p2[j]),
        _ => a == b,
    }
}

/// Equality of two nodes up to resolved indices.
pub open spec fn node_same_shape(a: NodeV, b: NodeV) -> bool {
    &&& a.title == b.title
    &&& a.lines.len() == b.lines.len()
    &&& forall|k: int| 0 <= k < a.lines.len() ==> line_same_shape(#[trigger] a.lines[k], b.lines[k])
}

/// Equality of two graphs up to resolved indices.
pub open spec fn graph_same_shape(a: Seq<NodeV>, b: Seq<NodeV>) -> bool {
    &&& a.len() == b.len()
    &&& forall|i: int| 0 <= i < a.len() ==> node_same_shape(#[trigger] a[i], b[i])
}

/// `node_resolved`, stated against the title list alone.
pub open spec fn node_resolved_titles(ts: Seq<Seq<char>>, n: NodeV) -> bool {
    forall|k: int|
        0 <= k < n.lines.len() ==> {
            &&& (#[trigger] n.lines[k] matches LineV::JumpLine { node_title, node } ==> 0 <= node
                < ts.len() && ts[node] == node_title)
            &&& (n.lines[k] matches LineV::OptionLine { possibilities, .. } ==> forall|p: int|
                0 <= p < possibilities.len() ==> {
                    let t = #[trigger] possibilities[p];
                    0 <= t.jump_to_node < ts.len() && ts[t.jump_to_node] == t.jump_to_node_title
                })
        }
}

proof fn lemma_shape_preserves_wf(a: NodeV, b: NodeV)
    requires
        node_same_shape(a, b),
        node_wf(b),
    ensures
        node_wf(a),
{
    assert forall|k: int| 0 <= k < a.lines.len() implies crate::components::line_wf(
        #[trigger] a.lines[k],
    ) by {
        assert(line_same_shape(a.lines[k], b.lines[k]));
        assert(crate::components::line_wf(b.lines[k]));
    }
}

proof fn lemma_resolved_titles_to_graph(g: Seq<NodeV>, ts: Seq<Seq<char>>, n: NodeV)
    requires
        g.len() == ts.len(),
        forall|j: int| 0 <= j < g.len() ==> (#[trigger] g[j]).title == ts[j],
        node_resolved_titles(ts, n),
    ensures
        node_resolved(g, n),
{
}

/// Index of the first node whose title is `t`, if any.
fn find_title(titles: &Vec<String>, t: &String) -> (r: Option<usize>)
    ensures
        match r {
            Some(ix) => ix < titles@.len() && titles@[ix as int]@ == t@,
            None => forall|j: int| 0 <= j < titles@.len() ==> titles@[j]@ != t@,
        },
{
    let mut i: usize = 0;
    while i < titles.len()
        invariant
            i <= titles@.len(),
            forall|j: int| 0 <= j < i ==> titles@[j]@ != t@,
        decreases titles@.len() - i,
    {
        if titles[i].eq(t) {
            return Some(i);
        }
        i += 1;
    }
    None
}

/// Resolves every target of one node against the title list.
#[verifier::loop_isolation(false)]
fn resolve_node(node: YarnSpinnerNode, titles: &Vec<String>) -> (r: Result<
    YarnSpinnerNode,
    YarnSpinnerDialogLoaderError,
>)
    ensures
        ({
            let ts = titles@.map_values(|s: String| s@);
            match r {
                Ok(n2) => node_same_shape(n2@, node@) && node_resolved_titles(ts, n2@)
                    && lines_first_dangling(ts, node@.lines) is None,
                Err(e) => e matches YarnSpinnerDialogLoaderError::UnknownNode { title }
                    && lines_first_dangling(ts, node@.lines) == Some(title@) && exists|k: int|
                    0 <= k < node@.lines.len() && line_has_target(
                        #[trigger] node@.lines[k],
                        title@,
                    ) && (forall|j: int| 0 <= j < ts.len() ==> ts[j] != title@),
            }
        }),
{
    let ghost ts = titles@.map_values(|s: String| s@);
    let ghost nv = node@;
    let title = node.title;
    let mut rem = node.lines;
    let mut out: Vec<LineType> = Vec::new();
    let ghost total = nv.lines.len();
    while rem.len() > 0
        invariant
            out@.len() + rem@.len() == total,
            forall|k: int|
                0 <= k < out@.len() ==> {
                    let a = (#[trigger] out@[k])@;
                    let b = nv.lines[k];
                    line_same_shape(a, b) && line_resolved_titles(ts, a)
                },
            forall|k: int|
                0 <= k < out@.len() ==> line_first_dangling(ts, #[trigger] nv.lines[k]) is None,
            forall|k: int|
                0 <= k < rem@.len() ==> (#[trigger] rem@[k])@ == nv.lines[out@.len() + k],
        decreases rem@.len(),
    {
        let ghost done = out@.len() as int;
        let lt = rem.remove(0);
        proof {
            assert(lt@ == nv.lines[done]);
        }
        match lt {
            LineType::JumpLine { node_title, node: _ } => {
                match find_title(titles, &node_title) {
                    Some(ix) => {
                        let lt2 = LineType::JumpLine { node_title, node: ix };
                        proof {
                            assert(line_same_shape(lt2@, nv.lines[done]));
                            assert(ts[ix as int] == node_title@);
                            assert(known_title(ts, node_title@));
                            assert(line_first_dangling(ts, nv.lines[done]) is None);
                        }
                        out.push(lt2);
                    },
                    None => {
                        proof {
                            assert(line_has_target(nv.lines[done], node_title@));
                            assert(!known_title(ts, node_title@));
                            assert(line_first_dangling(ts, nv.lines[done]) == Some(node_title@));
                            lemma_lines_fd_is(ts, nv.lines, done);
                        }
                        return Err(
                            YarnSpinnerDialogLoaderError::UnknownNode { title: node_title },
                        );
                    },
                }
            },
            LineType::OptionLine { speaker, possibilities } => {
                let ghost pv = possibilities@.map_values(|p: OptionPossibility| p@);
                let mut rp = possibilities;
                let mut outp: Vec<OptionPossibility> = Vec::new();
                while rp.len() > 0
                    invariant
                        outp@.len() + rp@.len() == pv.len(),
                        forall|q: int|
                            0 <= q < outp@.len() ==> {
                                let a = (#[trigger] outp@[q])@;
                                let b = pv[q];
                                poss_same_shape(a, b) && 0 <= a.jump_to_node < ts.len()
                                    && ts[a.jump_to_node] == a.jump_to_node_title
                            },
                        forall|q: int|
                            0 <= q < outp@.len() ==> known_title(
                                ts,
                                (#[trigger] pv[q]).jump_to_node_title,
                            ),
                        forall|q: int|
                            0 <= q < rp@.len() ==> (#[trigger] rp@[q])@ == pv[outp@.len() + q],
                    decreases rp@.len(),
                {
                    let ghost pdone = outp@.len() as int;
                    let p = rp.remove(0);
                    proof {
                        assert(p@ == pv[pdone]);
                    }
                    match find_title(titles, &p.jump_to_node_title) {
                        Some(ix) => {
                            let p2 = OptionPossibility { jump_to_node: ix, ..p };
                            proof {
                                assert(outp@.push(p2).map_values(|pp: OptionPossibility| pp@)
                                    =~= outp@.map_values(|pp: OptionPossibility| pp@).push(p2@));
                                assert(ts[ix as int] == p@.jump_to_node_title);
                                assert(known_title(ts, pv[pdone].jump_to_node_title));
                            }
                            outp.push(p2);
                        },
                        None => {
                            proof {
                                assert(pv[pdone].jump_to_node_title == p@.jump_to_node_title);
                                assert(line_has_target(nv.lines[done], p@.jump_to_node_title));
                                assert(!known_title(ts, p@.jump_to_node_title));
                                lemma_poss_fd_is(ts, pv, pdone);
                                assert(line_first_dangling(ts, nv.lines[done]) == Some(
                                    p@.jump_to_node_title,
                                ));
                                lemma_lines_fd_is(ts, nv.lines, done);
                            }
                            return Err(
                                YarnSpinnerDialogLoaderError::UnknownNode {
                                    title: p.jump_to_node_title,
                                },
                            );
                        },
                    }
                }
                let lt2 = LineType::OptionLine { speaker, possibilities: outp };
                proof {
                    assert(pv =~= pv.subrange(0, pv.len() as int));
                    assert(line_same_shape(lt2@, nv.lines[done]));
                    assert(line_resolved_titles(ts, lt2@));
                    lemma_poss_fd_none(ts, pv);
                    assert(line_first_dangling(ts, nv.lines[done]) is None);
                }
                out.push(lt2);
            },
            other => {
                proof {
                    assert(line_same_shape(other@, nv.lines[done]));
                    assert(line_resolved_titles(ts, other@));
                    assert(line_first_dangling(ts, nv.lines[done]) is None);
                }
                out.push(other);
            },
        }
        proof {
            assert(out@.map_values(|l: LineType| l@) =~= out@.drop_last().map_values(
                |l: LineType| l@,
            ).push(out@.last()@));
        }
    }
    let n2 = YarnSpinnerNode { title, lines: out };
    proof {
        assert(node_same_shape(n2@, nv));
        assert(node_resolved_titles(ts, n2@));
        lemma_lines_fd_none(ts, nv.lines);
    }
    Ok(n2)
}

/// `node_resolved_titles`, for a single line.
pub open spec fn line_resolved_titles(ts: Seq<Seq<char>>, l: LineV) -> bool {
    &&& (l matches LineV::JumpLine { node_title, node } ==> 0 <= node < ts.len() && ts[node]
        == node_title)
    &&& (l matches LineV::OptionLine { possibilities, .. } ==> forall|p: int|
        0 <= p < possibilities.len() ==> {
            let t = #[trigger] possibilities[p];
            0 <= t.jump_to_node < ts.len() && ts[t.jump_to_node] == t.jump_to_node_title
        })
}

/// Rejects duplicate titles, then fills every jump and option target with
/// the index of the node carrying the matching title.
#[verifier::loop_isolation(false)]
pub fn resolve_nodes(drafts: Vec<YarnSpinnerNode>) -> (r: Result<
    Vec<YarnSpinnerNode>,
    YarnSpinnerDialogLoaderError,
>)
    requires
        forall|i: int| 0 <= i < drafts@.len() ==> node_wf(#[trigger] graph_view(drafts@)[i]),
    ensures
        ({
            let dv = graph_view(drafts@);
            match r {
                Ok(g) => titles_unique(dv) && graph_same_shape(graph_view(g@), dv) && graph_wf(
                    graph_view(g@),
                ) && first_dangling(dv) is None,
                Err(e) => match e {
                    YarnSpinnerDialogLoaderError::DuplicateNodeTitle { title } =>
                        has_duplicate_title(dv, title@) && first_dup_from(dv, 0) >= 0 && dv[
                        first_dup_from(dv, 0)].title == title@,
                    YarnSpinnerDialogLoaderError::UnknownNode { title } => titles_unique(dv)
                        && graph_has_target(dv, title@) && !title_exists(dv, title@)
                        && first_dangling(dv) == Some(title@),
                    _ => false,
                },
            }
        }),
{
    let ghost dv = graph_view(drafts@);
    let n = drafts.len();
    // Collect the titles once; lookups and the duplicate check go through
    // this list while the drafts themselves are consumed below.
    let mut titles: Vec<String> = Vec::new();
    let mut i: usize = 0;
    while i < n
        invariant
            i <= n,
            titles@.len() == i,
            forall|j: int| 0 <= j < i ==> titles@[j]@ == dv[j].title,
        decreases n - i,
    {
        titles.push(drafts[i].title.clone());
        i += 1;
    }
    let ghost ts = titles@.map_values(|s: String| s@);
    proof {
        assert(forall|j: int| 0 <= j < n ==> ts[j] == dv[j].title);
        assert(ts =~= titles_of(dv));
    }
    // Duplicate check.
    let mut a: usize = 1;
    while a < n
        invariant
            1 <= a <= n || n == 0,
            forall|x: int, y: int| 0 <= x < y < a ==> dv[x].title != dv[y].title,
            forall|x: int| 0 <= x < a ==> !(#[trigger] dup_before(dv, x)),
        decreases n - a,
    {
        let mut b: usize = 0;
        while b < a
            invariant
                b <= a,
                forall|x: int| 0 <= x < b ==> dv[x].title != dv[a as int].title,
            decreases a - b,
        {
            if titles[b].eq(&titles[a]) {
                proof {
                    assert(dv[b as int].title == dv[a as int].title);
                    assert(0 <= b < a < dv.len());
                    assert(dup_before(dv, a as int));
                    lemma_first_dup_is(dv, 0, a as int);
                }
                return Err(
                    YarnSpinnerDialogLoaderError::DuplicateNodeTitle {
                        title: titles[a].clone(),
                    },
                );
            }
            b += 1;
        }
        proof {
            assert(!dup_before(dv, a as int)) by {
                if dup_before(dv, a as int) {
                    let b0 = choose|b0: int|
                        0 <= b0 < a && (#[trigger] dv[b0]).title == dv[a as int].title;
                }
            }
        }
        a += 1;
    }
    proof {
        assert(titles_unique(dv));
    }
    // Resolution.
    let mut rem = drafts;
    let mut out: Vec<YarnSpinnerNode> = Vec::new();
    while rem.len() > 0
        invariant
            out@.len() + rem@.len() == dv.len(),
            forall|k: int|
                0 <= k < rem@.len() ==> (#[trigger] rem@[k])@ == dv[out@.len() + k],
            forall|k: int|
                0 <= k < out@.len() ==> {
                    let g = #[trigger] graph_view(out@)[k];
                    node_same_shape(g, dv[k]) && node_resolved_titles(ts, g)
                },
            forall|k: int|
                0 <= k < out@.len() ==> lines_first_dangling(
                    ts,
                    (#[trigger] dv[k]).lines,
                ) is None,
        decreases rem@.len(),
    {
        let ghost done = out@.len() as int;
        let node = rem.remove(0);
        proof {
            assert(node@ == dv[done]);
        }
        match resolve_node(node, &titles) {
            Ok(n2) => {
                proof {
                    assert(graph_view(out@.push(n2)) =~= graph_view(out@).push(n2@));
                }
                out.push(n2);
            },
            Err(e) => {
                proof {
                    match &e {
                        YarnSpinnerDialogLoaderError::UnknownNode { title } => {
                            let k = choose|k: int|
                                0 <= k < dv[done].lines.len() && line_has_target(
                                    #[trigger] dv[done].lines[k],
                                    title@,
                                );
                            assert(graph_has_target(dv, title@));
                            lemma_nodes_fd_is(dv, 0, done);
                            assert(first_dangling(dv) == Some(title@));
                            assert(!title_exists(dv, title@)) by {
                                if title_exists(dv, title@) {
                                    let w = choose|w: int|
                                        0 <= w < dv.len() && (#[trigger] dv[w]).title == title@;
                                    assert(ts[w] == dv[w].title);
                                }
                            }
                        },
                        _ => {},
                    }
                }
                return Err(e);
            },
        }
    }
    proof {
        lemma_nodes_fd_none(dv, 0);
        let gv = graph_view(out@);
        assert(graph_same_shape(gv, dv));
        assert forall|k: int| 0 <= k < gv.len() implies node_wf(#[trigger] gv[k]) by {
            lemma_shape_preserves_wf(gv[k], dv[k]);
        }
        assert forall|k: int| 0 <= k < gv.len() implies node_resolved(gv, #[trigger] gv[k]) by {
            lemma_resolved_titles_to_graph(gv, ts, gv[k]);
        }
        assert(graph_wf(gv));
    }
    Ok(out)
}


// ---------------------------------------------------------------------------
// Which title an error names: the first offender in scan order
// ---------------------------------------------------------------------------

/// Whether some earlier node shares node `a`'s title.
pub open spec fn dup_before(g: Seq<NodeV>, a: int) -> bool {
    exists|b: int| 0 <= b < a && (#[trigger] g[b]).title == g[a].title
}

/// The smallest index whose title already appeared, or `-1` when titles
/// are pairwise distinct; the duplicate-title error names this node's
/// title.
pub open spec fn first_dup_from(g: Seq<NodeV>, a: int) -> int
    decreases g.len() - a when 0 <= a <= g.len()
{
    if a >= g.len() {
        -1
    } else if dup_before(g, a) {
        a
    } else {
        first_dup_from(g, a + 1)
    }
}

proof fn lemma_first_dup_is(g: Seq<NodeV>, s: int, a: int)
    requires
        0 <= s <= a < g.len(),
        dup_before(g, a),
        forall|x: int| s <= x < a ==> !dup_before(g, x),
    ensures
        first_dup_from(g, s) == a,
    decreases a - s,
{
    if s < a {
        lemma_first_dup_is(g, s + 1, a);
    }
}

/// Whether the title list knows `t`.
pub open spec fn known_title(ts: Seq<Seq<char>>, t: Seq<char>) -> bool {
    exists|j: int| 0 <= j < ts.len() && ts[j] == t
}

/// The first target among `ps` whose title the list does not know.
pub open spec fn poss_first_dangling(ts: Seq<Seq<char>>, ps: Seq<PossV>) -> Option<Seq<char>>
    decreases ps.len(),
{
    if ps.len() == 0 {
        None
    } else if !known_title(ts, ps.first().jump_to_node_title) {
        Some(ps.first().jump_to_node_title)
    } else {
        poss_first_dangling(ts, ps.drop_first())
    }
}

/// The first target of line `l` whose title the list does not know.
pub open spec fn line_first_dangling(ts: Seq<Seq<char>>, l: LineV) -> Option<Seq<char>> {
    match l {
        LineV::JumpLine { node_title, .. } => if !known_title(ts, node_title) {
            Some(node_title)
        } else {
            None
        },
        LineV::OptionLine { possibilities, .. } => poss_first_dangling(ts, possibilities),
        _ => None,
    }
}

/// The first dangling target among `ls`, in line order.
pub open spec fn lines_first_dangling(ts: Seq<Seq<char>>, ls: Seq<LineV>) -> Option<Seq<char>>
    decreases ls.len(),
{
    if ls.len() == 0 {
        None
    } else {
        match line_first_dangling(ts, ls.first()) {
            Some(t) => Some(t),
            None => lines_first_dangling(ts, ls.drop_first()),
        }
    }
}

/// The titles the graph's nodes carry, in order.
pub open spec fn titles_of(g: Seq<NodeV>) -> Seq<Seq<char>> {
    g.map_values(|n: NodeV| n.title)
}

pub open spec fn nodes_first_dangling_from(g: Seq<NodeV>, i: int) -> Option<Seq<char>>
    decreases g.len() - i when 0 <= i <= g.len()
{
    if i >= g.len() {
        None
    } else {
        match lines_first_dangling(titles_of(g), g[i].lines) {
            Some(t) => Some(t),
            None => nodes_first_dangling_from(g, i + 1),
        }
    }
}

/// The first dangling jump or option target of the whole graph, scanning
/// nodes, lines and possibilities in order; the unknown-node error names
/// exactly this title.
pub open spec fn first_dangling(g: Seq<NodeV>) -> Option<Seq<char>> {
    nodes_first_dangling_from(g, 0)
}

proof fn lemma_poss_fd_is(ts: Seq<Seq<char>>, ps: Seq<PossV>, q: int)
    requires
        0 <= q < ps.len(),
        !known_title(ts, ps[q].jump_to_node_title),
        forall|x: int| 0 <= x < q ==> known_title(ts, (#[trigger] ps[x]).jump_to_node_title),
    ensures
        poss_first_dangling(ts, ps) == Some(ps[q].jump_to_node_title),
    decreases q,
{
    if q > 0 {
        lemma_poss_fd_is(ts, ps.drop_first(), q - 1);
    }
}

proof fn lemma_poss_fd_none(ts: Seq<Seq<char>>, ps: Seq<PossV>)
    requires
        forall|x: int| 0 <= x < ps.len() ==> known_title(
            ts,
            (#[trigger] ps[x]).jump_to_node_title,
        ),
    ensures
        poss_first_dangling(ts, ps) is None,
    decreases ps.len(),
{
    if ps.len() > 0 {
        lemma_poss_fd_none(ts, ps.drop_first());
    }
}

proof fn lemma_lines_fd_is(ts: Seq<Seq<char>>, ls: Seq<LineV>, k: int)
    requires
        0 <= k < ls.len(),
        line_first_dangling(ts, ls[k]) is Some,
        forall|x: int| 0 <= x < k ==> line_first_dangling(ts, #[trigger] ls[x]) is None,
    ensures
        lines_first_dangling(ts, ls) == line_first_dangling(ts, ls[k]),
    decreases k,
{
    if k > 0 {
        lemma_lines_fd_is(ts, ls.drop_first(), k - 1);
    }
}

proof fn lemma_lines_fd_none(ts: Seq<Seq<char>>, ls: Seq<LineV>)
    requires
        forall|x: int| 0 <= x < ls.len() ==> line_first_dangling(ts, #[trigger] ls[x]) is None,
    ensures
        lines_first_dangling(ts, ls) is None,
    decreases ls.len(),
{
    if ls.len() > 0 {
        lemma_lines_fd_none(ts, ls.drop_first());
    }
}

proof fn lemma_nodes_fd_none(g: Seq<NodeV>, s: int)
    requires
        0 <= s <= g.len(),
        forall|x: int|
            s <= x < g.len() ==> lines_first_dangling(titles_of(g), (#[trigger] g[x]).lines)
                is None,
    ensures
        nodes_first_dangling_from(g, s) is None,
    decreases g.len() - s,
{
    if s < g.len() {
        lemma_nodes_fd_none(g, s + 1);
    }
}

proof fn lemma_nodes_fd_is(g: Seq<NodeV>, s: int, i: int)
    requires
        0 <= s <= i < g.len(),
        lines_first_dangling(titles_of(g), g[i].lines) is Some,
        forall|x: int|
            s <= x < i ==> lines_first_dangling(titles_of(g), (#[trigger] g[x]).lines) is None,
    ensures
        nodes_first_dangling_from(g, s) == lines_first_dangling(titles_of(g), g[i].lines),
    decreases i - s,
{
    if s < i {
        lemma_nodes_fd_is(g, s + 1, i);
    }
}

/// Round trip of load and resolution: the resolved graph has exactly the
/// parsed nodes — as many, with the same titles, in the same order — and
/// dereferencing any jump or option target yields the node carrying the
/// matching title.
pub proof fn lemma_resolution_round_trip(g: Seq<NodeV>, d: Seq<NodeV>)
    requires
        graph_same_shape(g, d),
        graph_wf(g),
    ensures
        g.len() == d.len(),
        forall|i: int| 0 <= i < g.len() ==> (#[trigger] g[i]).title == d[i].title,
        forall|i: int, k: int|
            0 <= i < g.len() && 0 <= k < g[i].lines.len() ==> (#[trigger] g[i].lines[k]
                matches LineV::JumpLine { node_title, node } ==> 0 <= node < g.len()
                && g[node].title == node_title),
        forall|i: int, k: int|
            0 <= i < g.len() && 0 <= k < g[i].lines.len() ==> (#[trigger] g[i].lines[k]
                matches LineV::OptionLine { possibilities, .. } ==> forall|q: int|
                0 <= q < possibilities.len() ==> {
                    let t = #[trigger] possibilities[q];
                    0 <= t.jump_to_node < g.len() && g[t.jump_to_node].title
                        == t.jump_to_node_title
                }),
{
    assert forall|i: int, k: int|
        0 <= i < g.len() && 0 <= k < g[i].lines.len() implies (#[trigger] g[i].lines[k]
        matches LineV::JumpLine { node_title, node } ==> 0 <= node < g.len() && g[node].title
        == node_title) && (g[i].lines[k] matches LineV::OptionLine { possibilities, .. }
        ==> forall|q: int|
        0 <= q < possibilities.len() ==> {
            let t = #[trigger] possibilities[q];
            0 <= t.jump_to_node < g.len() && g[t.jump_to_node].title == t.jump_to_node_title
        }) by {
        assert(node_resolved(g, g[i]));
    }
}

} // verus!
