use vstd::prelude::*;
use crate::graph_builder::{built_from, product_tokens, term_links, terms_sound};
use crate::graph_store::{
    graph_bfs, graph_node_count, graph_weights_between, graph_node_weight, is_walk, linked, reachable,
    SearchSystem,
};
use crate::models::{EdgeType, GraphNode, Product, User};
use crate::text::{contains_str, is_substring, lower_of, lowercase};

verus! {

/// A term's text matches a normalised query when either occurs in the other.
pub open spec fn term_matches(text: Seq<char>, q: Seq<char>) -> bool {
    is_substring(text, q) || is_substring(q, text)
}

/// Node `i` is a term whose text matches `q`.
pub open spec fn is_root(sys: SearchSystem, q: Seq<char>, i: int) -> bool {
    sys.nodes()[i] is Term && term_matches(sys.nodes()[i]->Term_0.term@, q)
}

/// Edge `e` indexes the product with id `id` under a term matching `q`.
pub open spec fn indexes(sys: SearchSystem, q: Seq<char>, e: int, id: u32) -> bool {
    &&& sys.edges()[e].2 == EdgeType::CONTAINS_TERM
    &&& is_root(sys, q, sys.edges()[e].0 as int)
    &&& sys.nodes()[sys.edges()[e].1 as int].is_product_with(id)
}

/// The product with id `id` is found by the normalised query `q`.
pub open spec fn found_by(sys: SearchSystem, q: Seq<char>, id: u32) -> bool {
    exists|e: int| 0 <= e < sys.edges().len() && #[trigger] indexes(sys, q, e, id)
}

proof fn lemma_insert_sorted(s: Seq<u32>, pos: int, c: u32)
    requires
        0 <= pos <= s.len(),
        forall|i: int, j: int| 0 <= i < j < s.len() ==> s[i] < s[j],
        forall|j: int| 0 <= j < pos ==> s[j] < c,
        pos < s.len() ==> c < s[pos],
    ensures
        forall|i: int, j: int| 0 <= i < j < s.insert(pos, c).len() ==> s.insert(pos, c)[i] < s.insert(pos, c)[j],
        forall|y: u32| #[trigger] s.insert(pos, c).contains(y) <==> (s.contains(y) || y == c),
{
    let t = s.insert(pos, c);
    assert forall|y: u32| #[trigger] t.contains(y) <==> (s.contains(y) || y == c) by {
        if s.contains(y) {
            let j = choose|j: int| 0 <= j < s.len() && s[j] == y;
            if j < pos {
                assert(t[j] == y);
            } else {
                assert(t[j + 1] == y);
            }
        }
        if y == c {
            assert(t[pos] == y);
        }
        if t.contains(y) {
            let j = choose|j: int| 0 <= j < t.len() && t[j] == y;
            if j < pos {
                assert(s[j] == y);
            } else if j > pos {
                assert(s[j - 1] == y);
            }
        }
    }
}

/// Adds `c` to the strictly increasing `ids` unless it is there already.
fn insert_sorted(ids: &mut Vec<u32>, c: u32)
    requires
        forall|i: int, j: int| 0 <= i < j < old(ids)@.len() ==> old(ids)@[i] < old(ids)@[j],
    ensures
        forall|i: int, j: int| 0 <= i < j < final(ids)@.len() ==> final(ids)@[i] < final(ids)@[j],
        forall|y: u32| #[trigger] final(ids)@.contains(y) <==> (old(ids)@.contains(y) || y == c),
{
    let mut pos: usize = 0;
    while pos < ids.len() && ids[pos] < c
        invariant
            pos <= ids@.len(),
            forall|j: int| 0 <= j < pos ==> ids@[j] < c,
        decreases ids@.len() - pos,
    {
        pos = pos + 1;
    }
    if pos < ids.len() && ids[pos] == c {
        assert(ids@[pos as int] == c);
        return;
    }
    proof {
        lemma_insert_sorted(ids@, pos as int, c);
    }
    ids.insert(pos, c);
}

/// The product with id `id` is found by `q` through a root below node `i`.
pub open spec fn found_from(sys: SearchSystem, q: Seq<char>, id: u32, i: int) -> bool {
    exists|e: int| 0 <= e < sys.edges().len() && sys.edges()[e].0 < i && #[trigger] indexes(sys, q, e, id)
}

/// Whether the edge `(a, b, w)` is in the graph.
fn has_edge(system: &SearchSystem, a: usize, b: usize, w: EdgeType) -> (r: bool)
    requires
        a < u32::MAX,
        b < u32::MAX,
    ensures
        r == system.edges().contains((a, b, w)),
{
    let ws = graph_weights_between(&system.graph, a, b);
    let mut i: usize = 0;
    while i < ws.len()
        invariant
            forall|x: EdgeType| ws@.contains(x) <==> system.edges().contains((a, b, x)),
            i <= ws@.len(),
            forall|k: int| 0 <= k < i ==> ws@[k] != w,
        decreases ws@.len() - i,
    {
        if ws[i] == w {
            assert(ws@.contains(w));
            return true;
        }
        i = i + 1;
    }
    proof {
        if system.edges().contains((a, b, w)) {
            assert(ws@.contains(w));
            let k = choose|k: int| 0 <= k < ws@.len() && ws@[k] == w;
        }
    }
    false
}

/// Visited node `v` is a product with id `id` that a CONTAINS_TERM edge from `r` leads to.
pub open spec fn confirms(sys: SearchSystem, r: usize, v: usize, id: u32) -> bool {
    sys.nodes()[v as int].is_product_with(id) && sys.edges().contains((r, v, EdgeType::CONTAINS_TERM))
}

/// One of the first `j` visited nodes confirms the product with id `id`.
pub open spec fn confirmed_upto(sys: SearchSystem, r: usize, visited: Seq<usize>, j: int, id: u32) -> bool {
    exists|k: int| 0 <= k < j && #[trigger] confirms(sys, r, visited[k], id)
}

/// Walks the graph breadth-first from the root term `r` and adds every
/// visited product that a CONTAINS_TERM edge from `r` leads to.
fn collect_from_root(system: &SearchSystem, r: usize, ids: &mut Vec<u32>, Ghost(qv): Ghost<Seq<char>>)
    requires
        system.wf(),
        r < system.nodes().len(),
        is_root(*system, qv, r as int),
        forall|a: int, b: int| 0 <= a < b < old(ids)@.len() ==> old(ids)@[a] < old(ids)@[b],
        forall|c: u32| old(ids)@.contains(c) <==> found_from(*system, qv, c, r as int),
    ensures
        forall|a: int, b: int| 0 <= a < b < final(ids)@.len() ==> final(ids)@[a] < final(ids)@[b],
        forall|c: u32| final(ids)@.contains(c) <==> found_from(*system, qv, c, r + 1),
{
    let visited = graph_bfs(&system.graph, r);
    let ghost ids0 = ids@;
    let mut j: usize = 0;
    while j < visited.len()
        invariant
            system.wf(),
            r < system.nodes().len(),
            is_root(*system, qv, r as int),
            forall|c: u32| ids0.contains(c) <==> found_from(*system, qv, c, r as int),
            forall|n: usize| visited@.contains(n) <==> reachable(system.edges(), r, n),
            j <= visited@.len(),
            forall|a: int, b: int| 0 <= a < b < ids@.len() ==> ids@[a] < ids@[b],
            forall|c: u32| #[trigger] ids@.contains(c) <==> (ids0.contains(c) || confirmed_upto(*system, r, visited@, j as int, c)),
        decreases visited@.len() - j,
    {
        let v = visited[j];
        let ghost before = ids@;
        let mut got: Option<u32> = None;
        if v < graph_node_count(&system.graph) {
            if let Some(GraphNode::Product(p)) = graph_node_weight(&system.graph, v) {
                if has_edge(system, r, v, EdgeType::CONTAINS_TERM) {
                    got = Some(p.id);
                }
            }
        }
        if let Some(c) = got {
            insert_sorted(ids, c);
        }
        proof {
            assert forall|c: u32| #[trigger] confirms(*system, r, v, c) <==> got == Some(c) by {
                if confirms(*system, r, v, c) {
                    let m = choose|m: int| 0 <= m < system.edges().len() && system.edges()[m] == (r, v, EdgeType::CONTAINS_TERM);
                    assert(v < system.nodes().len());
                }
            }
            assert forall|c: u32| #[trigger] ids@.contains(c) <==> (ids0.contains(c) || confirmed_upto(*system, r, visited@, j + 1, c)) by {
                assert(ids@.contains(c) <==> (before.contains(c) || got == Some(c)));
                assert(before.contains(c) <==> (ids0.contains(c) || confirmed_upto(*system, r, visited@, j as int, c)));
                if confirmed_upto(*system, r, visited@, j + 1, c) {
                    let k = choose|k: int| 0 <= k < j + 1 && #[trigger] confirms(*system, r, visited@[k], c);
                    if k < j {
                        assert(confirmed_upto(*system, r, visited@, j as int, c));
                    } else {
                        assert(visited@[k] == v);
                        assert(confirms(*system, r, v, c));
                        assert(got == Some(c));
                    }
                }
                if confirmed_upto(*system, r, visited@, j as int, c) {
                    let k = choose|k: int| 0 <= k < j && #[trigger] confirms(*system, r, visited@[k], c);
                    assert(0 <= k < j + 1);
                }
                if got == Some(c) {
                    assert(confirms(*system, r, visited@[j as int], c));
                }
            }
        }
        j = j + 1;
    }
    proof {
        assert forall|c: u32| ids@.contains(c) <==> found_from(*system, qv, c, r + 1) by {
            if found_from(*system, qv, c, r + 1) && !found_from(*system, qv, c, r as int) {
                let e = choose|e: int| 0 <= e < system.edges().len() && system.edges()[e].0 < r + 1
                    && #[trigger] indexes(*system, qv, e, c);
                let b = system.edges()[e].1;
                assert(system.edges()[e].0 == r);
                assert(linked(system.edges(), r, b));
                let p = seq![r, b];
                assert(is_walk(system.edges(), p));
                assert(reachable(system.edges(), r, b));
                assert(visited@.contains(b));
                let k = choose|k: int| 0 <= k < visited@.len() && visited@[k] == b;
                assert(system.edges()[e] == (r, b, EdgeType::CONTAINS_TERM));
                assert(system.edges().contains((r, b, EdgeType::CONTAINS_TERM)));
                assert(confirms(*system, r, visited@[k], c));
            }
            if ids@.contains(c) && !ids0.contains(c) {
                let k = choose|k: int| 0 <= k < visited@.len() && #[trigger] confirms(*system, r, visited@[k], c);
                let m = choose|m: int| 0 <= m < system.edges().len() && system.edges()[m] == (r, visited@[k], EdgeType::CONTAINS_TERM);
                assert(indexes(*system, qv, m, c));
            }
            if found_from(*system, qv, c, r as int) {
                let e = choose|e: int| 0 <= e < system.edges().len() && system.edges()[e].0 < r
                    && #[trigger] indexes(*system, qv, e, c);
                assert(system.edges()[e].0 < r + 1);
            }
        }
    }
}

/// Finds the products indexed under a term that matches `query`: the query
/// is lowercased, every term node whose text occurs in it or holds it is a
/// root. From each root a breadth-first walk enumerates the reachable nodes,
/// and a visited product is found when a CONTAINS_TERM edge leads to it
/// directly from that root. Each product comes once, by ascending id.
pub fn search_by_term(system: &SearchSystem, query: &str) -> (r: Vec<Product>)
    requires
        system.wf(),
    ensures
        forall|i: int, j: int| 0 <= i < j < r@.len() ==> r@[i].id < r@[j].id,
        forall|c: u32| (exists|i: int| 0 <= i < r@.len() && (#[trigger] r@[i]).id == c)
            <==> found_by(*system, lower_of(query@), c),
        forall|i: int| 0 <= i < r@.len() ==> system.holds_product((#[trigger] r@[i])@),
{
    broadcast use vstd::std_specs::hash::group_hash_axioms;
    let q = lowercase(query);
    let ghost qv = lower_of(query@);
    let nn = graph_node_count(&system.graph);
    let mut ids: Vec<u32> = Vec::new();
    let mut i: usize = 0;
    while i < nn
        invariant
            system.wf(),
            nn == system.nodes().len(),
            q@ == qv,
            i <= nn,
            forall|a: int, b: int| 0 <= a < b < ids@.len() ==> ids@[a] < ids@[b],
            forall|c: u32| ids@.contains(c) <==> found_from(*system, qv, c, i as int),
        decreases nn - i,
    {
        let mut root = false;
        if let Some(GraphNode::Term(t)) = graph_node_weight(&system.graph, i) {
            root = contains_str(q.as_str(), t.term.as_str()) || contains_str(t.term.as_str(), q.as_str());
        }
        assert(root == is_root(*system, qv, i as int));
        if root {
            collect_from_root(system, i, &mut ids, Ghost(qv));
        } else {
            proof {
                assert forall|c: u32| ids@.contains(c) <==> found_from(*system, qv, c, i + 1) by {
                    if found_from(*system, qv, c, i + 1) {
                        let e = choose|e: int| 0 <= e < system.edges().len() && system.edges()[e].0 < i + 1
                            && #[trigger] indexes(*system, qv, e, c);
                        assert(system.edges()[e].0 != i);
                    }
                }
            }
        }
        i = i + 1;
    }
    proof {
        assert forall|c: u32| ids@.contains(c) <==> found_by(*system, qv, c) by {
            if found_by(*system, qv, c) {
                let e = choose|e: int| 0 <= e < system.edges().len() && #[trigger] indexes(*system, qv, e, c);
                assert(system.edges()[e].0 < nn);
            }
        }
    }
    let mut out: Vec<Product> = Vec::new();
    let mut k: usize = 0;
    while k < ids.len()
        invariant
            system.wf(),
            forall|a: int, b: int| 0 <= a < b < ids@.len() ==> ids@[a] < ids@[b],
            forall|c: u32| ids@.contains(c) <==> found_by(*system, qv, c),
            k <= ids@.len(),
            out@.len() == k,
            forall|a: int| 0 <= a < k ==> (#[trigger] out@[a]).id == ids@[a],
            forall|a: int| 0 <= a < k ==> system.holds_product((#[trigger] out@[a])@),
        decreases ids@.len() - k,
    {
        let c = ids[k];
        proof {
            assert(ids@.contains(c));
            let x = choose|x: int| 0 <= x < system.edges().len() && #[trigger] indexes(*system, qv, x, c);
            assert(system.edges()[x].1 < system.nodes().len());
        }
        let j = match system.product_id_to_index.get(&c) {
            Some(j) => *j,
            None => {
                return out;
            },
        };
        match graph_node_weight(&system.graph, j) {
            Some(GraphNode::Product(p)) => {
                out.push(p.duplicate());
            },
            _ => {
                return out;
            },
        }
        k = k + 1;
    }
    proof {
        assert forall|c: u32| (exists|a: int| 0 <= a < out@.len() && (#[trigger] out@[a]).id == c)
            <==> found_by(*system, qv, c) by {
            if found_by(*system, qv, c) {
                assert(ids@.contains(c));
                let a = choose|a: int| 0 <= a < ids@.len() && ids@[a] == c;
                assert(out@[a].id == c);
            }
            if exists|a: int| 0 <= a < out@.len() && (#[trigger] out@[a]).id == c {
                let a = choose|a: int| 0 <= a < out@.len() && (#[trigger] out@[a]).id == c;
                assert(ids@[a] == c);
                assert(ids@.contains(c));
            }
        }
    }
    out
}

/// In a catalog built from `ps`, a query whose lowercased form matches a
/// token of product `k` (a word of its lowercased name or one of its tags,
/// lowercased) finds that product.
pub proof fn lemma_token_finds_product(
    sys: SearchSystem,
    ps: Seq<Product>,
    us: Seq<User>,
    xs: Seq<(u32, u32, EdgeType)>,
    k: int,
    t: int,
    query: Seq<char>,
)
    requires
        built_from(sys, ps, us, xs),
        0 <= k < ps.len(),
        0 <= t < product_tokens(ps[k]@).len(),
        term_matches(product_tokens(ps[k]@)[t], lower_of(query)),
    ensures
        found_by(sys, lower_of(query), ps[k].id),
{
    let tok = product_tokens(ps[k]@)[t];
    assert(term_links(sys.nodes(), sys.edges(), tok, k as usize));
    let i = choose|i: usize| i < sys.nodes().len() && sys.nodes()[i as int].is_term_with(tok)
        && #[trigger] sys.edges().contains((i, k as usize, EdgeType::CONTAINS_TERM));
    let e = choose|e: int| 0 <= e < sys.edges().len() && sys.edges()[e] == (i, k as usize, EdgeType::CONTAINS_TERM);
    assert(sys.nodes()[k] is Product && sys.nodes()[k]->Product_0@ == ps[k]@);
    assert(indexes(sys, lower_of(query), e, ps[k].id));
}

/// In a catalog built from `ps`, a query whose lowercased form matches no
/// token of any product finds nothing.
pub proof fn lemma_unmatched_query_finds_nothing(
    sys: SearchSystem,
    ps: Seq<Product>,
    us: Seq<User>,
    xs: Seq<(u32, u32, EdgeType)>,
    query: Seq<char>,
    id: u32,
)
    requires
        built_from(sys, ps, us, xs),
        forall|k: int, t: int| 0 <= k < ps.len() && 0 <= t < product_tokens(ps[k]@).len()
            ==> !term_matches(#[trigger] product_tokens(ps[k]@)[t], lower_of(query)),
    ensures
        !found_by(sys, lower_of(query), id),
{
    let q = lower_of(query);
    if found_by(sys, q, id) {
        let e = choose|e: int| 0 <= e < sys.edges().len() && #[trigger] indexes(sys, q, e, id);
        let a = sys.edges()[e].0 as int;
        let base = (ps.len() + us.len()) as int;
        if a < ps.len() {
            assert(sys.nodes()[a] is Product);
        } else if a < base {
            assert(sys.nodes()[ps.len() + (a - ps.len())].is_user_with(us[a - ps.len()].id));
        } else {
            assert(sys.edges()[e].0 < sys.nodes().len());
            assert(terms_sound(ps, base, sys.nodes()));
            let text = sys.nodes()[a]->Term_0.term@;
            let k = choose|k: int| 0 <= k < ps.len() && #[trigger] product_tokens(ps[k]@).contains(text);
            let t = choose|t: int| 0 <= t < product_tokens(ps[k]@).len() && product_tokens(ps[k]@)[t] == text;
            assert(!term_matches(product_tokens(ps[k]@)[t], q));
        }
    }
}

} // verus!
