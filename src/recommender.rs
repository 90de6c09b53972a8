use std::collections::HashMap;
use vstd::prelude::*;
use crate::graph_store::{graph_edge, graph_edge_count, graph_node_weight, graph_out_edges, SearchSystem};
use crate::models::{EdgeType, GraphNode, Product};

verus! {

/// Most recommendations returned for one user.
pub const MAX_RECOMMENDATIONS: usize = 5;

/// How often `c` occurs in `s`.
pub open spec fn count_of(s: Seq<u32>, c: u32) -> nat
    decreases s.len(),
{
    if s.len() == 0 {
        0
    } else {
        count_of(s.drop_last(), c) + if s.last() == c { 1nat } else { 0nat }
    }
}

/// Edge `e` is a purchase or view by node `u` of the product with id `id`.
pub open spec fn interacted(sys: SearchSystem, u: usize, e: int, id: u32) -> bool {
    &&& sys.edges()[e].0 == u
    &&& sys.edges()[e].2.is_interaction()
    &&& sys.nodes()[sys.edges()[e].1 as int].is_product_with(id)
}

/// Ids of the products that user node `u` bought or viewed.
pub open spec fn history(sys: SearchSystem, u: usize) -> Set<u32> {
    Set::new(|id: u32| exists|e: int| 0 <= e < sys.edges().len() && #[trigger] interacted(sys, u, e, id))
}

/// Edge `e` is an interaction of a user other than `uid` with a product of `hist`.
pub open spec fn is_shared(sys: SearchSystem, uid: u32, hist: Set<u32>, e: int) -> bool {
    let (v, p, w) = sys.edges()[e];
    &&& w.is_interaction()
    &&& sys.nodes()[v as int] is User
    &&& sys.nodes()[v as int]->User_0.id != uid
    &&& sys.nodes()[p as int] is Product
    &&& hist.contains(sys.nodes()[p as int]->Product_0.id)
}

/// No interaction edge before `e` joins the same user and product as `e`.
pub open spec fn first_link(sys: SearchSystem, e: int) -> bool {
    forall|m: int| 0 <= m < e ==> !(#[trigger] sys.edges()[m].0 == sys.edges()[e].0
        && sys.edges()[m].1 == sys.edges()[e].1 && sys.edges()[m].2.is_interaction())
}

/// Edge `e` stands for one (neighbour, history product) pair: it is the
/// first interaction edge from a user other than `uid` to a product of `hist`.
pub open spec fn is_pivot(sys: SearchSystem, uid: u32, hist: Set<u32>, e: int) -> bool {
    is_shared(sys, uid, hist, e) && first_link(sys, e)
}

/// Edge `e` is an interaction of node `v` with a product outside `hist`.
pub open spec fn is_gain(sys: SearchSystem, hist: Set<u32>, v: usize, e: int) -> bool {
    let (s, p, w) = sys.edges()[e];
    &&& s == v
    &&& w.is_interaction()
    &&& sys.nodes()[p as int] is Product
    &&& !hist.contains(sys.nodes()[p as int]->Product_0.id)
}

/// Product ids gained from the interactions of node `v` among the first `n` edges.
pub open spec fn gains_upto(sys: SearchSystem, hist: Set<u32>, v: usize, n: int) -> Seq<u32>
    decreases n,
{
    if n <= 0 {
        Seq::empty()
    } else {
        gains_upto(sys, hist, v, n - 1) + if is_gain(sys, hist, v, n - 1) {
            seq![sys.nodes()[sys.edges()[n - 1].1 as int]->Product_0.id]
        } else {
            Seq::empty()
        }
    }
}

/// One entry per pair (pivot edge, gain edge of the pivot's user), over the
/// first `n` edges as pivot candidates.
pub open spec fn hits_upto(sys: SearchSystem, uid: u32, hist: Set<u32>, n: int) -> Seq<u32>
    decreases n,
{
    if n <= 0 {
        Seq::empty()
    } else {
        hits_upto(sys, uid, hist, n - 1) + if is_pivot(sys, uid, hist, n - 1) {
            gains_upto(sys, hist, sys.edges()[n - 1].0, sys.edges().len() as int)
        } else {
            Seq::empty()
        }
    }
}

/// The relevance increments for user `uid`. For each product of the user's
/// history and each neighbour, a user other than `uid` who bought or viewed
/// that product (counted once however many such edges it has), every bought
/// or viewed edge of the neighbour into a product outside the history adds
/// one occurrence of that product's id.
pub open spec fn candidate_hits(sys: SearchSystem, uid: u32) -> Seq<u32> {
    match sys.user_index(uid) {
        Some(u) => hits_upto(sys, uid, history(sys, u), sys.edges().len() as int),
        None => Seq::empty(),
    }
}

/// The relevance counter of product `c` for user `uid`.
pub open spec fn relevance(sys: SearchSystem, uid: u32, c: u32) -> nat {
    count_of(candidate_hits(sys, uid), c)
}

/// `a` ranks before `b`: more relevant, or as relevant with a smaller id.
pub open spec fn outranks(sys: SearchSystem, uid: u32, a: u32, b: u32) -> bool {
    relevance(sys, uid, a) > relevance(sys, uid, b) || (relevance(sys, uid, a) == relevance(sys, uid, b) && a < b)
}

proof fn lemma_count_le_len(s: Seq<u32>, c: u32)
    ensures
        count_of(s, c) <= s.len(),
    decreases s.len(),
{
    if s.len() > 0 {
        lemma_count_le_len(s.drop_last(), c);
    }
}

proof fn lemma_count_push(s: Seq<u32>, x: u32, c: u32)
    ensures
        count_of(s.push(x), c) == count_of(s, c) + if x == c { 1nat } else { 0nat },
{
    assert(s.push(x).drop_last() =~= s);
}

proof fn lemma_push_contains(s: Seq<u32>, x: u32)
    ensures
        forall|y: u32| #[trigger] s.push(x).contains(y) <==> (s.contains(y) || y == x),
{
    assert forall|y: u32| #[trigger] s.push(x).contains(y) <==> (s.contains(y) || y == x) by {
        if s.contains(y) {
            let j = choose|j: int| 0 <= j < s.len() && s[j] == y;
            assert(s.push(x)[j] == y);
        }
        if y == x {
            assert(s.push(x)[s.len() as int] == y);
        }
        if s.push(x).contains(y) {
            let j = choose|j: int| 0 <= j < s.len() + 1 && s.push(x)[j] == y;
            if j < s.len() {
                assert(s[j] == y);
            }
        }
    }
}

/// Whether `x` occurs in `v`.
fn contains_id(v: &Vec<u32>, x: u32) -> (r: bool)
    ensures
        r == v@.contains(x),
{
    let mut i: usize = 0;
    while i < v.len()
        invariant
            i <= v@.len(),
            forall|j: int| 0 <= j < i ==> v@[j] != x,
        decreases v@.len() - i,
    {
        if v[i] == x {
            return true;
        }
        i = i + 1;
    }
    false
}

/// Edge `x` is a purchase or view of the product with id `id`.
pub open spec fn buys(sys: SearchSystem, x: (usize, usize, EdgeType), id: u32) -> bool {
    x.2.is_interaction() && sys.nodes()[x.1 as int].is_product_with(id)
}

/// The product ids that user node `u` bought or viewed, each once.
fn user_history(sys: &SearchSystem, u: usize) -> (r: Vec<u32>)
    requires
        sys.wf(),
        u < sys.nodes().len(),
    ensures
        forall|id: u32| r@.contains(id) <==> history(*sys, u).contains(id),
{
    let outs = graph_out_edges(&sys.graph, u);
    let mut hist: Vec<u32> = Vec::new();
    let mut i: usize = 0;
    while i < outs.len()
        invariant
            sys.wf(),
            i <= outs@.len(),
            forall|x: (usize, usize, EdgeType)| outs@.contains(x) <==> (sys.edges().contains(x) && x.0 == u),
            forall|id: u32| hist@.contains(id) <==> exists|k: int| 0 <= k < i && #[trigger] buys(*sys, outs@[k], id),
        decreases outs@.len() - i,
    {
        let (src, dst, w) = outs[i];
        proof {
            assert(outs@.contains(outs@[i as int]));
            let m = choose|m: int| 0 <= m < sys.edges().len() && sys.edges()[m] == outs@[i as int];
            assert(sys.edges()[m].1 < sys.nodes().len());
        }
        let ghost h0 = hist@;
        let mut added: Option<u32> = None;
        if w.is_interaction_exec() {
            if let Some(GraphNode::Product(p)) = graph_node_weight(&sys.graph, dst) {
                if !contains_id(&hist, p.id) {
                    hist.push(p.id);
                    proof { lemma_push_contains(h0, p.id); }
                }
                added = Some(p.id);
            }
        }
        proof {
            assert forall|id: u32| hist@.contains(id) <==> exists|k: int| 0 <= k < i + 1 && #[trigger] buys(*sys, outs@[k], id) by {
                assert(hist@.contains(id) <==> (h0.contains(id) || added == Some(id)));
                assert(buys(*sys, outs@[i as int], id) <==> added == Some(id));
                if exists|k: int| 0 <= k < i + 1 && #[trigger] buys(*sys, outs@[k], id) {
                    let k = choose|k: int| 0 <= k < i + 1 && #[trigger] buys(*sys, outs@[k], id);
                    if k < i {
                        assert(exists|k2: int| 0 <= k2 < i && #[trigger] buys(*sys, outs@[k2], id));
                    }
                }
                if h0.contains(id) {
                    let k = choose|k: int| 0 <= k < i && #[trigger] buys(*sys, outs@[k], id);
                    assert(0 <= k < i + 1);
                }
            }
        }
        i = i + 1;
    }
    proof {
        assert forall|id: u32| hist@.contains(id) <==> history(*sys, u).contains(id) by {
            if hist@.contains(id) {
                let k = choose|k: int| 0 <= k < outs@.len() && #[trigger] buys(*sys, outs@[k], id);
                assert(outs@.contains(outs@[k]));
                let m = choose|m: int| 0 <= m < sys.edges().len() && sys.edges()[m] == outs@[k];
                assert(interacted(*sys, u, m, id));
            }
            if history(*sys, u).contains(id) {
                let m = choose|m: int| 0 <= m < sys.edges().len() && #[trigger] interacted(*sys, u, m, id);
                let x = sys.edges()[m];
                assert(sys.edges().contains(x));
                assert(outs@.contains(x));
                let k = choose|k: int| 0 <= k < outs@.len() && outs@[k] == x;
                assert(buys(*sys, outs@[k], id));
            }
        }
    }
    hist
}

/// `c` names a product of the graph that `hist` lacks.
pub open spec fn is_fresh(sys: SearchSystem, hist: Set<u32>, c: u32) -> bool {
    sys.product_id_to_index@.contains_key(c) && !hist.contains(c)
}

proof fn lemma_gains_fresh(sys: SearchSystem, hist: Set<u32>, v: usize, n: int)
    requires
        sys.wf(),
        n <= sys.edges().len(),
    ensures
        forall|i: int| 0 <= i < gains_upto(sys, hist, v, n).len()
            ==> is_fresh(sys, hist, #[trigger] gains_upto(sys, hist, v, n)[i]),
    decreases n,
{
    if n > 0 {
        lemma_gains_fresh(sys, hist, v, n - 1);
        let k = n - 1;
        assert(sys.edges()[k].1 < sys.nodes().len());
        let pre = gains_upto(sys, hist, v, n - 1);
        assert forall|i: int| 0 <= i < gains_upto(sys, hist, v, n).len()
            implies is_fresh(sys, hist, #[trigger] gains_upto(sys, hist, v, n)[i]) by {
            if i < pre.len() {
                assert(gains_upto(sys, hist, v, n)[i] == pre[i]);
            } else {
                let p = sys.edges()[k].1 as int;
                assert(sys.nodes()[p] is Product);
            }
        }
    }
}

proof fn lemma_hits_fresh(sys: SearchSystem, uid: u32, hist: Set<u32>, n: int)
    requires
        sys.wf(),
        n <= sys.edges().len(),
    ensures
        forall|i: int| 0 <= i < hits_upto(sys, uid, hist, n).len()
            ==> is_fresh(sys, hist, #[trigger] hits_upto(sys, uid, hist, n)[i]),
    decreases n,
{
    if n > 0 {
        lemma_hits_fresh(sys, uid, hist, n - 1);
        let pre = hits_upto(sys, uid, hist, n - 1);
        let v = sys.edges()[n - 1].0;
        let g = gains_upto(sys, hist, v, sys.edges().len() as int);
        lemma_gains_fresh(sys, hist, v, sys.edges().len() as int);
        assert forall|i: int| 0 <= i < hits_upto(sys, uid, hist, n).len()
            implies is_fresh(sys, hist, #[trigger] hits_upto(sys, uid, hist, n)[i]) by {
            if i < pre.len() {
                assert(hits_upto(sys, uid, hist, n)[i] == pre[i]);
            } else {
                assert(hits_upto(sys, uid, hist, n)[i] == g[i - pre.len()]);
            }
        }
    }
}

/// Appends the product ids that node `v` gains for the user node `u`.
fn push_gains(sys: &SearchSystem, hist: &Vec<u32>, u: usize, v: usize, out: &mut Vec<u32>)
    requires
        sys.wf(),
        forall|id: u32| hist@.contains(id) <==> history(*sys, u).contains(id),
    ensures
        final(out)@ == old(out)@ + gains_upto(*sys, history(*sys, u), v, sys.edges().len() as int),
{
    let ghost h = history(*sys, u);
    let n = graph_edge_count(&sys.graph);
    let mut e: usize = 0;
    while e < n
        invariant
            sys.wf(),
            n == sys.edges().len(),
            e <= n,
            forall|id: u32| hist@.contains(id) <==> h.contains(id),
            h == history(*sys, u),
            out@ == old(out)@ + gains_upto(*sys, h, v, e as int),
        decreases n - e,
    {
        let (src, dst, w) = graph_edge(&sys.graph, e);
        if src == v && w.is_interaction_exec() {
            if let Some(GraphNode::Product(p)) = graph_node_weight(&sys.graph, dst) {
                if !contains_id(hist, p.id) {
                    out.push(p.id);
                }
            }
        }
        assert(out@ =~= old(out)@ + gains_upto(*sys, h, v, e + 1));
        e = e + 1;
    }
}

/// Whether edge `e` is the first interaction edge between its endpoints.
fn is_first_link(sys: &SearchSystem, e: usize) -> (r: bool)
    requires
        e < sys.edges().len(),
    ensures
        r == first_link(*sys, e as int),
{
    let (a, b, _) = graph_edge(&sys.graph, e);
    let mut m: usize = 0;
    while m < e
        invariant
            e < sys.edges().len(),
            (a, b) == (sys.edges()[e as int].0, sys.edges()[e as int].1),
            m <= e,
            forall|k: int| 0 <= k < m ==> !(#[trigger] sys.edges()[k].0 == a && sys.edges()[k].1 == b
                && sys.edges()[k].2.is_interaction()),
        decreases e - m,
    {
        let (x, y, w) = graph_edge(&sys.graph, m);
        if x == a && y == b && w.is_interaction_exec() {
            return false;
        }
        m = m + 1;
    }
    true
}

/// The candidate hits of user `uid`, whose node is `u`.
fn collect_hits(sys: &SearchSystem, uid: u32, u: usize, hist: &Vec<u32>) -> (r: Vec<u32>)
    requires
        sys.wf(),
        forall|id: u32| hist@.contains(id) <==> history(*sys, u).contains(id),
    ensures
        r@ == hits_upto(*sys, uid, history(*sys, u), sys.edges().len() as int),
{
    let ghost h = history(*sys, u);
    let n = graph_edge_count(&sys.graph);
    let mut out: Vec<u32> = Vec::new();
    let mut e: usize = 0;
    while e < n
        invariant
            sys.wf(),
            n == sys.edges().len(),
            e <= n,
            forall|id: u32| hist@.contains(id) <==> h.contains(id),
            h == history(*sys, u),
            out@ == hits_upto(*sys, uid, h, e as int),
        decreases n - e,
    {
        let (src, dst, w) = graph_edge(&sys.graph, e);
        let mut pivot = false;
        if w.is_interaction_exec() {
            if let Some(GraphNode::User(neighbour)) = graph_node_weight(&sys.graph, src) {
                if neighbour.id != uid {
                    if let Some(GraphNode::Product(p)) = graph_node_weight(&sys.graph, dst) {
                        pivot = contains_id(hist, p.id) && is_first_link(sys, e);
                    }
                }
            }
        }
        assert(pivot == is_pivot(*sys, uid, h, e as int));
        if pivot {
            push_gains(sys, hist, u, src, &mut out);
        }
        assert(out@ =~= hits_upto(*sys, uid, h, e + 1));
        e = e + 1;
    }
    out
}

/// Each distinct id of `hits` once, in order of first occurrence, with the
/// number of its occurrences.
fn tally(hits: &Vec<u32>) -> (r: Vec<(u32, usize)>)
    ensures
        forall|i: int, j: int| 0 <= i < j < r@.len() ==> r@[i].0 != r@[j].0,
        forall|i: int| 0 <= i < r@.len() ==> #[trigger] r@[i].1 == count_of(hits@, r@[i].0),
        forall|c: u32| count_of(hits@, c) > 0 <==> exists|i: int| 0 <= i < r@.len() && #[trigger] r@[i].0 == c,
        forall|i: int| 0 <= i < r@.len() ==> hits@.contains(#[trigger] r@[i].0),
{
    broadcast use vstd::std_specs::hash::group_hash_axioms;
    let mut counts: HashMap<u32, usize> = HashMap::new();
    let mut order: Vec<u32> = Vec::new();
    let mut k: usize = 0;
    while k < hits.len()
        invariant
            k <= hits@.len(),
            forall|i: int, j: int| 0 <= i < j < order@.len() ==> order@[i] != order@[j],
            forall|c: u32| #[trigger] counts@.contains_key(c) <==> order@.contains(c),
            forall|c: u32| #[trigger] counts@.contains_key(c) ==> counts@[c] == count_of(hits@.subrange(0, k as int), c),
            forall|c: u32| #[trigger] count_of(hits@.subrange(0, k as int), c) > 0 <==> counts@.contains_key(c),
            forall|i: int| 0 <= i < order@.len() ==> hits@.contains(#[trigger] order@[i]),
        decreases hits@.len() - k,
    {
        let c = hits[k];
        let ghost pre = hits@.subrange(0, k as int);
        let ghost nxt = hits@.subrange(0, k + 1);
        let ghost order0 = order@;
        proof {
            assert(nxt =~= pre.push(c));
            assert forall|x: u32| #[trigger] count_of(nxt, x) == count_of(pre, x) + if x == c { 1nat } else { 0nat } by {
                lemma_count_push(pre, c, x);
            }
            lemma_count_le_len(pre, c);
            assert(hits@[k as int] == c);
        }
        match counts.get(&c) {
            Some(n) => {
                let n = *n;
                counts.insert(c, n + 1);
            },
            None => {
                counts.insert(c, 1);
                order.push(c);
                proof {
                    lemma_push_contains(order0, c);
                }
            },
        }
        proof {
            assert forall|i: int| 0 <= i < order@.len() implies hits@.contains(#[trigger] order@[i]) by {
                if i < order0.len() {
                    assert(order@[i] == order0[i]);
                } else {
                    assert(hits@[k as int] == order@[i]);
                }
            }
        }
        k = k + 1;
    }
    assert(hits@.subrange(0, hits@.len() as int) =~= hits@);
    let mut cands: Vec<(u32, usize)> = Vec::new();
    let mut i: usize = 0;
    while i < order.len()
        invariant
            i <= order@.len(),
            forall|a: int, b: int| 0 <= a < b < order@.len() ==> order@[a] != order@[b],
            forall|c: u32| #[trigger] counts@.contains_key(c) <==> order@.contains(c),
            forall|c: u32| #[trigger] counts@.contains_key(c) ==> counts@[c] == count_of(hits@, c),
            forall|c: u32| #[trigger] count_of(hits@, c) > 0 <==> counts@.contains_key(c),
            forall|a: int| 0 <= a < order@.len() ==> hits@.contains(#[trigger] order@[a]),
            cands@.len() == i,
            forall|a: int| 0 <= a < i ==> #[trigger] cands@[a] == (order@[a], count_of(hits@, order@[a]) as usize),
        decreases order@.len() - i,
    {
        let c = order[i];
        proof {
            assert(order@.contains(c));
        }
        let n = match counts.get(&c) {
            Some(n) => *n,
            None => 0,
        };
        cands.push((c, n));
        i = i + 1;
    }
    proof {
        assert forall|c: u32| count_of(hits@, c) > 0 implies exists|a: int| 0 <= a < cands@.len() && #[trigger] cands@[a].0 == c by {
            let a = choose|a: int| 0 <= a < order@.len() && order@[a] == c;
            assert(cands@[a].0 == c);
        }
        assert forall|c: u32| (exists|a: int| 0 <= a < cands@.len() && #[trigger] cands@[a].0 == c) implies count_of(hits@, c) > 0 by {
            let a = choose|a: int| 0 <= a < cands@.len() && #[trigger] cands@[a].0 == c;
            assert(order@[a] == c);
            assert(order@.contains(c));
        }
        assert forall|a: int| 0 <= a < cands@.len() implies #[trigger] cands@[a].1 == count_of(hits@, cands@[a].0) by {
            assert(order@.contains(order@[a]));
            lemma_count_le_len(hits@, order@[a]);
        }
    }
    cands
}

/// `c` is recommendable to user `uid`: it has a positive relevance counter.
pub open spec fn is_candidate(sys: SearchSystem, uid: u32, c: u32) -> bool {
    relevance(sys, uid, c) > 0 && candidate_hits(sys, uid).contains(c)
}

/// The index of the best entry not yet taken, if any.
fn best_untaken(sys: &SearchSystem, uid: u32, cands: &Vec<(u32, usize)>, taken: &Vec<bool>) -> (r: Option<usize>)
    requires
        taken@.len() == cands@.len(),
        forall|i: int| 0 <= i < cands@.len() ==> #[trigger] cands@[i].1 == relevance(*sys, uid, cands@[i].0),
        forall|i: int, j: int| 0 <= i < j < cands@.len() ==> cands@[i].0 != cands@[j].0,
    ensures
        match r {
            Some(b) => b < cands@.len() && !taken@[b as int] && forall|k: int|
                0 <= k < cands@.len() && !taken@[k] && k != b ==> outranks(*sys, uid, cands@[b as int].0, #[trigger] cands@[k].0),
            None => forall|k: int| 0 <= k < cands@.len() ==> taken@[k],
        },
{
    let mut best: Option<usize> = None;
    let mut j: usize = 0;
    while j < cands.len()
        invariant
            j <= cands@.len(),
            taken@.len() == cands@.len(),
            forall|i: int| 0 <= i < cands@.len() ==> #[trigger] cands@[i].1 == relevance(*sys, uid, cands@[i].0),
            forall|i: int, k: int| 0 <= i < k < cands@.len() ==> cands@[i].0 != cands@[k].0,
            match best {
                Some(b) => b < j && !taken@[b as int] && forall|k: int|
                    0 <= k < j && !taken@[k] && k != b ==> outranks(*sys, uid, cands@[b as int].0, #[trigger] cands@[k].0),
                None => forall|k: int| 0 <= k < j ==> taken@[k],
            },
        decreases cands@.len() - j,
    {
        if !taken[j] {
            match best {
                None => {
                    best = Some(j);
                },
                Some(b) => {
                    let (cj, nj) = cands[j];
                    let (cb, nb) = cands[b];
                    if nj > nb || (nj == nb && cj < cb) {
                        best = Some(j);
                    }
                },
            }
        }
        j = j + 1;
    }
    best
}

/// The ids of `cands` in ranking order, cut after the first five.
fn rank_top(sys: &SearchSystem, uid: u32, cands: &Vec<(u32, usize)>) -> (r: Vec<u32>)
    requires
        forall|i: int| 0 <= i < cands@.len() ==> #[trigger] cands@[i].1 == relevance(*sys, uid, cands@[i].0),
        forall|i: int, j: int| 0 <= i < j < cands@.len() ==> cands@[i].0 != cands@[j].0,
        forall|i: int| 0 <= i < cands@.len() ==> is_candidate(*sys, uid, #[trigger] cands@[i].0),
    ensures
        r@.len() <= MAX_RECOMMENDATIONS,
        forall|i: int| 0 <= i < r@.len() ==> is_candidate(*sys, uid, #[trigger] r@[i]),
        forall|i: int, j: int| 0 <= i < j < r@.len() ==> outranks(*sys, uid, r@[i], r@[j]),
        forall|k: int| 0 <= k < cands@.len() && !r@.contains(#[trigger] cands@[k].0) ==> r@.len() == MAX_RECOMMENDATIONS
            && forall|i: int| 0 <= i < r@.len() ==> outranks(*sys, uid, #[trigger] r@[i], cands@[k].0),
{
    let mut taken: Vec<bool> = Vec::new();
    let mut t: usize = 0;
    while t < cands.len()
        invariant
            t <= cands@.len(),
            taken@.len() == t,
            forall|k: int| 0 <= k < t ==> !taken@[k],
        decreases cands@.len() - t,
    {
        taken.push(false);
        t = t + 1;
    }
    let mut chosen: Vec<u32> = Vec::new();
    let mut exhausted = false;
    while chosen.len() < MAX_RECOMMENDATIONS && !exhausted
        invariant
            taken@.len() == cands@.len(),
            chosen@.len() <= MAX_RECOMMENDATIONS,
            forall|i: int| 0 <= i < cands@.len() ==> #[trigger] cands@[i].1 == relevance(*sys, uid, cands@[i].0),
            forall|i: int, j: int| 0 <= i < j < cands@.len() ==> cands@[i].0 != cands@[j].0,
            forall|i: int| 0 <= i < cands@.len() ==> is_candidate(*sys, uid, #[trigger] cands@[i].0),
            forall|k: int| 0 <= k < cands@.len() ==> (#[trigger] taken@[k] <==> chosen@.contains(cands@[k].0)),
            forall|i: int| 0 <= i < chosen@.len() ==> is_candidate(*sys, uid, #[trigger] chosen@[i]),
            forall|i: int, j: int| 0 <= i < j < chosen@.len() ==> outranks(*sys, uid, chosen@[i], chosen@[j]),
            forall|i: int, k: int| 0 <= i < chosen@.len() && 0 <= k < cands@.len() && !taken@[k]
                ==> outranks(*sys, uid, #[trigger] chosen@[i], #[trigger] cands@[k].0),
            exhausted ==> forall|k: int| 0 <= k < cands@.len() ==> taken@[k],
        decreases 2 * (MAX_RECOMMENDATIONS - chosen@.len()) + if exhausted { 0int } else { 1int },
    {
        match best_untaken(sys, uid, cands, &taken) {
            None => {
                exhausted = true;
            },
            Some(b) => {
                let c = cands[b].0;
                let ghost ch0 = chosen@;
                let ghost tk0 = taken@;
                chosen.push(c);
                taken.set(b, true);
                proof {
                    lemma_push_contains(ch0, c);
                    assert forall|k: int| 0 <= k < cands@.len() implies (#[trigger] taken@[k] <==> chosen@.contains(cands@[k].0)) by {
                        if k != b {
                            assert(taken@[k] == tk0[k]);
                        }
                    }
                    assert forall|i: int, j: int| 0 <= i < j < chosen@.len() implies outranks(*sys, uid, chosen@[i], chosen@[j]) by {
                        if j == ch0.len() {
                            assert(!tk0[b as int]);
                            assert(outranks(*sys, uid, ch0[i], cands@[b as int].0));
                        } else {
                            assert(chosen@[i] == ch0[i] && chosen@[j] == ch0[j]);
                        }
                    }
                    assert forall|i: int, k: int| 0 <= i < chosen@.len() && 0 <= k < cands@.len() && !taken@[k]
                        implies outranks(*sys, uid, #[trigger] chosen@[i], #[trigger] cands@[k].0) by {
                        assert(k != b);
                        assert(!tk0[k]);
                        if i < ch0.len() {
                            assert(chosen@[i] == ch0[i]);
                        }
                    }
                    assert forall|i: int| 0 <= i < chosen@.len() implies is_candidate(*sys, uid, #[trigger] chosen@[i]) by {
                        if i < ch0.len() {
                            assert(chosen@[i] == ch0[i]);
                        }
                    }
                }
            },
        }
    }
    assert forall|k: int| 0 <= k < cands@.len() && !chosen@.contains(#[trigger] cands@[k].0) implies chosen@.len() == MAX_RECOMMENDATIONS
        && forall|i: int| 0 <= i < chosen@.len() ==> outranks(*sys, uid, #[trigger] chosen@[i], cands@[k].0) by {
        assert(!taken@[k]);
    }
    chosen
}

/// Recommends up to five products to user `user_id`: those that users who
/// share a bought or viewed product with them also bought or viewed, and that
/// `user_id` has not, ranked by relevance counter and then by ascending id.
pub fn recommend_for_user(system: &SearchSystem, user_id: u32) -> (r: Vec<Product>)
    requires
        system.wf(),
    ensures
        system.user_index(user_id) is None ==> r@.len() == 0,
        r@.len() <= MAX_RECOMMENDATIONS,
        forall|i: int| 0 <= i < r@.len() ==> is_candidate(*system, user_id, (#[trigger] r@[i]).id),
        forall|i: int| 0 <= i < r@.len() ==> match system.user_index(user_id) {
            Some(u) => !history(*system, u).contains((#[trigger] r@[i]).id),
            None => true,
        },
        forall|i: int, j: int| 0 <= i < j < r@.len() ==> outranks(*system, user_id, r@[i].id, r@[j].id),
        forall|c: u32| #[trigger] relevance(*system, user_id, c) > 0 && (forall|i: int| 0 <= i < r@.len() ==> r@[i].id != c)
            ==> r@.len() == MAX_RECOMMENDATIONS && forall|i: int| 0 <= i < r@.len() ==> outranks(*system, user_id, (#[trigger] r@[i]).id, c),
        forall|i: int| 0 <= i < r@.len() ==> system.holds_product((#[trigger] r@[i])@),
{
    broadcast use vstd::std_specs::hash::group_hash_axioms;
    let u = match system.user_id_to_index.get(&user_id) {
        Some(u) => *u,
        None => {
            return Vec::new();
        },
    };
    let ghost h = history(*system, u);
    let hist = user_history(system, u);
    let hits = collect_hits(system, user_id, u, &hist);
    proof {
        lemma_hits_fresh(*system, user_id, h, system.edges().len() as int);
    }
    let cands = tally(&hits);
    let ids = rank_top(system, user_id, &cands);
    let mut out: Vec<Product> = Vec::new();
    let mut k: usize = 0;
    while k < ids.len()
        invariant
            system.wf(),
            system.user_index(user_id) == Some(u),
            h == history(*system, u),
            hits@ == candidate_hits(*system, user_id),
            forall|i: int| 0 <= i < hits@.len() ==> is_fresh(*system, h, #[trigger] hits@[i]),
            ids@.len() <= MAX_RECOMMENDATIONS,
            forall|i: int| 0 <= i < ids@.len() ==> is_candidate(*system, user_id, #[trigger] ids@[i]),
            k <= ids@.len(),
            out@.len() == k,
            forall|i: int| 0 <= i < k ==> (#[trigger] out@[i]).id == ids@[i],
            forall|i: int| 0 <= i < k ==> system.holds_product((#[trigger] out@[i])@),
        decreases ids@.len() - k,
    {
        let c = ids[k];
        proof {
            assert(is_candidate(*system, user_id, c));
            let t = choose|t: int| 0 <= t < hits@.len() && hits@[t] == c;
            assert(is_fresh(*system, h, hits@[t]));
        }
        let j = match system.product_id_to_index.get(&c) {
            Some(j) => *j,
            None => {
                return out;
            },
        };
        match graph_node_weight(&system.graph, j) {
            Some(GraphNode::Product(p)) => {
                out.push(p.duplicate());
            },
            _ => {
                return out;
            },
        }
        k = k + 1;
    }
    proof {
        assert forall|i: int| 0 <= i < out@.len() implies !h.contains((#[trigger] out@[i]).id) by {
            let c = ids@[i];
            assert(is_candidate(*system, user_id, c));
            let t = choose|t: int| 0 <= t < hits@.len() && hits@[t] == c;
            assert(is_fresh(*system, h, hits@[t]));
        }
        assert forall|c: u32| #[trigger] relevance(*system, user_id, c) > 0 && (forall|i: int| 0 <= i < out@.len() ==> out@[i].id != c)
            implies out@.len() == MAX_RECOMMENDATIONS && forall|i: int| 0 <= i < out@.len() ==> outranks(*system, user_id, (#[trigger] out@[i]).id, c) by {
            let t = choose|t: int| 0 <= t < cands@.len() && #[trigger] cands@[t].0 == c;
            if ids@.contains(c) {
                let i = choose|i: int| 0 <= i < ids@.len() && ids@[i] == c;
                assert(out@[i].id == c);
            }
        }
    }
    out
}

proof fn lemma_no_pivot_no_hits(sys: SearchSystem, uid: u32, hist: Set<u32>, n: int)
    requires
        forall|e: int| 0 <= e < n ==> !#[trigger] is_shared(sys, uid, hist, e),
    ensures
        hits_upto(sys, uid, hist, n) == Seq::<u32>::empty(),
    decreases n,
{
    if n > 0 {
        lemma_no_pivot_no_hits(sys, uid, hist, n - 1);
        assert(!is_shared(sys, uid, hist, n - 1));
        assert(hits_upto(sys, uid, hist, n) =~= Seq::<u32>::empty());
    }
}

/// A user with whom no other user shares a bought or viewed product gets no
/// recommendation: no product is a candidate.
pub proof fn lemma_no_shared_products_no_candidates(sys: SearchSystem, uid: u32)
    requires
        sys.user_index(uid) is Some,
        forall|e: int| 0 <= e < sys.edges().len()
            ==> !#[trigger] is_shared(sys, uid, history(sys, sys.user_index(uid)->Some_0), e),
    ensures
        candidate_hits(sys, uid) == Seq::<u32>::empty(),
        forall|c: u32| !#[trigger] is_candidate(sys, uid, c),
{
    let u = sys.user_index(uid)->Some_0;
    lemma_no_pivot_no_hits(sys, uid, history(sys, u), sys.edges().len() as int);
}

} // verus!
