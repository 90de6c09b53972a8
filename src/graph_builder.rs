use std::collections::HashMap;
use vstd::prelude::*;
use crate::graph_store::{
    graph_add_edge, graph_add_node, graph_edges, graph_new, graph_node_count, graph_node_weight,
    graph_nodes, graph_edge_count, MegaStoreGraph, SearchSystem,
};
use crate::models::{EdgeType, GraphNode, Product, ProductView, Term, User};
use crate::text::{lower_of, lowercase, split_words, words_of};

verus! {

/// Largest node or edge count that the graph is allowed to reach.
pub const GRAPH_LIMIT: usize = 0xFFFF_FFFE;

/// Why a catalog could not be built.
#[derive(Debug, Clone, Copy, PartialEq, Eq, Structural)]
pub enum BuildError {
    /// An interaction names a user id that no user record has.
    UnknownUser(u32),
    /// An interaction names a product id that no product record has.
    UnknownProduct(u32),
    /// The graph would exceed the index space of its nodes or edges.
    CapacityExceeded,
}

/// The search tokens of a product: the whitespace-separated words of its
/// lowercased name followed by its tags, each lowercased.
pub open spec fn product_tokens(p: ProductView) -> Seq<Seq<char>> {
    (words_of(lower_of(p.name)) + p.tags).map_values(|t: Seq<char>| lower_of(t))
}

pub open spec fn known_user(us: Seq<User>, id: u32) -> bool {
    exists|k: int| 0 <= k < us.len() && #[trigger] us[k].id == id
}

pub open spec fn known_product(ps: Seq<Product>, id: u32) -> bool {
    exists|k: int| 0 <= k < ps.len() && #[trigger] ps[k].id == id
}

/// The interaction names a known user and a known product.
pub open spec fn interaction_ok(ps: Seq<Product>, us: Seq<User>, x: (u32, u32, EdgeType)) -> bool {
    known_user(us, x.0) && known_product(ps, x.1)
}

/// `text` is a token of some product of `ps`.
pub open spec fn is_token_of_some(ps: Seq<Product>, text: Seq<char>) -> bool {
    exists|k: int| 0 <= k < ps.len() && #[trigger] product_tokens(ps[k]@).contains(text)
}

/// A term node with this text has a CONTAINS_TERM edge to node `j`.
pub open spec fn term_links(nodes: Seq<GraphNode>, edges: Seq<(usize, usize, EdgeType)>, text: Seq<char>, j: usize) -> bool {
    exists|i: usize| i < nodes.len() && nodes[i as int].is_term_with(text)
        && #[trigger] edges.contains((i, j, EdgeType::CONTAINS_TERM))
}

/// Products `a` and `b` are distinct and share a category.
pub open spec fn same_category(ps: Seq<Product>, a: int, b: int) -> bool {
    a != b && ps[a].category@ == ps[b].category@
}

/// The nodes from `base` on are terms, each a token of a product, with distinct texts.
pub open spec fn terms_sound(ps: Seq<Product>, base: int, nodes: Seq<GraphNode>) -> bool {
    &&& forall|i: int| base <= i < nodes.len() ==> (#[trigger] nodes[i]) is Term
        && is_token_of_some(ps, nodes[i]->Term_0.term@)
    &&& forall|i: int, j: int| base <= i < j < nodes.len()
        ==> (#[trigger] nodes[i])->Term_0.term@ != (#[trigger] nodes[j])->Term_0.term@
}

/// Edges from `first` on are CONTAINS_TERM edges from a term to a product
/// that holds its text, or RELATED_BY_CATEGORY edges between distinct
/// products of one category.
pub open spec fn edges_sound(ps: Seq<Product>, first: int, nodes: Seq<GraphNode>, edges: Seq<(usize, usize, EdgeType)>) -> bool {
    forall|m: int| first <= m < edges.len() ==> {
        let (a, b, w) = #[trigger] edges[m];
        ||| w == EdgeType::CONTAINS_TERM && b < ps.len() && a < nodes.len() && nodes[a as int] is Term
            && product_tokens(ps[b as int]@).contains(nodes[a as int]->Term_0.term@)
        ||| w == EdgeType::RELATED_BY_CATEGORY && a < ps.len() && b < ps.len() && same_category(ps, a as int, b as int)
    }
}

/// `sys` is the catalog of products `ps`, users `us` and interactions `xs`.
pub open spec fn built_from(sys: SearchSystem, ps: Seq<Product>, us: Seq<User>, xs: Seq<(u32, u32, EdgeType)>) -> bool {
    let nodes = sys.nodes();
    let edges = sys.edges();
    let base = (ps.len() + us.len()) as int;
    &&& sys.wf()
    &&& base <= nodes.len()
    &&& forall|k: int| 0 <= k < ps.len() ==> (#[trigger] nodes[k]) is Product && nodes[k]->Product_0@ == ps[k]@
    &&& forall|k: int| 0 <= k < us.len() ==> (#[trigger] nodes[ps.len() + k]).is_user_with(us[k].id)
        && nodes[ps.len() + k]->User_0.name@ == us[k].name@
    &&& terms_sound(ps, base, nodes)
    &&& xs.len() <= edges.len()
    &&& forall|m: int| 0 <= m < xs.len() ==> sys.user_index((#[trigger] xs[m]).0) == Some(edges[m].0)
        && sys.product_index(xs[m].1) == Some(edges[m].1) && edges[m].2 == xs[m].2
    &&& edges_sound(ps, xs.len() as int, nodes, edges)
    &&& forall|k: int, t: int| 0 <= k < ps.len() && 0 <= t < product_tokens(ps[k]@).len()
        ==> term_links(nodes, edges, #[trigger] product_tokens(ps[k]@)[t], k as usize)
    &&& forall|a: int, b: int| 0 <= a < ps.len() && 0 <= b < ps.len() && #[trigger] same_category(ps, a, b)
        ==> edges.contains((a as usize, b as usize, EdgeType::RELATED_BY_CATEGORY))
}

proof fn lemma_grow(
    n0: Seq<GraphNode>,
    e0: Seq<(usize, usize, EdgeType)>,
    n1: Seq<GraphNode>,
    e1: Seq<(usize, usize, EdgeType)>,
)
    requires
        n0.len() <= n1.len(),
        forall|i: int| 0 <= i < n0.len() ==> n1[i] == n0[i],
        e0.len() <= e1.len(),
        forall|m: int| 0 <= m < e0.len() ==> e1[m] == e0[m],
    ensures
        forall|x: (usize, usize, EdgeType)| e0.contains(x) ==> #[trigger] e1.contains(x),
        forall|text: Seq<char>, j: usize| term_links(n0, e0, text, j) ==> #[trigger] term_links(n1, e1, text, j),
{
    assert forall|x: (usize, usize, EdgeType)| e0.contains(x) implies #[trigger] e1.contains(x) by {
        let m = choose|m: int| 0 <= m < e0.len() && e0[m] == x;
        assert(e1[m] == x);
    }
    assert forall|text: Seq<char>, j: usize| term_links(n0, e0, text, j) implies #[trigger] term_links(n1, e1, text, j) by {
        let i = choose|i: usize| i < n0.len() && n0[i as int].is_term_with(text)
            && #[trigger] e0.contains((i, j, EdgeType::CONTAINS_TERM));
        assert(n1[i as int] == n0[i as int]);
        assert(e1.contains((i, j, EdgeType::CONTAINS_TERM)));
    }
}

proof fn lemma_push_edge(e0: Seq<(usize, usize, EdgeType)>, x: (usize, usize, EdgeType))
    ensures
        e0.push(x).contains(x),
{
    assert(e0.push(x)[e0.len() as int] == x);
}

/// The position of the term node with this text among the nodes from `base` on.
fn find_term(g: &MegaStoreGraph, base: usize, text: &String) -> (r: Option<usize>)
    requires
        base <= graph_nodes(*g).len() < u32::MAX,
    ensures
        match r {
            Some(i) => base <= i < graph_nodes(*g).len() && graph_nodes(*g)[i as int].is_term_with(text@),
            None => forall|i: int| base <= i < graph_nodes(*g).len() ==> !(#[trigger] graph_nodes(*g)[i]).is_term_with(text@),
        },
{
    let n = graph_node_count(g);
    let mut i = base;
    while i < n
        invariant
            base <= i <= n,
            n == graph_nodes(*g).len() < u32::MAX,
            forall|j: int| base <= j < i ==> !(#[trigger] graph_nodes(*g)[j]).is_term_with(text@),
        decreases n - i,
    {
        if let Some(GraphNode::Term(t)) = graph_node_weight(g, i) {
            if t.term == *text {
                return Some(i);
            }
        }
        i = i + 1;
    }
    None
}

/// The number of tokens of the first `k` products.
pub open spec fn token_count(ps: Seq<ProductView>, k: int) -> nat
    decreases k,
{
    if k <= 0 {
        0
    } else {
        token_count(ps, k - 1) + product_tokens(ps[k - 1]).len()
    }
}

/// The views of a sequence of products.
pub open spec fn views(ps: Seq<Product>) -> Seq<ProductView> {
    ps.map_values(|p: Product| p@)
}

/// The (id, name) of each user.
pub open spec fn user_views(us: Seq<User>) -> Seq<(u32, Seq<char>)> {
    us.map_values(|u: User| (u.id, u.name@))
}

proof fn lemma_token_count_mono(ps: Seq<ProductView>, a: int, b: int)
    requires
        a <= b,
    ensures
        token_count(ps, a) <= token_count(ps, b),
    decreases b - a,
{
    if a < b {
        lemma_token_count_mono(ps, a, b - 1);
    }
}

/// The catalog fits the graph's index space even with one term node per
/// token: its nodes and its edges stay within the limit.
pub open spec fn fits(ps: Seq<ProductView>, n_users: nat, n_interactions: nat) -> bool {
    &&& ps.len() + n_users + token_count(ps, ps.len() as int) <= GRAPH_LIMIT
    &&& n_interactions + token_count(ps, ps.len() as int) + ps.len() * ps.len() <= GRAPH_LIMIT
}

/// Every edge joins two existing nodes.
pub open spec fn edges_in_range(nodes: Seq<GraphNode>, edges: Seq<(usize, usize, EdgeType)>) -> bool {
    forall|m: int| 0 <= m < edges.len() ==> (#[trigger] edges[m]).0 < nodes.len() && edges[m].1 < nodes.len()
}

/// The state that indexing keeps: sizes within the index space, sound terms and edges.
pub open spec fn index_ok(ps: Seq<Product>, base: int, first: int, nodes: Seq<GraphNode>, edges: Seq<(usize, usize, EdgeType)>) -> bool {
    &&& ps.len() <= base <= nodes.len() <= GRAPH_LIMIT
    &&& first <= edges.len() <= GRAPH_LIMIT
    &&& terms_sound(ps, base, nodes)
    &&& edges_sound(ps, first, nodes, edges)
    &&& edges_in_range(nodes, edges)
}

/// `(n1, e1)` extends `(n0, e0)` by appending nodes and edges.
pub open spec fn extends(n0: Seq<GraphNode>, e0: Seq<(usize, usize, EdgeType)>, n1: Seq<GraphNode>, e1: Seq<(usize, usize, EdgeType)>) -> bool {
    &&& n0.len() <= n1.len()
    &&& forall|i: int| 0 <= i < n0.len() ==> n1[i] == n0[i]
    &&& e0.len() <= e1.len()
    &&& forall|m: int| 0 <= m < e0.len() ==> e1[m] == e0[m]
}

/// Links product node `k` to the term of each entry of `raw`, lowercased,
/// creating the terms that are missing; false when the graph is full.
fn index_tokens(g: &mut MegaStoreGraph, ps: &Vec<Product>, base: usize, first: usize, k: usize, raw: &Vec<String>) -> (ok: bool)
    requires
        k < ps@.len(),
        raw@.map_values(|s: String| s@) == words_of(lower_of(ps@[k as int].name@)) + ps@[k as int]@.tags,
        index_ok(ps@, base as int, first as int, graph_nodes(*old(g)), graph_edges(*old(g))),
    ensures
        index_ok(ps@, base as int, first as int, graph_nodes(*final(g)), graph_edges(*final(g))),
        extends(graph_nodes(*old(g)), graph_edges(*old(g)), graph_nodes(*final(g)), graph_edges(*final(g))),
        ok ==> forall|t: int| 0 <= t < product_tokens(ps@[k as int]@).len()
            ==> term_links(graph_nodes(*final(g)), graph_edges(*final(g)), #[trigger] product_tokens(ps@[k as int]@)[t], k),
        graph_nodes(*final(g)).len() <= graph_nodes(*old(g)).len() + product_tokens(ps@[k as int]@).len(),
        graph_edges(*final(g)).len() <= graph_edges(*old(g)).len() + product_tokens(ps@[k as int]@).len(),
        graph_nodes(*old(g)).len() + product_tokens(ps@[k as int]@).len() <= GRAPH_LIMIT
            && graph_edges(*old(g)).len() + product_tokens(ps@[k as int]@).len() <= GRAPH_LIMIT ==> ok,
{
    let ghost n_start = graph_nodes(*g);
    let ghost e_start = graph_edges(*g);
    let ghost toks = product_tokens(ps@[k as int]@);
    assert(toks.len() == raw@.len());
    let mut t: usize = 0;
    while t < raw.len()
        invariant
            k < ps@.len(),
            toks == product_tokens(ps@[k as int]@),
            toks.len() == raw@.len(),
            raw@.map_values(|s: String| s@) == words_of(lower_of(ps@[k as int].name@)) + ps@[k as int]@.tags,
            t <= raw@.len(),
            index_ok(ps@, base as int, first as int, graph_nodes(*g), graph_edges(*g)),
            extends(n_start, e_start, graph_nodes(*g), graph_edges(*g)),
            n_start == graph_nodes(*old(g)),
            e_start == graph_edges(*old(g)),
            forall|j: int| 0 <= j < t ==> term_links(graph_nodes(*g), graph_edges(*g), #[trigger] toks[j], k),
            graph_nodes(*g).len() <= n_start.len() + t,
            graph_edges(*g).len() == e_start.len() + t,
        decreases raw@.len() - t,
    {
        let ghost n0 = graph_nodes(*g);
        let ghost e0 = graph_edges(*g);
        let text = lowercase(raw[t].as_str());
        assert(text@ == toks[t as int]);
        assert(toks.contains(text@));
        let ti = match find_term(g, base, &text) {
            Some(i) => i,
            None => {
                if graph_node_count(g) >= GRAPH_LIMIT {
                    return false;
                }
                let i = graph_add_node(g, GraphNode::Term(Term { term: text.clone() }));
                proof {
                    let n1 = graph_nodes(*g);
                    assert(is_token_of_some(ps@, text@));
                    assert forall|a: int, b: int| base <= a < b < n1.len()
                        implies (#[trigger] n1[a])->Term_0.term@ != (#[trigger] n1[b])->Term_0.term@ by {
                        if b == n0.len() {
                            assert(!n0[a].is_term_with(text@));
                        } else {
                            assert(n1[a] == n0[a] && n1[b] == n0[b]);
                        }
                    }
                    assert forall|a: int| base <= a < n1.len() implies (#[trigger] n1[a]) is Term
                        && is_token_of_some(ps@, n1[a]->Term_0.term@) by {
                        if a < n0.len() {
                            assert(n1[a] == n0[a]);
                        }
                    }
                }
                i
            },
        };
        assert(ti < graph_nodes(*g).len() && graph_nodes(*g)[ti as int].is_term_with(text@));
        if graph_edge_count(g) >= GRAPH_LIMIT {
            return false;
        }
        let ghost n1 = graph_nodes(*g);
        let ghost e1 = graph_edges(*g);
        graph_add_edge(g, ti, k, EdgeType::CONTAINS_TERM);
        proof {
            let n2 = graph_nodes(*g);
            let e2 = graph_edges(*g);
            lemma_push_edge(e1, (ti, k, EdgeType::CONTAINS_TERM));
            lemma_grow(n0, e0, n2, e2);
            assert(n2[ti as int].is_term_with(toks[t as int]));
            assert(e2.contains((ti, k, EdgeType::CONTAINS_TERM)));
            assert(term_links(n2, e2, toks[t as int], k));
            assert forall|m: int| first <= m < e2.len() implies {
                let (a, b, w) = #[trigger] e2[m];
                ||| w == EdgeType::CONTAINS_TERM && b < ps@.len() && a < n2.len() && n2[a as int] is Term
                    && product_tokens(ps@[b as int]@).contains(n2[a as int]->Term_0.term@)
                ||| w == EdgeType::RELATED_BY_CATEGORY && a < ps@.len() && b < ps@.len() && same_category(ps@, a as int, b as int)
            } by {
                if m < e1.len() {
                    assert(e2[m] == e1[m]);
                    assert(e1[m].0 < n1.len());
                    assert(n2[e1[m].0 as int] == n1[e1[m].0 as int]);
                }
            }
            assert forall|m: int| 0 <= m < e2.len() implies (#[trigger] e2[m]).0 < n2.len() && e2[m].1 < n2.len() by {
                if m < e1.len() {
                    assert(e2[m] == e1[m]);
                }
            }
        }
        t = t + 1;
    }
    true
}

/// Adds an edge from product node `k` to every other product of its category.
fn link_category(g: &mut MegaStoreGraph, ps: &Vec<Product>, base: usize, first: usize, k: usize) -> (ok: bool)
    requires
        k < ps@.len(),
        index_ok(ps@, base as int, first as int, graph_nodes(*old(g)), graph_edges(*old(g))),
    ensures
        index_ok(ps@, base as int, first as int, graph_nodes(*final(g)), graph_edges(*final(g))),
        extends(graph_nodes(*old(g)), graph_edges(*old(g)), graph_nodes(*final(g)), graph_edges(*final(g))),
        graph_nodes(*final(g)) == graph_nodes(*old(g)),
        ok ==> forall|l: int| 0 <= l < ps@.len() && #[trigger] same_category(ps@, k as int, l)
            ==> graph_edges(*final(g)).contains((k, l as usize, EdgeType::RELATED_BY_CATEGORY)),
        graph_edges(*final(g)).len() <= graph_edges(*old(g)).len() + ps@.len(),
        graph_edges(*old(g)).len() + ps@.len() <= GRAPH_LIMIT ==> ok,
{
    let ghost n_start = graph_nodes(*g);
    let ghost e_start = graph_edges(*g);
    let mut l: usize = 0;
    while l < ps.len()
        invariant
            k < ps@.len(),
            l <= ps@.len(),
            index_ok(ps@, base as int, first as int, graph_nodes(*g), graph_edges(*g)),
            extends(n_start, e_start, graph_nodes(*g), graph_edges(*g)),
            n_start == graph_nodes(*old(g)),
            e_start == graph_edges(*old(g)),
            graph_nodes(*g) == n_start,
            forall|j: int| 0 <= j < l && #[trigger] same_category(ps@, k as int, j)
                ==> graph_edges(*g).contains((k, j as usize, EdgeType::RELATED_BY_CATEGORY)),
            graph_edges(*g).len() <= e_start.len() + l,
        decreases ps@.len() - l,
    {
        if l != k && ps[k].category == ps[l].category {
            if graph_edge_count(g) >= GRAPH_LIMIT {
                return false;
            }
            let ghost e1 = graph_edges(*g);
            graph_add_edge(g, k, l, EdgeType::RELATED_BY_CATEGORY);
            proof {
                let e2 = graph_edges(*g);
                lemma_push_edge(e1, (k, l, EdgeType::RELATED_BY_CATEGORY));
                lemma_grow(n_start, e1, n_start, e2);
                assert forall|m: int| 0 <= m < e2.len() implies (#[trigger] e2[m]).0 < n_start.len() && e2[m].1 < n_start.len() by {
                    if m < e1.len() {
                        assert(e2[m] == e1[m]);
                    }
                }
                assert forall|m: int| first <= m < e2.len() implies {
                    let (a, b, w) = #[trigger] e2[m];
                    ||| w == EdgeType::CONTAINS_TERM && b < ps@.len() && a < n_start.len() && n_start[a as int] is Term
                        && product_tokens(ps@[b as int]@).contains(n_start[a as int]->Term_0.term@)
                    ||| w == EdgeType::RELATED_BY_CATEGORY && a < ps@.len() && b < ps@.len() && same_category(ps@, a as int, b as int)
                } by {
                    if m < e1.len() {
                        assert(e2[m] == e1[m]);
                    }
                }
            }
        }
        l = l + 1;
    }
    true
}

/// The product ids of `ps` are pairwise distinct.
pub open spec fn distinct_product_ids(ps: Seq<Product>) -> bool {
    forall|a: int, b: int| 0 <= a < b < ps.len() ==> ps[a].id != ps[b].id
}

/// The user ids of `us` are pairwise distinct.
pub open spec fn distinct_user_ids(us: Seq<User>) -> bool {
    forall|a: int, b: int| 0 <= a < b < us.len() ==> us[a].id != us[b].id
}

/// `m` maps each product id of `ps` to its position.
pub open spec fn product_map_of(ps: Seq<Product>, m: Map<u32, usize>) -> bool {
    &&& forall|id: u32| #[trigger] m.contains_key(id) <==> known_product(ps, id)
    &&& forall|j: int| 0 <= j < ps.len() ==> m[(#[trigger] ps[j]).id] == j
}

/// `m` maps each user id of `us` to its position after `offset` product nodes.
pub open spec fn user_map_of(us: Seq<User>, offset: int, m: Map<u32, usize>) -> bool {
    &&& forall|id: u32| #[trigger] m.contains_key(id) <==> known_user(us, id)
    &&& forall|j: int| 0 <= j < us.len() ==> m[(#[trigger] us[j]).id] == offset + j
}

/// Adds a node for each product, in order, and maps the ids to the nodes.
fn add_products(g: &mut MegaStoreGraph, ps: &Vec<Product>) -> (m: HashMap<u32, usize>)
    requires
        graph_nodes(*old(g)).len() == 0,
        graph_edges(*old(g)).len() == 0,
        ps@.len() <= GRAPH_LIMIT,
        distinct_product_ids(ps@),
    ensures
        graph_nodes(*final(g)).len() == ps@.len(),
        graph_edges(*final(g)).len() == 0,
        forall|k: int| 0 <= k < ps@.len() ==> (#[trigger] graph_nodes(*final(g))[k]) is Product
            && graph_nodes(*final(g))[k]->Product_0@ == ps@[k]@,
        product_map_of(ps@, m@),
{
    broadcast use vstd::std_specs::hash::group_hash_axioms;
    let mut m: HashMap<u32, usize> = HashMap::new();
    let mut k: usize = 0;
    while k < ps.len()
        invariant
            k <= ps@.len() <= GRAPH_LIMIT,
            distinct_product_ids(ps@),
            graph_nodes(*g).len() == k,
            graph_edges(*g).len() == 0,
            forall|j: int| 0 <= j < k ==> (#[trigger] graph_nodes(*g)[j]) is Product
                && graph_nodes(*g)[j]->Product_0@ == ps@[j]@,
            forall|id: u32| #[trigger] m@.contains_key(id) <==> known_product(ps@.subrange(0, k as int), id),
            forall|j: int| 0 <= j < k ==> m@[(#[trigger] ps@[j]).id] == j,
        decreases ps@.len() - k,
    {
        let ghost pre = ps@.subrange(0, k as int);
        let ghost nxt = ps@.subrange(0, k + 1);
        let p = ps[k].duplicate();
        let id = p.id;
        graph_add_node(g, GraphNode::Product(p));
        m.insert(id, k);
        proof {
            assert forall|x: u32| #[trigger] m@.contains_key(x) <==> known_product(nxt, x) by {
                if known_product(pre, x) {
                    let j = choose|j: int| 0 <= j < pre.len() && #[trigger] pre[j].id == x;
                    assert(nxt[j].id == x);
                }
                if known_product(nxt, x) {
                    let j = choose|j: int| 0 <= j < nxt.len() && #[trigger] nxt[j].id == x;
                    if j < k {
                        assert(pre[j].id == x);
                    }
                }
                if x == id {
                    assert(nxt[k as int].id == x);
                }
            }
            assert forall|j: int| 0 <= j < k + 1 implies m@[(#[trigger] ps@[j]).id] == j by {
                if j < k {
                    assert(ps@[j].id != ps@[k as int].id);
                }
            }
        }
        k = k + 1;
    }
    assert(ps@.subrange(0, ps@.len() as int) =~= ps@);
    m
}

/// Adds a node for each user, in order, and maps the ids to the nodes.
fn add_users(g: &mut MegaStoreGraph, us: &Vec<User>) -> (m: HashMap<u32, usize>)
    requires
        graph_nodes(*old(g)).len() + us@.len() <= GRAPH_LIMIT,
        distinct_user_ids(us@),
    ensures
        graph_nodes(*final(g)).len() == graph_nodes(*old(g)).len() + us@.len(),
        graph_edges(*final(g)) == graph_edges(*old(g)),
        forall|k: int| 0 <= k < graph_nodes(*old(g)).len() ==> #[trigger] graph_nodes(*final(g))[k] == graph_nodes(*old(g))[k],
        forall|k: int| 0 <= k < us@.len() ==> (#[trigger] graph_nodes(*final(g))[graph_nodes(*old(g)).len() + k]).is_user_with(us@[k].id)
            && graph_nodes(*final(g))[graph_nodes(*old(g)).len() + k]->User_0.name@ == us@[k].name@,
        user_map_of(us@, graph_nodes(*old(g)).len() as int, m@),
{
    broadcast use vstd::std_specs::hash::group_hash_axioms;
    let ghost n0 = graph_nodes(*g);
    let offset = graph_node_count(g);
    let mut m: HashMap<u32, usize> = HashMap::new();
    let mut k: usize = 0;
    while k < us.len()
        invariant
            k <= us@.len(),
            offset == n0.len(),
            n0 == graph_nodes(*old(g)),
            offset + us@.len() <= GRAPH_LIMIT,
            distinct_user_ids(us@),
            graph_nodes(*g).len() == offset + k,
            graph_edges(*g) == graph_edges(*old(g)),
            forall|j: int| 0 <= j < offset ==> #[trigger] graph_nodes(*g)[j] == n0[j],
            forall|j: int| 0 <= j < k ==> (#[trigger] graph_nodes(*g)[offset + j]).is_user_with(us@[j].id)
                && graph_nodes(*g)[offset + j]->User_0.name@ == us@[j].name@,
            forall|id: u32| #[trigger] m@.contains_key(id) <==> known_user(us@.subrange(0, k as int), id),
            forall|j: int| 0 <= j < k ==> m@[(#[trigger] us@[j]).id] == offset + j,
        decreases us@.len() - k,
    {
        let ghost pre = us@.subrange(0, k as int);
        let ghost nxt = us@.subrange(0, k + 1);
        let ghost nb = graph_nodes(*g);
        let id = us[k].id;
        let u = User { id, name: us[k].name.clone() };
        let i = graph_add_node(g, GraphNode::User(u));
        m.insert(id, i);
        proof {
            assert forall|j: int| 0 <= j < k + 1 implies (#[trigger] graph_nodes(*g)[offset + j]).is_user_with(us@[j].id)
                && graph_nodes(*g)[offset + j]->User_0.name@ == us@[j].name@ by {
                if j < k {
                    assert(graph_nodes(*g)[offset + j] == nb[offset + j]);
                }
            }
            assert forall|x: u32| #[trigger] m@.contains_key(x) <==> known_user(nxt, x) by {
                if known_user(pre, x) {
                    let j = choose|j: int| 0 <= j < pre.len() && #[trigger] pre[j].id == x;
                    assert(nxt[j].id == x);
                }
                if known_user(nxt, x) {
                    let j = choose|j: int| 0 <= j < nxt.len() && #[trigger] nxt[j].id == x;
                    if j < k {
                        assert(pre[j].id == x);
                    }
                }
                if x == id {
                    assert(nxt[k as int].id == x);
                }
            }
            assert forall|j: int| 0 <= j < k + 1 implies m@[(#[trigger] us@[j]).id] == offset + j by {
                if j < k {
                    assert(us@[j].id != us@[k as int].id);
                }
            }
        }
        k = k + 1;
    }
    assert(us@.subrange(0, us@.len() as int) =~= us@);
    m
}

/// The error that interaction `x` raises when it is the first invalid one.
pub open spec fn error_for(us: Seq<User>, x: (u32, u32, EdgeType)) -> BuildError {
    if !known_user(us, x.0) {
        BuildError::UnknownUser(x.0)
    } else {
        BuildError::UnknownProduct(x.1)
    }
}

/// Interaction `m` is the first that names an unknown user or product.
pub open spec fn first_invalid(ps: Seq<Product>, us: Seq<User>, xs: Seq<(u32, u32, EdgeType)>, m: int) -> bool {
    &&& 0 <= m < xs.len()
    &&& !interaction_ok(ps, us, xs[m])
    &&& forall|j: int| 0 <= j < m ==> interaction_ok(ps, us, #[trigger] xs[j])
}

/// Adds an edge from user to product for each interaction, in order; stops
/// at the first one that names an unknown user or product.
fn add_interactions(
    g: &mut MegaStoreGraph,
    ps: &Vec<Product>,
    us: &Vec<User>,
    pm: &HashMap<u32, usize>,
    um: &HashMap<u32, usize>,
    xs: &Vec<(u32, u32, EdgeType)>,
) -> (r: Result<(), BuildError>)
    requires
        graph_nodes(*old(g)).len() == ps@.len() + us@.len(),
        graph_edges(*old(g)).len() == 0,
        xs@.len() <= GRAPH_LIMIT,
        product_map_of(ps@, pm@),
        user_map_of(us@, ps@.len() as int, um@),
    ensures
        graph_nodes(*final(g)) == graph_nodes(*old(g)),
        match r {
            Ok(()) => graph_edges(*final(g)).len() == xs@.len()
                && (forall|m: int| 0 <= m < xs@.len() ==> interaction_ok(ps@, us@, #[trigger] xs@[m]))
                && forall|m: int| 0 <= m < xs@.len() ==> #[trigger] graph_edges(*final(g))[m] == (um@[xs@[m].0], pm@[xs@[m].1], xs@[m].2),
            Err(e) => exists|m: int| first_invalid(ps@, us@, xs@, m) && e == error_for(us@, #[trigger] xs@[m]),
        },
{
    broadcast use vstd::std_specs::hash::group_hash_axioms;
    let mut m: usize = 0;
    while m < xs.len()
        invariant
            m <= xs@.len() <= GRAPH_LIMIT,
            graph_nodes(*g) == graph_nodes(*old(g)),
            graph_nodes(*g).len() == ps@.len() + us@.len(),
            product_map_of(ps@, pm@),
            user_map_of(us@, ps@.len() as int, um@),
            graph_edges(*g).len() == m,
            forall|j: int| 0 <= j < m ==> interaction_ok(ps@, us@, #[trigger] xs@[j]),
            forall|j: int| 0 <= j < m ==> #[trigger] graph_edges(*g)[j] == (um@[xs@[j].0], pm@[xs@[j].1], xs@[j].2),
        decreases xs@.len() - m,
    {
        let (uid, pid, kind) = xs[m];
        let ui = match um.get(&uid) {
            Some(i) => *i,
            None => {
                assert(first_invalid(ps@, us@, xs@, m as int));
                return Err(BuildError::UnknownUser(uid));
            },
        };
        let pi = match pm.get(&pid) {
            Some(i) => *i,
            None => {
                assert(first_invalid(ps@, us@, xs@, m as int));
                return Err(BuildError::UnknownProduct(pid));
            },
        };
        proof {
            let a = choose|a: int| 0 <= a < us@.len() && #[trigger] us@[a].id == uid;
            let b = choose|b: int| 0 <= b < ps@.len() && #[trigger] ps@[b].id == pid;
        }
        let ghost e0 = graph_edges(*g);
        graph_add_edge(g, ui, pi, kind);
        proof {
            assert forall|j: int| 0 <= j < m + 1 implies #[trigger] graph_edges(*g)[j] == (um@[xs@[j].0], pm@[xs@[j].1], xs@[j].2) by {
                if j < m {
                    assert(graph_edges(*g)[j] == e0[j]);
                }
            }
        }
        m = m + 1;
    }
    Ok(())
}

/// Indexes every product: links it to the terms of its name and tags and to
/// the other products of its category; false when the graph is full.
fn index_products(g: &mut MegaStoreGraph, ps: &Vec<Product>, base: usize, first: usize) -> (ok: bool)
    requires
        index_ok(ps@, base as int, first as int, graph_nodes(*old(g)), graph_edges(*old(g))),
    ensures
        index_ok(ps@, base as int, first as int, graph_nodes(*final(g)), graph_edges(*final(g))),
        extends(graph_nodes(*old(g)), graph_edges(*old(g)), graph_nodes(*final(g)), graph_edges(*final(g))),
        ok ==> forall|k: int, t: int| 0 <= k < ps@.len() && 0 <= t < product_tokens(ps@[k]@).len()
            ==> term_links(graph_nodes(*final(g)), graph_edges(*final(g)), #[trigger] product_tokens(ps@[k]@)[t], k as usize),
        ok ==> forall|a: int, b: int| 0 <= a < ps@.len() && 0 <= b < ps@.len() && #[trigger] same_category(ps@, a, b)
            ==> graph_edges(*final(g)).contains((a as usize, b as usize, EdgeType::RELATED_BY_CATEGORY)),
        graph_nodes(*old(g)).len() + token_count(views(ps@), ps@.len() as int) <= GRAPH_LIMIT
            && graph_edges(*old(g)).len() + token_count(views(ps@), ps@.len() as int) + ps@.len() * ps@.len() <= GRAPH_LIMIT ==> ok,
{
    let ghost n_start = graph_nodes(*g);
    let ghost e_start = graph_edges(*g);
    let mut k: usize = 0;
    while k < ps.len()
        invariant
            k <= ps@.len(),
            index_ok(ps@, base as int, first as int, graph_nodes(*g), graph_edges(*g)),
            extends(n_start, e_start, graph_nodes(*g), graph_edges(*g)),
            n_start == graph_nodes(*old(g)),
            e_start == graph_edges(*old(g)),
            forall|a: int, t: int| 0 <= a < k && 0 <= t < product_tokens(ps@[a]@).len()
                ==> term_links(graph_nodes(*g), graph_edges(*g), #[trigger] product_tokens(ps@[a]@)[t], a as usize),
            forall|a: int, b: int| 0 <= a < k && 0 <= b < ps@.len() && #[trigger] same_category(ps@, a, b)
                ==> graph_edges(*g).contains((a as usize, b as usize, EdgeType::RELATED_BY_CATEGORY)),
            graph_nodes(*g).len() <= n_start.len() + token_count(views(ps@), k as int),
            graph_edges(*g).len() <= e_start.len() + token_count(views(ps@), k as int) + k * ps@.len(),
        decreases ps@.len() - k,
    {
        let p = &ps[k];
        let lname = lowercase(p.name.as_str());
        let mut raw = split_words(lname.as_str());
        let ghost words = raw@.map_values(|w: String| w@);
        let mut j: usize = 0;
        while j < p.tags.len()
            invariant
                j <= p.tags@.len(),
                raw@.map_values(|w: String| w@) == words + p@.tags.subrange(0, j as int),
            decreases p.tags@.len() - j,
        {
            let tag = p.tags[j].clone();
            assert(tag@ == p@.tags[j as int]);
            let ghost r0 = raw@;
            raw.push(tag);
            assert(raw@.map_values(|w: String| w@) =~= r0.map_values(|w: String| w@).push(tag@));
            assert(raw@.map_values(|w: String| w@) =~= words + p@.tags.subrange(0, j + 1));
            j = j + 1;
        }
        assert(p@.tags.subrange(0, p@.tags.len() as int) =~= p@.tags);
        let ghost n0 = graph_nodes(*g);
        let ghost e0 = graph_edges(*g);
        proof {
            let P = ps@.len() as int;
            lemma_token_count_mono(views(ps@), k + 1, P);
            assert(k * P + P <= P * P) by (nonlinear_arith)
                requires k < P;
            assert(token_count(views(ps@), k + 1) == token_count(views(ps@), k as int) + product_tokens(ps@[k as int]@).len());
        }
        if !index_tokens(g, ps, base, first, k, &raw) {
            return false;
        }
        let ghost n1 = graph_nodes(*g);
        let ghost e1 = graph_edges(*g);
        proof {
            lemma_grow(n0, e0, n1, e1);
        }
        if !link_category(g, ps, base, first, k) {
            return false;
        }
        proof {
            assert((k + 1) * ps@.len() == k * ps@.len() + ps@.len()) by (nonlinear_arith);
            lemma_grow(n1, e1, graph_nodes(*g), graph_edges(*g));
            assert forall|a: int, b: int| 0 <= a < k + 1 && 0 <= b < ps@.len() && #[trigger] same_category(ps@, a, b)
                implies graph_edges(*g).contains((a as usize, b as usize, EdgeType::RELATED_BY_CATEGORY)) by {
                if a < k {
                    assert(e0.contains((a as usize, b as usize, EdgeType::RELATED_BY_CATEGORY)));
                }
            }
        }
        k = k + 1;
    }
    true
}

/// More records than the graph's index space can hold.
pub open spec fn too_many_records(ps: Seq<Product>, us: Seq<User>, xs: Seq<(u32, u32, EdgeType)>) -> bool {
    ps.len() + us.len() > GRAPH_LIMIT || xs.len() > GRAPH_LIMIT
}

/// Builds the catalog: a node per product, then per user, an edge per
/// interaction, then the term nodes, CONTAINS_TERM edges and
/// RELATED_BY_CATEGORY edges. An interaction that names an unknown user or
/// product aborts the build with an error for the first such interaction.
pub fn build_system(
    products: &Vec<Product>,
    users: &Vec<User>,
    interactions: &Vec<(u32, u32, EdgeType)>,
) -> (r: Result<SearchSystem, BuildError>)
    requires
        distinct_product_ids(products@),
        distinct_user_ids(users@),
        forall|m: int| 0 <= m < interactions@.len() ==> (#[trigger] interactions@[m]).2.is_interaction(),
    ensures
        match r {
            Ok(sys) => built_from(sys, products@, users@, interactions@)
                && forall|m: int| 0 <= m < interactions@.len() ==> interaction_ok(products@, users@, #[trigger] interactions@[m]),
            Err(BuildError::CapacityExceeded) => too_many_records(products@, users@, interactions@)
                || forall|m: int| 0 <= m < interactions@.len() ==> interaction_ok(products@, users@, #[trigger] interactions@[m]),
            Err(e) => exists|m: int| first_invalid(products@, users@, interactions@, m)
                && e == error_for(users@, #[trigger] interactions@[m]),
        },
        r == Err::<SearchSystem, BuildError>(BuildError::CapacityExceeded) ==> !fits(views(products@), users@.len(), interactions@.len()),
{
    if products.len() > GRAPH_LIMIT || users.len() > GRAPH_LIMIT - products.len() || interactions.len() > GRAPH_LIMIT {
        return Err(BuildError::CapacityExceeded);
    }
    let ghost ps = products@;
    let ghost us = users@;
    let ghost xs = interactions@;
    let mut g = graph_new();
    let pm = add_products(&mut g, products);
    let ghost n1 = graph_nodes(g);
    let um = add_users(&mut g, users);
    let ghost n2 = graph_nodes(g);
    match add_interactions(&mut g, products, users, &pm, &um, interactions) {
        Ok(()) => {},
        Err(e) => {
            return Err(e);
        },
    }
    let ghost n3 = graph_nodes(g);
    let ghost e3 = graph_edges(g);
    let base = products.len() + users.len();
    proof {
        assert forall|m: int| 0 <= m < e3.len() implies (#[trigger] e3[m]).0 < n3.len() && e3[m].1 < n3.len() by {
            let x = xs[m];
            assert(interaction_ok(ps, us, x));
            let a = choose|a: int| 0 <= a < us.len() && #[trigger] us[a].id == x.0;
            let b = choose|b: int| 0 <= b < ps.len() && #[trigger] ps[b].id == x.1;
        }
    }
    proof {
        if fits(views(ps), us.len(), xs.len()) {
            assert(n3.len() == ps.len() + us.len());
            assert(e3.len() == xs.len());
        }
    }
    if !index_products(&mut g, products, base, interactions.len()) {
        return Err(BuildError::CapacityExceeded);
    }
    let sys = SearchSystem { graph: g, product_id_to_index: pm, user_id_to_index: um };
    proof {
        let nodes = sys.nodes();
        let edges = sys.edges();
        assert forall|k: int| 0 <= k < ps.len() implies (#[trigger] nodes[k]) is Product && nodes[k]->Product_0@ == ps[k]@ by {
            assert(nodes[k] == n3[k]);
            assert(n2[k] == n1[k]);
        }
        assert forall|k: int| 0 <= k < us.len() implies (#[trigger] nodes[ps.len() + k]).is_user_with(us[k].id)
            && nodes[ps.len() + k]->User_0.name@ == us[k].name@ by {
            assert(nodes[ps.len() + k] == n3[ps.len() + k]);
        }
        assert forall|id: u32| #[trigger] sys.product_id_to_index@.contains_key(id) implies
            sys.product_id_to_index@[id] < nodes.len() && nodes[sys.product_id_to_index@[id] as int].is_product_with(id) by {
            let b = choose|b: int| 0 <= b < ps.len() && #[trigger] ps[b].id == id;
            assert(nodes[b] is Product);
        }
        assert forall|j: int| 0 <= j < nodes.len() && (#[trigger] nodes[j]) is Product implies
            sys.product_id_to_index@.contains_key(nodes[j]->Product_0.id)
                && sys.product_id_to_index@[nodes[j]->Product_0.id] == j by {
            if j >= base {
                assert(nodes[j] is Term);
            } else if j >= ps.len() {
                assert(nodes[ps.len() + (j - ps.len())].is_user_with(us[j - ps.len()].id));
            } else {
                assert(nodes[j]->Product_0.id == ps[j].id);
            }
        }
        assert forall|id: u32| #[trigger] sys.user_id_to_index@.contains_key(id) implies
            sys.user_id_to_index@[id] < nodes.len() && nodes[sys.user_id_to_index@[id] as int].is_user_with(id) by {
            let a = choose|a: int| 0 <= a < us.len() && #[trigger] us[a].id == id;
            assert(nodes[ps.len() + a].is_user_with(us[a].id));
        }
        assert forall|j: int| 0 <= j < nodes.len() && (#[trigger] nodes[j]) is User implies
            sys.user_id_to_index@.contains_key(nodes[j]->User_0.id)
                && sys.user_id_to_index@[nodes[j]->User_0.id] == j by {
            if j >= base {
                assert(nodes[j] is Term);
            } else if j < ps.len() {
                assert(nodes[j] is Product);
            } else {
                assert(nodes[ps.len() + (j - ps.len())].is_user_with(us[j - ps.len()].id));
            }
        }
        assert forall|m: int| 0 <= m < xs.len() implies sys.user_index((#[trigger] xs[m]).0) == Some(edges[m].0)
            && sys.product_index(xs[m].1) == Some(edges[m].1) && edges[m].2 == xs[m].2 by {
            assert(edges[m] == e3[m]);
            let x = xs[m];
            assert(interaction_ok(ps, us, x));
            let a = choose|a: int| 0 <= a < us.len() && #[trigger] us[a].id == x.0;
            let b = choose|b: int| 0 <= b < ps.len() && #[trigger] ps[b].id == x.1;
        }
    }
    Ok(sys)
}

/// A product with two tags.
fn make_product(id: u32, name: &str, brand: &str, category: &str, tag0: &str, tag1: &str) -> (r: Product)
    ensures
        r.id == id,
        r.name@ == name@,
        r.brand@ == brand@,
        r.category@ == category@,
        r@.tags == seq![tag0@, tag1@],
{
    broadcast use vstd::string::group_string_axioms;
    let mut tags: Vec<String> = Vec::new();
    tags.push(tag0.to_string());
    tags.push(tag1.to_string());
    let r = Product {
        id,
        name: name.to_string(),
        brand: brand.to_string(),
        category: category.to_string(),
        tags,
    };
    assert(r@.tags =~= seq![tag0@, tag1@]);
    r
}

/// A user record.
fn make_user(id: u32, name: &str) -> (r: User)
    ensures
        r.id == id,
        r.name@ == name@,
{
    broadcast use vstd::string::group_string_axioms;
    User { id, name: name.to_string() }
}

/// The sample catalog's products.
pub open spec fn sample_products() -> Seq<ProductView> {
    seq![
        ProductView { id: 101, name: "Smart TV 4K LG 55"@, brand: "LG"@, category: "Eletrônicos"@, tags: seq!["tv"@, "smart"@] },
        ProductView { id: 102, name: "Soundbar JBL 5.1"@, brand: "JBL"@, category: "Eletrônicos"@, tags: seq!["audio"@, "speaker"@] },
        ProductView { id: 103, name: "Vestido Floral Verão"@, brand: "Zara"@, category: "Vestuário"@, tags: seq!["roupa"@, "verao"@] },
        ProductView { id: 104, name: "Smart TV QLED Samsung 65"@, brand: "Samsung"@, category: "Eletrônicos"@, tags: seq!["tv"@, "qled"@] },
        ProductView { id: 105, name: "Calça Jeans Slim Fit"@, brand: "Levi's"@, category: "Vestuário"@, tags: seq!["jeans"@, "calca"@] },
    ]
}

/// The sample catalog's users, as (id, name).
pub open spec fn sample_users() -> Seq<(u32, Seq<char>)> {
    seq![(1u32, "Alice"@), (2u32, "Bob"@), (3u32, "Charlie"@)]
}

/// The sample catalog's interactions, as (user id, product id, kind).
pub open spec fn sample_interactions() -> Seq<(u32, u32, EdgeType)> {
    seq![
        (1u32, 101u32, EdgeType::BOUGHT),
        (1u32, 102u32, EdgeType::VIEWED),
        (2u32, 104u32, EdgeType::BOUGHT),
        (2u32, 102u32, EdgeType::BOUGHT),
        (3u32, 103u32, EdgeType::BOUGHT),
        (3u32, 105u32, EdgeType::VIEWED),
    ]
}

/// The sample catalog's products.
pub fn create_mock_products() -> (r: Vec<Product>)
    ensures
        r@.len() == 5,
        r@[0].id == 101 && r@[1].id == 102 && r@[2].id == 103 && r@[3].id == 104 && r@[4].id == 105,
        r@[0].name@ == "Smart TV 4K LG 55"@ && r@[0].category@ == "Eletrônicos"@ && r@[0]@.tags == seq!["tv"@, "smart"@],
        r@[1].name@ == "Soundbar JBL 5.1"@ && r@[1].category@ == "Eletrônicos"@ && r@[1]@.tags == seq!["audio"@, "speaker"@],
        r@[2].name@ == "Vestido Floral Verão"@ && r@[2].category@ == "Vestuário"@ && r@[2]@.tags == seq!["roupa"@, "verao"@],
        r@[3].name@ == "Smart TV QLED Samsung 65"@ && r@[3].category@ == "Eletrônicos"@ && r@[3]@.tags == seq!["tv"@, "qled"@],
        r@[4].name@ == "Calça Jeans Slim Fit"@ && r@[4].category@ == "Vestuário"@ && r@[4]@.tags == seq!["jeans"@, "calca"@],
        r@[0].brand@ == "LG"@ && r@[1].brand@ == "JBL"@ && r@[2].brand@ == "Zara"@ && r@[3].brand@ == "Samsung"@
            && r@[4].brand@ == "Levi's"@,
        views(r@) == sample_products(),
{
    let mut r: Vec<Product> = Vec::new();
    r.push(make_product(101, "Smart TV 4K LG 55", "LG", "Eletrônicos", "tv", "smart"));
    r.push(make_product(102, "Soundbar JBL 5.1", "JBL", "Eletrônicos", "audio", "speaker"));
    r.push(make_product(103, "Vestido Floral Verão", "Zara", "Vestuário", "roupa", "verao"));
    r.push(make_product(104, "Smart TV QLED Samsung 65", "Samsung", "Eletrônicos", "tv", "qled"));
    r.push(make_product(105, "Calça Jeans Slim Fit", "Levi's", "Vestuário", "jeans", "calca"));
    assert(views(r@) =~= sample_products());
    r
}

/// The sample catalog's users.
pub fn create_mock_users() -> (r: Vec<User>)
    ensures
        r@.len() == 3,
        r@[0].id == 1 && r@[0].name@ == "Alice"@,
        r@[1].id == 2 && r@[1].name@ == "Bob"@,
        r@[2].id == 3 && r@[2].name@ == "Charlie"@,
        user_views(r@) == sample_users(),
{
    let mut r: Vec<User> = Vec::new();
    r.push(make_user(1, "Alice"));
    r.push(make_user(2, "Bob"));
    r.push(make_user(3, "Charlie"));
    assert(user_views(r@) =~= sample_users());
    r
}

/// The sample catalog's interactions, as (user id, product id, kind).
pub fn create_mock_interactions() -> (r: Vec<(u32, u32, EdgeType)>)
    ensures
        r@ == sample_interactions(),
{
    let mut r: Vec<(u32, u32, EdgeType)> = Vec::new();
    r.push((1, 101, EdgeType::BOUGHT));
    r.push((1, 102, EdgeType::VIEWED));
    r.push((2, 104, EdgeType::BOUGHT));
    r.push((2, 102, EdgeType::BOUGHT));
    r.push((3, 103, EdgeType::BOUGHT));
    r.push((3, 105, EdgeType::VIEWED));
    assert(r@ =~= seq![
        (1u32, 101u32, EdgeType::BOUGHT),
        (1u32, 102u32, EdgeType::VIEWED),
        (2u32, 104u32, EdgeType::BOUGHT),
        (2u32, 102u32, EdgeType::BOUGHT),
        (3u32, 103u32, EdgeType::BOUGHT),
        (3u32, 105u32, EdgeType::VIEWED),
    ]);
    r
}

/// Builds the sample catalog. Its interactions all name known records, so
/// the build fails only when the graph would outgrow its index space.
pub fn build_system_from_data() -> (r: Result<SearchSystem, BuildError>)
    ensures
        match r {
            Ok(sys) => (exists|ps: Seq<Product>, us: Seq<User>| views(ps) == sample_products()
                && user_views(us) == sample_users()
                && #[trigger] built_from(sys, ps, us, sample_interactions()))
                && sys.nodes().len() >= 8 && sys.product_id_to_index@.len() == 5
                && sys.user_id_to_index@.len() == 3,
            Err(e) => e == BuildError::CapacityExceeded && !fits(sample_products(), 3, 6),
        },
{
    let products = create_mock_products();
    let users = create_mock_users();
    let interactions = create_mock_interactions();
    let ghost ps = products@;
    let ghost us = users@;
    let ghost xs = interactions@;
    assert(known_user(us, 1u32)) by { assert(us[0].id == 1); }
    assert(known_user(us, 2u32)) by { assert(us[1].id == 2); }
    assert(known_user(us, 3u32)) by { assert(us[2].id == 3); }
    assert(known_product(ps, 101u32)) by { assert(ps[0].id == 101); }
    assert(known_product(ps, 102u32)) by { assert(ps[1].id == 102); }
    assert(known_product(ps, 103u32)) by { assert(ps[2].id == 103); }
    assert(known_product(ps, 104u32)) by { assert(ps[3].id == 104); }
    assert(known_product(ps, 105u32)) by { assert(ps[4].id == 105); }
    assert forall|m: int| 0 <= m < xs.len() implies interaction_ok(ps, us, #[trigger] xs[m]) by {}
    let r = build_system(&products, &users, &interactions);
    proof {
        if r is Ok {
            let sys = r->Ok_0;
            assert(sys.product_id_to_index@.dom() =~= set![101u32, 102u32, 103u32, 104u32, 105u32]) by {
                assert forall|id: u32| sys.product_id_to_index@.contains_key(id)
                    <==> set![101u32, 102u32, 103u32, 104u32, 105u32].contains(id) by {
                    if sys.product_id_to_index@.contains_key(id) {
                        let j = sys.product_id_to_index@[id] as int;
                        assert(sys.nodes()[j].is_product_with(id));
                        assert(j < 5) by {
                            if j >= 5 {
                                if j >= 8 {
                                    assert(sys.nodes()[j] is Term);
                                } else {
                                    assert(sys.nodes()[5 + (j - 5)].is_user_with(us[j - 5].id));
                                }
                            }
                        }
                        assert(sys.nodes()[j]->Product_0@ == ps[j]@);
                    }
                }
            }
            assert(sys.user_id_to_index@.dom() =~= set![1u32, 2u32, 3u32]) by {
                assert forall|id: u32| sys.user_id_to_index@.contains_key(id)
                    <==> set![1u32, 2u32, 3u32].contains(id) by {
                    if sys.user_id_to_index@.contains_key(id) {
                        let j = sys.user_id_to_index@[id] as int;
                        assert(sys.nodes()[j].is_user_with(id));
                        assert(5 <= j < 8) by {
                            if j >= 8 {
                                assert(sys.nodes()[j] is Term);
                            } else if j < 5 {
                                assert(sys.nodes()[j] is Product);
                            }
                        }
                        assert(sys.nodes()[5 + (j - 5)].is_user_with(us[j - 5].id));
                    }
                }
            }
        }
    }
    r
}

} // verus!
