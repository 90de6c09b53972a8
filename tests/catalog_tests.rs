use megastore_busca_otimizada::graph_builder::{
    build_system, build_system_from_data, create_mock_interactions, create_mock_products, create_mock_users,
};
use megastore_busca_otimizada::{
    recommend_for_user, search_by_term, BuildError, EdgeType, GraphNode, NodeType, Product, SearchSystem, Term, User,
};

fn product(id: u32, name: &str, category: &str, tags: &[&str]) -> Product {
    Product {
        id,
        name: name.to_string(),
        brand: "Acme".to_string(),
        category: category.to_string(),
        tags: tags.iter().map(|t| t.to_string()).collect(),
    }
}

fn user(id: u32) -> User {
    User { id, name: format!("user{}", id) }
}

fn ids(v: &[Product]) -> Vec<u32> {
    v.iter().map(|p| p.id).collect()
}

fn sample() -> SearchSystem {
    build_system_from_data().unwrap()
}

#[test]
fn sample_graph_counts() {
    let system = sample();
    // 5 products, 3 users and 23 distinct terms.
    assert_eq!(system.graph.node_count(), 31);
    // 6 interactions, 30 CONTAINS_TERM edges, 6 + 2 category edges.
    assert_eq!(system.graph.edge_count(), 44);
}

#[test]
fn sample_category_edges_both_directions() {
    let system = sample();
    let g = &system.graph;
    let p101 = system.product_id_to_index[&101];
    let p104 = system.product_id_to_index[&104];
    let p103 = system.product_id_to_index[&103];
    let related = |a: usize, b: usize| {
        g.raw_edges().iter().any(|e| {
            e.source().index() == a && e.target().index() == b && e.weight == EdgeType::RELATED_BY_CATEGORY
        })
    };
    assert!(related(p101, p104));
    assert!(related(p104, p101));
    assert!(!related(p101, p103));
    assert!(!related(p101, p101));
}

#[test]
fn sample_terms_are_unique() {
    let system = sample();
    let mut texts: Vec<String> = system
        .graph
        .node_weights()
        .filter_map(|n| match n {
            GraphNode::Term(t) => Some(t.term.clone()),
            _ => None,
        })
        .collect();
    let n = texts.len();
    texts.sort();
    texts.dedup();
    assert_eq!(texts.len(), n);
    assert!(texts.contains(&"tv".to_string()));
    assert!(texts.contains(&"4k".to_string()));
}

#[test]
fn search_every_name_word_and_tag_finds_its_product() {
    let system = sample();
    for p in create_mock_products() {
        for w in p.name.split_whitespace().chain(p.tags.iter().map(|t| t.as_str())) {
            let found = ids(&search_by_term(&system, w));
            assert!(found.contains(&p.id), "{} should find {}", w, p.id);
        }
    }
}

#[test]
fn search_is_case_insensitive() {
    let system = sample();
    assert_eq!(ids(&search_by_term(&system, "QLED")), vec![104]);
    assert_eq!(ids(&search_by_term(&system, "qled")), vec![104]);
    assert_eq!(ids(&search_by_term(&system, "SoUnDbAr")), vec![102]);
}

#[test]
fn search_sorted_and_deduplicated() {
    let system = sample();
    // 101 holds "smart" in its name and in its tags.
    assert_eq!(ids(&search_by_term(&system, "smart")), vec![101, 104]);
    assert_eq!(ids(&search_by_term(&system, "Smart TV")), vec![101, 104]);
}

#[test]
fn search_matches_substrings_both_ways() {
    let system = sample();
    // The term "tv" occurs in the query.
    assert_eq!(ids(&search_by_term(&system, "tvs")), vec![101, 104]);
    // The query occurs in the term "soundbar".
    assert_eq!(ids(&search_by_term(&system, "sound")), vec![102]);
}

#[test]
fn search_absent_token_is_empty() {
    let system = sample();
    assert!(search_by_term(&system, "banana").is_empty());
    assert!(search_by_term(&system, "zzz").is_empty());
}

#[test]
fn search_returns_full_products() {
    let system = sample();
    let r = search_by_term(&system, "verao");
    assert_eq!(r.len(), 1);
    assert_eq!(r[0].name, "Vestido Floral Verão");
    assert_eq!(r[0].brand, "Zara");
    assert_eq!(r[0].category, "Vestuário");
    assert_eq!(r[0].tags, vec!["roupa".to_string(), "verao".to_string()]);
}

#[test]
fn recommend_for_bob() {
    let system = sample();
    // Bob shares 102 with Alice, who also bought 101.
    assert_eq!(ids(&recommend_for_user(&system, 2)), vec![101]);
}

#[test]
fn recommend_unknown_user_is_empty() {
    let system = sample();
    assert!(recommend_for_user(&system, 999).is_empty());
    assert!(recommend_for_user(&system, 0).is_empty());
}

#[test]
fn recommend_ranks_by_count_then_id() {
    let products: Vec<Product> = (1..=5).map(|i| product(i, &format!("item{}", i), "c", &[])).collect();
    let users = vec![user(1), user(2), user(3)];
    let interactions = vec![
        (1, 1, EdgeType::BOUGHT),
        (2, 1, EdgeType::BOUGHT),
        (3, 1, EdgeType::VIEWED),
        (2, 4, EdgeType::BOUGHT),
        (2, 3, EdgeType::VIEWED),
        (3, 3, EdgeType::BOUGHT),
        (3, 2, EdgeType::VIEWED),
    ];
    let system = build_system(&products, &users, &interactions).unwrap();
    // 3 counts twice; 2 and 4 once each, 2 first by id.
    assert_eq!(ids(&recommend_for_user(&system, 1)), vec![3, 2, 4]);
}

#[test]
fn recommend_counts_each_interaction_edge() {
    let products: Vec<Product> = (1..=3).map(|i| product(i, &format!("item{}", i), "c", &[])).collect();
    let users = vec![user(1), user(2), user(3)];
    let interactions = vec![
        (1, 1, EdgeType::BOUGHT),
        (2, 1, EdgeType::BOUGHT),
        (3, 1, EdgeType::BOUGHT),
        (2, 3, EdgeType::VIEWED),
        (2, 3, EdgeType::BOUGHT),
        (3, 2, EdgeType::BOUGHT),
    ];
    let system = build_system(&products, &users, &interactions).unwrap();
    // User 2 has two edges into 3: it outranks 2.
    assert_eq!(ids(&recommend_for_user(&system, 1)), vec![3, 2]);
}

#[test]
fn recommend_at_most_five() {
    let products: Vec<Product> = (1..=8).map(|i| product(i, &format!("item{}", i), "c", &[])).collect();
    let users = vec![user(1), user(2)];
    let mut interactions = vec![(1, 1, EdgeType::BOUGHT)];
    for i in 1..=8 {
        interactions.push((2, i, EdgeType::VIEWED));
    }
    let system = build_system(&products, &users, &interactions).unwrap();
    assert_eq!(ids(&recommend_for_user(&system, 1)), vec![2, 3, 4, 5, 6]);
}

#[test]
fn recommend_excludes_own_history() {
    let system = sample();
    for uid in 1..=3 {
        let recs = ids(&recommend_for_user(&system, uid));
        let history: Vec<u32> = create_mock_interactions()
            .iter()
            .filter(|(u, _, _)| *u == uid)
            .map(|(_, p, _)| *p)
            .collect();
        assert!(recs.iter().all(|r| !history.contains(r)));
    }
}

#[test]
fn recommend_no_shared_products_is_empty() {
    let system = sample();
    assert!(recommend_for_user(&system, 3).is_empty());
}

#[test]
fn recommend_user_without_history_is_empty() {
    let products = vec![product(1, "a", "c", &[])];
    let users = vec![user(1), user(2)];
    let interactions = vec![(2, 1, EdgeType::BOUGHT)];
    let system = build_system(&products, &users, &interactions).unwrap();
    assert!(recommend_for_user(&system, 1).is_empty());
}

#[test]
fn build_rejects_unknown_user() {
    let products = vec![product(1, "a", "c", &[])];
    let users = vec![user(1)];
    let interactions = vec![(1, 1, EdgeType::BOUGHT), (7, 1, EdgeType::BOUGHT), (1, 9, EdgeType::VIEWED)];
    assert_eq!(build_system(&products, &users, &interactions).err(), Some(BuildError::UnknownUser(7)));
}

#[test]
fn build_rejects_unknown_product() {
    let products = vec![product(1, "a", "c", &[])];
    let users = vec![user(1)];
    let interactions = vec![(1, 9, EdgeType::VIEWED), (7, 1, EdgeType::BOUGHT)];
    assert_eq!(build_system(&products, &users, &interactions).err(), Some(BuildError::UnknownProduct(9)));
}

#[test]
fn build_empty_catalog() {
    let system = build_system(&vec![], &vec![], &vec![]).unwrap();
    assert_eq!(system.graph.node_count(), 0);
    assert!(search_by_term(&system, "tv").is_empty());
    assert!(recommend_for_user(&system, 1).is_empty());
}

#[test]
fn mock_data_contents() {
    let products = create_mock_products();
    assert_eq!(ids(&products), vec![101, 102, 103, 104, 105]);
    assert_eq!(products[0].name, "Smart TV 4K LG 55");
    assert_eq!(products[4].brand, "Levi's");
    let users = create_mock_users();
    assert_eq!(users.iter().map(|u| u.id).collect::<Vec<_>>(), vec![1, 2, 3]);
    assert_eq!(users[1].name, "Bob");
    assert_eq!(create_mock_interactions().len(), 6);
    assert_eq!(create_mock_interactions()[3], (2, 102, EdgeType::BOUGHT));
}

#[test]
fn node_type_and_duplicate() {
    let p = product(5, "Lamp Shade", "home", &["light"]);
    let q = p.duplicate();
    assert_eq!(q, p);
    assert_eq!(GraphNode::Product(p).get_type(), NodeType::Product);
    assert_eq!(GraphNode::User(user(1)).get_type(), NodeType::User);
    assert_eq!(GraphNode::Term(Term { term: "x".to_string() }).get_type(), NodeType::Term);
}

#[test]
fn recommend_counts_neighbour_once_per_shared_product() {
    let products: Vec<Product> = (1..=5).map(|i| product(i, &format!("item{}", i), "c", &[])).collect();
    let users = vec![user(1), user(2), user(3)];
    let interactions = vec![
        (1, 1, EdgeType::BOUGHT),
        // User 2 reaches product 1 by two edges but is one neighbour.
        (2, 1, EdgeType::BOUGHT),
        (2, 1, EdgeType::VIEWED),
        (2, 5, EdgeType::BOUGHT),
        (3, 1, EdgeType::BOUGHT),
        (3, 4, EdgeType::BOUGHT),
    ];
    let system = build_system(&products, &users, &interactions).unwrap();
    assert_eq!(ids(&recommend_for_user(&system, 1)), vec![4, 5]);
}

#[test]
fn recommend_top_five_ignores_duplicate_shared_edges() {
    let products: Vec<Product> = (1..=7).map(|i| product(i, &format!("item{}", i), "c", &[])).collect();
    let users: Vec<User> = (1..=7).map(user).collect();
    let mut interactions = vec![(1, 1, EdgeType::BOUGHT)];
    // Users 2..=7 each share product 1 and bring one new product.
    for u in 2..=7u32 {
        interactions.push((u, 1, EdgeType::BOUGHT));
        interactions.push((u, u, EdgeType::BOUGHT));
    }
    // The neighbour of the largest id also viewed the shared product.
    interactions.push((7, 1, EdgeType::VIEWED));
    let system = build_system(&products, &users, &interactions).unwrap();
    assert_eq!(ids(&recommend_for_user(&system, 1)), vec![2, 3, 4, 5, 6]);
}
