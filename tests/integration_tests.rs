use megastore_busca_otimizada::{graph_builder, recommender, search};

#[test]
fn test_system_initialization() {
    let system = graph_builder::build_system_from_data().unwrap();

    assert!(system.graph.node_count() >= 8, "O grafo deve ter pelo menos 8 nós fixos.");
    assert_eq!(system.user_id_to_index.len(), 3, "Deve haver 3 usuários indexados (Tabelas Hash).");
    assert_eq!(system.product_id_to_index.len(), 5, "Deve haver 5 produtos indexados (Tabelas Hash).");
}

#[test]
fn test_search_accuracy() {
    let system = graph_builder::build_system_from_data().unwrap();

    let results_tv = search::search_by_term(&system, "TV");

    assert_eq!(results_tv.len(), 2, "A busca por 'TV' deveria retornar 2 produtos indexados.");
    assert!(results_tv.iter().any(|p| p.id == 101), "Deve conter Smart TV 4K LG (101).");
    assert!(results_tv.iter().any(|p| p.id == 104), "Deve conter Smart TV QLED Samsung (104).");

    let results_summer = search::search_by_term(&system, "verao");
    assert_eq!(results_summer.len(), 1, "A busca por 'verao' (tag) deveria retornar 1 produto.");
    assert!(results_summer.iter().any(|p| p.id == 103), "Deve conter Vestido Floral Verão (103).");

    let results_none = search::search_by_term(&system, "banana");
    assert_eq!(results_none.len(), 0, "A busca por termo irrelevante não deveria retornar resultados.");
}

#[test]
fn test_recommendation_collaborative_filtering() {
    let system = graph_builder::build_system_from_data().unwrap();

    let user_id_alice = 1;
    let recs_alice = recommender::recommend_for_user(&system, user_id_alice);

    assert_eq!(recs_alice.len(), 1, "Alice deve receber exatamente 1 recomendação relevante do vizinho.");
    assert_eq!(recs_alice[0].id, 104, "A melhor recomendação deve ser a Smart TV QLED Samsung (104).");
    assert!(!recs_alice.iter().any(|p| p.id == 101), "Produtos já interagidos não devem ser recomendados.");

    let user_id_charlie = 3;
    let recs_charlie = recommender::recommend_for_user(&system, user_id_charlie);
    assert_eq!(recs_charlie.len(), 0, "Charlie não deve receber recomendações fortes no mock.");

    let recs_invalid = recommender::recommend_for_user(&system, 999);
    assert_eq!(recs_invalid.len(), 0, "Usuário inexistente não deve gerar recomendações.");
}
