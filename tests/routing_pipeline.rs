use vk_gateway::backend::{find_backend, Backend};
use vk_gateway::health::{health_url, probe_succeeded, HealthChecker};
use vk_gateway::load_balancer::{
    create_load_balancer, pick_at, strategy_for_name, Balancer, LeastConnectionsBalancer, LoadBalancer,
    RandomBalancer, RoundRobinBalancer, StrategyKind, WeightedRoundRobinBalancer,
};
use vk_gateway::proxy::{decimal_text, forward_target, host_header, specific_forward_target};
use vk_gateway::routing::{
    extract_file_id_from_path, resolve_route, resolve_specific_backend, select_backend_via_load_balancer,
    CatalogLookup, RouteError, RoutingDecision,
};

fn backend(id: &str, provider: &str, url: &str) -> Backend {
    Backend::new(id, provider, &format!("{} node", id), url)
}

fn registry() -> Vec<Backend> {
    vec![
        backend("A", "prov", "http://a.example.com"),
        backend("B", "prov", "https://b.example.com"),
    ]
}

fn id_of(r: &Option<Backend>) -> String {
    r.as_ref().unwrap().server_id.clone()
}

#[test]
fn file_id_from_each_recognised_shape() {
    assert_eq!(extract_file_id_from_path("/api/v1/files/download/xyz"), Some("xyz".to_string()));
    assert_eq!(extract_file_id_from_path("/api/v1/files/xyz"), Some("xyz".to_string()));
    assert_eq!(extract_file_id_from_path("/files/download/xyz"), Some("xyz".to_string()));
    assert_eq!(extract_file_id_from_path("/files/xyz"), Some("xyz".to_string()));
    assert_eq!(extract_file_id_from_path("/download/xyz"), Some("xyz".to_string()));
    assert_eq!(extract_file_id_from_path("//files/abc"), Some("abc".to_string()));
}

#[test]
fn file_id_absent_on_bare_prefixes_and_other_shapes() {
    assert_eq!(extract_file_id_from_path("/api/v1/files/"), None);
    assert_eq!(extract_file_id_from_path("/files/"), None);
    assert_eq!(extract_file_id_from_path("/"), None);
    assert_eq!(extract_file_id_from_path(""), None);
    assert_eq!(extract_file_id_from_path("/api/v1/files/a/b"), None);
    assert_eq!(extract_file_id_from_path("/download/a/b"), None);
    assert_eq!(extract_file_id_from_path("/api/v2/files/xyz"), None);
    assert_eq!(extract_file_id_from_path("/other/xyz"), None);
}

#[test]
fn file_id_absent_with_trailing_extra_segment() {
    assert_eq!(extract_file_id_from_path("/files/download/x/y"), None);
    assert_eq!(extract_file_id_from_path("/api/v1/files/download/x/y"), None);
    assert_eq!(extract_file_id_from_path("/files/download/x/"), None);
    assert_eq!(extract_file_id_from_path("/files/x/y"), None);
}

#[test]
fn file_id_round_trip_on_templates() {
    for id in ["k", "download", "a-b_c.txt"] {
        for template in ["/api/v1/files/download/", "/api/v1/files/", "/files/download/", "/files/", "/download/"] {
            let path = format!("{}{}", template, id);
            assert_eq!(extract_file_id_from_path(&path), Some(id.to_string()), "{}", path);
        }
    }
}

#[test]
fn find_backend_by_identifier() {
    let bs = registry();
    assert_eq!(find_backend(&bs, "B").unwrap().server_url, "https://b.example.com");
    assert!(find_backend(&bs, "C").is_none());
    assert!(find_backend(&[], "A").is_none());
}

#[test]
fn round_robin_cycles_and_counts() {
    let bs = vec![
        backend("A", "p", "http://a"),
        backend("B", "p", "http://b"),
        backend("C", "p", "http://c"),
    ];
    let mut rr = RoundRobinBalancer::new();
    let mut picks = Vec::new();
    for _ in 0..7 {
        picks.push(id_of(&rr.select_backend(&bs)));
    }
    assert_eq!(picks, vec!["A", "B", "C", "A", "B", "C", "A"]);
    assert_eq!(rr.counter, 7);
    assert!(rr.select_backend(&[]).is_none());
    assert_eq!(rr.counter, 7);
    assert_eq!(rr.name(), "RoundRobin");
}

#[test]
fn round_robin_fair_split_of_ten_over_three() {
    let bs = vec![
        backend("A", "p", "http://a"),
        backend("B", "p", "http://b"),
        backend("C", "p", "http://c"),
    ];
    let mut rr = RoundRobinBalancer { counter: 5 };
    let mut counts = [0usize; 3];
    for _ in 0..10 {
        let id = id_of(&rr.select_backend(&bs));
        let k = ["A", "B", "C"].iter().position(|x| *x == id).unwrap();
        counts[k] += 1;
    }
    for c in counts {
        assert!(c == 3 || c == 4);
    }
    assert_eq!(counts.iter().sum::<usize>(), 10);
}

#[test]
fn round_robin_counter_wraps() {
    let bs = registry();
    let mut rr = RoundRobinBalancer { counter: usize::MAX };
    let first = id_of(&rr.select(&bs));
    assert_eq!(first, if usize::MAX % 2 == 0 { "A" } else { "B" });
    assert_eq!(rr.counter, 0);
}

#[test]
fn least_connections_prefers_fewest_then_list_order() {
    let bs = registry();
    let mut lc = LeastConnectionsBalancer::new();
    assert_eq!(id_of(&lc.select_backend(&bs)), "A");
    assert_eq!(id_of(&lc.select_backend(&bs)), "B");
    assert_eq!(id_of(&lc.select_backend(&bs)), "A");
    assert_eq!(lc.connections_of("A"), 2);
    assert_eq!(lc.connections_of("B"), 1);
    lc.release_backend(&bs[0]);
    lc.release_backend(&bs[0]);
    lc.release_backend(&bs[0]);
    assert_eq!(lc.connections_of("A"), 0);
    assert_eq!(id_of(&lc.select_backend(&bs)), "A");
    assert!(lc.select_backend(&[]).is_none());
    assert_eq!(lc.name(), "LeastConnections");
}

#[test]
fn least_connections_total_tracks_selects_minus_releases() {
    let bs = registry();
    let mut lc = LeastConnectionsBalancer::new();
    for _ in 0..5 {
        lc.select(&bs);
    }
    lc.release(&bs[1]);
    let total = lc.connections_of("A") + lc.connections_of("B");
    assert_eq!(total, 4);
    lc.release(&backend("Z", "p", "http://z"));
    assert_eq!(lc.connections_of("Z"), 0);
    assert_eq!(lc.connections_of("A") + lc.connections_of("B"), 4);
}

#[test]
fn weighted_round_robin_follows_weights() {
    assert_eq!(WeightedRoundRobinBalancer::get_weight("supabase"), 3);
    assert_eq!(WeightedRoundRobinBalancer::get_weight("gdrive"), 1);
    assert_eq!(WeightedRoundRobinBalancer::get_weight("other"), 1);
    let bs = vec![
        backend("S", "supabase", "http://s"),
        backend("G", "gdrive", "http://g"),
        backend("X", "other", "http://x"),
    ];
    let mut w = WeightedRoundRobinBalancer::new();
    let mut picks = Vec::new();
    for _ in 0..10 {
        picks.push(id_of(&w.select_backend(&bs)));
    }
    assert_eq!(picks, vec!["S", "S", "S", "G", "X", "S", "S", "S", "G", "X"]);
    assert_eq!(w.name(), "WeightedRoundRobin");
}

#[test]
fn single_candidate_is_always_chosen() {
    let one = vec![backend("A", "supabase", "http://a")];
    let mut rr = RoundRobinBalancer::new();
    let mut rnd = RandomBalancer::new();
    let mut w = WeightedRoundRobinBalancer::new();
    let mut lc = LeastConnectionsBalancer::new();
    for n in 1..6 {
        assert_eq!(id_of(&rr.select_backend(&one)), "A");
        assert_eq!(id_of(&rnd.select_backend(&one)), "A");
        assert_eq!(id_of(&w.select_backend(&one)), "A");
        assert_eq!(id_of(&lc.select_backend(&one)), "A");
        assert_eq!(lc.connections_of("A"), n);
    }
    assert_eq!(rnd.name(), "Random");
}

#[test]
fn random_picks_by_word() {
    let bs = registry();
    assert_eq!(id_of(&pick_at(&bs, 0)), "A");
    assert_eq!(id_of(&pick_at(&bs, 7)), "B");
    assert!(pick_at(&[], 7).is_none());
    let mut rnd = RandomBalancer::new();
    let id = id_of(&rnd.select_backend(&bs));
    assert!(id == "A" || id == "B");
    assert!(rnd.select_backend(&[]).is_none());
}

#[test]
fn factory_matches_names_without_case() {
    assert_eq!(create_load_balancer("Least-Connections").strategy(), StrategyKind::LeastConnections);
    assert_eq!(create_load_balancer("leastconnections").strategy(), StrategyKind::LeastConnections);
    assert_eq!(create_load_balancer("RANDOM").strategy(), StrategyKind::Random);
    assert_eq!(create_load_balancer("Weighted-Round-Robin").strategy(), StrategyKind::WeightedRoundRobin);
    assert_eq!(create_load_balancer("weightedroundrobin").strategy(), StrategyKind::WeightedRoundRobin);
    assert_eq!(create_load_balancer("round-robin").strategy(), StrategyKind::RoundRobin);
    assert_eq!(create_load_balancer("bogus").strategy(), StrategyKind::RoundRobin);
    assert_eq!(strategy_for_name("Random").strategy(), StrategyKind::RoundRobin);
    assert_eq!(create_load_balancer("random").name(), "Random");
}

#[test]
fn health_failure_sequence_and_recovery() {
    let bs = registry();
    let mut health = HealthChecker::new(None);
    assert!(health.is_backend_healthy("A"));
    health.record_probe("A", probe_succeeded(500), 1);
    health.record_probe("A", probe_succeeded(500), 2);
    assert!(health.is_backend_healthy("A"));
    assert_eq!(health.status("A").unwrap().consecutive_failures, 2);
    health.record_probe("A", probe_succeeded(500), 3);
    assert!(!health.is_backend_healthy("A"));
    let status = health.status("A").unwrap();
    assert_eq!(status.consecutive_failures, 3);
    assert_eq!(status.last_check, 3);

    let mut rr = RoundRobinBalancer::new();
    let mut balancer = Balancer::RoundRobin(RoundRobinBalancer::new());
    for _ in 0..4 {
        let healthy = health.get_healthy_backends(&bs);
        assert_eq!(id_of(&rr.select_backend(&healthy)), "B");
        assert_eq!(select_backend_via_load_balancer(&bs, &health, &mut balancer).unwrap().server_id, "B");
    }

    health.record_probe("A", probe_succeeded(200), 4);
    assert!(health.is_backend_healthy("A"));
    let status = health.status("A").unwrap();
    assert_eq!(status.consecutive_failures, 0);
    assert_eq!(health.get_healthy_backends(&bs).len(), 2);
}

#[test]
fn probe_status_codes() {
    assert!(probe_succeeded(200));
    assert!(probe_succeeded(204));
    assert!(probe_succeeded(299));
    assert!(!probe_succeeded(199));
    assert!(!probe_succeeded(300));
    assert!(!probe_succeeded(500));
}

#[test]
fn health_url_drops_trailing_slashes() {
    assert_eq!(health_url("http://a.example.com//"), "http://a.example.com/api/v1/health");
    assert_eq!(health_url("http://a.example.com"), "http://a.example.com/api/v1/health");
}

#[test]
fn stats_lines_default_to_healthy() {
    let bs = registry();
    let mut health = HealthChecker::new(Some("s".to_string()));
    health.record_probe("B", false, 10);
    health.record_probe("A", true, 10);
    let stats = health.backend_stats(&bs);
    assert_eq!(stats.len(), 2);
    assert!(stats[0].is_healthy);
    assert_eq!(stats[1].consecutive_failures, 1);
    assert!(stats[1].is_healthy);
    assert_eq!(health.healthy_count(), 2);
    let fresh = HealthChecker::new(None);
    let stats = fresh.backend_stats(&bs);
    assert!(stats.iter().all(|s| s.is_healthy && s.consecutive_failures == 0));
    assert_eq!(fresh.healthy_count(), 0);
    assert_eq!(health.get_all_health_status().len(), 2);
}

#[test]
fn content_addressed_hit() {
    let bs = registry();
    let health = HealthChecker::new(None);
    let mut balancer = create_load_balancer("round-robin");
    let id = extract_file_id_from_path("/api/v1/files/xyz").unwrap();
    assert_eq!(id, "xyz");
    let decision = resolve_route(Some(CatalogLookup::Owner("B".to_string())), &bs, &health, &mut balancer).unwrap();
    assert!(!decision.via_balancer());
    assert!(matches!(decision, RoutingDecision::ContentAddressed(_)));
    let target = forward_target(&decision.backend().server_url, Some("/api/v1/files/xyz")).unwrap();
    assert_eq!(target.uri, "https://b.example.com/api/v1/files/xyz");
    assert_eq!(target.host, Some("b.example.com".to_string()));
    match balancer {
        Balancer::RoundRobin(rr) => assert_eq!(rr.counter, 0),
        _ => panic!("expected round-robin"),
    }
}

#[test]
fn content_addressed_miss_falls_back() {
    let bs = registry();
    let health = HealthChecker::new(None);
    let mut balancer = create_load_balancer("round-robin");
    let decision = resolve_route(Some(CatalogLookup::NotFound), &bs, &health, &mut balancer).unwrap();
    assert!(decision.via_balancer());
    assert_eq!(decision.backend().server_id, "A");
    match balancer {
        Balancer::RoundRobin(rr) => assert_eq!(rr.counter, 1),
        _ => panic!("expected round-robin"),
    }
}

#[test]
fn catalog_error_falls_back_to_least_connections() {
    let bs = registry();
    let health = HealthChecker::new(None);
    let mut lc = LeastConnectionsBalancer::new();
    lc.select(&bs[0..1]);
    lc.select(&bs[0..1]);
    assert_eq!(lc.connections_of("A"), 2);
    assert_eq!(lc.connections_of("B"), 0);
    let mut balancer = Balancer::LeastConnections(lc);
    assert_eq!(extract_file_id_from_path("/files/k"), Some("k".to_string()));
    let decision = resolve_route(Some(CatalogLookup::Unavailable), &bs, &health, &mut balancer).unwrap();
    let chosen = decision.backend().clone();
    assert_eq!(chosen.server_id, "B");
    match &balancer {
        Balancer::LeastConnections(lc) => assert_eq!(lc.connections_of("B"), 1),
        _ => panic!("expected least-connections"),
    }
    balancer.release(&chosen);
    match &balancer {
        Balancer::LeastConnections(lc) => {
            assert_eq!(lc.connections_of("B"), 0);
            assert_eq!(lc.connections_of("A"), 2);
        },
        _ => panic!("expected least-connections"),
    }
}

#[test]
fn owner_errors() {
    let bs = registry();
    let mut health = HealthChecker::new(None);
    let mut balancer = create_load_balancer("round-robin");
    let r = resolve_route(Some(CatalogLookup::Owner("C".to_string())), &bs, &health, &mut balancer);
    assert_eq!(r.err(), Some(RouteError::ConfigurationMismatch));
    for t in 0..3 {
        health.record_probe("B", false, t);
    }
    let r = resolve_route(Some(CatalogLookup::Owner("B".to_string())), &bs, &health, &mut balancer);
    assert_eq!(r.err(), Some(RouteError::BackendUnhealthy));
    assert_eq!(RouteError::ConfigurationMismatch.status_code(), 500);
    assert_eq!(RouteError::BackendUnhealthy.status_code(), 503);
}

#[test]
fn empty_registry_answers_unavailable() {
    let health = HealthChecker::new(None);
    for name in ["round-robin", "least-connections", "random", "weighted-round-robin"] {
        let mut balancer = create_load_balancer(name);
        for lookup in [None, Some(CatalogLookup::NotFound), Some(CatalogLookup::Unavailable)] {
            let r = resolve_route(lookup, &[], &health, &mut balancer);
            let e = r.err().unwrap();
            assert_eq!(e, RouteError::NoBackends);
            assert_eq!(e.status_code(), 503);
        }
    }
}

#[test]
fn all_unhealthy_answers_unavailable() {
    let bs = registry();
    let mut health = HealthChecker::new(None);
    for t in 0..3 {
        health.record_probe("A", false, t);
        health.record_probe("B", false, t);
    }
    let mut balancer = create_load_balancer("random");
    let r = resolve_route(None, &bs, &health, &mut balancer);
    assert_eq!(r.err(), Some(RouteError::NoBackends));
}

#[test]
fn specific_backend_rewrite() {
    let bs = registry();
    let health = HealthChecker::new(None);
    let b = resolve_specific_backend("B", &bs, &health).unwrap();
    let target = specific_forward_target(&b.server_url, "/api/v1/backend/B/objects/42", "B", Some("x=1")).unwrap();
    assert_eq!(target.uri, "https://b.example.com/objects/42?x=1");
    assert_eq!(target.host, Some("b.example.com".to_string()));
    let target = specific_forward_target("http://b:81/", "/backend/B/o", "B", None).unwrap();
    assert_eq!(target.uri, "http://b:81/o");
    assert_eq!(target.host, Some("b:81".to_string()));
}

#[test]
fn specific_backend_errors() {
    let bs = registry();
    let mut health = HealthChecker::new(None);
    let e = resolve_specific_backend("Q", &bs, &health).err().unwrap();
    assert_eq!(e, RouteError::BackendUnknown);
    assert_eq!(e.status_code(), 404);
    for t in 0..3 {
        health.record_probe("A", false, t);
    }
    assert_eq!(resolve_specific_backend("A", &bs, &health).err(), Some(RouteError::BackendUnhealthy));
}

#[test]
fn forward_uri_construction() {
    let t = forward_target("http://localhost:8080///", None).unwrap();
    assert_eq!(t.uri, "http://localhost:8080/");
    assert_eq!(t.host, Some("localhost:8080".to_string()));
    let bad = forward_target("http://exa mple.com", Some("/x"));
    assert_eq!(bad.err().map(|e| e.status_code()), Some(500));
    let relative = forward_target("", Some("/only/path")).unwrap();
    assert_eq!(relative.uri, "/only/path");
    assert_eq!(relative.host, None);
}

#[test]
fn host_header_and_decimal() {
    assert_eq!(decimal_text(0), "0");
    assert_eq!(decimal_text(7), "7");
    assert_eq!(decimal_text(443), "443");
    assert_eq!(decimal_text(65535), "65535");
    assert_eq!(host_header("h.example", Some(8080)), "h.example:8080");
    assert_eq!(host_header("h.example", None), "h.example");
}

#[test]
fn transport_failure_maps_to_bad_gateway() {
    assert_eq!(RouteError::TransportFailure.status_code(), 502);
    assert_eq!(RouteError::RateExceeded.status_code(), 429);
    assert_eq!(RouteError::BadUri.status_code(), 500);
}

#[test]
fn delete_confirmation_is_2xx_only() {
    assert!(vk_gateway::proxy::delete_confirmed(200));
    assert!(vk_gateway::proxy::delete_confirmed(204));
    assert!(!vk_gateway::proxy::delete_confirmed(404));
    assert!(!vk_gateway::proxy::delete_confirmed(500));
}

#[test]
fn display_names_of_created_balancers() {
    assert_eq!(create_load_balancer("LEASTCONNECTIONS").name(), "LeastConnections");
    assert_eq!(create_load_balancer("weighted-round-robin").name(), "WeightedRoundRobin");
    assert_eq!(create_load_balancer("anything").name(), "RoundRobin");
    let one = vec![backend("A", "p", "http://a"), backend("B", "p", "http://b")];
    let mut rr = RoundRobinBalancer::new();
    assert_eq!(id_of(&rr.select_backend(&one)), "A");
}

#[test]
fn health_snapshot_lists_each_probed_backend_once() {
    let mut health = HealthChecker::new(None);
    health.record_probe("A", false, 1);
    health.record_probe("A", false, 2);
    health.record_probe("B", true, 2);
    let all = health.get_all_health_status();
    assert_eq!(all.len(), 2);
    assert_eq!(all[0].key, "A");
    assert_eq!(all[0].value.consecutive_failures, 2);
    assert!(all[1].value.is_healthy);
}
