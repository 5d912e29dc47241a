use std::collections::BTreeSet;

use skills_web::server::{bind_address, read_routes, write_routes, Endpoint, Method};

#[test]
fn addresses_are_host_and_port() {
    assert_eq!(bind_address("127.0.0.1", 8765), "127.0.0.1:8765");
    assert_eq!(bind_address("0.0.0.0", 0), "0.0.0.0:0");
    assert_eq!(bind_address("", 65535), ":65535");
    for port in [1u16, 9, 10, 99, 100, 1000, 1420, 10000, 60000] {
        assert_eq!(bind_address("h", port), format!("h:{port}"));
    }
}

#[test]
fn routes_are_distinct() {
    let mut routes = read_routes();
    routes.extend(write_routes());
    assert_eq!(routes.len(), 15);
    let paths: BTreeSet<&str> = routes.iter().map(|r| r.path).collect();
    assert_eq!(paths.len(), routes.len());
    for route in &routes {
        assert!(route.path.starts_with("/api/"));
    }
}

#[test]
fn only_the_listing_of_the_write_routes_is_a_get() {
    for route in write_routes() {
        let listing = route.endpoint == Endpoint::ListAgentLocalSkills;
        assert_eq!(route.method == Method::Get, listing, "{route:?}");
    }
    assert!(read_routes().iter().all(|r| r.method == Method::Get));
}

#[test]
fn endpoints_have_their_paths() {
    let routes = write_routes();
    let path = |endpoint: Endpoint| routes.iter().find(|r| r.endpoint == endpoint).unwrap().path;
    assert_eq!(path(Endpoint::DeploySkills), "/api/skills/deploy");
    assert_eq!(path(Endpoint::ListAgentLocalSkills), "/api/agents/{key}/local-skills");
    assert_eq!(path(Endpoint::UpdateAgentLocalSkills), "/api/agents/{key}/local-skills/update");
}
