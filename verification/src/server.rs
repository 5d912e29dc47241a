//! What the server listens on and which paths it serves.

use crate::text::joined;
use vstd::prelude::*;

verus! {

/// The decimal digit `d`.
pub open spec fn digit(d: nat) -> char {
    ('0' as u32 + d) as char
}

/// `n` in decimal, without leading zeros.
pub open spec fn decimal(n: nat) -> Seq<char>
    decreases n,
{
    if n < 10 {
        seq![digit(n)]
    } else {
        decimal(n / 10).push(digit(n % 10))
    }
}

fn digit_text(d: u16) -> (result: &'static str)
    requires
        d < 10,
    ensures
        result@ == seq![digit(d as nat)],
{
    proof {
        reveal_strlit("0");
        reveal_strlit("1");
        reveal_strlit("2");
        reveal_strlit("3");
        reveal_strlit("4");
        reveal_strlit("5");
        reveal_strlit("6");
        reveal_strlit("7");
        reveal_strlit("8");
        reveal_strlit("9");
    }
    let result: &'static str = match d {
        0 => "0",
        1 => "1",
        2 => "2",
        3 => "3",
        4 => "4",
        5 => "5",
        6 => "6",
        7 => "7",
        8 => "8",
        _ => "9",
    };
    assert(result@ =~= seq![digit(d as nat)]);
    result
}

fn decimal_text(n: u16) -> (result: String)
    ensures
        result@ == decimal(n as nat),
    decreases n,
{
    if n < 10 {
        digit_text(n).to_owned()
    } else {
        let front = decimal_text(n / 10);
        let result = front.concat(digit_text(n % 10));
        assert(result@ =~= decimal(n as nat));
        result
    }
}

/// The address that the server binds to: the host, a colon and the port.
pub fn bind_address(host: &str, port: u16) -> (address: String)
    ensures
        address@ == host@ + ":"@ + decimal(port as nat),
{
    joined(host, ":").concat(decimal_text(port).as_str())
}

#[derive(Clone, Copy, Debug, PartialEq, Eq, Structural)]
pub enum Method {
    Get,
    Post,
}

/// What a path is served by.
#[derive(Clone, Copy, Debug, PartialEq, Eq, Structural)]
pub enum Endpoint {
    Health,
    ListTools,
    ListSkills,
    GetSkill,
    ListPresets,
    GetActivePreset,
    DeploySkills,
    UndeploySkills,
    InstallSkill,
    RemoveSkills,
    SetTags,
    ListAgentLocalSkills,
    ImportAgentLocalSkills,
    DeleteAgentLocalSkills,
    UpdateAgentLocalSkills,
}

/// A path that the server serves.
#[derive(Clone, Copy, Debug, PartialEq, Eq)]
pub struct Route {
    pub method: Method,
    pub path: &'static str,
    pub endpoint: Endpoint,
}

/// A route as contracts see it.
#[verifier::ext_equal]
pub struct RouteView {
    pub method: Method,
    pub path: Seq<char>,
    pub endpoint: Endpoint,
}

impl View for Route {
    type V = RouteView;

    open spec fn view(&self) -> RouteView {
        RouteView { method: self.method, path: self.path@, endpoint: self.endpoint }
    }
}

/// The routes as contracts see them.
pub open spec fn views(routes: Seq<Route>) -> Seq<RouteView> {
    routes.map_values(|r: Route| r@)
}

pub open spec fn get_route(path: Seq<char>, endpoint: Endpoint) -> RouteView {
    RouteView { method: Method::Get, path, endpoint }
}

pub open spec fn post_route(path: Seq<char>, endpoint: Endpoint) -> RouteView {
    RouteView { method: Method::Post, path, endpoint }
}

/// The paths that only read.
pub open spec fn read_table() -> Seq<RouteView> {
    seq![
        get_route("/api/health"@, Endpoint::Health),
        get_route("/api/tools"@, Endpoint::ListTools),
        get_route("/api/skills"@, Endpoint::ListSkills),
        get_route("/api/skills/{id}"@, Endpoint::GetSkill),
        get_route("/api/presets"@, Endpoint::ListPresets),
        get_route("/api/presets/active"@, Endpoint::GetActivePreset),
    ]
}

/// The paths that change something, and the listing of an agent's directory.
pub open spec fn write_table() -> Seq<RouteView> {
    seq![
        post_route("/api/skills/deploy"@, Endpoint::DeploySkills),
        post_route("/api/skills/undeploy"@, Endpoint::UndeploySkills),
        post_route("/api/skills/install"@, Endpoint::InstallSkill),
        post_route("/api/skills/remove"@, Endpoint::RemoveSkills),
        post_route("/api/skills/tag"@, Endpoint::SetTags),
        get_route("/api/agents/{key}/local-skills"@, Endpoint::ListAgentLocalSkills),
        post_route("/api/agents/{key}/local-skills/import"@, Endpoint::ImportAgentLocalSkills),
        post_route("/api/agents/{key}/local-skills/delete"@, Endpoint::DeleteAgentLocalSkills),
        post_route("/api/agents/{key}/local-skills/update"@, Endpoint::UpdateAgentLocalSkills),
    ]
}

fn get(path: &'static str, endpoint: Endpoint) -> (route: Route)
    ensures
        route@ == get_route(path@, endpoint),
{
    Route { method: Method::Get, path, endpoint }
}

fn post(path: &'static str, endpoint: Endpoint) -> (route: Route)
    ensures
        route@ == post_route(path@, endpoint),
{
    Route { method: Method::Post, path, endpoint }
}

/// The paths that only read.
pub fn read_routes() -> (routes: Vec<Route>)
    ensures
        views(routes@) == read_table(),
        routes@.len() == 6,
        routes@[0].endpoint == Endpoint::Health,
        routes@[0].method == Method::Get,
        routes@[0].path@ == "/api/health"@,
        routes@[1].endpoint == Endpoint::ListTools,
        routes@[1].method == Method::Get,
        routes@[1].path@ == "/api/tools"@,
        routes@[2].endpoint == Endpoint::ListSkills,
        routes@[2].method == Method::Get,
        routes@[2].path@ == "/api/skills"@,
        routes@[3].endpoint == Endpoint::GetSkill,
        routes@[3].method == Method::Get,
        routes@[3].path@ == "/api/skills/{id}"@,
        routes@[4].endpoint == Endpoint::ListPresets,
        routes@[4].method == Method::Get,
        routes@[4].path@ == "/api/presets"@,
        routes@[5].endpoint == Endpoint::GetActivePreset,
        routes@[5].method == Method::Get,
        routes@[5].path@ == "/api/presets/active"@,
{
    let mut routes: Vec<Route> = Vec::new();
    routes.push(get("/api/health", Endpoint::Health));
    routes.push(get("/api/tools", Endpoint::ListTools));
    routes.push(get("/api/skills", Endpoint::ListSkills));
    routes.push(get("/api/skills/{id}", Endpoint::GetSkill));
    routes.push(get("/api/presets", Endpoint::ListPresets));
    routes.push(get("/api/presets/active", Endpoint::GetActivePreset));
    assert(views(routes@) =~= read_table());
    routes
}

/// The paths that change something, and the listing of an agent's directory.
pub fn write_routes() -> (routes: Vec<Route>)
    ensures
        views(routes@) == write_table(),
        routes@.len() == 9,
        routes@[0].endpoint == Endpoint::DeploySkills,
        routes@[0].method == Method::Post,
        routes@[0].path@ == "/api/skills/deploy"@,
        routes@[1].endpoint == Endpoint::UndeploySkills,
        routes@[1].method == Method::Post,
        routes@[1].path@ == "/api/skills/undeploy"@,
        routes@[2].endpoint == Endpoint::InstallSkill,
        routes@[2].method == Method::Post,
        routes@[2].path@ == "/api/skills/install"@,
        routes@[3].endpoint == Endpoint::RemoveSkills,
        routes@[3].method == Method::Post,
        routes@[3].path@ == "/api/skills/remove"@,
        routes@[4].endpoint == Endpoint::SetTags,
        routes@[4].method == Method::Post,
        routes@[4].path@ == "/api/skills/tag"@,
        routes@[5].endpoint == Endpoint::ListAgentLocalSkills,
        routes@[5].method == Method::Get,
        routes@[5].path@ == "/api/agents/{key}/local-skills"@,
        routes@[6].endpoint == Endpoint::ImportAgentLocalSkills,
        routes@[6].method == Method::Post,
        routes@[6].path@ == "/api/agents/{key}/local-skills/import"@,
        routes@[7].endpoint == Endpoint::DeleteAgentLocalSkills,
        routes@[7].method == Method::Post,
        routes@[7].path@ == "/api/agents/{key}/local-skills/delete"@,
        routes@[8].endpoint == Endpoint::UpdateAgentLocalSkills,
        routes@[8].method == Method::Post,
        routes@[8].path@ == "/api/agents/{key}/local-skills/update"@,
{
    let mut routes: Vec<Route> = Vec::new();
    routes.push(post("/api/skills/deploy", Endpoint::DeploySkills));
    routes.push(post("/api/skills/undeploy", Endpoint::UndeploySkills));
    routes.push(post("/api/skills/install", Endpoint::InstallSkill));
    routes.push(post("/api/skills/remove", Endpoint::RemoveSkills));
    routes.push(post("/api/skills/tag", Endpoint::SetTags));
    routes.push(get("/api/agents/{key}/local-skills", Endpoint::ListAgentLocalSkills));
    routes.push(post("/api/agents/{key}/local-skills/import", Endpoint::ImportAgentLocalSkills));
    routes.push(post("/api/agents/{key}/local-skills/delete", Endpoint::DeleteAgentLocalSkills));
    routes.push(post("/api/agents/{key}/local-skills/update", Endpoint::UpdateAgentLocalSkills));
    assert(views(routes@) =~= write_table());
    routes
}

/// Every route has a path and an endpoint of its own.
pub proof fn routes_do_not_overlap(i: int, j: int)
    requires
        0 <= i < j < (read_table() + write_table()).len(),
    ensures
        (read_table() + write_table())[i].path != (read_table() + write_table())[j].path,
        (read_table() + write_table())[i].endpoint != (read_table() + write_table())[j].endpoint,
{
    reveal_strlit("/api/health");
    reveal_strlit("/api/tools");
    reveal_strlit("/api/skills");
    reveal_strlit("/api/skills/{id}");
    reveal_strlit("/api/presets");
    reveal_strlit("/api/presets/active");
    reveal_strlit("/api/skills/deploy");
    reveal_strlit("/api/skills/undeploy");
    reveal_strlit("/api/skills/install");
    reveal_strlit("/api/skills/remove");
    reveal_strlit("/api/skills/tag");
    reveal_strlit("/api/agents/{key}/local-skills");
    reveal_strlit("/api/agents/{key}/local-skills/import");
    reveal_strlit("/api/agents/{key}/local-skills/delete");
    reveal_strlit("/api/agents/{key}/local-skills/update");
    let all = read_table() + write_table();
    assert(all[0].path == "/api/health"@ && all[0].path.len() == 11);
    assert(all[1].path == "/api/tools"@ && all[1].path.len() == 10);
    assert(all[2].path == "/api/skills"@ && all[2].path.len() == 11);
    assert(all[3].path == "/api/skills/{id}"@ && all[3].path.len() == 16);
    assert(all[4].path == "/api/presets"@ && all[4].path.len() == 12);
    assert(all[5].path == "/api/presets/active"@ && all[5].path.len() == 19);
    assert(all[6].path == "/api/skills/deploy"@ && all[6].path.len() == 18);
    assert(all[7].path == "/api/skills/undeploy"@ && all[7].path.len() == 20);
    assert(all[8].path == "/api/skills/install"@ && all[8].path.len() == 19);
    assert(all[9].path == "/api/skills/remove"@ && all[9].path.len() == 18);
    assert(all[10].path == "/api/skills/tag"@ && all[10].path.len() == 15);
    assert(all[11].path == "/api/agents/{key}/local-skills"@ && all[11].path.len() == 30);
    assert(all[12].path == "/api/agents/{key}/local-skills/import"@ && all[12].path.len() == 37);
    assert(all[13].path == "/api/agents/{key}/local-skills/delete"@ && all[13].path.len() == 37);
    assert(all[14].path == "/api/agents/{key}/local-skills/update"@ && all[14].path.len() == 37);
    // Paths of the same length differ in one character.
    assert(all[0].path[5] == 'h' && all[2].path[5] == 's');
    assert(all[5].path[5] == 'p' && all[8].path[5] == 's');
    assert(all[6].path[12] == 'd' && all[9].path[12] == 'r');
    assert(all[12].path[31] == 'i' && all[13].path[31] == 'd' && all[14].path[31] == 'u');
    if all[i].path == all[j].path {
        assert(all[i].path.len() == all[j].path.len());
        assert(all[i].path[5] == all[j].path[5]);
        assert(all[i].path[12] == all[j].path[12]);
        assert(all[i].path[31] == all[j].path[31]);
    }
}

/// Each endpoint is served under its own path and by its own method, whichever
/// route leads to it.
pub proof fn endpoints_have_their_paths(i: int)
    requires
        0 <= i < (read_table() + write_table()).len(),
    ensures
        ({
            let route = (read_table() + write_table())[i];
            match route.endpoint {
                Endpoint::Health => route.method == Method::Get && route.path
                    == "/api/health"@,
                Endpoint::ListTools => route.method == Method::Get && route.path
                    == "/api/tools"@,
                Endpoint::ListSkills => route.method == Method::Get && route.path
                    == "/api/skills"@,
                Endpoint::GetSkill => route.method == Method::Get && route.path
                    == "/api/skills/{id}"@,
                Endpoint::ListPresets => route.method == Method::Get && route.path
                    == "/api/presets"@,
                Endpoint::GetActivePreset => route.method == Method::Get && route.path
                    == "/api/presets/active"@,
                Endpoint::DeploySkills => route.method == Method::Post && route.path
                    == "/api/skills/deploy"@,
                Endpoint::UndeploySkills => route.method == Method::Post && route.path
                    == "/api/skills/undeploy"@,
                Endpoint::InstallSkill => route.method == Method::Post && route.path
                    == "/api/skills/install"@,
                Endpoint::RemoveSkills => route.method == Method::Post && route.path
                    == "/api/skills/remove"@,
                Endpoint::SetTags => route.method == Method::Post && route.path
                    == "/api/skills/tag"@,
                Endpoint::ListAgentLocalSkills => route.method == Method::Get && route.path
                    == "/api/agents/{key}/local-skills"@,
                Endpoint::ImportAgentLocalSkills => route.method == Method::Post && route.path
                    == "/api/agents/{key}/local-skills/import"@,
                Endpoint::DeleteAgentLocalSkills => route.method == Method::Post && route.path
                    == "/api/agents/{key}/local-skills/delete"@,
                Endpoint::UpdateAgentLocalSkills => route.method == Method::Post && route.path
                    == "/api/agents/{key}/local-skills/update"@,
            }
        }),
{
}

/// Every endpoint is served.
pub proof fn every_endpoint_is_served(endpoint: Endpoint)
    ensures
        exists|i: int|
            0 <= i < (read_table() + write_table()).len() && (#[trigger] (read_table()
                + write_table())[i]).endpoint == endpoint,
{
    let all = read_table() + write_table();
    assert(all[0].endpoint == Endpoint::Health);
    assert(all[1].endpoint == Endpoint::ListTools);
    assert(all[2].endpoint == Endpoint::ListSkills);
    assert(all[3].endpoint == Endpoint::GetSkill);
    assert(all[4].endpoint == Endpoint::ListPresets);
    assert(all[5].endpoint == Endpoint::GetActivePreset);
    assert(all[6].endpoint == Endpoint::DeploySkills);
    assert(all[7].endpoint == Endpoint::UndeploySkills);
    assert(all[8].endpoint == Endpoint::InstallSkill);
    assert(all[9].endpoint == Endpoint::RemoveSkills);
    assert(all[10].endpoint == Endpoint::SetTags);
    assert(all[11].endpoint == Endpoint::ListAgentLocalSkills);
    assert(all[12].endpoint == Endpoint::ImportAgentLocalSkills);
    assert(all[13].endpoint == Endpoint::DeleteAgentLocalSkills);
    assert(all[14].endpoint == Endpoint::UpdateAgentLocalSkills);
}

/// A number below ten is written as its digit, and a larger one as what is left
/// without its last digit, followed by that digit.
pub proof fn decimal_digit_by_digit(n: nat, d: nat)
    requires
        d < 10,
    ensures
        decimal(0) == "0"@,
        decimal(1) == "1"@,
        decimal(2) == "2"@,
        decimal(3) == "3"@,
        decimal(4) == "4"@,
        decimal(5) == "5"@,
        decimal(6) == "6"@,
        decimal(7) == "7"@,
        decimal(8) == "8"@,
        decimal(9) == "9"@,
        n > 0 ==> decimal(10 * n + d) == decimal(n) + decimal(d),
{
    reveal_strlit("0");
    reveal_strlit("1");
    reveal_strlit("2");
    reveal_strlit("3");
    reveal_strlit("4");
    reveal_strlit("5");
    reveal_strlit("6");
    reveal_strlit("7");
    reveal_strlit("8");
    reveal_strlit("9");
    assert(decimal(0) =~= "0"@);
    assert(decimal(1) =~= "1"@);
    assert(decimal(2) =~= "2"@);
    assert(decimal(3) =~= "3"@);
    assert(decimal(4) =~= "4"@);
    assert(decimal(5) =~= "5"@);
    assert(decimal(6) =~= "6"@);
    assert(decimal(7) =~= "7"@);
    assert(decimal(8) =~= "8"@);
    assert(decimal(9) =~= "9"@);
    if n > 0 {
        assert((10 * n + d) / 10 == n);
        assert((10 * n + d) % 10 == d);
        assert(decimal(10 * n + d) =~= decimal(n) + decimal(d));
    }
}

/// Contracts see the whole of a route.
pub proof fn routes_are_seen_whole(routes: Seq<Route>, i: int)
    requires
        0 <= i < routes.len(),
    ensures
        views(routes).len() == routes.len(),
        views(routes)[i].method == routes[i].method,
        views(routes)[i].path == routes[i].path@,
        views(routes)[i].endpoint == routes[i].endpoint,
{
}

} // verus!
