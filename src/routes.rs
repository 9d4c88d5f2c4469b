//! Request routing of the collector: which handler a method and path reach.

use vstd::prelude::*;
use crate::text::{chars_of, find_char, find_from, string_between, same_text};

verus! {

/// The charts of a node's dashboard.
#[derive(Debug, Clone, Copy, PartialEq, Eq, Structural)]
pub enum ChartKind {
    Cpu,
    Memory,
    Temperature,
    Network,
    Disk,
    Forks,
}

/// Where a request goes.
#[derive(Debug, PartialEq, Eq)]
pub enum Route {
    /// `POST /api/v1/probe`: a batch of samples to store.
    IngestProbe,
    /// `GET /health`.
    Health,
    /// `GET /ui`: the list of nodes.
    Home,
    /// `GET /ui/node/<id>`: a node's dashboard.
    NodeDashboard(String),
    /// `GET /ui/node/<id>/<chart>.svg`.
    NodeChart(String, ChartKind),
    /// `GET /ui/node/<id>/<file>` naming no chart.
    UnknownChart(String),
    NotFound,
}

pub open spec fn chart_kind_of(file: Seq<char>) -> Option<ChartKind> {
    if file == "cpu.svg"@ {
        Some(ChartKind::Cpu)
    } else if file == "memory.svg"@ {
        Some(ChartKind::Memory)
    } else if file == "temperature.svg"@ {
        Some(ChartKind::Temperature)
    } else if file == "network.svg"@ {
        Some(ChartKind::Network)
    } else if file == "disk.svg"@ {
        Some(ChartKind::Disk)
    } else if file == "forks.svg"@ {
        Some(ChartKind::Forks)
    } else {
        None
    }
}

/// The route of the path after `/ui/node/`: `<id>` alone or with two or more
/// further segments is the dashboard; `<id>/<file>` is a chart.
pub open spec fn node_route_spec(rest: Seq<char>, r: Route) -> bool {
    let i = find_char(rest, '/');
    let id = rest.subrange(0, i);
    if i >= rest.len() {
        r matches Route::NodeDashboard(x) && x@ == id
    } else {
        let tail = rest.subrange(i + 1, rest.len() as int);
        if find_char(tail, '/') < tail.len() {
            r matches Route::NodeDashboard(x) && x@ == id
        } else {
            match chart_kind_of(tail) {
                Some(k) => r matches Route::NodeChart(x, kk) && x@ == id && kk == k,
                None => r matches Route::UnknownChart(f) && f@ == tail,
            }
        }
    }
}

pub open spec fn route_spec(method: Seq<char>, path: Seq<char>, r: Route) -> bool {
    if method == "POST"@ && path == "/api/v1/probe"@ {
        r == Route::IngestProbe
    } else if method == "GET"@ && path == "/health"@ {
        r == Route::Health
    } else if method == "GET"@ && path == "/ui"@ {
        r == Route::Home
    } else if method == "GET"@ && path.len() >= 9 && path.subrange(0, 9) == "/ui/node/"@ {
        node_route_spec(path.subrange(9, path.len() as int), r)
    } else {
        r == Route::NotFound
    }
}

fn chart_kind(file: &str) -> (r: Option<ChartKind>)
    ensures
        r == chart_kind_of(file@),
{
    if same_text(file, "cpu.svg") {
        Some(ChartKind::Cpu)
    } else if same_text(file, "memory.svg") {
        Some(ChartKind::Memory)
    } else if same_text(file, "temperature.svg") {
        Some(ChartKind::Temperature)
    } else if same_text(file, "network.svg") {
        Some(ChartKind::Network)
    } else if same_text(file, "disk.svg") {
        Some(ChartKind::Disk)
    } else if same_text(file, "forks.svg") {
        Some(ChartKind::Forks)
    } else {
        None
    }
}

/// The route of a path under `/ui/node/` (see `node_route_spec`).
pub fn route_node(rest: &str) -> (r: Route)
    ensures
        node_route_spec(rest@, r),
{
    let cs = chars_of(rest);
    assert(cs@.subrange(0, cs@.len() as int) =~= rest@);
    let i = find_from(&cs, 0, '/');
    let id = string_between(&cs, 0, i);
    if i == cs.len() {
        return Route::NodeDashboard(id);
    }
    let j = find_from(&cs, i + 1, '/');
    if j < cs.len() {
        return Route::NodeDashboard(id);
    }
    let file = string_between(&cs, i + 1, cs.len());
    match chart_kind(file.as_str()) {
        Some(k) => Route::NodeChart(id, k),
        None => Route::UnknownChart(file),
    }
}

fn starts_with_node_prefix(cs: &Vec<char>) -> (r: bool)
    ensures
        r == (cs@.len() >= 9 && cs@.subrange(0, 9) == "/ui/node/"@),
{
    if cs.len() < 9 {
        return false;
    }
    let head = string_between(cs, 0, 9);
    same_text(head.as_str(), "/ui/node/")
}

/// The route of a request (see `route_spec`).
pub fn route(method: &str, path: &str) -> (r: Route)
    ensures
        route_spec(method@, path@, r),
{
    if same_text(method, "POST") && same_text(path, "/api/v1/probe") {
        return Route::IngestProbe;
    }
    let get = same_text(method, "GET");
    if get && same_text(path, "/health") {
        return Route::Health;
    }
    if get && same_text(path, "/ui") {
        return Route::Home;
    }
    let cs = chars_of(path);
    if get && starts_with_node_prefix(&cs) {
        let rest = string_between(&cs, 9, cs.len());
        return route_node(rest.as_str());
    }
    Route::NotFound
}

} // verus!
