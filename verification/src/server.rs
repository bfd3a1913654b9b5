//! The HTTP surface of the service, as a table that the program around this
//! library mounts: the library says which routes there are, the program binds
//! each to its handler.

use vstd::prelude::*;

verus! {

/// The HTTP method of a route.
#[derive(Debug, Clone, Copy, PartialEq, Eq, Structural)]
pub enum Method {
    Get,
    Post,
}

/// What answers a route.
#[derive(Debug, Clone, Copy, PartialEq, Eq, Structural)]
pub enum Handler {
    /// The interactive explorer, a page that sends its queries to the
    /// GraphQL endpoint.
    Graphiql,
    /// Runs the GraphQL request held in the query string.
    GetGraphql,
    /// Runs the GraphQL request held in the body.
    PostGraphql,
}

/// One route: a method, a path in the notation of the web framework, and
/// what answers it.
#[derive(Debug, Clone, Copy)]
pub struct Route {
    pub method: Method,
    pub path: &'static str,
    pub handler: Handler,
}

/// What a `Route` holds.
pub ghost struct RouteView {
    pub method: Method,
    pub path: Seq<char>,
    pub handler: Handler,
}

impl View for Route {
    type V = RouteView;

    open spec fn view(&self) -> RouteView {
        RouteView { method: self.method, path: self.path@, handler: self.handler }
    }
}

/// The server to launch: where the routes are mounted, the routes, and the
/// path that the explorer sends its queries to.
#[derive(Debug)]
pub struct Server {
    pub base: &'static str,
    pub routes: Vec<Route>,
    pub endpoint: &'static str,
}

/// The routes of the service: the explorer, and the GraphQL endpoint by
/// `GET` and by `POST`.
pub open spec fn service_routes() -> Seq<RouteView> {
    seq![
        RouteView { method: Method::Get, path: "/graphiql"@, handler: Handler::Graphiql },
        RouteView {
            method: Method::Get,
            path: "/graphql?<request>"@,
            handler: Handler::GetGraphql,
        },
        RouteView { method: Method::Post, path: "/graphql"@, handler: Handler::PostGraphql },
    ]
}

/// The server of the service: the three routes of [`service_routes`] in
/// that order, mounted at the root, with the explorer pointed at the GraphQL
/// endpoint.
pub fn rocket() -> (server: Server)
    ensures
        server.base@ == "/"@,
        server.endpoint@ == "/graphql"@,
        server.routes@.map_values(|route: Route| route@) == service_routes(),
{
    let mut routes: Vec<Route> = Vec::new();
    routes.push(Route { method: Method::Get, path: "/graphiql", handler: Handler::Graphiql });
    routes.push(
        Route { method: Method::Get, path: "/graphql?<request>", handler: Handler::GetGraphql },
    );
    routes.push(Route { method: Method::Post, path: "/graphql", handler: Handler::PostGraphql });
    assert(routes@.map_values(|route: Route| route@) =~= service_routes());
    Server { base: "/", routes, endpoint: "/graphql" }
}

} // verus!
