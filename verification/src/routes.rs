//! The application's RPC surface, as data: every route name with its kind,
//! in mounting order. The transport adapter in the application layer mounts
//! each route onto its procedure; which routes exist, and under which
//! prefixes they merge, is decided here.

use vstd::prelude::*;

verus! {

/// How a route is called.
#[derive(Clone, Copy, Debug, PartialEq, Eq, Structural)]
pub enum RouteKind {
    Query,
    Mutation,
    Subscription,
}

/// One mounted route.
#[derive(Debug)]
pub struct Route {
    pub name: String,
    pub kind: RouteKind,
}

/// The mathematical value of a route table.
pub open spec fn routes_view(s: Seq<Route>) -> Seq<(Seq<char>, RouteKind)> {
    s.map_values(|x: Route| (x.name@, x.kind))
}

/// A route table with every name put under a prefix.
pub open spec fn prefixed(prefix: Seq<char>, rs: Seq<(Seq<char>, RouteKind)>) -> Seq<
    (Seq<char>, RouteKind),
> {
    rs.map_values(|p: (Seq<char>, RouteKind)| (prefix + p.0, p.1))
}

fn route(name: &str, kind: RouteKind) -> (r: Route)
    ensures
        r.name@ == name@,
        r.kind == kind,
{
    Route { name: String::from_str(name), kind }
}

/// Appends a child table under a prefix, as the transport's merge does.
fn merge(out: &mut Vec<Route>, prefix: &str, routes: &Vec<Route>)
    ensures
        routes_view(final(out)@) == routes_view(old(out)@) + prefixed(
            prefix@,
            routes_view(routes@),
        ),
{
    let ghost target = prefixed(prefix@, routes_view(routes@));
    let mut i: usize = 0;
    proof {
        assert(routes_view(out@) =~= routes_view(old(out)@) + target.take(0));
    }
    while i < routes.len()
        invariant
            i <= routes@.len(),
            target == prefixed(prefix@, routes_view(routes@)),
            routes_view(out@) == routes_view(old(out)@) + target.take(i as int),
        decreases routes@.len() - i,
    {
        let name = String::from_str(prefix).concat(routes[i].name.as_str());
        let ghost nv = name@;
        let ghost o0 = out@;
        out.push(Route { name, kind: routes[i].kind });
        proof {
            assert(routes_view(routes@)[i as int] == (
                routes@[i as int].name@,
                routes@[i as int].kind,
            ));
            assert(target[i as int] == (prefix@ + routes@[i as int].name@, routes@[i as int].kind));
            assert(nv == prefix@ + routes@[i as int].name@);
            assert(routes_view(out@) =~= routes_view(o0).push((nv, routes@[i as int].kind)));
            assert(target.take(i + 1) =~= target.take(i as int).push(target[i as int]));
            assert((routes_view(old(out)@) + target.take(i as int)).push(target[i as int])
                =~= routes_view(old(out)@) + target.take(i + 1));
            assert(routes_view(out@) == routes_view(old(out)@) + target.take(i + 1));
        }
        i = i + 1;
    }
    proof {
        assert(target.take(target.len() as int) =~= target);
    }
}

/// The sign-in routes.
pub fn auth() -> (r: Vec<Route>)
    ensures
        routes_view(r@) == seq![
            ("sign_in"@, RouteKind::Mutation),
            ("sign_out"@, RouteKind::Mutation),
            ("is_logged_in"@, RouteKind::Query),
            ("open_auth_window"@, RouteKind::Query),
        ],
{
    let mut r: Vec<Route> = Vec::new();
    r.push(route("sign_in", RouteKind::Mutation));
    r.push(route("sign_out", RouteKind::Mutation));
    r.push(route("is_logged_in", RouteKind::Query));
    r.push(route("open_auth_window", RouteKind::Query));
    proof {
        assert(routes_view(r@) =~= seq![
            ("sign_in"@, RouteKind::Mutation),
            ("sign_out"@, RouteKind::Mutation),
            ("is_logged_in"@, RouteKind::Query),
            ("open_auth_window"@, RouteKind::Query),
        ]);
    }
    r
}

/// The installer routes.
pub fn bootstrap() -> (r: Vec<Route>)
    ensures
        routes_view(r@) == seq![
            ("initialize"@, RouteKind::Subscription),
            ("show_or_create_main"@, RouteKind::Query),
        ],
{
    let mut r: Vec<Route> = Vec::new();
    r.push(route("initialize", RouteKind::Subscription));
    r.push(route("show_or_create_main", RouteKind::Query));
    proof {
        assert(routes_view(r@) =~= seq![
            ("initialize"@, RouteKind::Subscription),
            ("show_or_create_main"@, RouteKind::Query),
        ]);
    }
    r
}

/// The detection routes.
pub fn game_detect() -> (r: Vec<Route>)
    ensures
        routes_view(r@) == seq![("game_open"@, RouteKind::Subscription)],
{
    let mut r: Vec<Route> = Vec::new();
    r.push(route("game_open", RouteKind::Subscription));
    proof {
        assert(routes_view(r@) =~= seq![("game_open"@, RouteKind::Subscription)]);
    }
    r
}

/// The capture preview routes.
pub fn preview() -> (r: Vec<Route>)
    ensures
        routes_view(r@) == seq![
            ("create"@, RouteKind::Mutation),
            ("set_pos"@, RouteKind::Mutation),
            ("set_size"@, RouteKind::Mutation),
            ("destroy"@, RouteKind::Mutation),
        ],
{
    let mut r: Vec<Route> = Vec::new();
    r.push(route("create", RouteKind::Mutation));
    r.push(route("set_pos", RouteKind::Mutation));
    r.push(route("set_size", RouteKind::Mutation));
    r.push(route("destroy", RouteKind::Mutation));
    proof {
        assert(routes_view(r@) =~= seq![
            ("create"@, RouteKind::Mutation),
            ("set_pos"@, RouteKind::Mutation),
            ("set_size"@, RouteKind::Mutation),
            ("destroy"@, RouteKind::Mutation),
        ]);
    }
    r
}

/// The capture routes: the preview routes under their prefix.
pub fn obs() -> (r: Vec<Route>)
    ensures
        routes_view(r@) == prefixed("preview."@, seq![
            ("create"@, RouteKind::Mutation),
            ("set_pos"@, RouteKind::Mutation),
            ("set_size"@, RouteKind::Mutation),
            ("destroy"@, RouteKind::Mutation),
        ]),
{
    let mut r: Vec<Route> = Vec::new();
    let p = preview();
    merge(&mut r, "preview.", &p);
    proof {
        assert(routes_view(r@) =~= prefixed("preview."@, routes_view(p@)));
    }
    r
}

/// The whole route table, in mounting order: the sign-in, installer,
/// detection and capture tables, each under its prefix.
pub fn router() -> (r: Vec<Route>)
    ensures
        routes_view(r@) == prefixed("auth."@, seq![
            ("sign_in"@, RouteKind::Mutation),
            ("sign_out"@, RouteKind::Mutation),
            ("is_logged_in"@, RouteKind::Query),
            ("open_auth_window"@, RouteKind::Query),
        ]) + prefixed("bootstrap."@, seq![
            ("initialize"@, RouteKind::Subscription),
            ("show_or_create_main"@, RouteKind::Query),
        ]) + prefixed("game_detect."@, seq![("game_open"@, RouteKind::Subscription)]) + prefixed(
            "obs."@,
            prefixed("preview."@, seq![
                ("create"@, RouteKind::Mutation),
                ("set_pos"@, RouteKind::Mutation),
                ("set_size"@, RouteKind::Mutation),
                ("destroy"@, RouteKind::Mutation),
            ]),
        ),
{
    let mut r: Vec<Route> = Vec::new();
    let a = auth();
    merge(&mut r, "auth.", &a);
    let b = bootstrap();
    merge(&mut r, "bootstrap.", &b);
    let g = game_detect();
    merge(&mut r, "game_detect.", &g);
    let o = obs();
    merge(&mut r, "obs.", &o);
    r
}

} // verus!
