//! Routes and middleware: which handler a request reaches, and which
//! middleware layers it passes through on the way.
use vstd::prelude::*;
use crate::request::{Method, Request, RequestView};
use crate::Files;
use crate::text::{str_eq, starts_with};

verus! {

/// A route or a middleware mount point: a path and the method it is for
/// (`None` for every method).
#[derive(Hash, Eq, PartialEq, Debug)]
pub struct Path {
    method: Option<Method>,
    pub(crate) path: String,
}

/// What a `Path` is: its method, if any, and the characters of its path.
pub type PathView = (Option<Method>, Seq<char>);

impl View for Path {
    type V = PathView;

    closed spec fn view(&self) -> PathView {
        (self.method, self.path@)
    }
}

/// Whether a middleware mounted at `middleware` applies to a request whose
/// route is `req`: the methods must not differ where both are given, and the
/// middleware's path must be `*` or a prefix of the request's path.
pub open spec fn path_covers(req: PathView, middleware: PathView) -> bool {
    &&& !(req.0 is Some && middleware.0 is Some && req.0 != middleware.0)
    &&& (middleware.1 == "*"@ || middleware.1.is_prefix_of(req.1))
}

/// Law: a middleware mounted at "*" covers every request its method allows,
/// and one mounted at a path covers every request under that path its
/// method allows.
pub proof fn lemma_mount_covers(req: PathView, method: Option<Method>, mount: Seq<char>)
    requires
        method is None || method == req.0,
        mount == "*"@ || mount.is_prefix_of(req.1),
    ensures
        path_covers(req, (method, mount)),
{
}

/// Law: a middleware mounted for another method than the request's does not
/// cover it, and neither does one mounted at a path that is not `*` and not
/// a prefix of the request's path.
pub proof fn lemma_mount_misses(req: PathView, method: Option<Method>, mount: Seq<char>)
    requires
        (req.0 is Some && method is Some && req.0 != method) || (mount != "*"@
            && !mount.is_prefix_of(req.1)),
    ensures
        !path_covers(req, (method, mount)),
{
}

impl Path {
    /// The path `path` for the method `method`.
    pub fn new(method: Method, path: String) -> (res: Path)
        ensures
            res@ == (Some(method), path@),
    {
        Path { method: Some(method), path }
    }

    /// The path.
    pub fn path(&self) -> (res: &String)
        ensures
            res@ == self@.1,
    {
        &self.path
    }

    /// The method, if the path is for one method only.
    pub fn method(&self) -> (res: &Option<Method>)
        ensures
            *res == self@.0,
    {
        &self.method
    }

    /// The path `path` for every method.
    pub fn all(path: String) -> (res: Path)
        ensures
            res@ == (None::<Method>, path@),
    {
        Path { method: None, path }
    }

    /// Whether the middleware mounted at `middleware` applies to this route.
    pub fn contains(&self, middleware: &Path) -> (res: bool)
        ensures
            res == path_covers(self@, middleware@),
    {
        if let (Some(req), Some(mw)) = (&self.method, &middleware.method) {
            if *req != *mw {
                return false;
            }
        }
        str_eq(middleware.path.as_str(), "*") || starts_with(self.path.as_str(), middleware.path.as_str())
    }

    /// Whether two paths are the same route: same method, same path.
    pub fn same(&self, other: &Path) -> (res: bool)
        ensures
            res == (self@ == other@),
    {
        let methods_equal = match (&self.method, &other.method) {
            (Some(a), Some(b)) => *a == *b,
            (None, None) => true,
            _ => false,
        };
        methods_equal && str_eq(self.path.as_str(), other.path.as_str())
    }
}

// ------------------------------------------------------------------
// The route table
// ------------------------------------------------------------------

/// Whether some route of `rs` is `p`.
pub open spec fn has_route<R>(rs: Seq<(PathView, R)>, p: PathView) -> bool {
    exists|i: int| 0 <= i < rs.len() && (#[trigger] rs[i]).0 == p
}

/// Whether `i` is where `p` is first routed in `rs`.
pub open spec fn is_first_route<R>(rs: Seq<(PathView, R)>, p: PathView, i: int) -> bool {
    &&& 0 <= i < rs.len()
    &&& rs[i].0 == p
    &&& forall|j: int| 0 <= j < i ==> (#[trigger] rs[j]).0 != p
}

/// Where `p` is first routed in `rs` (meaningful when `has_route(rs, p)`).
pub open spec fn route_index<R>(rs: Seq<(PathView, R)>, p: PathView) -> int {
    choose|i: int| is_first_route(rs, p, i)
}

/// The handler that `rs` gives to `p`, if any: that of its first entry.
pub open spec fn find_route<R>(rs: Seq<(PathView, R)>, p: PathView) -> Option<R> {
    if has_route(rs, p) {
        Some(rs[route_index(rs, p)].1)
    } else {
        None
    }
}

/// The routes after `p` is given the handler `h`: replaced in place where
/// `p` is already routed, else added at the end.
pub open spec fn with_route<R>(rs: Seq<(PathView, R)>, p: PathView, h: R) -> Seq<(PathView, R)> {
    if has_route(rs, p) {
        rs.update(route_index(rs, p), (p, h))
    } else {
        rs.push((p, h))
    }
}

/// No route occurs twice.
pub open spec fn distinct_routes<R>(rs: Seq<(PathView, R)>) -> bool {
    forall|i: int, j: int| 0 <= i < j < rs.len() ==> (#[trigger] rs[i]).0 != (#[trigger] rs[j]).0
}

/// The view of a table of paths and what they lead to.
pub open spec fn table_view<T>(v: Seq<(Path, T)>) -> Seq<(PathView, T)> {
    Seq::new(v.len(), |i: int| (v[i].0@, v[i].1))
}

proof fn lemma_first_route_from<R>(rs: Seq<(PathView, R)>, p: PathView, w: int)
    requires
        0 <= w < rs.len(),
        rs[w].0 == p,
    ensures
        exists|i: int| is_first_route(rs, p, i),
    decreases w,
{
    if exists|j: int| 0 <= j < w && (#[trigger] rs[j]).0 == p {
        let j = choose|j: int| 0 <= j < w && (#[trigger] rs[j]).0 == p;
        lemma_first_route_from(rs, p, j);
    } else {
        assert(is_first_route(rs, p, w));
    }
}

/// A routed path is first routed at exactly one place, `route_index`.
pub proof fn lemma_route_index<R>(rs: Seq<(PathView, R)>, p: PathView)
    requires
        has_route(rs, p),
    ensures
        is_first_route(rs, p, route_index(rs, p)),
        forall|i: int| #[trigger] is_first_route(rs, p, i) ==> i == route_index(rs, p),
{
    let w = choose|i: int| 0 <= i < rs.len() && (#[trigger] rs[i]).0 == p;
    lemma_first_route_from(rs, p, w);
    let k = route_index(rs, p);
    assert forall|i: int| #[trigger] is_first_route(rs, p, i) implies i == k by {
        if i < k {
            assert(rs[i].0 != p);
        } else if k < i {
            assert(rs[k].0 != p);
        }
    }
}

/// Law: a table gives a handler for a path exactly when some entry routes
/// that path, and the handler it gives is that of an entry for the path, the
/// first one.
pub proof fn lemma_find_route_entry<R>(rs: Seq<(PathView, R)>, p: PathView)
    ensures
        find_route(rs, p) is None <==> forall|i: int| 0 <= i < rs.len() ==> (#[trigger] rs[i]).0 != p,
        find_route(rs, p) matches Some(h) ==> exists|i: int|
            0 <= i < rs.len() && #[trigger] rs[i] == (p, h) && forall|j: int|
                0 <= j < i ==> (#[trigger] rs[j]).0 != p,
{
    if has_route(rs, p) {
        lemma_route_index(rs, p);
        let k = route_index(rs, p);
        assert(rs[k] == (p, rs[k].1));
    }
}

/// Law: routing a path in a table that holds no route twice leaves a table
/// that holds no route twice.
pub proof fn lemma_with_route_distinct<R>(rs: Seq<(PathView, R)>, p: PathView, h: R)
    requires
        distinct_routes(rs),
    ensures
        distinct_routes(with_route(rs, p, h)),
{
    let n = with_route(rs, p, h);
    if has_route(rs, p) {
        lemma_route_index(rs, p);
    }
    assert forall|a: int, b: int| 0 <= a < b < n.len() implies (#[trigger] n[a]).0 != (#[trigger] n[b]).0 by {
        if !has_route(rs, p) && b == rs.len() {
            assert(rs[a].0 != p);
        } else {
            assert(rs[a].0 != rs[b].0);
        }
    }
}

/// Law: once a path is routed to a handler, the table gives that handler for
/// the path and the handler it gave before for every other path (the last
/// registration of a route wins).
pub proof fn lemma_find_route_with_route<R>(rs: Seq<(PathView, R)>, p: PathView, h: R, q: PathView)
    ensures
        find_route(with_route(rs, p, h), p) == Some(h),
        q != p ==> find_route(with_route(rs, p, h), q) == find_route(rs, q),
{
    let n = with_route(rs, p, h);
    if has_route(rs, p) {
        lemma_route_index(rs, p);
    }
    let k = if has_route(rs, p) {
        route_index(rs, p)
    } else {
        rs.len() as int
    };
    assert(forall|j: int| 0 <= j < n.len() && j != k ==> #[trigger] n[j] == rs[j]);
    assert(n[k] == (p, h));
    assert(is_first_route(n, p, k));
    lemma_route_index(n, p);
    if q != p {
        if has_route(rs, q) {
            lemma_route_index(rs, q);
            let j = route_index(rs, q);
            assert(is_first_route(n, q, j)) by {
                assert forall|l: int| 0 <= l < j implies (#[trigger] n[l]).0 != q by {
                    if l != k {
                        assert(n[l] == rs[l]);
                    }
                }
            }
            lemma_route_index(n, q);
        } else {
            assert(!has_route(n, q)) by {
                if has_route(n, q) {
                    let i = choose|i: int| 0 <= i < n.len() && (#[trigger] n[i]).0 == q;
                    if i != k {
                        assert(n[i] == rs[i]);
                    }
                }
            }
        }
    }
}

/// What a middleware mount point holds: a middleware of the application, or
/// a directory of files served as they are.
pub enum Layer<M> {
    Handler(M),
    Files(Files),
}

/// The routes, middleware and configuration of an application, and the
/// handler of requests that no route takes.
pub struct Router<Routes, R, M> {
    pub(crate) routes: Vec<(Path, R)>,
    pub(crate) middleware: Vec<(Path, Layer<M>)>,
    pub(crate) not_found: R,
    pub(crate) config: Routes,
}

impl<Routes, R, M> Router<Routes, R, M> {
    #[verifier::type_invariant]
    closed spec fn inv(self) -> bool {
        distinct_routes(table_view(self.routes@))
    }

    /// The routes and their handlers, no route twice.
    pub closed spec fn spec_routes(&self) -> Seq<(PathView, R)> {
        table_view(self.routes@)
    }

    /// The middleware mount points, in the order they were added.
    pub closed spec fn spec_layers(&self) -> Seq<(PathView, Layer<M>)> {
        table_view(self.middleware@)
    }

    /// The configuration.
    pub closed spec fn spec_config(&self) -> Routes {
        self.config
    }

    /// The handler of requests that no route takes.
    pub closed spec fn spec_not_found(&self) -> R {
        self.not_found
    }

    /// A router with no route and no middleware, which hands requests that
    /// no route takes to `not_found`.
    pub fn new(config: Routes, not_found: R) -> (res: Router<Routes, R, M>)
        ensures
            res.spec_routes() == Seq::<(PathView, R)>::empty(),
            res.spec_layers() == Seq::<(PathView, Layer<M>)>::empty(),
            res.spec_config() == config,
            res.spec_not_found() == not_found,
    {
        let res = Router { routes: Vec::new(), middleware: Vec::new(), not_found, config };
        assert(res.spec_routes() =~= Seq::<(PathView, R)>::empty());
        assert(res.spec_layers() =~= Seq::<(PathView, Layer<M>)>::empty());
        res
    }

    /// Where `route` stands in the table, if it is there.
    fn position(&self, route: &Path) -> (res: Option<usize>)
        ensures
            res matches Some(i) ==> has_route(self.spec_routes(), route@) && i == route_index(
                self.spec_routes(),
                route@,
            ) && i < self.spec_routes().len(),
            res is None ==> !has_route(self.spec_routes(), route@),
    {
        let ghost rs = self.spec_routes();
        let mut i: usize = 0;
        while i < self.routes.len()
            invariant
                i <= self.routes@.len(),
                rs == table_view(self.routes@),
                forall|j: int| 0 <= j < i ==> (#[trigger] rs[j]).0 != route@,
            decreases self.routes@.len() - i,
        {
            if self.routes[i].0.same(route) {
                proof {
                    assert(is_first_route(rs, route@, i as int));
                    lemma_route_index(rs, route@);
                }
                return Some(i);
            }
            i = i + 1;
        }
        None
    }

    /// Routes `route` to `handler`, replacing the handler it had
    /// (std's `HashMap::insert`).
    pub fn insert_route(&mut self, route: Path, handler: R)
        ensures
            final(self).spec_routes() == with_route(old(self).spec_routes(), route@, handler),
            final(self).spec_layers() == old(self).spec_layers(),
            final(self).spec_config() == old(self).spec_config(),
            final(self).spec_not_found() == old(self).spec_not_found(),
    {
        proof {
            use_type_invariant(&*self);
        }
        let pos = self.position(&route);
        let ghost before = self.spec_routes();
        let ghost p = route@;
        let mut routes: Vec<(Path, R)> = Vec::new();
        std::mem::swap(&mut self.routes, &mut routes);
        assert(table_view(routes@) == before);
        match pos {
            Some(i) => {
                proof {
                    lemma_route_index(before, p);
                }
                let mut entry = (route, handler);
                routes.set_and_swap(i, &mut entry);
                assert(table_view(routes@) =~= before.update(i as int, (p, handler)));
                proof {
                    lemma_with_route_distinct(before, p, handler);
                }
                self.routes = routes;
            },
            None => {
                routes.push((route, handler));
                assert(table_view(routes@) =~= before.push((p, handler)));
                proof {
                    lemma_with_route_distinct(before, p, handler);
                }
                self.routes = routes;
            },
        }
    }

    /// Adds a middleware mount point after the ones already there.
    pub fn push_middleware(&mut self, route: Path, layer: Layer<M>)
        ensures
            final(self).spec_layers() == old(self).spec_layers().push((route@, layer)),
            final(self).spec_routes() == old(self).spec_routes(),
            final(self).spec_config() == old(self).spec_config(),
            final(self).spec_not_found() == old(self).spec_not_found(),
    {
        proof {
            use_type_invariant(&*self);
        }
        let ghost p = route@;
        let mut middleware: Vec<(Path, Layer<M>)> = Vec::new();
        std::mem::swap(&mut self.middleware, &mut middleware);
        middleware.push((route, layer));
        self.middleware = middleware;
        assert(self.spec_layers() =~= old(self).spec_layers().push((p, layer)));
    }

    /// The handler of `route`, if it has one.
    pub fn route_for(&self, route: &Path) -> (res: Option<&R>)
        ensures
            match res {
                Some(h) => find_route(self.spec_routes(), route@) == Some(*h),
                None => find_route(self.spec_routes(), route@) is None,
            },
    {
        match self.position(route) {
            Some(i) => Some(&self.routes[i].1),
            None => None,
        }
    }

    /// The middleware mount points, in order.
    pub fn middleware(&self) -> (res: &[(Path, Layer<M>)])
        ensures
            table_view(res@) == self.spec_layers(),
    {
        self.middleware.as_slice()
    }

    /// The way a request goes: through every mount point, to the handler of
    /// its route, or to the not-found handler where its route has none.
    pub fn dispatch<'a>(&'a self, req: Request) -> (res: Ctx<'a, R, M>)
        ensures
            res.spec_req() == req,
            res.spec_layers() == self.spec_layers(),
            *res.spec_route() == match find_route(self.spec_routes(), req@.route_view()) {
                Some(h) => h,
                None => self.spec_not_found(),
            },
    {
        let route = req.route();
        let handler = match self.route_for(&route) {
            Some(h) => h,
            None => &self.not_found,
        };
        Ctx::new(req, handler, self.middleware())
    }
}

// ------------------------------------------------------------------
// Passing a request through the middleware
// ------------------------------------------------------------------

/// Whether `i` is the first mount point of `layers` that covers `route`.
pub open spec fn is_next_layer<M>(route: PathView, layers: Seq<(PathView, Layer<M>)>, i: int) -> bool {
    &&& 0 <= i < layers.len()
    &&& path_covers(route, layers[i].0)
    &&& forall|j: int| 0 <= j < i ==> !path_covers(route, #[trigger] layers[j].0)
}

/// Whether no mount point of `layers` covers `route`.
pub open spec fn no_layer<M>(route: PathView, layers: Seq<(PathView, Layer<M>)>) -> bool {
    forall|j: int| 0 <= j < layers.len() ==> !path_covers(route, #[trigger] layers[j].0)
}

/// Whether a request on `route` passes `layer` next when `from` lies ahead,
/// so that `to` lies ahead afterwards: `layer` is the first mount point of
/// `from` that covers the route.
pub open spec fn steps_to<M>(
    route: PathView,
    from: Seq<(PathView, Layer<M>)>,
    layer: Layer<M>,
    to: Seq<(PathView, Layer<M>)>,
) -> bool {
    exists|i: int|
        #![trigger is_next_layer(route, from, i)]
        {
            &&& is_next_layer(route, from, i)
            &&& layer == from[i].1
            &&& to == from.skip(i + 1)
        }
}

/// The mount points of `layers` that cover `route`, in mount order.
pub open spec fn covering<M>(route: PathView, layers: Seq<(PathView, Layer<M>)>) -> Seq<Layer<M>>
    decreases layers.len(),
{
    if layers.len() == 0 {
        Seq::<Layer<M>>::empty()
    } else {
        let rest = covering(route, layers.drop_first());
        if path_covers(route, layers[0].0) {
            seq![layers[0].1] + rest
        } else {
            rest
        }
    }
}

/// Law: a mount point added after the others is passed last, where it
/// covers the route, and not at all where it does not; no mount point is
/// passed where none is mounted.
pub proof fn lemma_covering_push<M>(route: PathView, layers: Seq<(PathView, Layer<M>)>, l: (PathView, Layer<M>))
    ensures
        covering(route, Seq::<(PathView, Layer<M>)>::empty()) == Seq::<Layer<M>>::empty(),
        covering(route, layers.push(l)) == if path_covers(route, l.0) {
            covering(route, layers).push(l.1)
        } else {
            covering(route, layers)
        },
    decreases layers.len(),
{
    if layers.len() == 0 {
        let one = layers.push(l);
        assert(one.drop_first() =~= Seq::<(PathView, Layer<M>)>::empty());
        assert(one[0] == l);
        assert(seq![l.1] + Seq::<Layer<M>>::empty() =~= Seq::<Layer<M>>::empty().push(l.1));
    } else {
        let rest = layers.drop_first();
        lemma_covering_push(route, rest, l);
        assert(layers.push(l).drop_first() =~= rest.push(l));
        assert(layers.push(l)[0] == layers[0]);
        if path_covers(route, layers[0].0) {
            if path_covers(route, l.0) {
                assert(seq![layers[0].1] + covering(route, rest).push(l.1) =~= (seq![layers[0].1]
                    + covering(route, rest)).push(l.1));
            }
        }
    }
}

proof fn lemma_covering_none<M>(route: PathView, layers: Seq<(PathView, Layer<M>)>)
    requires
        no_layer(route, layers),
    ensures
        covering(route, layers) == Seq::<Layer<M>>::empty(),
    decreases layers.len(),
{
    if layers.len() > 0 {
        assert(!path_covers(route, layers[0].0));
        let rest = layers.drop_first();
        assert forall|j: int| 0 <= j < rest.len() implies !path_covers(route, #[trigger] rest[j].0) by {
            assert(rest[j] == layers[j + 1]);
        }
        lemma_covering_none(route, rest);
    }
}

proof fn lemma_covering_step<M>(route: PathView, layers: Seq<(PathView, Layer<M>)>, i: int)
    requires
        is_next_layer(route, layers, i),
    ensures
        covering(route, layers) == seq![layers[i].1] + covering(route, layers.skip(i + 1)),
    decreases i,
{
    if i == 0 {
        assert(layers.drop_first() =~= layers.skip(1));
    } else {
        let rest = layers.drop_first();
        assert(!path_covers(route, layers[0].0));
        assert(is_next_layer(route, rest, i - 1)) by {
            assert forall|j: int| 0 <= j < i - 1 implies !path_covers(route, #[trigger] rest[j].0) by {
                assert(rest[j] == layers[j + 1]);
            }
            assert(rest[i - 1] == layers[i]);
        }
        lemma_covering_step(route, rest, i - 1);
        assert(rest.skip(i) =~= layers.skip(i + 1));
    }
}

/// Law: the middleware a request passes on its way to its handler, one
/// `next` after another (`visited[k]` passed when `ways[k]` lay ahead, leaving
/// `ways[k + 1]`, until none of `ways.last()` covers it), are exactly the
/// mount points that cover its route, each once, in mount order.
pub proof fn lemma_layers_in_order<M>(
    route: PathView,
    ways: Seq<Seq<(PathView, Layer<M>)>>,
    visited: Seq<Layer<M>>,
)
    requires
        ways.len() == visited.len() + 1,
        forall|k: int|
            0 <= k < visited.len() ==> steps_to(route, #[trigger] ways[k], visited[k], ways[k + 1]),
        no_layer(route, ways.last()),
    ensures
        visited == covering(route, ways[0]),
    decreases visited.len(),
{
    if visited.len() == 0 {
        lemma_covering_none(route, ways[0]);
    } else {
        assert(steps_to(route, ways[0], visited[0], ways[1]));
        let i = choose|i: int|
            #![trigger is_next_layer(route, ways[0], i)]
            {
                &&& is_next_layer(route, ways[0], i)
                &&& visited[0] == ways[0][i].1
                &&& ways[1] == ways[0].skip(i + 1)
            };
        lemma_covering_step(route, ways[0], i);
        let rw = ways.drop_first();
        let rv = visited.drop_first();
        assert forall|k: int| 0 <= k < rv.len() implies steps_to(route, #[trigger] rw[k], rv[k], rw[k + 1]) by {
            assert(steps_to(route, ways[k + 1], visited[k + 1], ways[k + 2]));
            assert(rw[k] == ways[k + 1]);
        }
        lemma_layers_in_order(route, rw, rv);
        assert(visited =~= seq![visited[0]] + rv);
    }
}

/// A request on its way to its handler, with the middleware it has not
/// passed yet.
pub struct Ctx<'a, R, M> {
    pub(crate) req: Request,
    pub(crate) route: &'a R,
    pub(crate) next_middleware: &'a [(Path, Layer<M>)],
}

/// Where a request goes next: into a middleware layer, with what is left of
/// its way, or to its handler.
pub enum Next<'a, R, M> {
    Layer(&'a Layer<M>, Ctx<'a, R, M>),
    Route(&'a R, Request),
}

impl<'a, R, M> Ctx<'a, R, M> {
    /// The request.
    pub closed spec fn spec_req(&self) -> Request {
        self.req
    }

    /// The handler the request ends at.
    pub closed spec fn spec_route(&self) -> &'a R {
        self.route
    }

    /// The mount points still ahead, in order.
    pub closed spec fn spec_layers(&self) -> Seq<(PathView, Layer<M>)> {
        table_view(self.next_middleware@)
    }

    /// A request about to pass `middleware` on its way to `route`.
    pub fn new(req: Request, route: &'a R, middleware: &'a [(Path, Layer<M>)]) -> (res: Ctx<'a, R, M>)
        ensures
            res.spec_req() == req,
            res.spec_route() == route,
            res.spec_layers() == table_view(middleware@),
    {
        Ctx { req, route, next_middleware: middleware }
    }

    /// Where the request goes next: the first mount point ahead that covers
    /// its route, or, where none does, its handler.
    pub fn next(self) -> (res: Next<'a, R, M>)
        ensures
            match res {
                Next::Layer(layer, ctx) => {
                    &&& steps_to(self.spec_req()@.route_view(), self.spec_layers(), *layer, ctx.spec_layers())
                    &&& ctx.spec_req() == self.spec_req()
                    &&& ctx.spec_route() == self.spec_route()
                },
                Next::Route(route, req) => {
                    &&& no_layer(self.spec_req()@.route_view(), self.spec_layers())
                    &&& route == self.spec_route()
                    &&& req == self.spec_req()
                },
            },
    {
        let ghost layers = self.spec_layers();
        let current = self.req.route();
        let mut i: usize = 0;
        while i < self.next_middleware.len()
            invariant
                i <= self.next_middleware@.len(),
                layers == table_view(self.next_middleware@),
                current@ == self.req@.route_view(),
                forall|j: int| 0 <= j < i ==> !path_covers(current@, #[trigger] layers[j].0),
            decreases self.next_middleware@.len() - i,
        {
            if current.contains(&self.next_middleware[i].0) {
                let layer = &self.next_middleware[i].1;
                let rest = vstd::slice::slice_subrange(self.next_middleware, i + 1, self.next_middleware.len());
                assert(table_view(rest@) =~= layers.skip(i + 1));
                assert(is_next_layer(self.spec_req()@.route_view(), self.spec_layers(), i as int));
                return Next::Layer(layer, Ctx { req: self.req, route: self.route, next_middleware: rest });
            }
            i = i + 1;
        }
        Next::Route(self.route, self.req)
    }

    /// The request.
    pub fn req(&self) -> (res: &Request)
        ensures
            *res == self.spec_req(),
    {
        &self.req
    }

    /// The request, to change it.
    pub fn req_mut(&mut self) -> (res: &mut Request)
        ensures
            *res == old(self).spec_req(),
            final(self).spec_req() == *final(res),
            final(self).spec_route() == old(self).spec_route(),
            final(self).spec_layers() == old(self).spec_layers(),
    {
        &mut self.req
    }
}

} // verus!
