//! A small HTTP/1.1 web framework: requests and responses, header tables,
//! chunked bodies, routes and middleware.
use vstd::prelude::*;

pub mod body;
pub mod bridge;
pub mod framing;
pub mod headers;
pub mod request;
pub mod response;
pub mod router;
pub mod text;

pub use body::ChunkedBody;
pub use headers::Headers;
pub use request::{Chunk, Encoding, Method, Request};
pub use response::{Response, Status};
pub use router::{Ctx, Layer, Next, Path, Router};

use router::{with_route, PathView};
use text::{ends_with, remove_all, remove_matches};

verus! {

/// The size of the buffer in which a chunk of a body travels.
pub const BUF_LEN: usize = 1024;

/// How long, in seconds, an idle kept-alive connection is held open.
pub const KEEP_ALIVE_TIMEOUT: u64 = 10;

/// Why reading or parsing a body failed.
pub enum BodyError {
    /// Trailer fields came in a body that is not chunked.
    InvalidData,
    /// The body is not JSON.
    Json(serde_json::Error),
}

/// A directory of files served under a path.
pub struct Files {
    pub path: &'static str,
    pub src: &'static str,
}

impl Files {
    /// Serves the directory `src` under the path `path`.
    pub fn new(path: &'static str, src: &'static str) -> (res: Files)
        ensures
            res.path == path,
            res.src == src,
    {
        Files { path, src }
    }

    /// The file that a request for `req_path` reads: the directory, then the
    /// request's path with every occurrence of the mount path taken out.
    pub fn file_path(&self, req_path: &str) -> (res: String)
        ensures
            res@ == self.src@ + remove_matches(req_path@, self.path@),
    {
        let filepath = remove_all(req_path, self.path);
        let mut path = String::from_str(self.src);
        path.append(filepath.as_str());
        path
    }

    /// The answer to a request for the file at `file`, whose contents were
    /// read: status 200, the contents as the body, typed `text/html` where
    /// the file's name ends in `.html`.
    pub fn found(file: &str, contents: Vec<u8>) -> (res: Response)
        ensures
            res.status == Status::OK,
            res.buf == contents,
            res.stream is None,
            res.headers@ == if ".html"@.is_suffix_of(file@) {
                seq![("content-type"@, "text/html"@)]
            } else {
                Seq::<(Seq<char>, Seq<char>)>::empty()
            },
    {
        let mut res = Response::with_status(Status::OK);
        if ends_with(file, ".html") {
            res.headers.insert(String::from_str("content-type"), String::from_str("text/html"));
            assert(res.headers@ =~= seq![("content-type"@, "text/html"@)]);
        }
        res.buf = contents;
        res
    }
}

/// An application: routes to handlers of type `R`, middleware of type `M`,
/// and a configuration of type `Routes`.
pub struct App<Routes, R, M> {
    router: Router<Routes, R, M>,
}

impl<R, M> App<(), R, M> {
    /// An application with no route, no middleware, and no configuration,
    /// which hands requests that no route takes to `not_found`.
    pub fn new(not_found: R) -> (res: App<(), R, M>)
        ensures
            res.spec_routes() == Seq::<(PathView, R)>::empty(),
            res.spec_layers() == Seq::<(PathView, Layer<M>)>::empty(),
            res.spec_not_found() == not_found,
    {
        Self::with_routes((), not_found)
    }

    /// Routes GET requests for `path` to `handler`.
    pub fn get(&mut self, path: &'static str, handler: R) -> (res: &Self)
        ensures
            final(self).spec_routes() == with_route(
                old(self).spec_routes(),
                (Some(Method::Get), path@),
                handler,
            ),
            final(self).spec_layers() == old(self).spec_layers(),
            final(self).spec_not_found() == old(self).spec_not_found(),
            *res == *final(self),
    {
        self.add_route(Path::new(Method::Get, String::from_str(path)), handler);
        self
    }

    /// Routes POST requests for `path` to `handler`.
    pub fn post(&mut self, path: &'static str, handler: R) -> (res: &Self)
        ensures
            final(self).spec_routes() == with_route(
                old(self).spec_routes(),
                (Some(Method::Post), path@),
                handler,
            ),
            final(self).spec_layers() == old(self).spec_layers(),
            final(self).spec_not_found() == old(self).spec_not_found(),
            *res == *final(self),
    {
        self.add_route(Path::new(Method::Post, String::from_str(path)), handler);
        self
    }

    /// Routes PUT requests for `path` to `handler`.
    pub fn put(&mut self, path: &'static str, handler: R) -> (res: &Self)
        ensures
            final(self).spec_routes() == with_route(
                old(self).spec_routes(),
                (Some(Method::Put), path@),
                handler,
            ),
            final(self).spec_layers() == old(self).spec_layers(),
            final(self).spec_not_found() == old(self).spec_not_found(),
            *res == *final(self),
    {
        self.add_route(Path::new(Method::Put, String::from_str(path)), handler);
        self
    }

    /// Routes DELETE requests for `path` to `handler`.
    pub fn delete(&mut self, path: &'static str, handler: R) -> (res: &Self)
        ensures
            final(self).spec_routes() == with_route(
                old(self).spec_routes(),
                (Some(Method::Delete), path@),
                handler,
            ),
            final(self).spec_layers() == old(self).spec_layers(),
            final(self).spec_not_found() == old(self).spec_not_found(),
            *res == *final(self),
    {
        self.add_route(Path::new(Method::Delete, String::from_str(path)), handler);
        self
    }

    /// Mounts `middleware` at `path` for every method.
    pub fn middleware(&mut self, path: &'static str, middleware: M) -> (res: &Self)
        ensures
            final(self).spec_layers() == old(self).spec_layers().push(
                ((None::<Method>, path@), Layer::Handler(middleware)),
            ),
            final(self).spec_routes() == old(self).spec_routes(),
            final(self).spec_not_found() == old(self).spec_not_found(),
            *res == *final(self),
    {
        self.add_middleware(Path::all(String::from_str(path)), Layer::Handler(middleware));
        self
    }

    /// Mounts `middleware` at `path` for GET requests.
    pub fn get_middleware(&mut self, path: &'static str, middleware: M) -> (res: &Self)
        ensures
            final(self).spec_layers() == old(self).spec_layers().push(
                ((Some(Method::Get), path@), Layer::Handler(middleware)),
            ),
            final(self).spec_routes() == old(self).spec_routes(),
            final(self).spec_not_found() == old(self).spec_not_found(),
            *res == *final(self),
    {
        self.add_middleware(Path::new(Method::Get, String::from_str(path)), Layer::Handler(middleware));
        self
    }

    /// Mounts `middleware` at `path` for POST requests.
    pub fn post_middleware(&mut self, path: &'static str, middleware: M) -> (res: &Self)
        ensures
            final(self).spec_layers() == old(self).spec_layers().push(
                ((Some(Method::Post), path@), Layer::Handler(middleware)),
            ),
            final(self).spec_routes() == old(self).spec_routes(),
            final(self).spec_not_found() == old(self).spec_not_found(),
            *res == *final(self),
    {
        self.add_middleware(Path::new(Method::Post, String::from_str(path)), Layer::Handler(middleware));
        self
    }

    /// Mounts `middleware` at `path` for PUT requests.
    pub fn put_middleware(&mut self, path: &'static str, middleware: M) -> (res: &Self)
        ensures
            final(self).spec_layers() == old(self).spec_layers().push(
                ((Some(Method::Put), path@), Layer::Handler(middleware)),
            ),
            final(self).spec_routes() == old(self).spec_routes(),
            final(self).spec_not_found() == old(self).spec_not_found(),
            *res == *final(self),
    {
        self.add_middleware(Path::new(Method::Put, String::from_str(path)), Layer::Handler(middleware));
        self
    }

    /// Mounts `middleware` at `path` for DELETE requests.
    pub fn delete_middleware(&mut self, path: &'static str, middleware: M) -> (res: &Self)
        ensures
            final(self).spec_layers() == old(self).spec_layers().push(
                ((Some(Method::Delete), path@), Layer::Handler(middleware)),
            ),
            final(self).spec_routes() == old(self).spec_routes(),
            final(self).spec_not_found() == old(self).spec_not_found(),
            *res == *final(self),
    {
        self.add_middleware(Path::new(Method::Delete, String::from_str(path)), Layer::Handler(middleware));
        self
    }

    /// Serves the directory `src` to GET requests under `path`.
    pub fn files(&mut self, path: &'static str, src: &'static str) -> (res: &Self)
        ensures
            final(self).spec_layers() == old(self).spec_layers().push(
                ((Some(Method::Get), path@), Layer::Files(Files { path, src })),
            ),
            final(self).spec_routes() == old(self).spec_routes(),
            final(self).spec_not_found() == old(self).spec_not_found(),
            *res == *final(self),
    {
        self.add_middleware(
            Path::new(Method::Get, String::from_str(path)),
            Layer::Files(Files::new(path, src)),
        );
        self
    }

    fn add_route(&mut self, route: Path, handler: R)
        ensures
            final(self).spec_routes() == with_route(old(self).spec_routes(), route@, handler),
            final(self).spec_layers() == old(self).spec_layers(),
            final(self).spec_not_found() == old(self).spec_not_found(),
    {
        self.router.insert_route(route, handler);
    }

    fn add_middleware(&mut self, route: Path, middleware: Layer<M>)
        ensures
            final(self).spec_layers() == old(self).spec_layers().push((route@, middleware)),
            final(self).spec_routes() == old(self).spec_routes(),
            final(self).spec_not_found() == old(self).spec_not_found(),
    {
        self.router.push_middleware(route, middleware);
    }
}

impl<Routes, R, M> App<Routes, R, M> {
    /// The routes and their handlers.
    pub closed spec fn spec_routes(&self) -> Seq<(PathView, R)> {
        self.router.spec_routes()
    }

    /// The middleware mount points, in the order they were added.
    pub closed spec fn spec_layers(&self) -> Seq<(PathView, Layer<M>)> {
        self.router.spec_layers()
    }

    /// The configuration.
    pub closed spec fn spec_config(&self) -> Routes {
        self.router.spec_config()
    }

    /// The handler of requests that no route takes.
    pub closed spec fn spec_not_found(&self) -> R {
        self.router.spec_not_found()
    }

    /// An application with no route and no middleware, configured by
    /// `routes`, which hands requests that no route takes to `not_found`.
    pub fn with_routes(routes: Routes, not_found: R) -> (res: App<Routes, R, M>)
        ensures
            res.spec_routes() == Seq::<(PathView, R)>::empty(),
            res.spec_layers() == Seq::<(PathView, Layer<M>)>::empty(),
            res.spec_config() == routes,
            res.spec_not_found() == not_found,
    {
        App { router: Router::new(routes, not_found) }
    }

    /// The router, to serve requests with.
    pub fn into_router(self) -> (res: Router<Routes, R, M>)
        ensures
            res.spec_routes() == self.spec_routes(),
            res.spec_layers() == self.spec_layers(),
            res.spec_config() == self.spec_config(),
            res.spec_not_found() == self.spec_not_found(),
    {
        self.router
    }
}

} // verus!
