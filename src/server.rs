use vstd::prelude::*;
use vstd::utf8::encode_utf8;
use crate::request::{ParseError, Request};
use crate::response::{plain_text, Response, Status};
use crate::router::{RouteKey, Router};

verus! {

broadcast use vstd::utf8::is_ascii_chars_encode_utf8;

/// Number of workers that an application starts with.
pub const DEFAULT_POOL_SIZE: usize = 4;

/// Routes registered at startup, and the size of the worker pool that will
/// serve them.
pub struct App<H> {
    router: Router<H>,
    thread_pool_size: usize,
}

impl<H> App<H> {
    pub closed spec fn routes(&self) -> Map<RouteKey, H> {
        self.router@
    }

    pub closed spec fn workers(&self) -> usize {
        self.thread_pool_size
    }

    /// An application with no routes and the default pool size.
    pub fn new() -> (r: App<H>)
        ensures
            r.routes() == Map::<RouteKey, H>::empty(),
            r.workers() == DEFAULT_POOL_SIZE,
    {
        App { router: Router::new(), thread_pool_size: DEFAULT_POOL_SIZE }
    }

    /// Serves `GET` on `path` with `handler`, replacing an earlier handler.
    pub fn get(&mut self, path: &str, handler: H)
        ensures
            final(self).routes() == old(self).routes().insert(("GET"@, path@), handler),
            final(self).workers() == old(self).workers(),
    {
        self.router.add_get(path, handler);
    }

    /// Serves `POST` on `path` with `handler`, replacing an earlier handler.
    pub fn post(&mut self, path: &str, handler: H)
        ensures
            final(self).routes() == old(self).routes().insert(("POST"@, path@), handler),
            final(self).workers() == old(self).workers(),
    {
        self.router.add_post(path, handler);
    }

    /// The same application with `n` workers.
    pub fn with_pool_size(self, n: usize) -> (r: App<H>)
        requires
            n >= 1,
        ensures
            r.routes() == self.routes(),
            r.workers() == n,
    {
        App { router: self.router, thread_pool_size: n }
    }

    /// The route table.
    pub fn router(&self) -> (r: &Router<H>)
        ensures
            r@ == self.routes(),
    {
        &self.router
    }

    /// The route table, handed over to serve; no route can be added after.
    pub fn into_router(self) -> (r: Router<H>)
        ensures
            r@ == self.routes(),
    {
        self.router
    }

    /// The number of workers.
    pub fn pool_size(&self) -> (r: usize)
        ensures
            r == self.workers(),
    {
        self.thread_pool_size
    }
}

/// What a worker does next with a connection.
pub enum Step<H> {
    /// Send this response.
    Reply(Response),
    /// Call this handler on this request and send what it returns.
    Invoke(H, Request),
}

/// The reply to a request that could not be read.
pub fn bad_request() -> (r: Response)
    ensures
        r.wf(),
        r@ == plain_text("400 Bad Request"@, Status::BadRequest),
        r@.body.len() > 0,
{
    proof {
        reveal_strlit("400 Bad Request");
    }
    Response::text("400 Bad Request").status(Status::BadRequest)
}

/// The reply to a request that no route matches.
pub fn not_found() -> (r: Response)
    ensures
        r.wf(),
        r@ == plain_text("404 Not Found"@, Status::NotFound),
        r@.body.len() > 0,
{
    proof {
        reveal_strlit("404 Not Found");
    }
    Response::text("404 Not Found").status(Status::NotFound)
}

/// The reply when a handler failed.
pub fn internal_error() -> (r: Response)
    ensures
        r.wf(),
        r@ == plain_text("500 Internal Server Error"@, Status::InternalServerError),
        r@.body.len() > 0,
{
    proof {
        reveal_strlit("500 Internal Server Error");
    }
    Response::text("500 Internal Server Error").status(Status::InternalServerError)
}

/// Decides what becomes of a connection once its request has been read:
/// a request that could not be read gets a `400` reply, one that no route
/// matches a `404` reply with a non-empty body, and any other goes to the
/// handler registered for exactly its method and path.
pub fn dispatch<H: Copy>(router: &Router<H>, parsed: Result<Request, ParseError>) -> (r: Step<H>)
    ensures
        match parsed {
            Err(_) => r matches Step::Reply(resp) && resp.wf() && resp@ == plain_text(
                "400 Bad Request"@,
                Status::BadRequest,
            ) && resp@.body.len() > 0,
            Ok(req) => if router@.contains_key((req.method@, req.path@)) {
                r matches Step::Invoke(h, q) && h == router@[(req.method@, req.path@)] && q == req
            } else {
                r matches Step::Reply(resp) && resp.wf() && resp@ == plain_text(
                    "404 Not Found"@,
                    Status::NotFound,
                ) && resp@.body.len() > 0
            },
        },
{
    match parsed {
        Err(_) => Step::Reply(bad_request()),
        Ok(req) => match router.resolve(req.method.as_str(), req.path.as_str()) {
            Some(h) => Step::Invoke(*h, req),
            None => Step::Reply(not_found()),
        },
    }
}

} // verus!
