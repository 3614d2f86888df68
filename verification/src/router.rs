//! Exact-match routing: a router holds `(path, handler)` routes, tries
//! them in definition order against a request's path, and stops at the
//! first path match; method-filtered routes let a mismatching method pass
//! through unchanged.

use vstd::prelude::*;
use crate::chain::{Handler, StepView};
use crate::message::{HttpRequest, HttpResponse, ReqView, ResView};
use crate::uri::path_of;

verus! {

/// Which request methods a route lets through to its handler.
#[derive(Clone, Copy, Debug)]
pub enum MethodFilter {
    /// Every method.
    Any,
    /// One method only; any other lets the pair pass unchanged.
    Only(&'static str),
}

/// Whether a filter lets a method through.
pub open spec fn filter_allows(f: MethodFilter, method: Seq<char>) -> bool {
    match f {
        MethodFilter::Any => true,
        MethodFilter::Only(m) => m@ == method,
    }
}

/// One route: an exact path, a method filter, and the handler to run.
pub struct Route<H: Handler> {
    pub(crate) path: String,
    pub(crate) filter: MethodFilter,
    pub(crate) handler: H,
}

impl<H: Handler> Route<H> {
    /// The path this route matches exactly.
    pub closed spec fn path_spec(&self) -> Seq<char> {
        self.path@
    }

    /// The filter this route applies.
    pub closed spec fn filter_spec(&self) -> MethodFilter {
        self.filter
    }

    /// The handler this route runs.
    pub closed spec fn handler_spec(&self) -> H {
        self.handler
    }

    fn with_filter(path: &str, filter: MethodFilter, handler: H) -> (r: Route<H>)
        ensures
            r.path_spec() == path@,
            r.filter_spec() == filter,
            r.handler_spec() == handler,
    {
        Route { path: <String as vstd::string::StringExecFns>::from_str(path), filter, handler }
    }

    /// A route that runs its handler on every method.
    pub fn all(path: &str, handler: H) -> (r: Route<H>)
        ensures
            r.path_spec() == path@,
            r.filter_spec() == MethodFilter::Any,
            r.handler_spec() == handler,
    {
        Route::with_filter(path, MethodFilter::Any, handler)
    }

    /// A route that runs its handler on GET requests only.
    pub fn get(path: &str, handler: H) -> (r: Route<H>)
        ensures
            r.path_spec() == path@,
            r.filter_spec() == MethodFilter::Only("GET"),
            r.handler_spec() == handler,
    {
        Route::with_filter(path, MethodFilter::Only("GET"), handler)
    }

    /// A route that runs its handler on POST requests only.
    pub fn post(path: &str, handler: H) -> (r: Route<H>)
        ensures
            r.path_spec() == path@,
            r.filter_spec() == MethodFilter::Only("POST"),
            r.handler_spec() == handler,
    {
        Route::with_filter(path, MethodFilter::Only("POST"), handler)
    }

    /// A route that runs its handler on PUT requests only.
    pub fn put(path: &str, handler: H) -> (r: Route<H>)
        ensures
            r.path_spec() == path@,
            r.filter_spec() == MethodFilter::Only("PUT"),
            r.handler_spec() == handler,
    {
        Route::with_filter(path, MethodFilter::Only("PUT"), handler)
    }

    /// A route that runs its handler on PATCH requests only.
    pub fn patch(path: &str, handler: H) -> (r: Route<H>)
        ensures
            r.path_spec() == path@,
            r.filter_spec() == MethodFilter::Only("PATCH"),
            r.handler_spec() == handler,
    {
        Route::with_filter(path, MethodFilter::Only("PATCH"), handler)
    }

    /// A route that runs its handler on DELETE requests only.
    pub fn delete(path: &str, handler: H) -> (r: Route<H>)
        ensures
            r.path_spec() == path@,
            r.filter_spec() == MethodFilter::Only("DELETE"),
            r.handler_spec() == handler,
    {
        Route::with_filter(path, MethodFilter::Only("DELETE"), handler)
    }
}

/// What a matched route does with a pair: its handler's outcome when the
/// filter lets the method through, the pair unchanged otherwise.
pub open spec fn route_on_call<H: Handler>(r: Route<H>, req: ReqView, res: ResView) -> StepView {
    if filter_allows(r.filter_spec(), req.method) {
        r.handler_spec().on_call(req, res)
    } else {
        StepView::Proceed { req, res }
    }
}

/// What a router does with a pair: the first route whose path equals the
/// request's path decides; with no match the pair passes unchanged.
pub open spec fn dispatch_spec<H: Handler>(
    routes: Seq<Route<H>>,
    req: ReqView,
    res: ResView,
) -> StepView
    decreases routes.len(),
{
    if routes.len() == 0 {
        StepView::Proceed { req, res }
    } else if routes[0].path_spec() == path_of(req.uri) {
        route_on_call(routes[0], req, res)
    } else {
        dispatch_spec(routes.drop_first(), req, res)
    }
}

/// An ordered collection of routes, exposed to the chain as one handler.
/// Routes are tried in definition order and the first path match wins,
/// whether or not its method filter lets the request through.
pub struct Router<H: Handler> {
    pub(crate) routes: Vec<Route<H>>,
}

impl<H: Handler> Router<H> {
    /// The routes in definition order.
    pub closed spec fn routes_spec(&self) -> Seq<Route<H>> {
        self.routes@
    }

    /// An empty router.
    pub fn new() -> (r: Router<H>)
        ensures
            r.routes_spec() == Seq::<Route<H>>::empty(),
    {
        Router { routes: Vec::new() }
    }

    /// Append a route; definition order is dispatch order.
    pub fn define_route(&mut self, route: Route<H>)
        ensures
            final(self).routes_spec() == old(self).routes_spec().push(route),
    {
        self.routes.push(route);
    }
}

impl<H: Handler> Handler for Router<H> {
    open spec fn on_call(&self, req: ReqView, res: ResView) -> StepView {
        dispatch_spec(self.routes_spec(), req, res)
    }

    fn handle(&self, req: HttpRequest, res: HttpResponse) -> (r: Result<
        (HttpRequest, HttpResponse),
        (HttpRequest, HttpResponse, String),
    >) {
        let ghost rs = self.routes_spec();
        let path = crate::uri::break_request_uri(&req).0;
        let n = self.routes.len();
        let mut i: usize = 0;
        proof {
            assert(rs.skip(0) =~= rs);
        }
        while i < n
            invariant
                n == self.routes.len(),
                rs == self.routes_spec(),
                path@ == path_of(req@.uri),
                dispatch_spec(rs, req@, res@) == dispatch_spec(rs.skip(i as int), req@, res@),
                i <= n,
            decreases n - i,
        {
            proof {
                assert(rs.skip(i as int)[0] == rs[i as int]);
                assert(rs.skip(i as int).drop_first() =~= rs.skip(i as int + 1));
            }
            if crate::text::str_eq(self.routes[i].path.as_str(), path.as_str()) {
                match &self.routes[i].filter {
                    MethodFilter::Any => {
                        return self.routes[i].handler.handle(req, res);
                    },
                    MethodFilter::Only(m) => {
                        if crate::text::str_eq(req.method().as_str(), m) {
                            return self.routes[i].handler.handle(req, res);
                        } else {
                            return Ok((req, res));
                        }
                    },
                }
            }
            i = i + 1;
        }
        Ok((req, res))
    }
}

/// Registers a router into a server's handler chain.
pub trait Routing<H: Handler> {
    fn insert_router(&mut self, router: Router<H>);
}

/// With no route path equal to the request's path, the router leaves the
/// pair untouched: the request falls through to whatever stood before it,
/// the 404 default at the start of a chain.
pub proof fn lemma_dispatch_no_match<H: Handler>(routes: Seq<Route<H>>, req: ReqView, res: ResView)
    requires
        forall|i: int|
            0 <= i < routes.len() ==> (#[trigger] routes[i]).path_spec() != path_of(req.uri),
    ensures
        dispatch_spec(routes, req, res) == (StepView::Proceed { req, res }),
    decreases routes.len(),
{
    if routes.len() > 0 {
        lemma_dispatch_no_match(routes.drop_first(), req, res);
    }
}

/// The first route whose path equals the request's path decides the
/// router's outcome; the routes after it are not consulted.
pub proof fn lemma_dispatch_first_match<H: Handler>(
    routes: Seq<Route<H>>,
    req: ReqView,
    res: ResView,
    i: int,
)
    requires
        0 <= i < routes.len(),
        routes[i].path_spec() == path_of(req.uri),
        forall|j: int| 0 <= j < i ==> (#[trigger] routes[j]).path_spec() != path_of(req.uri),
    ensures
        dispatch_spec(routes, req, res) == route_on_call(routes[i], req, res),
    decreases i,
{
    if i > 0 {
        lemma_dispatch_first_match(routes.drop_first(), req, res, i - 1);
    }
}

} // verus!
