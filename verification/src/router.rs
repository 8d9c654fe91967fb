//! Routes and the dispatch chain. A route binds one method, one compiled
//! template and one handler; a chain composes routes (and sub-chains) into
//! an ordered, immutable, first-match-wins decision structure. The chain is
//! assembled once, before serving starts, and never mutated afterwards.

use vstd::prelude::*;

use vstd::pervasive::unreached;

use crate::handler::{Handler, opt_resp_view};
use crate::http::{Method, ReqModel, RequestParts, RespModel, Response};
use crate::pattern::{
    PathPattern, SegView, captures_spec, compile, instantiate, join, lemma_match_instantiated,
    literals_slashless, num_params, param_names, segs_match, template_wf, zip_pairs,
};

verus! {

/// Ordered (name, value) captures of one pattern match, in placeholder
/// order.
pub type Parameters = Vec<(String, String)>;

/// One registered route as a mathematical value: its method, its compiled
/// template, and what its handler answers.
pub ghost struct RouteModel {
    pub method: Method,
    pub segs: Seq<SegView>,
    pub handler: spec_fn(ReqModel, Seq<(Seq<char>, Seq<char>)>) -> Option<RespModel>,
}

/// The answer function of a handler value.
pub open spec fn handler_model<H: Handler>(h: H) -> spec_fn(
    ReqModel,
    Seq<(Seq<char>, Seq<char>)>,
) -> Option<RespModel> {
    |req: ReqModel, params: Seq<(Seq<char>, Seq<char>)>| h.response_spec(req, params)
}

/// Whether a route claims a request: the methods are equal and the
/// pattern matches the raw URI.
pub open spec fn route_matches(rm: RouteModel, req: ReqModel) -> bool {
    rm.method == req.method && segs_match(rm.segs, req.uri)
}

/// What a route answers once it claims a request: its handler applied to
/// the captures, decisively — even an empty answer is final.
pub open spec fn route_answer(rm: RouteModel, req: ReqModel) -> Option<RespModel> {
    (rm.handler)(req, captures_spec(rm.segs, req.uri))
}

/// The outcome of a dispatch, as a mathematical value.
pub ghost enum DispatchModel {
    /// No route claimed the request.
    NoMatch,
    /// The first claiming route's answer, which may itself be empty.
    Matched(Option<RespModel>),
}

/// First-match-wins dispatch over an ordered route list: the first route
/// whose method and pattern both match answers; only a route that does not
/// match falls through to the next.
pub open spec fn dispatch_spec(routes: Seq<RouteModel>, req: ReqModel) -> DispatchModel
    decreases routes.len(),
{
    if routes.len() == 0 {
        DispatchModel::NoMatch
    } else if route_matches(routes[0], req) {
        DispatchModel::Matched(route_answer(routes[0], req))
    } else {
        dispatch_spec(routes.drop_first(), req)
    }
}

/// The optional response handed to the transport: "no match" and "matched
/// with no answer" both collapse to nothing here.
pub open spec fn outcome_response(d: DispatchModel) -> Option<RespModel> {
    match d {
        DispatchModel::NoMatch => None,
        DispatchModel::Matched(r) => r,
    }
}

/// The outcome of a dispatch: either no route claimed the request, or the
/// first claiming route's answer — itself possibly empty. The two absences
/// are distinct outcomes.
pub enum DispatchOutcome {
    NoMatch,
    Matched(Option<Response>),
}

impl View for DispatchOutcome {
    type V = DispatchModel;

    open spec fn view(&self) -> DispatchModel {
        match self {
            DispatchOutcome::NoMatch => DispatchModel::NoMatch,
            DispatchOutcome::Matched(r) => DispatchModel::Matched(opt_resp_view(*r)),
        }
    }
}

/// A matchable unit of the chain: a single route or a whole sub-chain,
/// carrying its routes in registration order.
pub trait Dispatcher {
    /// The routes this unit holds, in registration order.
    spec fn routes(&self) -> Seq<RouteModel>;

    /// Walks the routes in order; the first whose method and pattern both
    /// match answers, decisively; with none, reports no match.
    fn try_dispatch(&self, request: &RequestParts) -> (r: DispatchOutcome)
        ensures
            r@ == dispatch_spec(self.routes(), request@),
    ;

    /// Dispatches and keeps only the optional response; the caller maps
    /// its absence to a fallback of its choice (commonly a 404).
    fn dispatch(&self, request: &RequestParts) -> (r: Option<Response>)
        ensures
            opt_resp_view(r) == outcome_response(dispatch_spec(self.routes(), request@)),
    ;
}

/// A handler tagged with the method it answers to.
pub struct MethodWrapper<H> {
    pub handler: H,
    pub method: Method,
}

/// Tags a handler as answering GET.
pub fn get<H: Handler>(handler: H) -> (r: MethodWrapper<H>)
    ensures
        r.method == Method::Get,
        r.handler == handler,
{
    MethodWrapper { handler, method: Method::Get }
}

/// Tags a handler as answering POST.
pub fn post<H: Handler>(handler: H) -> (r: MethodWrapper<H>)
    ensures
        r.method == Method::Post,
        r.handler == handler,
{
    MethodWrapper { handler, method: Method::Post }
}

/// One route: a method, a compiled template and a handler bound into a
/// single matchable unit.
pub struct Router<H> {
    pub method: Method,
    pub pattern: PathPattern,
    pub handler: H,
}

impl<H: Handler> Router<H> {
    /// Binds a route. The template must be well formed — a malformed
    /// template is a registration error, to be rejected before serving
    /// starts (`template_well_formed` is the executable check).
    pub fn new(pattern: &str, method_wrapper: MethodWrapper<H>) -> (r: Router<H>)
        requires
            template_wf(pattern@),
        ensures
            r.routes() =~= seq![
                RouteModel {
                    method: method_wrapper.method,
                    segs: compile(pattern@),
                    handler: handler_model(method_wrapper.handler),
                },
            ],
    {
        let compiled = match PathPattern::new(pattern) {
            Ok(p) => p,
            Err(_) => unreached(),
        };
        Router { method: method_wrapper.method, pattern: compiled, handler: method_wrapper.handler }
    }

    /// Appends a second route after this one.
    pub fn route<H2: Handler>(self, pattern: &str, method_wrapper: MethodWrapper<H2>) -> (r: Chain<
        Router<H>,
        Router<H2>,
    >)
        requires
            template_wf(pattern@),
        ensures
            r.routes() =~= self.routes() + seq![
                RouteModel {
                    method: method_wrapper.method,
                    segs: compile(pattern@),
                    handler: handler_model(method_wrapper.handler),
                },
            ],
    {
        Chain { first: self, second: Router::new(pattern, method_wrapper) }
    }
}

/// Two matchable units composed: all of the first's routes in order, then
/// all of the second's.
pub struct Chain<A, B> {
    pub first: A,
    pub second: B,
}

impl<A: Dispatcher, B: Dispatcher> Chain<A, B> {
    /// Composes two units into a chain.
    pub fn new(first: A, second: B) -> (r: Chain<A, B>)
        ensures
            r.routes() == first.routes() + second.routes(),
    {
        Chain { first, second }
    }

    /// Appends one more route after this chain.
    pub fn route<H: Handler>(self, pattern: &str, method_wrapper: MethodWrapper<H>) -> (r: Chain<
        Chain<A, B>,
        Router<H>,
    >)
        requires
            template_wf(pattern@),
        ensures
            r.routes() =~= self.routes() + seq![
                RouteModel {
                    method: method_wrapper.method,
                    segs: compile(pattern@),
                    handler: handler_model(method_wrapper.handler),
                },
            ],
    {
        Chain { first: self, second: Router::new(pattern, method_wrapper) }
    }
}

impl<H: Handler> Dispatcher for Router<H> {
    open spec fn routes(&self) -> Seq<RouteModel> {
        seq![
            RouteModel {
                method: self.method,
                segs: self.pattern@,
                handler: handler_model(self.handler),
            },
        ]
    }

    fn try_dispatch(&self, request: &RequestParts) -> (r: DispatchOutcome) {
        let ghost rm = self.routes()[0];
        proof {
            assert(self.routes().drop_first() =~= Seq::<RouteModel>::empty());
            assert(dispatch_spec(Seq::<RouteModel>::empty(), request@) == DispatchModel::NoMatch);
        }
        if self.method == request.method {
            match self.pattern.captures(request.uri.as_str()) {
                Some(params) => {
                    proof {
                        assert(route_matches(rm, request@));
                    }
                    let ghost pv = params.deep_view();
                    let resp = self.handler.handle(request, params);
                    proof {
                        assert(opt_resp_view(resp) == self.handler.response_spec(request@, pv));
                        assert((rm.handler)(request@, pv) == self.handler.response_spec(
                            request@,
                            pv,
                        ));
                        assert(route_answer(rm, request@) == opt_resp_view(resp));
                    }
                    DispatchOutcome::Matched(resp)
                },
                None => {
                    proof {
                        assert(!route_matches(rm, request@));
                    }
                    DispatchOutcome::NoMatch
                },
            }
        } else {
            proof {
                assert(!route_matches(rm, request@));
            }
            DispatchOutcome::NoMatch
        }
    }

    fn dispatch(&self, request: &RequestParts) -> (r: Option<Response>) {
        match self.try_dispatch(request) {
            DispatchOutcome::NoMatch => None,
            DispatchOutcome::Matched(resp) => resp,
        }
    }
}

impl<A: Dispatcher, B: Dispatcher> Dispatcher for Chain<A, B> {
    open spec fn routes(&self) -> Seq<RouteModel> {
        self.first.routes() + self.second.routes()
    }

    fn try_dispatch(&self, request: &RequestParts) -> (r: DispatchOutcome) {
        proof {
            lemma_dispatch_concat(self.first.routes(), self.second.routes(), request@);
        }
        let r1 = self.first.try_dispatch(request);
        match r1 {
            DispatchOutcome::Matched(resp) => DispatchOutcome::Matched(resp),
            DispatchOutcome::NoMatch => self.second.try_dispatch(request),
        }
    }

    fn dispatch(&self, request: &RequestParts) -> (r: Option<Response>) {
        match self.try_dispatch(request) {
            DispatchOutcome::NoMatch => None,
            DispatchOutcome::Matched(resp) => resp,
        }
    }
}

/// Dispatch over a concatenation: the left part answers if any of its
/// routes matches; only otherwise does the right part speak.
pub proof fn lemma_dispatch_concat(r1: Seq<RouteModel>, r2: Seq<RouteModel>, req: ReqModel)
    ensures
        dispatch_spec(r1 + r2, req) == (if dispatch_spec(r1, req) is Matched {
            dispatch_spec(r1, req)
        } else {
            dispatch_spec(r2, req)
        }),
    decreases r1.len(),
{
    if r1.len() == 0 {
        assert(r1 + r2 =~= r2);
    } else {
        assert((r1 + r2)[0] == r1[0]);
        assert((r1 + r2).drop_first() =~= r1.drop_first() + r2);
        lemma_dispatch_concat(r1.drop_first(), r2, req);
    }
}

/// Dispatch is order-preserving: the answer is that of the first route
/// that matches the request, never a later one's.
pub proof fn lemma_dispatch_order(routes: Seq<RouteModel>, req: ReqModel, i: int)
    requires
        0 <= i < routes.len(),
        route_matches(routes[i], req),
        forall|k: int| 0 <= k < i ==> !route_matches(routes[k], req),
    ensures
        dispatch_spec(routes, req) == DispatchModel::Matched(route_answer(routes[i], req)),
    decreases i,
{
    if i > 0 {
        let rest = routes.drop_first();
        assert(rest[i - 1] == routes[i]);
        assert forall|k: int| 0 <= k < i - 1 implies !route_matches(rest[k], req) by {
            assert(rest[k] == routes[k + 1]);
        }
        lemma_dispatch_order(rest, req, i - 1);
    }
}

/// A request no route matches yields the explicit "no match" outcome —
/// distinct from a matched route whose handler answers nothing.
pub proof fn lemma_dispatch_no_match(routes: Seq<RouteModel>, req: ReqModel)
    requires
        forall|k: int| 0 <= k < routes.len() ==> !route_matches(routes[k], req),
    ensures
        dispatch_spec(routes, req) == DispatchModel::NoMatch,
    decreases routes.len(),
{
    if routes.len() > 0 {
        let rest = routes.drop_first();
        assert forall|k: int| 0 <= k < rest.len() implies !route_matches(rest[k], req) by {
            assert(rest[k] == routes[k + 1]);
        }
        lemma_dispatch_no_match(rest, req);
    }
}

/// Composition is associative: however intermediate chains were grouped,
/// the same registration order gives the same dispatch outcome for every
/// request.
pub proof fn lemma_dispatch_assoc(
    a: Seq<RouteModel>,
    b: Seq<RouteModel>,
    c: Seq<RouteModel>,
    req: ReqModel,
)
    ensures
        dispatch_spec((a + b) + c, req) == dispatch_spec(a + (b + c), req),
{
    assert((a + b) + c =~= a + (b + c));
}

/// Round trip: a URI built by substituting non-`/` values into a route's
/// template, dispatched with that route's method, hands that route's
/// handler exactly those values, each under its placeholder's name, in
/// placeholder order — provided no earlier route matches.
pub proof fn lemma_dispatch_round_trip(
    routes: Seq<RouteModel>,
    req: ReqModel,
    i: int,
    vals: Seq<Seq<char>>,
)
    requires
        0 <= i < routes.len(),
        forall|k: int| 0 <= k < i ==> !route_matches(routes[k], req),
        req.method == routes[i].method,
        routes[i].segs.len() >= 1,
        literals_slashless(routes[i].segs),
        vals.len() == num_params(routes[i].segs),
        forall|a: int, j: int| 0 <= a < vals.len() && 0 <= j < vals[a].len() ==> vals[a][j] != '/',
        req.uri == join(instantiate(routes[i].segs, vals), '/'),
    ensures
        dispatch_spec(routes, req) == DispatchModel::Matched(
            (routes[i].handler)(req, zip_pairs(param_names(routes[i].segs), vals)),
        ),
{
    lemma_match_instantiated(routes[i].segs, vals);
    lemma_dispatch_order(routes, req, i);
}

} // verus!
