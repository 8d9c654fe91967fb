//! The handler abstraction: one uniform "produce an optional response"
//! contract, together with the conversion that renders a plain value into a
//! full response — status 200 OK, version HTTP/1.1, empty headers, the
//! rendered bytes as body.

use vstd::prelude::*;

use vstd::string::{StrSliceExecFns, StringSliceAdditionalSpecFns};
use vstd::utf8::encode_utf8;

use crate::http::{
    BoxedBody, HeaderMap, ReqModel, RequestParts, RespModel, Response, ResponseParts, Status,
    Version,
};

verus! {

/// The optional response as a mathematical value.
pub open spec fn opt_resp_view(r: Option<Response>) -> Option<RespModel> {
    match r {
        Some(resp) => Some(resp@),
        None => None,
    }
}

/// The response a rendered value becomes: default status and version,
/// no headers, the rendered bytes as body.
pub open spec fn rendered_response(body: Seq<u8>) -> RespModel {
    RespModel {
        status: Status::OK,
        version: Version::Http11,
        headers: Map::empty(),
        body,
    }
}

/// A value renderable into a full response. An open, extensible mapping:
/// any type stating what response it renders to can take part.
pub trait IntoResponse: Sized {
    /// The response this value renders to.
    spec fn response_spec(&self) -> RespModel;

    /// Renders this value into a response.
    fn into_response(self) -> (r: Response)
        ensures
            r@ == self.response_spec(),
    ;
}

impl IntoResponse for &'static str {
    open spec fn response_spec(&self) -> RespModel {
        rendered_response(self.spec_bytes())
    }

    fn into_response(self) -> (r: Response) {
        Response {
            head: ResponseParts {
                status: Status::OK,
                version: Version::Http11,
                headers: HeaderMap::new(),
            },
            body: BoxedBody { inner: self.as_bytes_vec() },
        }
    }
}

impl IntoResponse for String {
    open spec fn response_spec(&self) -> RespModel {
        rendered_response(encode_utf8(self@))
    }

    fn into_response(self) -> (r: Response) {
        Response {
            head: ResponseParts {
                status: Status::OK,
                version: Version::Http11,
                headers: HeaderMap::new(),
            },
            body: BoxedBody { inner: self.as_str().as_bytes_vec() },
        }
    }
}

/// A handler: consumes the parsed request head and the captured parameters,
/// produces an optional response. "No response" here is distinguished from
/// "route did not match" at the dispatch level, not in the handler.
pub trait Handler {
    /// The response this handler produces, as a function of the request
    /// head and the captured parameters.
    spec fn response_spec(&self, req: ReqModel, params: Seq<(Seq<char>, Seq<char>)>) -> Option<
        RespModel,
    >;

    /// Handles a matched request, given its captured parameters.
    fn handle(&self, req: &RequestParts, params: Vec<(String, String)>) -> (r: Option<Response>)
        ensures
            opt_resp_view(r) == self.response_spec(req@, params.deep_view()),
    ;
}

/// A handler that answers every matched request with one fixed text.
pub struct TextHandler {
    pub text: String,
}

impl TextHandler {
    /// A handler answering with `text`.
    pub fn new(text: &str) -> (r: TextHandler)
        ensures
            r.text@ == text@,
    {
        TextHandler { text: text.to_owned() }
    }
}

impl Handler for TextHandler {
    open spec fn response_spec(&self, req: ReqModel, params: Seq<(Seq<char>, Seq<char>)>) -> Option<
        RespModel,
    > {
        Some(rendered_response(encode_utf8(self.text@)))
    }

    fn handle(&self, _req: &RequestParts, _params: Vec<(String, String)>) -> (r: Option<Response>) {
        Some(self.text.clone().into_response())
    }
}

/// The text that lists captures, one `name=value` line per capture, in
/// capture order.
pub open spec fn params_text(params: Seq<(Seq<char>, Seq<char>)>) -> Seq<char>
    decreases params.len(),
{
    if params.len() == 0 {
        Seq::empty()
    } else {
        params[0].0 + seq!['='] + params[0].1 + seq!['\n'] + params_text(params.drop_first())
    }
}

proof fn lemma_params_text_push(params: Seq<(Seq<char>, Seq<char>)>, x: (Seq<char>, Seq<char>))
    ensures
        params_text(params.push(x)) == params_text(params) + x.0 + seq!['='] + x.1 + seq!['\n'],
    decreases params.len(),
{
    let p = params.push(x);
    if params.len() == 0 {
        assert(p[0] == x);
        assert(p.drop_first() =~= Seq::<(Seq<char>, Seq<char>)>::empty());
        assert(params_text(p) == x.0 + seq!['='] + x.1 + seq!['\n'] + params_text(
            p.drop_first(),
        ));
        assert(params_text(p) =~= params_text(params) + x.0 + seq!['='] + x.1 + seq!['\n']);
    } else {
        assert(p[0] == params[0]);
        assert(p.drop_first() =~= params.drop_first().push(x));
        lemma_params_text_push(params.drop_first(), x);
        assert(params_text(p) =~= params_text(params) + x.0 + seq!['='] + x.1 + seq!['\n']);
    }
}

/// A handler that answers with the captured parameters themselves: one
/// `name=value` line per capture, in capture order.
pub struct EchoHandler;

impl Handler for EchoHandler {
    open spec fn response_spec(&self, req: ReqModel, params: Seq<(Seq<char>, Seq<char>)>) -> Option<
        RespModel,
    > {
        Some(rendered_response(encode_utf8(params_text(params))))
    }

    fn handle(&self, _req: &RequestParts, params: Vec<(String, String)>) -> (r: Option<Response>) {
        let ghost dv = params.deep_view();
        let mut out = String::new();
        let mut i: usize = 0;
        while i < params.len()
            invariant
                0 <= i <= params@.len(),
                dv == params.deep_view(),
                out@ == params_text(dv.take(i as int)),
            decreases params@.len() - i,
        {
            out.append(params[i].0.as_str());
            out.append("=");
            out.append(params[i].1.as_str());
            out.append("\n");
            proof {
                reveal_strlit("=");
                reveal_strlit("\n");
                lemma_params_text_push(dv.take(i as int), dv[i as int]);
                assert(dv.take(i + 1) =~= dv.take(i as int).push(dv[i as int]));
                assert(out@ =~= params_text(dv.take(i + 1)));
            }
            i = i + 1;
        }
        proof {
            assert(dv.take(i as int) =~= dv);
        }
        Some(out.into_response())
    }
}

} // verus!
