use vstd::prelude::*;
use crate::action::{
    apply_modify, body_effect, copy_bytes, lemma_ops_keep_absent, modify_adds, opt_view, ops_effect,
    Action,
};
use crate::headers::{
    has_name, lemma_push_keeps_absent, lemma_strip_keeps_absent, lemma_strip_lacks, strip, HeaderSeq,
    Headers,
};
use crate::names::{
    host, host_bytes, accept_encoding, accept_encoding_bytes, hsts, hsts_bytes, allow_origin, allow_origin_bytes, allow_methods, allow_methods_bytes, star, star_bytes, location, location_bytes, content_type, content_type_bytes, content_disposition, content_disposition_bytes, octet_stream, octet_stream_bytes, attachment, attachment_bytes, cert_path, cert_path_bytes, cert_host, cert_host_bytes,
};
use crate::rules::{lemma_action_order, match_request, matched_positions, Rule};
use crate::text::{contains, has_infix, has_prefix, starts_with};

verus! {

/// A request as the pipeline sees it: the host and path of its URI, its
/// headers, and a replacement body when one was set.
pub struct HttpRequest {
    pub host: Vec<u8>,
    pub path: Vec<u8>,
    pub headers: Headers,
    /// `None` streams the received body through.
    pub body: Option<Vec<u8>>,
}

pub struct RequestView {
    pub host: Seq<u8>,
    pub path: Seq<u8>,
    pub headers: HeaderSeq,
    pub body: Option<Seq<u8>>,
}

impl View for HttpRequest {
    type V = RequestView;

    open spec fn view(&self) -> RequestView {
        RequestView { host: self.host@, path: self.path@, headers: self.headers@, body: opt_view(self.body) }
    }
}

/// A response: status, headers and, when set, a body that replaces the
/// upstream one.
pub struct HttpResponse {
    pub status: u16,
    pub headers: Headers,
    /// `None` streams the upstream body through.
    pub body: Option<Vec<u8>>,
}

pub type ResponseView = (u16, HeaderSeq, Option<Seq<u8>>);

impl View for HttpResponse {
    type V = ResponseView;

    open spec fn view(&self) -> ResponseView {
        (self.status, self.headers@, opt_view(self.body))
    }
}

/// Per-exchange state carried from the request phase to the response phase:
/// positions (rule, action) of the deferred response actions and of the
/// scripts, in order, and whether the request is to be logged.
pub struct HttpContext {
    pub rule: Vec<(usize, usize)>,
    pub scripts: Vec<(usize, usize)>,
    pub log_request: bool,
}

pub open spec fn pos_view(v: Seq<(usize, usize)>) -> Seq<(int, int)> {
    v.map_values(|p: (usize, usize)| (p.0 as int, p.1 as int))
}

/// Every position names an action of the rule set.
pub open spec fn positions_valid(rules: Seq<Rule>, pos: Seq<(int, int)>) -> bool {
    forall|k: int|
        0 <= k < pos.len() ==> 0 <= (#[trigger] pos[k]).0 < rules.len() && 0 <= pos[k].1
            < rules[pos[k].0].actions@.len()
}

/// The state of the request phase.
pub struct PreState {
    pub headers: HeaderSeq,
    pub body: Option<Seq<u8>>,
    pub deferred: Seq<(int, int)>,
    pub scripts: Seq<(int, int)>,
    pub log_request: bool,
    /// A response that ends the exchange before any upstream request.
    pub stop: Option<ResponseView>,
}

pub open spec fn reject_view() -> ResponseView {
    (502u16, seq![], Some(seq![]))
}

pub open spec fn redirect_view(target: String) -> ResponseView {
    (302u16, seq![(location(), vstd::utf8::encode_utf8(target@))], Some(seq![]))
}

pub open spec fn cert_view(pem: Seq<u8>) -> ResponseView {
    (200u16, seq![(content_disposition(), attachment()), (content_type(), octet_stream())], Some(pem))
}

/// One action of the request phase. Once a response is decided, later
/// actions have no effect.
pub open spec fn pre_step(rules: Seq<Rule>, st: PreState, p: (int, int)) -> PreState {
    if st.stop.is_some() {
        st
    } else {
        match rules[p.0].actions@[p.1] {
            Action::Reject => PreState { stop: Some(reject_view()), ..st },
            Action::Redirect(t) => PreState { stop: Some(redirect_view(t)), ..st },
            Action::ModifyRequest(m) => PreState {
                headers: ops_effect(st.headers, m.headers@),
                body: body_effect(st.body, m),
                ..st
            },
            Action::ModifyResponse(_) => PreState { deferred: st.deferred.push(p), ..st },
            Action::LogRes => PreState { deferred: st.deferred.push(p), ..st },
            Action::LogReq => PreState { log_request: true, ..st },
            Action::Js(_) => PreState { scripts: st.scripts.push(p), ..st },
        }
    }
}

pub open spec fn pre_run(rules: Seq<Rule>, st: PreState, pos: Seq<(int, int)>) -> PreState
    decreases pos.len(),
{
    if pos.len() == 0 {
        st
    } else {
        pre_step(rules, pre_run(rules, st, pos.drop_last()), pos.last())
    }
}

pub open spec fn fresh_state(headers: HeaderSeq, body: Option<Seq<u8>>, stop: Option<ResponseView>) -> PreState {
    PreState { headers, body, deferred: seq![], scripts: seq![], log_request: false, stop }
}

/// The request asks for the root certificate.
pub open spec fn is_cert_request(req: RequestView) -> bool {
    starts_with(req.path, cert_path()) || match crate::headers::first_index(req.headers, host()) {
        Some(k) => contains(req.headers[k].1, cert_host()),
        None => false,
    }
}

/// The request phase: the certificate endpoint, then removal of `Host` and
/// `Accept-Encoding`, then the matched actions in order.
pub open spec fn begin_model(rules: Seq<Rule>, pem: Seq<u8>, req: RequestView) -> PreState {
    if is_cert_request(req) {
        fresh_state(req.headers, req.body, Some(cert_view(pem)))
    } else {
        pre_run(
            rules,
            fresh_state(strip(strip(req.headers, host()), accept_encoding()), req.body, None),
            matched_positions(rules, req.host, req.path),
        )
    }
}

/// The permissive CORS headers set on every response.
pub open spec fn with_cors(r: ResponseView) -> ResponseView {
    (r.0, strip(strip(r.1, allow_origin()).push((allow_origin(), star())), allow_methods()).push(
        (allow_methods(), star()),
    ), r.2)
}

/// What the request phase decided.
pub enum RequestOutcome {
    /// Send the (modified) request upstream, then finish with this context.
    Forward(HttpContext),
    /// Answer the client with this response.
    Respond(HttpResponse),
}

pub fn allow_all_cors(resp: &mut HttpResponse)
    ensures
        final(resp)@ == with_cors(old(resp)@),
{
    resp.headers.insert(allow_origin_bytes(), star_bytes());
    resp.headers.insert(allow_methods_bytes(), star_bytes());
}

/// `502 Bad Gateway` with an empty body.
pub fn bad_gateway() -> (r: HttpResponse)
    ensures
        r@ == reject_view(),
{
    let r = HttpResponse { status: 502, headers: Headers::new(), body: Some(Vec::new()) };
    assert(r@.1 =~= reject_view().1);
    r
}

/// `302 Found` with `Location: target`.
pub fn redirect_to(target: &String) -> (r: HttpResponse)
    ensures
        r@ == redirect_view(*target),
{
    let mut headers = Headers::new();
    let loc = vstd::slice::slice_to_vec(target.as_str().as_bytes());
    headers.append(location_bytes(), loc);
    let r = HttpResponse { status: 302, headers, body: Some(Vec::new()) };
    assert(r@.1 =~= redirect_view(*target).1);
    r
}

/// The root certificate as a download.
pub fn cert_response(pem: &Vec<u8>) -> (r: HttpResponse)
    ensures
        r@ == cert_view(pem@),
{
    let mut headers = Headers::new();
    headers.append(content_disposition_bytes(), attachment_bytes());
    headers.append(content_type_bytes(), octet_stream_bytes());
    let r = HttpResponse { status: 200, headers, body: Some(copy_bytes(pem)) };
    assert(r@.1 =~= cert_view(pem@).1);
    r
}

pub fn wants_cert(req: &HttpRequest) -> (r: bool)
    ensures
        r == is_cert_request(req@),
{
    if has_prefix(req.path.as_slice(), cert_path_bytes().as_slice()) {
        return true;
    }
    match req.headers.get(host_bytes().as_slice()) {
        Some(v) => has_infix(v.as_slice(), cert_host_bytes().as_slice()),
        None => false,
    }
}

pub open spec fn opt_response_view(o: Option<HttpResponse>) -> Option<ResponseView> {
    match o {
        Some(r) => Some(r@),
        None => None,
    }
}

/// The request phase. The request's headers and body are changed in place;
/// the outcome says whether to forward it or to answer at once.
pub fn begin_request(rules: &Vec<Rule>, pem: &Vec<u8>, req: &mut HttpRequest) -> (r: RequestOutcome)
    ensures
        final(req)@ == (RequestView {
            headers: begin_model(rules@, pem@, old(req)@).headers,
            body: begin_model(rules@, pem@, old(req)@).body,
            ..old(req)@
        }),
        match r {
            RequestOutcome::Respond(resp) => {
                &&& begin_model(rules@, pem@, old(req)@).stop.is_some()
                &&& resp@ == with_cors(begin_model(rules@, pem@, old(req)@).stop.unwrap())
            },
            RequestOutcome::Forward(ctx) => {
                &&& begin_model(rules@, pem@, old(req)@).stop.is_none()
                &&& pos_view(ctx.rule@) == begin_model(rules@, pem@, old(req)@).deferred
                &&& pos_view(ctx.scripts@) == begin_model(rules@, pem@, old(req)@).scripts
                &&& ctx.log_request == begin_model(rules@, pem@, old(req)@).log_request
                &&& positions_valid(rules@, pos_view(ctx.rule@))
            },
        },
{
    if wants_cert(req) {
        let mut resp = cert_response(pem);
        allow_all_cors(&mut resp);
        return RequestOutcome::Respond(resp);
    }
    req.headers.remove(host_bytes().as_slice());
    req.headers.remove(accept_encoding_bytes().as_slice());
    let pos = match_request(rules, req.host.as_slice(), req.path.as_slice());
    let ghost mp = matched_positions(rules@, req.host@, req.path@);
    let ghost init = fresh_state(req.headers@, opt_view(req.body), None);
    proof {
        lemma_action_order(rules@, req.host@, req.path@);
        assert(mp.subrange(0, 0) =~= Seq::<(int, int)>::empty());
    }
    let mut ctx = HttpContext { rule: Vec::new(), scripts: Vec::new(), log_request: false };
    let mut stop: Option<HttpResponse> = None;
    let mut i: usize = 0;
    assert(pos_view(ctx.rule@) =~= Seq::<(int, int)>::empty());
    assert(pos_view(ctx.scripts@) =~= Seq::<(int, int)>::empty());
    while i < pos.len()
        invariant
            i <= pos@.len(),
            pos@.len() == mp.len(),
            forall|k: int| 0 <= k < pos@.len() ==> ((#[trigger] pos@[k]).0 as int, pos@[k].1 as int) == mp[k],
            forall|a: int, b: int|
                #![trigger mp.contains((a, b))]
                mp.contains((a, b)) ==> (0 <= a < rules@.len() && 0 <= b < rules@[a].actions@.len()),
            req.host@ == old(req)@.host,
            req.path@ == old(req)@.path,
            req.headers@ == pre_run(rules@, init, mp.subrange(0, i as int)).headers,
            opt_view(req.body) == pre_run(rules@, init, mp.subrange(0, i as int)).body,
            pos_view(ctx.rule@) == pre_run(rules@, init, mp.subrange(0, i as int)).deferred,
            pos_view(ctx.scripts@) == pre_run(rules@, init, mp.subrange(0, i as int)).scripts,
            ctx.log_request == pre_run(rules@, init, mp.subrange(0, i as int)).log_request,
            opt_response_view(stop) == pre_run(rules@, init, mp.subrange(0, i as int)).stop,
            positions_valid(rules@, pos_view(ctx.rule@)),
        decreases pos@.len() - i,
    {
        let (ri, ai) = pos[i];
        let ghost p = mp[i as int];
        proof {
            assert(mp.contains((p.0, p.1)));
            assert(mp.subrange(0, i + 1).drop_last() =~= mp.subrange(0, i as int));
            assert(mp.subrange(0, i + 1).last() == p);
        }
        let ghost st = pre_run(rules@, init, mp.subrange(0, i as int));
        let ghost old_rule = ctx.rule@;
        let ghost old_scripts = ctx.scripts@;
        if stop.is_none() {
            match &rules[ri].actions[ai] {
                Action::Reject => {
                    stop = Some(bad_gateway());
                },
                Action::Redirect(t) => {
                    stop = Some(redirect_to(t));
                },
                Action::ModifyRequest(m) => {
                    apply_modify(&mut req.headers, &mut req.body, m);
                },
                Action::ModifyResponse(_) => {
                    ctx.rule.push((ri, ai));
                    assert(pos_view(ctx.rule@) =~= pos_view(old_rule).push(p));
                },
                Action::LogRes => {
                    ctx.rule.push((ri, ai));
                    assert(pos_view(ctx.rule@) =~= pos_view(old_rule).push(p));
                },
                Action::LogReq => {
                    ctx.log_request = true;
                },
                Action::Js(_) => {
                    ctx.scripts.push((ri, ai));
                    assert(pos_view(ctx.scripts@) =~= pos_view(old_scripts).push(p));
                },
            }
        }
        i = i + 1;
    }
    assert(mp.subrange(0, i as int) =~= mp);
    match stop {
        Some(resp) => {
            let mut resp = resp;
            allow_all_cors(&mut resp);
            RequestOutcome::Respond(resp)
        },
        None => RequestOutcome::Forward(ctx),
    }
}

/// Headers, body, and whether the response is to be logged.
pub type PostState = (HeaderSeq, Option<Seq<u8>>, bool);

pub open spec fn post_step(rules: Seq<Rule>, st: PostState, p: (int, int)) -> PostState {
    match rules[p.0].actions@[p.1] {
        Action::ModifyResponse(m) => (ops_effect(st.0, m.headers@), body_effect(st.1, m), st.2),
        Action::LogRes => (st.0, st.1, true),
        _ => st,
    }
}

pub open spec fn post_run(rules: Seq<Rule>, st: PostState, pos: Seq<(int, int)>) -> PostState
    decreases pos.len(),
{
    if pos.len() == 0 {
        st
    } else {
        post_step(rules, post_run(rules, st, pos.drop_last()), pos.last())
    }
}

/// The response phase: `Strict-Transport-Security` removed, the deferred
/// actions applied in order, then the CORS headers.
pub open spec fn finish_model(rules: Seq<Rule>, deferred: Seq<(int, int)>, resp: ResponseView) -> (ResponseView, bool) {
    let st = post_run(rules, (strip(resp.1, hsts()), resp.2, false), deferred);
    (with_cors((resp.0, st.0, st.1)), st.2)
}

/// The response phase for an upstream response; returns whether the
/// response is to be logged.
pub fn finish_response(rules: &Vec<Rule>, ctx: &HttpContext, resp: &mut HttpResponse) -> (log: bool)
    requires
        positions_valid(rules@, pos_view(ctx.rule@)),
    ensures
        final(resp)@ == finish_model(rules@, pos_view(ctx.rule@), old(resp)@).0,
        log == finish_model(rules@, pos_view(ctx.rule@), old(resp)@).1,
{
    let ghost d = pos_view(ctx.rule@);
    resp.headers.remove(hsts_bytes().as_slice());
    let ghost init: PostState = (resp.headers@, opt_view(resp.body), false);
    let mut log = false;
    let mut i: usize = 0;
    assert(d.subrange(0, 0) =~= Seq::<(int, int)>::empty());
    while i < ctx.rule.len()
        invariant
            i <= ctx.rule@.len(),
            d == pos_view(ctx.rule@),
            positions_valid(rules@, d),
            resp.status == old(resp).status,
            (resp.headers@, opt_view(resp.body), log) == post_run(rules@, init, d.subrange(0, i as int)),
        decreases ctx.rule@.len() - i,
    {
        let (ri, ai) = ctx.rule[i];
        let ghost p = d[i as int];
        assert(d.subrange(0, i + 1).drop_last() =~= d.subrange(0, i as int));
        assert(d.subrange(0, i + 1).last() == p);
        match &rules[ri].actions[ai] {
            Action::ModifyResponse(m) => {
                apply_modify(&mut resp.headers, &mut resp.body, m);
            },
            Action::LogRes => {
                log = true;
            },
            _ => {},
        }
        i = i + 1;
    }
    assert(d.subrange(0, i as int) =~= d);
    allow_all_cors(resp);
    log
}

/// The action is a request modification that adds an entry named `name`.
pub open spec fn request_action_adds(a: Action, name: Seq<u8>) -> bool {
    match a {
        Action::ModifyRequest(m) => modify_adds(m, name),
        _ => false,
    }
}

/// The action is a response modification that adds an entry named `name`.
pub open spec fn response_action_adds(a: Action, name: Seq<u8>) -> bool {
    match a {
        Action::ModifyResponse(m) => modify_adds(m, name),
        _ => false,
    }
}

proof fn lemma_pre_run_keeps_absent(rules: Seq<Rule>, st: PreState, pos: Seq<(int, int)>, name: Seq<u8>)
    requires
        !has_name(st.headers, name),
        forall|k: int|
            0 <= k < pos.len() ==> !request_action_adds(rules[(#[trigger] pos[k]).0].actions@[pos[k].1], name),
    ensures
        !has_name(pre_run(rules, st, pos).headers, name),
    decreases pos.len(),
{
    if pos.len() > 0 {
        let f = pos.drop_last();
        assert forall|k: int| 0 <= k < f.len() implies !request_action_adds(rules[(#[trigger] f[k]).0].actions@[f[k].1], name) by {
            assert(pos[k] == f[k]);
        }
        lemma_pre_run_keeps_absent(rules, st, f, name);
        let prev = pre_run(rules, st, f);
        let p = pos[pos.len() - 1];
        if prev.stop.is_none() {
            match rules[p.0].actions@[p.1] {
                Action::ModifyRequest(m) => lemma_ops_keep_absent(prev.headers, m.headers@, name),
                _ => {},
            }
        }
    }
}

proof fn lemma_post_run_keeps_absent(rules: Seq<Rule>, st: PostState, pos: Seq<(int, int)>, name: Seq<u8>)
    requires
        !has_name(st.0, name),
        forall|k: int|
            0 <= k < pos.len() ==> !response_action_adds(rules[(#[trigger] pos[k]).0].actions@[pos[k].1], name),
    ensures
        !has_name(post_run(rules, st, pos).0, name),
    decreases pos.len(),
{
    if pos.len() > 0 {
        let f = pos.drop_last();
        assert forall|k: int| 0 <= k < f.len() implies !response_action_adds(rules[(#[trigger] f[k]).0].actions@[f[k].1], name) by {
            assert(pos[k] == f[k]);
        }
        lemma_post_run_keeps_absent(rules, st, f, name);
        let prev = post_run(rules, st, f);
        let p = pos[pos.len() - 1];
        match rules[p.0].actions@[p.1] {
            Action::ModifyResponse(m) => lemma_ops_keep_absent(prev.0, m.headers@, name),
            _ => {},
        }
    }
}

/// A request that is forwarded upstream carries neither `Host` nor
/// `Accept-Encoding` unless a matched request modification adds one back.
pub proof fn lemma_forwarded_request_stripped(rules: Seq<Rule>, pem: Seq<u8>, req: RequestView)
    requires
        begin_model(rules, pem, req).stop.is_none(),
        forall|k: int|
            0 <= k < matched_positions(rules, req.host, req.path).len() ==> {
                let p = #[trigger] matched_positions(rules, req.host, req.path)[k];
                !request_action_adds(rules[p.0].actions@[p.1], host())
                    && !request_action_adds(rules[p.0].actions@[p.1], accept_encoding())
            },
    ensures
        !has_name(begin_model(rules, pem, req).headers, host()),
        !has_name(begin_model(rules, pem, req).headers, accept_encoding()),
{
    let h1 = strip(req.headers, host());
    let h2 = strip(h1, accept_encoding());
    lemma_strip_lacks(req.headers, host());
    lemma_strip_keeps_absent(h1, accept_encoding(), host());
    lemma_strip_lacks(h1, accept_encoding());
    let st = fresh_state(h2, req.body, None);
    let pos = matched_positions(rules, req.host, req.path);
    lemma_pre_run_keeps_absent(rules, st, pos, host());
    lemma_pre_run_keeps_absent(rules, st, pos, accept_encoding());
}

/// An upstream response reaches the client without
/// `Strict-Transport-Security` unless a deferred response modification adds
/// it back.
pub proof fn lemma_response_drops_hsts(rules: Seq<Rule>, deferred: Seq<(int, int)>, resp: ResponseView)
    requires
        forall|k: int|
            0 <= k < deferred.len() ==> !response_action_adds(
                rules[(#[trigger] deferred[k]).0].actions@[deferred[k].1],
                hsts(),
            ),
    ensures
        !has_name(finish_model(rules, deferred, resp).0.1, hsts()),
{
    lemma_strip_lacks(resp.1, hsts());
    let init: PostState = (strip(resp.1, hsts()), resp.2, false);
    lemma_post_run_keeps_absent(rules, init, deferred, hsts());
    let h = post_run(rules, init, deferred).0;
    assert(allow_origin().len() != hsts().len());
    assert(allow_methods().len() != hsts().len());
    lemma_strip_keeps_absent(h, allow_origin(), hsts());
    let h1 = strip(h, allow_origin()).push((allow_origin(), star()));
    lemma_push_keeps_absent(strip(h, allow_origin()), (allow_origin(), star()), hsts());
    lemma_strip_keeps_absent(h1, allow_methods(), hsts());
    lemma_push_keeps_absent(strip(h1, allow_methods()), (allow_methods(), star()), hsts());
}

/// Every request for the root certificate gets the same answer whatever the
/// rules: status 200, an attachment disposition, and the PEM bytes as body.
pub proof fn lemma_cert_endpoint_idempotent(rules: Seq<Rule>, pem: Seq<u8>, a: RequestView, b: RequestView)
    requires
        is_cert_request(a),
        is_cert_request(b),
    ensures
        begin_model(rules, pem, a).stop == begin_model(rules, pem, b).stop,
        begin_model(rules, pem, a).stop == Some(cert_view(pem)),
        cert_view(pem).1[0] == (content_disposition(), attachment()),
        cert_view(pem).2 == Some(pem),
{
}

} // verus!
