use good_mitm::action::{Action, HeaderOp, Modify};
use good_mitm::authority::{inner_request_uri, leaf_host, UriError};
use good_mitm::cache::LeafCache;
use good_mitm::headers::{name_eq, Headers};
use good_mitm::pipeline::{begin_request, finish_response, HttpRequest, HttpResponse, RequestOutcome};
use good_mitm::rewind::{Rewind, PEEK_LEN};
use good_mitm::rules::{match_request, Filter, Rule};
use good_mitm::tunnel::{connect_plan, ConnectPlan};
use good_mitm::websocket::{forward_message, Message};

fn b(s: &str) -> Vec<u8> {
    s.as_bytes().to_vec()
}

fn headers(pairs: &[(&str, &str)]) -> Headers {
    let mut h = Headers::new();
    for (n, v) in pairs {
        h.append(b(n), b(v));
    }
    h
}

fn pairs(h: &Headers) -> Vec<(String, String)> {
    h.entries
        .iter()
        .map(|e| (String::from_utf8(e.name.clone()).unwrap(), String::from_utf8(e.value.clone()).unwrap()))
        .collect()
}

fn get(h: &Headers, name: &str) -> Option<String> {
    h.get(name.as_bytes()).map(|v| String::from_utf8(v.clone()).unwrap())
}

fn rule(filter: Filter, actions: Vec<Action>) -> Rule {
    Rule { filter, actions, drop_messages: vec![] }
}

fn request(host: &str, path: &str, hs: &[(&str, &str)]) -> HttpRequest {
    HttpRequest { host: b(host), path: b(path), headers: headers(hs), body: None }
}

const PEM: &str = "-----BEGIN CERTIFICATE-----\nMIIB\n-----END CERTIFICATE-----\n";

#[test]
fn plain_http_redirect() {
    let rules = vec![rule(Filter::Domain(b("example.com")), vec![Action::Redirect("https://elsewhere/".to_string())])];
    let mut req = request("example.com", "/x", &[("host", "example.com")]);
    match begin_request(&rules, &b(PEM), &mut req) {
        RequestOutcome::Respond(resp) => {
            assert_eq!(resp.status, 302);
            assert_eq!(get(&resp.headers, "location").as_deref(), Some("https://elsewhere/"));
            assert_eq!(resp.body, Some(vec![]));
            assert_eq!(get(&resp.headers, "access-control-allow-origin").as_deref(), Some("*"));
        }
        RequestOutcome::Forward(_) => panic!("expected a redirect"),
    }
}

#[test]
fn https_header_injection() {
    let add = Modify { headers: vec![HeaderOp::Add(b("X-Tag"), b("1"))], body: None };
    let rules = vec![rule(Filter::Domain(b("api.test")), vec![Action::ModifyRequest(add)])];
    assert_eq!(connect_plan(&rules, b"api.test:443"), ConnectPlan::Intercept);
    let uri = inner_request_uri(Some(b"api.test"), b"/v").unwrap();
    assert_eq!(uri, b("https://api.test/v"));
    let mut req = request("api.test", "/v", &[("host", "api.test"), ("accept-encoding", "gzip"), ("accept", "*/*")]);
    let ctx = match begin_request(&rules, &b(PEM), &mut req) {
        RequestOutcome::Forward(ctx) => ctx,
        RequestOutcome::Respond(_) => panic!("expected forwarding"),
    };
    assert_eq!(
        pairs(&req.headers),
        vec![("accept".to_string(), "*/*".to_string()), ("X-Tag".to_string(), "1".to_string())]
    );
    let mut resp = HttpResponse {
        status: 200,
        headers: headers(&[("content-type", "text/plain"), ("strict-transport-security", "max-age=3600")]),
        body: None,
    };
    let log = finish_response(&rules, &ctx, &mut resp);
    assert!(!log);
    assert_eq!(resp.status, 200);
    assert_eq!(get(&resp.headers, "strict-transport-security"), None);
    assert_eq!(get(&resp.headers, "access-control-allow-origin").as_deref(), Some("*"));
    assert_eq!(get(&resp.headers, "access-control-allow-methods").as_deref(), Some("*"));
    assert_eq!(get(&resp.headers, "content-type").as_deref(), Some("text/plain"));
    assert_eq!(resp.body, None);
}

#[test]
fn reject_path() {
    let rules = vec![rule(Filter::PathPrefix(b("/ads/")), vec![Action::Reject])];
    assert_eq!(connect_plan(&rules, b"site:443"), ConnectPlan::Intercept);
    let mut req = request("site", "/ads/a.js", &[("host", "site")]);
    match begin_request(&rules, &b(PEM), &mut req) {
        RequestOutcome::Respond(resp) => {
            assert_eq!(resp.status, 502);
            assert_eq!(resp.body, Some(vec![]));
        }
        RequestOutcome::Forward(_) => panic!("expected a rejection"),
    }
    let mut other = request("site", "/index.html", &[("host", "site")]);
    assert!(matches!(begin_request(&rules, &b(PEM), &mut other), RequestOutcome::Forward(_)));
}

#[test]
fn websocket_filter() {
    let rules = vec![Rule { filter: Filter::Domain(b("chat.x")), actions: vec![], drop_messages: vec![b("drop-me")] }];
    let sent = ["keep1", "drop-me", "keep2"];
    let received: Vec<Vec<u8>> = sent
        .iter()
        .filter_map(|m| match forward_message(&rules, b"chat.x", b"/ws", Message::Text(b(m))) {
            Some(Message::Text(t)) => Some(t),
            _ => None,
        })
        .collect();
    assert_eq!(received, vec![b("keep1"), b("keep2")]);
    match forward_message(&rules, b"chat.x", b"/ws", Message::Binary(b("drop-me"))) {
        Some(Message::Binary(t)) => assert_eq!(t, b("drop-me")),
        _ => panic!("binary messages pass"),
    }
    match forward_message(&rules, b"other.x", b"/ws", Message::Text(b("drop-me"))) {
        Some(Message::Text(t)) => assert_eq!(t, b("drop-me")),
        _ => panic!("other hosts pass"),
    }
}

#[test]
fn blind_tunnel_when_no_rule_matches() {
    let rules = vec![rule(Filter::Domain(b("api.test")), vec![Action::LogReq])];
    assert_eq!(connect_plan(&rules, b"vpn.example:443"), ConnectPlan::Tunnel);
    assert_eq!(connect_plan(&vec![], b"vpn.example:443"), ConnectPlan::Tunnel);
    let suffix = vec![rule(Filter::DomainSuffix(b(".example")), vec![Action::LogReq])];
    assert_eq!(connect_plan(&suffix, b"vpn.example:443"), ConnectPlan::Intercept);
}

#[test]
fn cert_download() {
    let rules = vec![rule(Filter::All, vec![Action::Reject])];
    for (path, host) in [("/mitm/cert", "anything"), ("/", "cert.mitm"), ("/mitm/cert", "anything")] {
        let mut req = request(host, path, &[("host", host)]);
        match begin_request(&rules, &b(PEM), &mut req) {
            RequestOutcome::Respond(resp) => {
                assert_eq!(resp.status, 200);
                assert_eq!(get(&resp.headers, "content-type").as_deref(), Some("application/octet-stream"));
                assert_eq!(
                    get(&resp.headers, "content-disposition").as_deref(),
                    Some("attachment; filename=good-mitm.crt")
                );
                assert_eq!(resp.body, Some(b(PEM)));
            }
            RequestOutcome::Forward(_) => panic!("expected the certificate"),
        }
    }
}

#[test]
fn leaf_cache_hits_and_evicts() {
    let mut cache = LeafCache::new(2);
    assert_eq!(cache.get_or_insert(b"a.test:443"), (0, true));
    assert_eq!(cache.get_or_insert(b"a.test:443"), (0, false));
    assert_eq!(cache.get_or_insert(b"b.test:443"), (1, true));
    assert_eq!(cache.get_or_insert(b"a.test:443"), (0, false));
    // b is now the least recently used and leaves
    assert_eq!(cache.get_or_insert(b"c.test:443"), (1, true));
    assert_eq!(cache.get_or_insert(b"a.test:443"), (0, false));
    assert_eq!(cache.get_or_insert(b"b.test:443"), (1, true));
    let mut one = LeafCache::new(0);
    assert_eq!(one.get_or_insert(b"x"), (0, true));
    assert_eq!(one.get_or_insert(b"y"), (0, true));
}

#[test]
fn host_and_accept_encoding_removed() {
    let rules: Vec<Rule> = vec![];
    let mut req = request("h", "/", &[("Host", "h"), ("ACCEPT-ENCODING", "br"), ("host", "h2"), ("x", "y")]);
    assert!(matches!(begin_request(&rules, &b(PEM), &mut req), RequestOutcome::Forward(_)));
    assert_eq!(pairs(&req.headers), vec![("x".to_string(), "y".to_string())]);
}

#[test]
fn actions_follow_declaration_order() {
    let set = |v: &str| Modify { headers: vec![HeaderOp::Replace(b("x-order"), b(v))], body: None };
    let rules = vec![
        rule(Filter::Domain(b("o.test")), vec![Action::ModifyRequest(set("1")), Action::ModifyRequest(set("2"))]),
        rule(Filter::PathPrefix(b("/nope")), vec![Action::Reject]),
        rule(Filter::DomainKeyword(b("o.t")), vec![Action::LogReq, Action::ModifyRequest(set("3"))]),
    ];
    assert_eq!(match_request(&rules, b"o.test", b"/p"), vec![(0, 0), (0, 1), (2, 0), (2, 1)]);
    for _ in 0..2 {
        let mut req = request("o.test", "/p", &[]);
        match begin_request(&rules, &b(PEM), &mut req) {
            RequestOutcome::Forward(ctx) => assert!(ctx.log_request),
            RequestOutcome::Respond(_) => panic!("expected forwarding"),
        }
        assert_eq!(get(&req.headers, "x-order").as_deref(), Some("3"));
        assert_eq!(req.headers.len(), 1);
    }
}

#[test]
fn response_actions_are_deferred() {
    let m = Modify {
        headers: vec![HeaderOp::Remove(b("server")), HeaderOp::Add(b("x-seen"), b("yes"))],
        body: Some(b("replaced")),
    };
    let rules = vec![rule(Filter::All, vec![Action::ModifyResponse(m), Action::LogRes, Action::Js("f()".to_string())])];
    let mut req = request("a", "/", &[]);
    let ctx = match begin_request(&rules, &b(PEM), &mut req) {
        RequestOutcome::Forward(ctx) => ctx,
        RequestOutcome::Respond(_) => panic!("expected forwarding"),
    };
    assert_eq!(ctx.rule, vec![(0, 0), (0, 1)]);
    assert_eq!(ctx.scripts, vec![(0, 2)]);
    let mut resp = HttpResponse { status: 404, headers: headers(&[("Server", "s"), ("STRICT-Transport-Security", "x")]), body: None };
    assert!(finish_response(&rules, &ctx, &mut resp));
    assert_eq!(resp.status, 404);
    assert_eq!(
        pairs(&resp.headers),
        vec![
            ("x-seen".to_string(), "yes".to_string()),
            ("access-control-allow-origin".to_string(), "*".to_string()),
            ("access-control-allow-methods".to_string(), "*".to_string()),
        ]
    );
    assert_eq!(resp.body, Some(b("replaced")));
}

#[test]
fn request_body_replaced_and_reject_after_modify() {
    let m = Modify { headers: vec![], body: Some(b("new")) };
    let rules = vec![rule(Filter::All, vec![Action::ModifyRequest(m), Action::Reject, Action::LogReq])];
    let mut req = request("a", "/", &[]);
    match begin_request(&rules, &b(PEM), &mut req) {
        RequestOutcome::Respond(resp) => assert_eq!(resp.status, 502),
        RequestOutcome::Forward(_) => panic!("expected a rejection"),
    }
    assert_eq!(req.body, Some(b("new")));
}

#[test]
fn inner_uri_from_host_header() {
    assert_eq!(inner_request_uri(Some(b"site:8443"), b"/a?b=c").unwrap(), b("https://site:8443/a?b=c"));
    assert_eq!(inner_request_uri(Some(b"site"), b"").unwrap(), b("https://site/"));
    assert_eq!(inner_request_uri(None, b"/a"), Err(UriError::MissingHost));
    assert_eq!(inner_request_uri(Some(b"bad host"), b"/a"), Err(UriError::InvalidHost));
    assert_eq!(inner_request_uri(Some(b""), b"/a"), Err(UriError::InvalidHost));
}

#[test]
fn leaf_host_drops_port() {
    assert_eq!(leaf_host(b"api.test:443"), b("api.test"));
    assert_eq!(leaf_host(b"api.test"), b("api.test"));
    assert_eq!(leaf_host(b"[::1]:8443"), b("[::1]"));
}

#[test]
fn rewind_replays_peeked_bytes() {
    assert_eq!(PEEK_LEN, 4);
    let mut r = Rewind::new(vec![0x16, 3, 1, 0]);
    assert!(!r.is_drained());
    assert_eq!(r.take(3), vec![0x16, 3, 1]);
    assert_eq!(r.take(3), vec![0]);
    assert!(r.is_drained());
    assert_eq!(r.take(3), Vec::<u8>::new());
}

#[test]
fn header_names_ignore_case() {
    assert!(name_eq(b"Content-Type", b"content-type"));
    assert!(!name_eq(b"content-type", b"content-typ"));
    assert!(!name_eq(b"a", b"b"));
    let mut h = headers(&[("A", "1"), ("b", "2"), ("a", "3")]);
    h.insert(b("a"), b("4"));
    assert_eq!(pairs(&h), vec![("b".to_string(), "2".to_string()), ("a".to_string(), "4".to_string())]);
}
