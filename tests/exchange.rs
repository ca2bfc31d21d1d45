use mitm_rules::filter::MitmFilter;
use mitm_rules::handler::MitmHandler;
use mitm_rules::message::{
    header_value, names_equal, remove_header, Header, Request, RequestOrResponse, Response, Uri,
};
use mitm_rules::rule::{
    match_rules, Condition, RequestAction, ResponseAction, Rule,
};

fn header(name: &str, value: &str) -> Header {
    Header { name: name.as_bytes().to_vec(), value: value.as_bytes().to_vec() }
}

fn request(host: &str, path: &str, headers: Vec<Header>) -> Request {
    Request {
        method: b"GET".to_vec(),
        uri: Uri { host: Some(host.as_bytes().to_vec()), path: path.as_bytes().to_vec() },
        headers,
        body: Vec::new(),
    }
}

fn response(status: u16, headers: Vec<Header>, body: &str) -> Response {
    Response { status, headers, body: body.as_bytes().to_vec() }
}

fn rule(name: &str, condition: Option<Condition>, req: RequestAction, res: ResponseAction) -> Rule {
    Rule { name: name.as_bytes().to_vec(), condition, on_request: req, on_response: res }
}

fn names(rules: &[Rule]) -> Vec<String> {
    rules.iter().map(|r| String::from_utf8(r.name.clone()).unwrap()).collect()
}

fn header_pairs(hs: &[Header]) -> Vec<(String, String)> {
    hs.iter()
        .map(|h| {
            (String::from_utf8(h.name.clone()).unwrap(), String::from_utf8(h.value.clone()).unwrap())
        })
        .collect()
}

fn forwarded(out: RequestOrResponse) -> Request {
    match out {
        RequestOrResponse::Request(r) => r,
        RequestOrResponse::Response(_) => panic!("expected a forwarded request"),
    }
}

#[test]
fn header_names_ignore_case() {
    assert!(names_equal(b"Accept-Encoding", b"accept-encoding"));
    assert!(!names_equal(b"accept-encodings", b"accept-encoding"));
    assert!(!names_equal(b"x-tag", b"x-tab"));
}

#[test]
fn remove_header_takes_every_copy_and_keeps_order() {
    let mut hs = vec![
        header("A", "1"),
        header("accept-encoding", "gzip"),
        header("B", "2"),
        header("ACCEPT-ENCODING", "br"),
    ];
    remove_header(&mut hs, b"Accept-Encoding");
    assert_eq!(
        header_pairs(&hs),
        vec![("A".to_string(), "1".to_string()), ("B".to_string(), "2".to_string())]
    );
}

#[test]
fn header_value_gives_the_first() {
    let hs = vec![header("X", "1"), header("Content-Type", "text/html"), header("content-type", "b")];
    assert_eq!(header_value(&hs, b"content-type").unwrap(), &b"text/html".to_vec());
    assert!(header_value(&hs, b"missing").is_none());
}

#[test]
fn matching_keeps_order_and_repeats() {
    let rules = vec![
        rule("A", Some(Condition::PathPrefix(b"/a".to_vec())), RequestAction::Keep, ResponseAction::Keep),
        rule("B", Some(Condition::HostIs(b"other.org".to_vec())), RequestAction::Keep, ResponseAction::Keep),
        rule("C", Some(Condition::Always), RequestAction::Keep, ResponseAction::Keep),
        rule("A", Some(Condition::PathPrefix(b"/a".to_vec())), RequestAction::Keep, ResponseAction::Keep),
    ];
    let req = request("example.com", "/abc", vec![]);
    assert_eq!(names(&match_rules(&rules, &req)), vec!["A", "C", "A"]);
    assert_eq!(rules.len(), 4);
}

#[test]
fn matching_twice_gives_the_same() {
    let rules = vec![
        rule("A", Some(Condition::MethodIs(b"GET".to_vec())), RequestAction::Keep, ResponseAction::Keep),
        rule("B", Some(Condition::PathIs(b"/x".to_vec())), RequestAction::Keep, ResponseAction::Keep),
        rule("C", Some(Condition::HasHeader(b"cookie".to_vec())), RequestAction::Keep, ResponseAction::Keep),
    ];
    let req = request("example.com", "/y", vec![header("Cookie", "k=v")]);
    let first = names(&match_rules(&rules, &req));
    let second = names(&match_rules(&rules, &req));
    assert_eq!(first, vec!["A", "C"]);
    assert_eq!(first, second);
}

#[test]
fn rule_without_condition_never_matches() {
    let rules = vec![rule("none", None, RequestAction::Keep, ResponseAction::Keep)];
    let req = request("example.com", "/", vec![]);
    assert!(match_rules(&rules, &req).is_empty());
}

#[test]
fn host_condition_ignores_case() {
    let r = rule("h", Some(Condition::HostIs(b"Example.COM".to_vec())), RequestAction::Keep, ResponseAction::Keep);
    assert!(r.matches(&request("example.com", "/", vec![])));
    let mut no_host = request("example.com", "/", vec![]);
    no_host.uri.host = None;
    assert!(!r.matches(&no_host));
}

#[test]
fn block_rule_answers_without_upstream() {
    let rules = vec![rule(
        "block",
        Some(Condition::PathIs(b"/block".to_vec())),
        RequestAction::Respond(403, Vec::new()),
        ResponseAction::Keep,
    )];
    let mut h = MitmHandler::new();
    match h.handle_request(&rules, request("example.com", "/block", vec![])) {
        RequestOrResponse::Response(res) => assert_eq!(res.status, 403),
        RequestOrResponse::Request(_) => panic!("the request should not go upstream"),
    }
    let mut h2 = MitmHandler::new();
    let out = forwarded(h2.handle_request(&rules, request("example.com", "/open", vec![])));
    assert_eq!(out.uri.path, b"/open".to_vec());
}

#[test]
fn tag_rule_adds_header_and_reports_host() {
    let rules = vec![rule(
        "tag",
        Some(Condition::HostIs(b"example.com".to_vec())),
        RequestAction::AddHeader(header("X-Tag", "1")),
        ResponseAction::Keep,
    )];
    let mut h = MitmHandler::new();
    let out = forwarded(h.handle_request(&rules, request("example.com", "/", vec![])));
    assert_eq!(header_value(&out.headers, b"x-tag").unwrap(), &b"1".to_vec());
    let (res, record) = h.handle_response(response(200, vec![header("Content-Type", "text/html")], "hi"));
    let record = record.unwrap();
    assert_eq!(record.status, 200);
    assert_eq!(record.host, b"example.com".to_vec());
    assert_eq!(record.content_type, b"text/html".to_vec());
    assert_eq!(res.body, b"hi".to_vec());
}

#[test]
fn empty_rule_set_only_strips_encoding() {
    let rules: Vec<Rule> = Vec::new();
    let mut h = MitmHandler::new();
    let req = request("example.com", "/p", vec![header("Accept-Encoding", "gzip"), header("Host", "example.com")]);
    let out = forwarded(h.handle_request(&rules, req));
    assert_eq!(header_pairs(&out.headers), vec![("Host".to_string(), "example.com".to_string())]);
    assert_eq!(out.uri.path, b"/p".to_vec());
    assert_eq!(out.method, b"GET".to_vec());
    assert!(!h.should_modify_response);
    let (res, record) = h.handle_response(response(404, vec![header("a", "b")], "body"));
    assert!(record.is_none());
    assert_eq!(res.status, 404);
    assert_eq!(res.body, b"body".to_vec());
    assert_eq!(header_pairs(&res.headers), vec![("a".to_string(), "b".to_string())]);
}

#[test]
fn unmatched_response_is_untouched() {
    let rules = vec![rule(
        "other",
        Some(Condition::HostIs(b"other.org".to_vec())),
        RequestAction::Keep,
        ResponseAction::ReplaceBody(b"changed".to_vec()),
    )];
    let mut h = MitmHandler::new();
    forwarded(h.handle_request(&rules, request("example.com", "/", vec![])));
    let (res, record) = h.handle_response(response(200, vec![], "original"));
    assert!(record.is_none());
    assert_eq!(res.body, b"original".to_vec());
}

#[test]
fn response_runs_matched_rules_in_order() {
    let rules = vec![
        rule("one", Some(Condition::Always), RequestAction::Keep, ResponseAction::AppendBody(b"1".to_vec())),
        rule("skip", None, RequestAction::Keep, ResponseAction::AppendBody(b"S".to_vec())),
        rule("two", Some(Condition::Always), RequestAction::Keep, ResponseAction::AppendBody(b"2".to_vec())),
    ];
    let mut h = MitmHandler::new();
    forwarded(h.handle_request(&rules, request("example.com", "/", vec![])));
    assert_eq!(names(&h.rule), vec!["one", "two"]);
    assert_eq!(h.request_steps, 2);
    let (res, record) = h.handle_response(response(200, vec![], "x"));
    assert!(record.is_some());
    assert_eq!(res.body, b"x12".to_vec());
}

#[test]
fn rules_never_see_accept_encoding() {
    let rules = vec![
        rule("sees", Some(Condition::HasHeader(b"accept-encoding".to_vec())), RequestAction::Keep, ResponseAction::Keep),
        rule("path", Some(Condition::Always), RequestAction::SetPath(b"/new".to_vec()), ResponseAction::Keep),
    ];
    let mut h = MitmHandler::new();
    let out = forwarded(h.handle_request(&rules, request("example.com", "/old", vec![header("ACCEPT-ENCODING", "br")])));
    assert_eq!(names(&h.rule), vec!["path"]);
    assert!(header_value(&out.headers, b"accept-encoding").is_none());
    assert_eq!(out.uri.path, b"/new".to_vec());
}

#[test]
fn answer_stops_the_request_fold() {
    let rules = vec![
        rule("tag", Some(Condition::Always), RequestAction::AddHeader(header("X-A", "1")), ResponseAction::Keep),
        rule("answer", Some(Condition::Always), RequestAction::Respond(451, b"no".to_vec()), ResponseAction::SetStatus(410)),
        rule("late", Some(Condition::Always), RequestAction::SetPath(b"/late".to_vec()), ResponseAction::AddHeader(header("X-Late", "1"))),
    ];
    let mut h = MitmHandler::new();
    let res = match h.handle_request(&rules, request("example.com", "/", vec![])) {
        RequestOrResponse::Response(res) => res,
        RequestOrResponse::Request(_) => panic!("expected an answer"),
    };
    assert_eq!(h.request_steps, 2);
    assert_eq!(names(&h.rule), vec!["tag", "answer", "late"]);
    assert_eq!(res.status, 451);
    assert_eq!(res.body, b"no".to_vec());
    assert!(res.headers.is_empty());
    let (res, record) = h.handle_response(res);
    assert_eq!(record.unwrap().status, 451);
    assert_eq!(res.status, 410);
    assert_eq!(header_value(&res.headers, b"x-late").unwrap(), &b"1".to_vec());
}

#[test]
fn content_type_falls_back_to_unknown() {
    let rules = vec![rule("all", Some(Condition::Always), RequestAction::Keep, ResponseAction::Keep)];
    let mut h = MitmHandler::new();
    forwarded(h.handle_request(&rules, request("example.com", "/", vec![])));
    let (_, absent) = h.handle_response(response(200, vec![], ""));
    assert_eq!(absent.unwrap().content_type, b"unknown".to_vec());
    let bad = Header { name: b"content-type".to_vec(), value: vec![0xff, 0x01] };
    let (_, malformed) = h.handle_response(response(200, vec![bad], ""));
    assert_eq!(malformed.unwrap().content_type, b"unknown".to_vec());
    let (_, text) = h.handle_response(response(200, vec![header("Content-Type", "a/b;\tq=1")], ""));
    assert_eq!(text.unwrap().content_type, b"a/b;\tq=1".to_vec());
}

#[test]
fn record_host_is_empty_without_host() {
    let rules = vec![rule("all", Some(Condition::Always), RequestAction::Keep, ResponseAction::Keep)];
    let mut h = MitmHandler::new();
    let mut req = request("x", "/", vec![]);
    req.uri.host = None;
    forwarded(h.handle_request(&rules, req));
    let (_, record) = h.handle_response(response(301, vec![], ""));
    assert_eq!(record.unwrap().host, Vec::<u8>::new());
}

#[test]
fn response_actions_rewrite() {
    let r = rule("r", Some(Condition::Always), RequestAction::Keep, ResponseAction::RemoveHeader(b"server".to_vec()));
    let res = r.do_res(response(200, vec![header("Server", "x"), header("Y", "z")], "b"));
    assert_eq!(header_pairs(&res.headers), vec![("Y".to_string(), "z".to_string())]);
    let r = rule("r", Some(Condition::Always), RequestAction::Keep, ResponseAction::ReplaceBody(b"new".to_vec()));
    assert_eq!(r.do_res(response(200, vec![], "old")).body, b"new".to_vec());
    let r = rule("r", Some(Condition::Always), RequestAction::RemoveHeader(b"cookie".to_vec()), ResponseAction::Keep);
    let out = forwarded(r.do_req(request("h", "/", vec![header("Cookie", "1"), header("A", "2")])));
    assert_eq!(header_pairs(&out.headers), vec![("A".to_string(), "2".to_string())]);
}

#[test]
fn a_fresh_handler_passes_responses_through() {
    let h = MitmHandler::default();
    let (res, record) = h.handle_response(response(500, vec![], "e"));
    assert!(record.is_none());
    assert_eq!(res.status, 500);
}

#[test]
fn filter_takes_every_connection() {
    let f = MitmFilter::default();
    assert!(f.filter(&request("example.com", "/", vec![])));
}

#[test]
fn added_accept_encoding_never_goes_upstream() {
    let rules = vec![
        rule("enc", Some(Condition::Always), RequestAction::AddHeader(header("Accept-Encoding", "gzip")), ResponseAction::Keep),
        rule("tag", Some(Condition::Always), RequestAction::AddHeader(header("X-Tag", "1")), ResponseAction::Keep),
    ];
    let mut h = MitmHandler::new();
    let out = forwarded(h.handle_request(&rules, request("example.com", "/", vec![header("accept-encoding", "br")])));
    assert!(header_value(&out.headers, b"accept-encoding").is_none());
    assert_eq!(header_pairs(&out.headers), vec![("X-Tag".to_string(), "1".to_string())]);
    assert_eq!(h.request_steps, 2);
}

#[test]
fn cloned_handler_keeps_the_exchange_state() {
    let rules = vec![rule("one", Some(Condition::Always), RequestAction::Keep, ResponseAction::AppendBody(b"!".to_vec()))];
    let mut h = MitmHandler::new();
    forwarded(h.handle_request(&rules, request("example.com", "/", vec![])));
    let c = h.clone();
    assert_eq!(names(&c.rule), vec!["one"]);
    assert!(c.should_modify_response);
    assert_eq!(c.request_steps, 1);
    let (res, record) = c.handle_response(response(200, vec![], "a"));
    assert_eq!(res.body, b"a!".to_vec());
    assert_eq!(record.unwrap().host, b"example.com".to_vec());
}
