use vstd::prelude::*;

use crate::message::{
    first_value, has_header, header_value, lemma_without_has_none, remove_header, without,
    OutcomeModel, Request,
    RequestModel, RequestOrResponse, Response, ResponseModel, Uri, UriModel,
};
use crate::rule::{
    apply_request, apply_response, match_rules, matched, rules_view, Rule, RuleModel,
};

verus! {

/// The header by which a client lists the compressions it accepts.
pub open spec fn accept_encoding() -> Seq<u8> {
    seq![97u8, 99, 99, 101, 112, 116, 45, 101, 110, 99, 111, 100, 105, 110, 103]
}

/// The header that names a body's media type.
pub open spec fn content_type() -> Seq<u8> {
    seq![99u8, 111, 110, 116, 101, 110, 116, 45, 116, 121, 112, 101]
}

/// What stands in a record for a content type that is absent or not text.
pub open spec fn unknown() -> Seq<u8> {
    seq![117u8, 110, 107, 110, 111, 119, 110]
}

fn accept_encoding_name() -> (r: Vec<u8>)
    ensures
        r@ == accept_encoding(),
{
    let r: Vec<u8> = vec![97u8, 99, 99, 101, 112, 116, 45, 101, 110, 99, 111, 100, 105, 110, 103];
    assert(r@ =~= accept_encoding());
    r
}

fn content_type_name() -> (r: Vec<u8>)
    ensures
        r@ == content_type(),
{
    let r: Vec<u8> = vec![99u8, 111, 110, 116, 101, 110, 116, 45, 116, 121, 112, 101];
    assert(r@ =~= content_type());
    r
}

fn unknown_text() -> (r: Vec<u8>)
    ensures
        r@ == unknown(),
{
    let r: Vec<u8> = vec![117u8, 110, 107, 110, 111, 119, 110];
    assert(r@ =~= unknown());
    r
}

/// A request as the rules see it: without the compression negotiation
/// header, so that every body they meet is plain.
pub open spec fn strip_encoding(req: RequestModel) -> RequestModel {
    RequestModel { headers: without(req.headers, accept_encoding()), ..req }
}

/// The request phase's outcome: `req` folded through `rules` in order, up
/// to the first rule that answers with a response.
pub open spec fn fold_request(rules: Seq<RuleModel>, req: RequestModel) -> OutcomeModel
    decreases rules.len(),
{
    if rules.len() == 0 {
        OutcomeModel::Forward(req)
    } else {
        match apply_request(rules[0].on_request, req) {
            OutcomeModel::Forward(next) => fold_request(rules.drop_first(), next),
            OutcomeModel::Reply(res) => OutcomeModel::Reply(res),
        }
    }
}

/// How many of `rules`, from the first, are handed the request by that fold.
pub open spec fn request_steps(rules: Seq<RuleModel>, req: RequestModel) -> nat
    decreases rules.len(),
{
    if rules.len() == 0 {
        0
    } else {
        match apply_request(rules[0].on_request, req) {
            OutcomeModel::Forward(next) => 1 + request_steps(rules.drop_first(), next),
            OutcomeModel::Reply(_) => 1,
        }
    }
}

/// `res` folded through every one of `rules`, in order.
pub open spec fn fold_response(rules: Seq<RuleModel>, res: ResponseModel) -> ResponseModel
    decreases rules.len(),
{
    if rules.len() == 0 {
        res
    } else {
        fold_response(rules.drop_first(), apply_response(rules[0].on_response, res))
    }
}

/// Bytes that a header value may hold as text: visible ASCII and tab.
pub open spec fn is_text(v: Seq<u8>) -> bool {
    forall|i: int| 0 <= i < v.len() ==> (#[trigger] v[i] == 9 || (32 <= v[i] && v[i] <= 126))
}

/// The content type that a record shows for `res`.
pub open spec fn content_type_of(res: ResponseModel) -> Seq<u8> {
    match first_value(res.headers, content_type()) {
        Some(v) => if is_text(v) {
            v
        } else {
            unknown()
        },
        None => unknown(),
    }
}

/// The host that a record shows for a recorded target.
pub open spec fn host_of(uri: Option<UriModel>) -> Seq<u8> {
    match uri {
        Some(u) => match u.host {
            Some(h) => h,
            None => Seq::empty(),
        },
        None => Seq::empty(),
    }
}

/// What the response phase reports of an exchange whose response it rewrites.
pub struct ResponseRecord {
    pub status: u16,
    pub host: Vec<u8>,
    pub content_type: Vec<u8>,
}

pub ghost struct RecordModel {
    pub status: u16,
    pub host: Seq<u8>,
    pub content_type: Seq<u8>,
}

impl View for ResponseRecord {
    type V = RecordModel;

    open spec fn view(&self) -> RecordModel {
        RecordModel { status: self.status, host: self.host@, content_type: self.content_type@ }
    }
}

/// The state of one exchange: whether its response is to be rewritten, the
/// rules that matched its request, in order, the request's target, and how
/// many of those rules were handed the request.
pub struct MitmHandler {
    pub should_modify_response: bool,
    pub rule: Vec<Rule>,
    pub uri: Option<Uri>,
    pub request_steps: usize,
}

pub ghost struct SessionModel {
    pub should_modify_response: bool,
    pub rules: Seq<RuleModel>,
    pub uri: Option<UriModel>,
    pub request_steps: nat,
}

impl View for MitmHandler {
    type V = SessionModel;

    open spec fn view(&self) -> SessionModel {
        SessionModel {
            should_modify_response: self.should_modify_response,
            rules: rules_view(self.rule@),
            uri: match self.uri {
                Some(u) => Some(u@),
                None => None,
            },
            request_steps: self.request_steps as nat,
        }
    }
}

/// The state in which an exchange starts.
pub open spec fn fresh_session() -> SessionModel {
    SessionModel {
        should_modify_response: false,
        rules: Seq::empty(),
        uri: None,
        request_steps: 0,
    }
}

/// The state that the request phase leaves for `req` under `rules`.
pub open spec fn session_after(rules: Seq<RuleModel>, req: RequestModel) -> SessionModel {
    let m = matched(rules, strip_encoding(req));
    SessionModel {
        should_modify_response: m.len() > 0,
        rules: m,
        uri: Some(req.uri),
        request_steps: request_steps(m, strip_encoding(req)),
    }
}

/// What the request phase hands on for `req` under `rules`: the fold's
/// outcome, where a request that goes upstream is stripped once more of the
/// compression negotiation header, whatever the rules did to it.
pub open spec fn request_phase(rules: Seq<RuleModel>, req: RequestModel) -> OutcomeModel {
    match fold_request(matched(rules, strip_encoding(req)), strip_encoding(req)) {
        OutcomeModel::Forward(f) => OutcomeModel::Forward(strip_encoding(f)),
        OutcomeModel::Reply(res) => OutcomeModel::Reply(res),
    }
}

/// What the response phase makes of `res` in state `s`: the response, and
/// the record, if one is made.
pub open spec fn response_phase(s: SessionModel, res: ResponseModel) -> (
    ResponseModel,
    Option<RecordModel>,
) {
    if !s.should_modify_response || s.rules.len() == 0 {
        (res, None)
    } else {
        (
            fold_response(s.rules, res),
            Some(
                RecordModel {
                    status: res.status,
                    host: host_of(s.uri),
                    content_type: content_type_of(res),
                },
            ),
        )
    }
}

impl Clone for MitmHandler {
    fn clone(&self) -> (r: Self)
        ensures
            r@ == self@,
    {
        let uri = match &self.uri {
            Some(u) => Some(u.clone()),
            None => None,
        };
        MitmHandler {
            should_modify_response: self.should_modify_response,
            rule: clone_rules(&self.rule),
            uri,
            request_steps: self.request_steps,
        }
    }
}

fn clone_rules(rules: &Vec<Rule>) -> (r: Vec<Rule>)
    ensures
        rules_view(r@) == rules_view(rules@),
{
    let mut out: Vec<Rule> = Vec::new();
    let mut i: usize = 0;
    while i < rules.len()
        invariant
            0 <= i <= rules@.len(),
            rules_view(out@) =~= rules_view(rules@).subrange(0, i as int),
        decreases rules@.len() - i,
    {
        let ghost before = out@;
        out.push(rules[i].clone());
        assert(rules_view(out@) =~= rules_view(before).push(rules_view(rules@)[i as int]));
        i += 1;
    }
    out
}

impl Default for MitmHandler {
    fn default() -> (r: Self)
        ensures
            r@ == fresh_session(),
    {
        MitmHandler::new()
    }
}

fn host_text(uri: &Option<Uri>) -> (r: Vec<u8>)
    ensures
        r@ == host_of(match uri {
            Some(u) => Some(u@),
            None => None,
        }),
{
    match uri {
        Some(u) => match &u.host {
            Some(h) => h.clone(),
            None => Vec::new(),
        },
        None => Vec::new(),
    }
}

/// Whether every byte of `v` is text as a header value holds it.
pub fn text_value(v: &[u8]) -> (r: bool)
    ensures
        r == is_text(v@),
{
    let mut i: usize = 0;
    while i < v.len()
        invariant
            0 <= i <= v@.len(),
            forall|j: int| 0 <= j < i ==> (#[trigger] v@[j] == 9 || (32 <= v@[j] && v@[j] <= 126)),
        decreases v@.len() - i,
    {
        let b = v[i];
        if !(b == 9 || (32 <= b && b <= 126)) {
            return false;
        }
        i += 1;
    }
    true
}

fn content_type_text(res: &Response) -> (r: Vec<u8>)
    ensures
        r@ == content_type_of(res@),
{
    let name = content_type_name();
    match header_value(&res.headers, name.as_slice()) {
        Some(v) => if text_value(v.as_slice()) {
            v.clone()
        } else {
            unknown_text()
        },
        None => unknown_text(),
    }
}

impl MitmHandler {
    /// A handler for a new exchange.
    pub fn new() -> (r: Self)
        ensures
            r@ == fresh_session(),
    {
        let r = MitmHandler {
            should_modify_response: false,
            rule: Vec::new(),
            uri: None,
            request_steps: 0,
        };
        assert(rules_view(r.rule@) =~= Seq::empty());
        r
    }

    /// The request phase: strips the compression negotiation header, records
    /// the target, keeps the rules of `rules` that match, and folds the
    /// request through them in order until one answers with a response.
    pub fn handle_request(&mut self, rules: &Vec<Rule>, request: Request) -> (r: RequestOrResponse)
        ensures
            final(self)@ == session_after(rules_view(rules@), request@),
            r@ == request_phase(rules_view(rules@), request@),
    {
        let ghost orig = request@;
        let mut req = request;
        self.uri = Some(req.uri.clone());
        let name = accept_encoding_name();
        remove_header(&mut req.headers, name.as_slice());
        let ghost start = req@;
        assert(start == strip_encoding(orig)) by {
            assert(start =~= strip_encoding(orig));
        }
        self.rule = match_rules(rules, &req);
        self.should_modify_response = self.rule.len() > 0;
        self.request_steps = 0;
        let ghost m = rules_view(self.rule@);
        assert(m.subrange(0, m.len() as int) =~= m);
        let mut i: usize = 0;
        while i < self.rule.len()
            invariant
                0 <= i <= self.rule@.len(),
                m == rules_view(self.rule@),
                start == strip_encoding(orig),
                orig == request@,
                m == matched(rules_view(rules@), start),
                self@.uri == Some(orig.uri),
                self.should_modify_response == (m.len() > 0),
                self.request_steps == i,
                fold_request(m, start) == fold_request(m.subrange(i as int, m.len() as int), req@),
                request_steps(m, start) == i + request_steps(m.subrange(i as int, m.len() as int), req@),
            decreases self.rule@.len() - i,
        {
            let ghost rest = m.subrange(i as int, m.len() as int);
            assert(rest.drop_first() =~= m.subrange(i + 1, m.len() as int));
            assert(rest[0] == m[i as int]);
            let ghost cur = req@;
            let out = self.rule[i].do_req(req);
            self.request_steps = i + 1;
            match out {
                RequestOrResponse::Request(next) => {
                    assert(fold_request(rest, cur) == fold_request(rest.drop_first(), next@));
                    assert(request_steps(rest, cur) == 1 + request_steps(rest.drop_first(), next@));
                    req = next;
                },
                RequestOrResponse::Response(res) => {
                    assert(fold_request(rest, cur) == OutcomeModel::Reply(res@));
                    assert(request_steps(rest, cur) == 1);
                    return RequestOrResponse::Response(res);
                },
            }
            i += 1;
        }
        let ghost folded = req@;
        remove_header(&mut req.headers, name.as_slice());
        assert(req@ =~= strip_encoding(folded));
        RequestOrResponse::Request(req)
    }

    /// The response phase: where the request matched no rule, `res` comes
    /// back as it is and nothing is reported; else a record of its status,
    /// the recorded host and its content type comes back with `res` folded
    /// through the matched rules in the order in which they matched.
    pub fn handle_response(&self, res: Response) -> (r: (Response, Option<ResponseRecord>))
        ensures
            (r.0@, match r.1 {
                Some(rec) => Some(rec@),
                None => None,
            }) == response_phase(self@, res@),
    {
        if !self.should_modify_response || self.rule.len() == 0 {
            return (res, None);
        }
        let record = ResponseRecord {
            status: res.status,
            host: host_text(&self.uri),
            content_type: content_type_text(&res),
        };
        let ghost m = rules_view(self.rule@);
        let ghost first = res@;
        assert(m.subrange(0, m.len() as int) =~= m);
        let mut res = res;
        let mut i: usize = 0;
        while i < self.rule.len()
            invariant
                0 <= i <= self.rule@.len(),
                m == rules_view(self.rule@),
                fold_response(m, first) == fold_response(m.subrange(i as int, m.len() as int), res@),
            decreases self.rule@.len() - i,
        {
            let ghost rest = m.subrange(i as int, m.len() as int);
            assert(rest.drop_first() =~= m.subrange(i + 1, m.len() as int));
            assert(rest[0] == m[i as int]);
            res = self.rule[i].do_res(res);
            i += 1;
        }
        (res, Some(record))
    }
}

/// The rules never see the compression negotiation header, and a request
/// that goes upstream never carries it, whatever the rules did.
pub proof fn lemma_no_accept_encoding_upstream(rules: Seq<RuleModel>, req: RequestModel)
    ensures
        !has_header(strip_encoding(req).headers, accept_encoding()),
        match request_phase(rules, req) {
            OutcomeModel::Forward(f) => !has_header(f.headers, accept_encoding()),
            OutcomeModel::Reply(_) => true,
        },
{
    lemma_without_has_none(req.headers, accept_encoding());
    let s = strip_encoding(req);
    match fold_request(matched(rules, s), s) {
        OutcomeModel::Forward(f) => {
            lemma_without_has_none(f.headers, accept_encoding());
        },
        OutcomeModel::Reply(_) => {},
    }
}

/// When a request matches no rule, its response comes back exactly as it
/// came, and nothing is reported.
pub proof fn lemma_unmatched_response_untouched(
    rules: Seq<RuleModel>,
    req: RequestModel,
    res: ResponseModel,
)
    requires
        matched(rules, strip_encoding(req)).len() == 0,
    ensures
        response_phase(session_after(rules, req), res) == (res, None::<RecordModel>),
{
}

/// When a request matches some rules, its response is folded through
/// exactly those rules, in the order in which they matched, and one record
/// is made.
pub proof fn lemma_response_uses_matched_rules(
    rules: Seq<RuleModel>,
    req: RequestModel,
    res: ResponseModel,
)
    requires
        matched(rules, strip_encoding(req)).len() > 0,
    ensures
        response_phase(session_after(rules, req), res).0 == fold_response(
            matched(rules, strip_encoding(req)),
            res,
        ),
        response_phase(session_after(rules, req), res).1 is Some,
{
}

/// Once a rule answers a request with a response, no rule after it is
/// handed the request: whatever rules follow it, the number of rules called
/// and the outcome stay the same.
pub proof fn lemma_answer_ends_request_fold(
    rules: Seq<RuleModel>,
    req: RequestModel,
    after: Seq<RuleModel>,
)
    requires
        fold_request(rules, req) is Reply,
    ensures
        1 <= request_steps(rules, req) <= rules.len(),
        fold_request(rules.subrange(0, request_steps(rules, req) as int) + after, req)
            == fold_request(rules, req),
        request_steps(rules.subrange(0, request_steps(rules, req) as int) + after, req)
            == request_steps(rules, req),
    decreases rules.len(),
{
    let k = request_steps(rules, req);
    let joined = rules.subrange(0, k as int) + after;
    match apply_request(rules[0].on_request, req) {
        OutcomeModel::Forward(next) => {
            let rest = rules.drop_first();
            lemma_answer_ends_request_fold(rest, next, after);
            let k2 = request_steps(rest, next);
            assert(joined.drop_first() =~= rest.subrange(0, k2 as int) + after);
            assert(joined[0] == rules[0]);
        },
        OutcomeModel::Reply(_) => {
            assert(joined[0] == rules[0]);
        },
    }
}

} // verus!
