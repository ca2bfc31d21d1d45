use vstd::prelude::*;

use crate::message::{
    names_equal, remove_header, same_name, without, Header, HeaderModel, Request,
    RequestModel, RequestOrResponse, Response, ResponseModel, OutcomeModel, Uri, UriModel,
};

verus! {

/// `p` is the first part of `s`.
pub open spec fn is_prefix(p: Seq<u8>, s: Seq<u8>) -> bool {
    p.len() <= s.len() && s.subrange(0, p.len() as int) == p
}

/// Whether `p` begins `s`.
pub fn starts_with(p: &[u8], s: &[u8]) -> (r: bool)
    ensures
        r == is_prefix(p@, s@),
{
    if p.len() > s.len() {
        return false;
    }
    let mut i: usize = 0;
    while i < p.len()
        invariant
            p@.len() <= s@.len(),
            0 <= i <= p@.len(),
            forall|j: int| 0 <= j < i ==> s@[j] == p@[j],
        decreases p@.len() - i,
    {
        if p[i] != s[i] {
            assert(s@.subrange(0, p@.len() as int)[i as int] != p@[i as int]);
            return false;
        }
        i += 1;
    }
    assert(s@.subrange(0, p@.len() as int) =~= p@);
    true
}

/// Whether two byte strings are the same.
pub fn bytes_equal(a: &[u8], b: &[u8]) -> (r: bool)
    ensures
        r == (a@ == b@),
{
    if a.len() != b.len() {
        return false;
    }
    assert(b@.subrange(0, b@.len() as int) =~= b@);
    starts_with(a, b)
}

/// What a rule asks of a request before it will act on it.
pub enum Condition {
    /// Every request.
    Always,
    /// The request's host, ignoring ASCII case.
    HostIs(Vec<u8>),
    /// The request's path, exactly.
    PathIs(Vec<u8>),
    /// The start of the request's path.
    PathPrefix(Vec<u8>),
    /// The request's method, exactly.
    MethodIs(Vec<u8>),
    /// A header that the request carries.
    HasHeader(Vec<u8>),
}

pub ghost enum ConditionModel {
    Always,
    HostIs(Seq<u8>),
    PathIs(Seq<u8>),
    PathPrefix(Seq<u8>),
    MethodIs(Seq<u8>),
    HasHeader(Seq<u8>),
}

impl View for Condition {
    type V = ConditionModel;

    open spec fn view(&self) -> ConditionModel {
        match self {
            Condition::Always => ConditionModel::Always,
            Condition::HostIs(h) => ConditionModel::HostIs(h@),
            Condition::PathIs(p) => ConditionModel::PathIs(p@),
            Condition::PathPrefix(p) => ConditionModel::PathPrefix(p@),
            Condition::MethodIs(m) => ConditionModel::MethodIs(m@),
            Condition::HasHeader(n) => ConditionModel::HasHeader(n@),
        }
    }
}

impl Clone for Condition {
    fn clone(&self) -> (r: Self)
        ensures
            r@ == self@,
    {
        match self {
            Condition::Always => Condition::Always,
            Condition::HostIs(h) => Condition::HostIs(h.clone()),
            Condition::PathIs(p) => Condition::PathIs(p.clone()),
            Condition::PathPrefix(p) => Condition::PathPrefix(p.clone()),
            Condition::MethodIs(m) => Condition::MethodIs(m.clone()),
            Condition::HasHeader(n) => Condition::HasHeader(n.clone()),
        }
    }
}

/// Whether condition `c` accepts request `req`.
pub open spec fn holds(c: ConditionModel, req: RequestModel) -> bool {
    match c {
        ConditionModel::Always => true,
        ConditionModel::HostIs(h) => match req.uri.host {
            Some(host) => same_name(host, h),
            None => false,
        },
        ConditionModel::PathIs(p) => req.uri.path == p,
        ConditionModel::PathPrefix(p) => is_prefix(p, req.uri.path),
        ConditionModel::MethodIs(m) => req.method == m,
        ConditionModel::HasHeader(n) => crate::message::has_header(req.headers, n),
    }
}

/// Whether `c` accepts `req`.
pub fn condition_holds(c: &Condition, req: &Request) -> (r: bool)
    ensures
        r == holds(c@, req@),
{
    match c {
        Condition::Always => true,
        Condition::HostIs(h) => match &req.uri.host {
            Some(host) => names_equal(host.as_slice(), h.as_slice()),
            None => false,
        },
        Condition::PathIs(p) => bytes_equal(req.uri.path.as_slice(), p.as_slice()),
        Condition::PathPrefix(p) => starts_with(p.as_slice(), req.uri.path.as_slice()),
        Condition::MethodIs(m) => bytes_equal(req.method.as_slice(), m.as_slice()),
        Condition::HasHeader(n) => {
            let found = crate::message::header_value(&req.headers, n.as_slice());
            proof {
                crate::message::lemma_first_value_iff_has(req@.headers, n@);
            }
            found.is_some()
        },
    }
}

/// What a rule does to a request it matched.
pub enum RequestAction {
    /// Hand the request on as it is.
    Keep,
    /// Add a header line at the end.
    AddHeader(Header),
    /// Take out every header of this name.
    RemoveHeader(Vec<u8>),
    /// Send the request to another path.
    SetPath(Vec<u8>),
    /// Answer at once with this status and body; nothing goes upstream.
    Respond(u16, Vec<u8>),
}

pub ghost enum RequestActionModel {
    Keep,
    AddHeader(HeaderModel),
    RemoveHeader(Seq<u8>),
    SetPath(Seq<u8>),
    Respond(u16, Seq<u8>),
}

impl View for RequestAction {
    type V = RequestActionModel;

    open spec fn view(&self) -> RequestActionModel {
        match self {
            RequestAction::Keep => RequestActionModel::Keep,
            RequestAction::AddHeader(h) => RequestActionModel::AddHeader(h@),
            RequestAction::RemoveHeader(n) => RequestActionModel::RemoveHeader(n@),
            RequestAction::SetPath(p) => RequestActionModel::SetPath(p@),
            RequestAction::Respond(s, b) => RequestActionModel::Respond(*s, b@),
        }
    }
}

impl Clone for RequestAction {
    fn clone(&self) -> (r: Self)
        ensures
            r@ == self@,
    {
        match self {
            RequestAction::Keep => RequestAction::Keep,
            RequestAction::AddHeader(h) => RequestAction::AddHeader(h.clone()),
            RequestAction::RemoveHeader(n) => RequestAction::RemoveHeader(n.clone()),
            RequestAction::SetPath(p) => RequestAction::SetPath(p.clone()),
            RequestAction::Respond(s, b) => RequestAction::Respond(*s, b.clone()),
        }
    }
}

/// What a rule does to the response of an exchange whose request it matched.
pub enum ResponseAction {
    /// Hand the response on as it is.
    Keep,
    /// Add a header line at the end.
    AddHeader(Header),
    /// Take out every header of this name.
    RemoveHeader(Vec<u8>),
    /// Replace the status code.
    SetStatus(u16),
    /// Add these bytes at the end of the body (a script to inject, say).
    AppendBody(Vec<u8>),
    /// Replace the whole body.
    ReplaceBody(Vec<u8>),
}

pub ghost enum ResponseActionModel {
    Keep,
    AddHeader(HeaderModel),
    RemoveHeader(Seq<u8>),
    SetStatus(u16),
    AppendBody(Seq<u8>),
    ReplaceBody(Seq<u8>),
}

impl View for ResponseAction {
    type V = ResponseActionModel;

    open spec fn view(&self) -> ResponseActionModel {
        match self {
            ResponseAction::Keep => ResponseActionModel::Keep,
            ResponseAction::AddHeader(h) => ResponseActionModel::AddHeader(h@),
            ResponseAction::RemoveHeader(n) => ResponseActionModel::RemoveHeader(n@),
            ResponseAction::SetStatus(s) => ResponseActionModel::SetStatus(*s),
            ResponseAction::AppendBody(b) => ResponseActionModel::AppendBody(b@),
            ResponseAction::ReplaceBody(b) => ResponseActionModel::ReplaceBody(b@),
        }
    }
}

impl Clone for ResponseAction {
    fn clone(&self) -> (r: Self)
        ensures
            r@ == self@,
    {
        match self {
            ResponseAction::Keep => ResponseAction::Keep,
            ResponseAction::AddHeader(h) => ResponseAction::AddHeader(h.clone()),
            ResponseAction::RemoveHeader(n) => ResponseAction::RemoveHeader(n.clone()),
            ResponseAction::SetStatus(s) => ResponseAction::SetStatus(*s),
            ResponseAction::AppendBody(b) => ResponseAction::AppendBody(b.clone()),
            ResponseAction::ReplaceBody(b) => ResponseAction::ReplaceBody(b.clone()),
        }
    }
}

/// A unit of policy: a name to know it by, the condition under which it
/// acts (none: it never acts), and what it does on each side of the exchange.
pub struct Rule {
    pub name: Vec<u8>,
    pub condition: Option<Condition>,
    pub on_request: RequestAction,
    pub on_response: ResponseAction,
}

pub ghost struct RuleModel {
    pub name: Seq<u8>,
    pub condition: Option<ConditionModel>,
    pub on_request: RequestActionModel,
    pub on_response: ResponseActionModel,
}

impl View for Rule {
    type V = RuleModel;

    open spec fn view(&self) -> RuleModel {
        RuleModel {
            name: self.name@,
            condition: match self.condition {
                Some(c) => Some(c@),
                None => None,
            },
            on_request: self.on_request@,
            on_response: self.on_response@,
        }
    }
}

impl Clone for Rule {
    fn clone(&self) -> (r: Self)
        ensures
            r@ == self@,
    {
        let condition = match &self.condition {
            Some(c) => Some(c.clone()),
            None => None,
        };
        Rule {
            name: self.name.clone(),
            condition,
            on_request: self.on_request.clone(),
            on_response: self.on_response.clone(),
        }
    }
}

/// The abstract rule list.
pub open spec fn rules_view(rs: Seq<Rule>) -> Seq<RuleModel> {
    rs.map_values(|r: Rule| r@)
}

/// A rule acts on a request only if it has a condition and that condition holds.
pub open spec fn rule_matches(rule: RuleModel, req: RequestModel) -> bool {
    match rule.condition {
        Some(c) => holds(c, req),
        None => false,
    }
}

/// The rules of `rules` that match `req`, in their order, repeats kept.
pub open spec fn matched(rules: Seq<RuleModel>, req: RequestModel) -> Seq<RuleModel>
    decreases rules.len(),
{
    if rules.len() == 0 {
        rules
    } else if rule_matches(rules.last(), req) {
        matched(rules.drop_last(), req).push(rules.last())
    } else {
        matched(rules.drop_last(), req)
    }
}

/// What a request action makes of a request.
pub open spec fn apply_request(a: RequestActionModel, req: RequestModel) -> OutcomeModel {
    match a {
        RequestActionModel::Keep => OutcomeModel::Forward(req),
        RequestActionModel::AddHeader(h) => OutcomeModel::Forward(
            RequestModel { headers: req.headers.push(h), ..req },
        ),
        RequestActionModel::RemoveHeader(n) => OutcomeModel::Forward(
            RequestModel { headers: without(req.headers, n), ..req },
        ),
        RequestActionModel::SetPath(p) => OutcomeModel::Forward(
            RequestModel { uri: UriModel { path: p, ..req.uri }, ..req },
        ),
        RequestActionModel::Respond(status, body) => OutcomeModel::Reply(
            ResponseModel { status, headers: Seq::empty(), body },
        ),
    }
}

/// What a response action makes of a response.
pub open spec fn apply_response(a: ResponseActionModel, res: ResponseModel) -> ResponseModel {
    match a {
        ResponseActionModel::Keep => res,
        ResponseActionModel::AddHeader(h) => ResponseModel { headers: res.headers.push(h), ..res },
        ResponseActionModel::RemoveHeader(n) => ResponseModel {
            headers: without(res.headers, n),
            ..res
        },
        ResponseActionModel::SetStatus(s) => ResponseModel { status: s, ..res },
        ResponseActionModel::AppendBody(b) => ResponseModel { body: res.body + b, ..res },
        ResponseActionModel::ReplaceBody(b) => ResponseModel { body: b, ..res },
    }
}

impl Rule {
    /// Whether this rule acts on `req`. The request is only read.
    pub fn matches(&self, req: &Request) -> (r: bool)
        ensures
            r == rule_matches(self@, req@),
    {
        match &self.condition {
            Some(c) => condition_holds(c, req),
            None => false,
        }
    }

    /// The request-side transform: a rewritten request, or a response that
    /// ends the request phase.
    pub fn do_req(&self, req: Request) -> (r: RequestOrResponse)
        ensures
            r@ == apply_request(self.on_request@, req@),
    {
        let mut req = req;
        match &self.on_request {
            RequestAction::Keep => RequestOrResponse::Request(req),
            RequestAction::AddHeader(h) => {
                let ghost before = req.headers@;
                req.headers.push(h.clone());
                assert(crate::message::headers_view(req.headers@) =~= crate::message::headers_view(
                    before,
                ).push(h@));
                RequestOrResponse::Request(req)
            },
            RequestAction::RemoveHeader(n) => {
                remove_header(&mut req.headers, n.as_slice());
                RequestOrResponse::Request(req)
            },
            RequestAction::SetPath(p) => {
                req.uri = Uri { host: req.uri.host, path: p.clone() };
                RequestOrResponse::Request(req)
            },
            RequestAction::Respond(status, body) => {
                let headers: Vec<Header> = Vec::new();
                assert(crate::message::headers_view(headers@) =~= Seq::empty());
                RequestOrResponse::Response(
                    Response { status: *status, headers, body: body.clone() },
                )
            },
        }
    }

    /// The response-side transform.
    pub fn do_res(&self, res: Response) -> (r: Response)
        ensures
            r@ == apply_response(self.on_response@, res@),
    {
        let mut res = res;
        match &self.on_response {
            ResponseAction::Keep => {},
            ResponseAction::AddHeader(h) => {
                let ghost before = res.headers@;
                res.headers.push(h.clone());
                assert(crate::message::headers_view(res.headers@) =~= crate::message::headers_view(
                    before,
                ).push(h@));
            },
            ResponseAction::RemoveHeader(n) => {
                remove_header(&mut res.headers, n.as_slice());
            },
            ResponseAction::SetStatus(s) => {
                res.status = *s;
            },
            ResponseAction::AppendBody(b) => {
                let mut extra = b.clone();
                res.body.append(&mut extra);
            },
            ResponseAction::ReplaceBody(b) => {
                res.body = b.clone();
            },
        }
        res
    }
}

/// The rules of `rules` that match `req`, cloned, in their order; repeats are
/// kept and `rules` is left as it is.
pub fn match_rules(rules: &Vec<Rule>, req: &Request) -> (r: Vec<Rule>)
    ensures
        rules_view(r@) == matched(rules_view(rules@), req@),
{
    let ghost all = rules_view(rules@);
    let mut out: Vec<Rule> = Vec::new();
    let mut i: usize = 0;
    while i < rules.len()
        invariant
            0 <= i <= rules@.len(),
            all == rules_view(rules@),
            rules_view(out@) == matched(all.subrange(0, i as int), req@),
        decreases rules@.len() - i,
    {
        let ghost before = out@;
        proof {
            assert(all.subrange(0, i + 1).drop_last() =~= all.subrange(0, i as int));
        }
        if rules[i].matches(req) {
            out.push(rules[i].clone());
            assert(rules_view(out@) =~= rules_view(before).push(all[i as int]));
        }
        i += 1;
    }
    assert(all.subrange(0, rules@.len() as int) =~= all);
    out
}

/// Matching a rule list split in two is matching each part, the first
/// part's matches first: no rule changes place and none is dropped or merged.
pub proof fn lemma_matched_concat(a: Seq<RuleModel>, b: Seq<RuleModel>, req: RequestModel)
    ensures
        matched(a + b, req) == matched(a, req) + matched(b, req),
    decreases b.len(),
{
    if b.len() == 0 {
        assert(a + b =~= a);
        assert(matched(a, req) + matched(b, req) =~= matched(a, req));
    } else {
        lemma_matched_concat(a, b.drop_last(), req);
        assert((a + b).drop_last() =~= a + b.drop_last());
        assert((a + b).last() == b.last());
        if rule_matches(b.last(), req) {
            assert(matched(a, req) + matched(b.drop_last(), req).push(b.last()) =~= (matched(
                a,
                req,
            ) + matched(b.drop_last(), req)).push(b.last()));
        }
    }
}

/// A single rule is kept exactly when it matches.
pub proof fn lemma_matched_single(x: RuleModel, req: RequestModel)
    ensures
        matched(seq![x], req) == if rule_matches(x, req) {
            seq![x]
        } else {
            Seq::<RuleModel>::empty()
        },
{
    let e = Seq::<RuleModel>::empty();
    assert(seq![x].drop_last() =~= e);
    assert(seq![x].last() == x);
    assert(matched(e, req) == e);
    assert(e.push(x) =~= seq![x]);
}

/// Matching depends on the rules and the request alone: two runs over the
/// same rules and the same request give the same rules in the same order.
pub proof fn lemma_matching_repeats(
    rules: Seq<RuleModel>,
    req: RequestModel,
    first: Seq<RuleModel>,
    second: Seq<RuleModel>,
)
    requires
        first == matched(rules, req),
        second == matched(rules, req),
    ensures
        first == second,
{
}

} // verus!
