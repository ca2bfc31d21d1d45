use vstd::prelude::*;

verus! {

/// ASCII lower case of one byte; other bytes are kept.
pub open spec fn lower(b: u8) -> u8 {
    if 65 <= b <= 90 {
        (b + 32) as u8
    } else {
        b
    }
}

/// Header names are compared without regard to ASCII case.
pub open spec fn same_name(a: Seq<u8>, b: Seq<u8>) -> bool {
    &&& a.len() == b.len()
    &&& forall|i: int| 0 <= i < a.len() ==> lower(#[trigger] a[i]) == lower(b[i])
}

fn lower_byte(b: u8) -> (r: u8)
    ensures
        r == lower(b),
{
    if 65 <= b && b <= 90 {
        b + 32
    } else {
        b
    }
}

/// Whether two header names are equal, ignoring ASCII case.
pub fn names_equal(a: &[u8], b: &[u8]) -> (r: bool)
    ensures
        r == same_name(a@, b@),
{
    if a.len() != b.len() {
        return false;
    }
    let mut i: usize = 0;
    while i < a.len()
        invariant
            a@.len() == b@.len(),
            0 <= i <= a@.len(),
            forall|j: int| 0 <= j < i ==> lower(#[trigger] a@[j]) == lower(b@[j]),
        decreases a@.len() - i,
    {
        if lower_byte(a[i]) != lower_byte(b[i]) {
            return false;
        }
        i += 1;
    }
    true
}

/// One header line: a name and a value, both raw bytes.
pub struct Header {
    pub name: Vec<u8>,
    pub value: Vec<u8>,
}

pub ghost struct HeaderModel {
    pub name: Seq<u8>,
    pub value: Seq<u8>,
}

impl View for Header {
    type V = HeaderModel;

    open spec fn view(&self) -> HeaderModel {
        HeaderModel { name: self.name@, value: self.value@ }
    }
}

impl Clone for Header {
    fn clone(&self) -> (r: Self)
        ensures
            r@ == self@,
    {
        Header { name: self.name.clone(), value: self.value.clone() }
    }
}

/// The abstract header list of a message.
pub open spec fn headers_view(hs: Seq<Header>) -> Seq<HeaderModel> {
    hs.map_values(|h: Header| h@)
}

/// The headers of `hs` whose name is not `name`, in their order.
pub open spec fn without(hs: Seq<HeaderModel>, name: Seq<u8>) -> Seq<HeaderModel>
    decreases hs.len(),
{
    if hs.len() == 0 {
        hs
    } else if same_name(hs.last().name, name) {
        without(hs.drop_last(), name)
    } else {
        without(hs.drop_last(), name).push(hs.last())
    }
}

/// Some header of `hs` is called `name`.
pub open spec fn has_header(hs: Seq<HeaderModel>, name: Seq<u8>) -> bool {
    exists|i: int| 0 <= i < hs.len() && same_name(#[trigger] hs[i].name, name)
}

/// The value of the first header of `hs` called `name`.
pub open spec fn first_value(hs: Seq<HeaderModel>, name: Seq<u8>) -> Option<Seq<u8>>
    decreases hs.len(),
{
    if hs.len() == 0 {
        None
    } else if same_name(hs[0].name, name) {
        Some(hs[0].value)
    } else {
        first_value(hs.drop_first(), name)
    }
}

/// No header called `name` is left once they are taken out.
pub proof fn lemma_without_has_none(hs: Seq<HeaderModel>, name: Seq<u8>)
    ensures
        !has_header(without(hs, name), name),
    decreases hs.len(),
{
    if hs.len() > 0 {
        lemma_without_has_none(hs.drop_last(), name);
        let w = without(hs.drop_last(), name);
        if !same_name(hs.last().name, name) {
            assert forall|i: int| 0 <= i < w.push(hs.last()).len() implies !same_name(
                #[trigger] w.push(hs.last())[i].name,
                name,
            ) by {
                if i < w.len() {
                    assert(w.push(hs.last())[i] == w[i]);
                }
            }
        }
    }
}

/// Takes out every header called `name`, keeping the others in their order.
pub fn remove_header(hs: &mut Vec<Header>, name: &[u8])
    ensures
        headers_view(final(hs)@) == without(headers_view(old(hs)@), name@),
{
    let ghost src = headers_view(hs@);
    let mut kept: Vec<Header> = Vec::new();
    let mut i: usize = 0;
    while i < hs.len()
        invariant
            0 <= i <= hs@.len(),
            src == headers_view(hs@),
            headers_view(kept@) == without(src.subrange(0, i as int), name@),
        decreases hs@.len() - i,
    {
        let ghost before = kept@;
        proof {
            assert(src.subrange(0, i + 1).drop_last() =~= src.subrange(0, i as int));
        }
        if !names_equal(hs[i].name.as_slice(), name) {
            kept.push(hs[i].clone());
            assert(headers_view(kept@) =~= headers_view(before).push(src[i as int]));
        }
        i += 1;
    }
    assert(src.subrange(0, hs@.len() as int) =~= src);
    *hs = kept;
}

/// The value of the first header called `name`, if there is one.
pub fn header_value<'a>(hs: &'a Vec<Header>, name: &[u8]) -> (r: Option<&'a Vec<u8>>)
    ensures
        match r {
            Some(v) => first_value(headers_view(hs@), name@) == Some(v@),
            None => first_value(headers_view(hs@), name@).is_none(),
        },
{
    let ghost all = headers_view(hs@);
    assert(all.subrange(0, all.len() as int) =~= all);
    let mut i: usize = 0;
    while i < hs.len()
        invariant
            0 <= i <= hs@.len(),
            all == headers_view(hs@),
            first_value(all, name@) == first_value(all.subrange(i as int, all.len() as int), name@),
        decreases hs@.len() - i,
    {
        let ghost rest = all.subrange(i as int, all.len() as int);
        assert(rest.drop_first() =~= all.subrange(i + 1, all.len() as int));
        assert(rest[0] == all[i as int]);
        if names_equal(hs[i].name.as_slice(), name) {
            return Some(&hs[i].value);
        }
        i += 1;
    }
    None
}

fn copy_headers(hs: &Vec<Header>) -> (r: Vec<Header>)
    ensures
        headers_view(r@) == headers_view(hs@),
{
    let mut out: Vec<Header> = Vec::new();
    let mut i: usize = 0;
    while i < hs.len()
        invariant
            0 <= i <= hs@.len(),
            headers_view(out@) =~= headers_view(hs@).subrange(0, i as int),
        decreases hs@.len() - i,
    {
        let ghost before = out@;
        out.push(hs[i].clone());
        assert(headers_view(out@) =~= headers_view(before).push(headers_view(hs@)[i as int]));
        i += 1;
    }
    out
}

/// The target of a request: its host, when the URI names one, and its path.
pub struct Uri {
    pub host: Option<Vec<u8>>,
    pub path: Vec<u8>,
}

pub ghost struct UriModel {
    pub host: Option<Seq<u8>>,
    pub path: Seq<u8>,
}

impl View for Uri {
    type V = UriModel;

    open spec fn view(&self) -> UriModel {
        UriModel {
            host: match self.host {
                Some(h) => Some(h@),
                None => None,
            },
            path: self.path@,
        }
    }
}

impl Clone for Uri {
    fn clone(&self) -> (r: Self)
        ensures
            r@ == self@,
    {
        let host = match &self.host {
            Some(h) => Some(h.clone()),
            None => None,
        };
        Uri { host, path: self.path.clone() }
    }
}

/// A request as it flows through an exchange.
pub struct Request {
    pub method: Vec<u8>,
    pub uri: Uri,
    pub headers: Vec<Header>,
    pub body: Vec<u8>,
}

pub ghost struct RequestModel {
    pub method: Seq<u8>,
    pub uri: UriModel,
    pub headers: Seq<HeaderModel>,
    pub body: Seq<u8>,
}

impl View for Request {
    type V = RequestModel;

    open spec fn view(&self) -> RequestModel {
        RequestModel {
            method: self.method@,
            uri: self.uri@,
            headers: headers_view(self.headers@),
            body: self.body@,
        }
    }
}

/// A response as it flows through an exchange.
pub struct Response {
    pub status: u16,
    pub headers: Vec<Header>,
    pub body: Vec<u8>,
}

pub ghost struct ResponseModel {
    pub status: u16,
    pub headers: Seq<HeaderModel>,
    pub body: Seq<u8>,
}

impl View for Response {
    type V = ResponseModel;

    open spec fn view(&self) -> ResponseModel {
        ResponseModel { status: self.status, headers: headers_view(self.headers@), body: self.body@ }
    }
}

impl Clone for Response {
    fn clone(&self) -> (r: Self)
        ensures
            r@ == self@,
    {
        Response { status: self.status, headers: copy_headers(&self.headers), body: self.body.clone() }
    }
}

/// What a request-phase step hands on: the request to go on with, or a
/// response that ends the exchange's request phase.
pub enum RequestOrResponse {
    Request(Request),
    Response(Response),
}

pub ghost enum OutcomeModel {
    Forward(RequestModel),
    Reply(ResponseModel),
}

impl View for RequestOrResponse {
    type V = OutcomeModel;

    open spec fn view(&self) -> OutcomeModel {
        match self {
            RequestOrResponse::Request(r) => OutcomeModel::Forward(r@),
            RequestOrResponse::Response(r) => OutcomeModel::Reply(r@),
        }
    }
}

/// A header is present exactly when a first value for its name exists.
pub proof fn lemma_first_value_iff_has(hs: Seq<HeaderModel>, name: Seq<u8>)
    ensures
        first_value(hs, name).is_some() == has_header(hs, name),
    decreases hs.len(),
{
    if hs.len() > 0 {
        let rest = hs.drop_first();
        lemma_first_value_iff_has(rest, name);
        if !same_name(hs[0].name, name) {
            if has_header(hs, name) {
                let i = choose|i: int| 0 <= i < hs.len() && same_name(#[trigger] hs[i].name, name);
                assert(rest[i - 1] == hs[i]);
            }
            if has_header(rest, name) {
                let i = choose|i: int| 0 <= i < rest.len() && same_name(#[trigger] rest[i].name, name);
                assert(hs[i + 1] == rest[i]);
            }
        } else {
            assert(same_name(hs[0].name, name));
        }
    }
}

} // verus!
