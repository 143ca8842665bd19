//! The data carried by a request and a response.
use vstd::prelude::*;

verus! {

/// What a header says: its key and its value.
pub type HeaderModel = (Seq<char>, Seq<char>);

/// A header line, `key: value`.
#[derive(Debug, Clone, PartialEq, Eq)]
pub struct Header {
    pub key: String,
    pub value: String,
}

impl View for Header {
    type V = HeaderModel;

    open spec fn view(&self) -> HeaderModel {
        (self.key@, self.value@)
    }
}

/// The views of a sequence of headers, in order.
pub open spec fn headers_view(hs: Seq<Header>) -> Seq<HeaderModel> {
    hs.map_values(|h: Header| h@)
}

/// The first line of a request: `method target version`.
#[derive(Debug, Clone, PartialEq, Eq)]
pub struct RequestLine {
    pub method: String,
    pub target: String,
    pub version: String,
}

/// A parsed request.
#[derive(Debug, Clone, PartialEq, Eq)]
pub struct Request {
    pub request_line: RequestLine,
    pub headers: Vec<Header>,
    pub body: String,
}

/// What a request says, as text.
pub struct RequestModel {
    pub method: Seq<char>,
    pub target: Seq<char>,
    pub version: Seq<char>,
    pub headers: Seq<HeaderModel>,
    pub body: Seq<char>,
}

impl View for Request {
    type V = RequestModel;

    open spec fn view(&self) -> RequestModel {
        RequestModel {
            method: self.request_line.method@,
            target: self.request_line.target@,
            version: self.request_line.version@,
            headers: headers_view(self.headers@),
            body: self.body@,
        }
    }
}

/// The first line of a response: `version status_code status_text`.
#[derive(Debug, Clone, PartialEq, Eq)]
pub struct StatusLine {
    pub version: String,
    pub status_code: i32,
    pub status_text: String,
}

/// A response, ready to be written out.
#[derive(Debug, Clone, PartialEq, Eq)]
pub struct Response {
    pub status_line: StatusLine,
    pub headers: Vec<Header>,
    pub body: String,
}

/// What a response says, as text.
pub struct ResponseModel {
    pub version: Seq<char>,
    pub status_code: int,
    pub status_text: Seq<char>,
    pub headers: Seq<HeaderModel>,
    pub body: Seq<char>,
}

impl View for Response {
    type V = ResponseModel;

    open spec fn view(&self) -> ResponseModel {
        ResponseModel {
            version: self.status_line.version@,
            status_code: self.status_line.status_code as int,
            status_text: self.status_line.status_text@,
            headers: headers_view(self.headers@),
            body: self.body@,
        }
    }
}

} // verus!
