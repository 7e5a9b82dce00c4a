//! HTTP responses and the bytes that they are sent as.

use crate::json::{decimal, render_decimal};
use vstd::prelude::*;
use vstd::slice::slice_to_vec;
use vstd::string::{StrSliceExecFns, StringExecFns};
use vstd::utf8::encode_utf8;

verus! {

/// The status of a response.
#[derive(Debug, Clone, Copy, PartialEq, Eq, Structural)]
pub enum Status {
    /// 200.
    Success,
    /// 400.
    BadRequest,
    /// 404.
    NotFound,
    /// 500.
    InternalServerError,
}

/// The kind of content that a response carries.
#[derive(Debug, Clone, Copy, PartialEq, Eq, Structural)]
pub enum ContentType {
    /// `application/json`.
    Json,
    /// `text/html`.
    Html,
}

/// A response: a status and, where it carries content, the kind of the
/// content and its bytes.
#[derive(Debug, PartialEq, Eq)]
pub struct Response {
    /// The status.
    pub status: Status,
    /// The kind of content; `None` for a response without content.
    pub content_type: Option<ContentType>,
    /// The bytes of the content.
    pub body: Vec<u8>,
}

/// A response as a value of the specification.
pub struct ResponseView {
    pub status: Status,
    pub content_type: Option<ContentType>,
    pub body: Seq<u8>,
}

impl View for Response {
    type V = ResponseView;

    open spec fn view(&self) -> ResponseView {
        ResponseView { status: self.status, content_type: self.content_type, body: self.body@ }
    }
}

/// The response that is a status line alone.
pub open spec fn bodyless(status: Status) -> ResponseView {
    ResponseView { status, content_type: None, body: Seq::<u8>::empty() }
}

/// The response that carries the JSON text `text`.
pub open spec fn json_response(text: Seq<char>) -> ResponseView {
    ResponseView {
        status: Status::Success,
        content_type: Some(ContentType::Json),
        body: encode_utf8(text),
    }
}

/// The response that carries the HTML document `page`.
pub open spec fn html_response(page: Seq<u8>) -> ResponseView {
    ResponseView { status: Status::Success, content_type: Some(ContentType::Html), body: page }
}

/// The status line of a response.
pub open spec fn status_line(status: Status) -> Seq<char> {
    match status {
        Status::Success => "HTTP/1.1 200 OK\r\n"@,
        Status::BadRequest => "HTTP/1.1 400 Bad Request\r\n"@,
        Status::NotFound => "HTTP/1.1 404 Not Found\r\n"@,
        Status::InternalServerError => "HTTP/1.1 500 Internal Server Error\r\n"@,
    }
}

/// The header line that names a kind of content.
pub open spec fn content_type_line(content_type: ContentType) -> Seq<char> {
    match content_type {
        ContentType::Json => "Content-Type: application/json\r\n"@,
        ContentType::Html => "Content-Type: text/html\r\n"@,
    }
}

/// What is sent before the content of a response: the status line, for a
/// response with content the lines that give its kind and its length in
/// bytes, and an empty line.
pub open spec fn head_text(response: ResponseView) -> Seq<char> {
    status_line(response.status) + match response.content_type {
        Some(content_type) => content_type_line(content_type) + "Content-Length: "@
            + decimal(response.body.len()) + "\r\n"@,
        None => Seq::<char>::empty(),
    } + "\r\n"@
}

impl Response {
    /// The response that is a status line alone.
    pub fn empty(status: Status) -> (r: Response)
        ensures
            r@ == bodyless(status),
    {
        Response { status, content_type: None, body: Vec::new() }
    }

    /// The response that carries the JSON text `text`.
    pub fn json(text: &str) -> (r: Response)
        ensures
            r@ == json_response(text@),
    {
        Response {
            status: Status::Success,
            content_type: Some(ContentType::Json),
            body: text.as_bytes_vec(),
        }
    }

    /// The response that carries the HTML document `page`.
    pub fn html(page: &[u8]) -> (r: Response)
        ensures
            r@ == html_response(page@),
    {
        Response {
            status: Status::Success,
            content_type: Some(ContentType::Html),
            body: slice_to_vec(page),
        }
    }

    /// What is sent before the content of the response.
    pub fn head(&self) -> (head: String)
        ensures
            head@ == head_text(self@),
    {
        let mut head = String::from_str(
            match self.status {
                Status::Success => "HTTP/1.1 200 OK\r\n",
                Status::BadRequest => "HTTP/1.1 400 Bad Request\r\n",
                Status::NotFound => "HTTP/1.1 404 Not Found\r\n",
                Status::InternalServerError => "HTTP/1.1 500 Internal Server Error\r\n",
            },
        );
        match self.content_type {
            Some(content_type) => {
                head.append(
                    match content_type {
                        ContentType::Json => "Content-Type: application/json\r\n",
                        ContentType::Html => "Content-Type: text/html\r\n",
                    },
                );
                head.append("Content-Length: ");
                head.append(render_decimal(self.body.len() as u128).as_str());
                head.append("\r\n");
            },
            None => {},
        }
        head.append("\r\n");
        assert(head@ =~= head_text(self@));
        head
    }

    /// The bytes of the response as they go over the wire.
    pub fn to_bytes(&self) -> (bytes: Vec<u8>)
        ensures
            bytes@ == encode_utf8(head_text(self@)) + self.body@,
    {
        let head = self.head();
        let mut bytes = head.as_str().as_bytes_vec();
        bytes.extend_from_slice(self.body.as_slice());
        bytes
    }
}

} // verus!
