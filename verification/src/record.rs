//! One request of the access log.

use crate::address::{address_text, IpAddress};
use crate::text::{chars_of, decimal, push_numeral, push_text, run_end, scan_run, text_between, text_of, CharClass};
use crate::timestamp::Timestamp;
use vstd::prelude::*;

verus! {

/// The request line of a log entry.
#[derive(Clone, Debug, PartialEq, Eq)]
pub struct Request {
    pub method: String,
    pub path: String,
    pub protocol: String,
}

/// What a `Request` holds, as sequences of characters.
pub struct RequestView {
    pub method: Seq<char>,
    pub path: Seq<char>,
    pub protocol: Seq<char>,
}

impl View for Request {
    type V = RequestView;

    open spec fn view(&self) -> RequestView {
        RequestView { method: self.method@, path: self.path@, protocol: self.protocol@ }
    }
}

/// One parsed line of the log, every field filled.
#[derive(Clone, Debug, PartialEq)]
pub struct LogEntry {
    pub ip_address: IpAddress,
    pub identifier: String,
    pub user_id: String,
    pub timestamp: Timestamp,
    pub request: Request,
    pub response_code: u16,
    pub response_size: u128,
}

/// What a `LogEntry` holds, texts as sequences of characters.
pub struct LogEntryView {
    pub ip_address: IpAddress,
    pub identifier: Seq<char>,
    pub user_id: Seq<char>,
    pub timestamp: Timestamp,
    pub request: RequestView,
    pub response_code: u16,
    pub response_size: u128,
}

impl View for LogEntry {
    type V = LogEntryView;

    open spec fn view(&self) -> LogEntryView {
        LogEntryView {
            ip_address: self.ip_address,
            identifier: self.identifier@,
            user_id: self.user_id@,
            timestamp: self.timestamp,
            request: self.request@,
            response_code: self.response_code,
            response_size: self.response_size,
        }
    }
}

/// The key under which a path is counted: what stands between its first
/// slash and the next one, so `users` for `/users/42`. A path without any
/// slash is its own key.
pub open spec fn endpoint_of(path: Seq<char>) -> Seq<char> {
    let slash = run_end(path, 0, CharClass::Except('/'));
    if slash >= path.len() {
        path
    } else {
        path.subrange(slash + 1, run_end(path, slash + 1, CharClass::Except('/')))
    }
}

/// How a request is written: the method, a space and the path.
pub open spec fn request_text(request: RequestView) -> Seq<char> {
    request.method.push(' ') + request.path
}

/// How an entry is written for display: each field under its label, the
/// labels indented and a blank line between two fields. The identity stands
/// under the label `user_agent`.
pub open spec fn rendering(entry: LogEntryView) -> Seq<char> {
    "\n\n                ip_address: "@ + address_text(entry.ip_address)
        + "\n\n                user_agent: "@ + entry.identifier
        + " \n\n                user_id: "@ + entry.user_id
        + "\n\n                timestamp: "@ + entry.timestamp.text()
        + " \n\n                request: "@ + request_text(entry.request)
        + "\n\n                response_code: "@ + decimal(entry.response_code as nat)
        + "\n\n                size: "@ + decimal(entry.response_size as nat) + "\n"@
}

impl Request {
    /// The request that stands for one that is unknown: three dashes.
    pub fn unknown() -> (request: Request)
        ensures
            request@ == (RequestView { method: seq!['-'], path: seq!['-'], protocol: seq!['-'] }),
    {
        proof {
            reveal_strlit("-");
        }
        let request = Request {
            method: "-".to_owned(),
            path: "-".to_owned(),
            protocol: "-".to_owned(),
        };
        assert(request.method@ =~= seq!['-']);
        request
    }

    /// The key under which the request is counted.
    pub fn endpoint(&self) -> (key: String)
        ensures
            key@ == endpoint_of(self.path@),
    {
        let chars = chars_of(self.path.as_str());
        let slash = scan_run(chars.as_slice(), 0, CharClass::Except('/'));
        if slash >= chars.len() {
            self.path.clone()
        } else {
            let end = scan_run(chars.as_slice(), slash + 1, CharClass::Except('/'));
            text_between(chars.as_slice(), slash + 1, end)
        }
    }

    /// Writes the request: the method, a space and the path.
    pub fn to_text(&self) -> (text: String)
        ensures
            text@ == request_text(self@),
    {
        let mut out: Vec<char> = Vec::new();
        push_text(&mut out, self.method.as_str());
        out.push(' ');
        push_text(&mut out, self.path.as_str());
        assert(out@ =~= request_text(self@));
        text_of(out.as_slice())
    }
}

impl LogEntry {
    /// Writes the entry for display, each field under its label.
    pub fn render(&self) -> (text: String)
        ensures
            text@ == rendering(self@),
    {
        let mut out: Vec<char> = Vec::new();
        push_text(&mut out, "\n\n                ip_address: ");
        self.ip_address.push_text(&mut out);
        push_text(&mut out, "\n\n                user_agent: ");
        push_text(&mut out, self.identifier.as_str());
        push_text(&mut out, " \n\n                user_id: ");
        push_text(&mut out, self.user_id.as_str());
        push_text(&mut out, "\n\n                timestamp: ");
        push_text(&mut out, self.timestamp.to_text().as_str());
        push_text(&mut out, " \n\n                request: ");
        push_text(&mut out, self.request.to_text().as_str());
        push_text(&mut out, "\n\n                response_code: ");
        push_numeral(&mut out, self.response_code as u128, false);
        push_text(&mut out, "\n\n                size: ");
        push_numeral(&mut out, self.response_size, false);
        push_text(&mut out, "\n");
        assert(out@ =~= rendering(self@));
        text_of(out.as_slice())
    }
}

} // verus!
