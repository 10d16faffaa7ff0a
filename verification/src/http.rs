//! The HTTP half of a local fetch: reading a request head off a socket, what it asks for, where that
//! resolves to, and the heads and errors written back.

use vstd::prelude::*;
use vstd::string::StringExecFns;

use crate::text;

verus! {

broadcast use {vstd::seq::group_seq_axioms, vstd::string::group_string_axioms};

/// The longest request head that is read on without its end, in bytes: 64 KiB.
pub const MAX_HEAD: usize = 65_536;

/// The most headers a request may carry.
pub const MAX_HEADERS: usize = 64;

/// Whether `head` ends in the blank line.
pub open spec fn ended(head: Seq<u8>) -> bool {
    head.len() >= 4 && head.subrange(head.len() - 4, head.len() as int) == seq![13u8, 10, 13, 10]
}

/// Whether `head` can be read on: it is not too long, and nothing read so far ended it.
pub open spec fn unfinished(head: Seq<u8>) -> bool {
    head.len() <= MAX_HEAD && forall|n: int| 0 <= n <= head.len() ==> !ended(#[trigger] head.take(n))
}

/// Where the reading of a head stands.
#[derive(Debug, Clone, Copy, PartialEq, Eq, Structural)]
pub enum HeadStep {
    /// There is more to read.
    More,
    /// The head is whole: it ended, or the client closed.
    Done,
    /// The head is too large.
    TooLarge,
}

/// A request head, read one byte at a time.
#[derive(Debug)]
pub struct HeadReader {
    head: Vec<u8>,
}

impl View for HeadReader {
    type V = Seq<u8>;

    closed spec fn view(&self) -> Seq<u8> {
        self.head@
    }
}

impl HeadReader {
    /// Nothing is read yet.
    pub fn new() -> (reader: HeadReader)
        ensures
            reader@.len() == 0,
            unfinished(reader@),
    {
        HeadReader { head: Vec::new() }
    }

    /// Take the next byte, or that the client closed. The blank line ends the head; without it, a head
    /// over the limit is too large.
    pub fn take(&mut self, byte: Option<u8>) -> (step: HeadStep)
        requires
            unfinished(old(self)@),
        ensures
            match byte {
                None => final(self)@ == old(self)@ && step == HeadStep::Done,
                Some(byte) => final(self)@ == old(self)@.push(byte) && (if ended(
                    old(self)@.push(byte),
                ) {
                    step == HeadStep::Done
                } else if old(self)@.len() + 1 > MAX_HEAD {
                    step == HeadStep::TooLarge
                } else {
                    step == HeadStep::More
                }),
            },
            step == HeadStep::More ==> unfinished(final(self)@),
            final(self)@.len() <= MAX_HEAD + 1,
    {
        let byte: u8 = match byte {
            None => {
                return HeadStep::Done;
            },
            Some(byte) => byte,
        };
        let ghost before = self.head@;
        self.head.push(byte);
        let n: usize = self.head.len();
        if n >= 4 && self.head[n - 4] == 13 && self.head[n - 3] == 10 && self.head[n - 2] == 13
            && self.head[n - 1] == 10 {
            assert(self.head@.subrange(n - 4, n as int) =~= seq![13u8, 10, 13, 10]);
            return HeadStep::Done;
        }
        proof {
            if ended(self.head@) {
                let tail = self.head@.subrange(n - 4, n as int);
                assert(tail[0] == self.head@[n - 4]);
                assert(tail[1] == self.head@[n - 3]);
                assert(tail[2] == self.head@[n - 2]);
                assert(tail[3] == self.head@[n - 1]);
            }
        }
        if n > MAX_HEAD {
            return HeadStep::TooLarge;
        }
        assert forall|k: int| 0 <= k <= self.head@.len() implies !ended(
            #[trigger] self.head@.take(k),
        ) by {
            if k < self.head@.len() {
                assert(self.head@.take(k) =~= before.take(k));
            } else {
                assert(self.head@.take(k) =~= self.head@);
            }
        }
        HeadStep::More
    }

    /// What was read.
    pub fn bytes(&self) -> (head: &Vec<u8>)
        ensures
            head@ == self@,
    {
        &self.head
    }
}

/// A header as the wire carries it.
#[derive(Debug)]
pub struct RawHeader {
    pub name: String,
    pub value: Vec<u8>,
}

/// What a request head reads as.
#[derive(Debug)]
pub enum HeadReading {
    /// It is no request head, for this cause.
    Malformed(String),
    /// It stops before its end.
    Partial,
    /// It is whole.
    Whole { method: Option<String>, path: Option<String>, headers: Vec<RawHeader> },
}

pub ghost enum HeadReadingView {
    Malformed(Seq<char>),
    Partial,
    Whole {
        method: Option<Seq<char>>,
        path: Option<Seq<char>>,
        headers: Seq<(Seq<char>, Seq<u8>)>,
    },
}

pub open spec fn opt_text(text: Option<String>) -> Option<Seq<char>> {
    match text {
        Some(text) => Some(text@),
        None => None,
    }
}

impl View for HeadReading {
    type V = HeadReadingView;

    open spec fn view(&self) -> HeadReadingView {
        match self {
            HeadReading::Malformed(cause) => HeadReadingView::Malformed(cause@),
            HeadReading::Partial => HeadReadingView::Partial,
            HeadReading::Whole { method, path, headers } => HeadReadingView::Whole {
                method: opt_text(*method),
                path: opt_text(*path),
                headers: headers@.map_values(|h: RawHeader| (h.name@, h.value@)),
            },
        }
    }
}

/// What `httparse::Request::parse` makes of a request head, with room for `slots` headers.
pub uninterp spec fn request_head(head: Seq<u8>, slots: nat) -> HeadReadingView;

/// `httparse::Request::parse` on `head`, into `slots` header places: the method, the path and the headers
/// it found where it completed, that it was partial, or the words of its error. What it accepts is its own
/// and is not stated here; it depends on the bytes and the number of places alone.
#[verifier::external_body]
fn parse_head(head: &[u8], slots: usize) -> (reading: HeadReading)
    requires
        slots <= 1024,
    ensures
        reading@ == request_head(head@, slots as nat),
{
    let mut places = vec![httparse::EMPTY_HEADER; slots];
    let mut request = httparse::Request::new(&mut places);
    match request.parse(head) {
        Ok(httparse::Status::Complete(_)) => HeadReading::Whole {
            method: request.method.map(str::to_owned),
            path: request.path.map(str::to_owned),
            headers: request.headers.iter().map(
                |h| RawHeader { name: h.name.to_owned(), value: h.value.to_vec() },
            ).collect(),
        },
        Ok(httparse::Status::Partial) => HeadReading::Partial,
        Err(error) => HeadReading::Malformed(error.to_string()),
    }
}

/// What `String::from_utf8_lossy` makes of bytes.
pub uninterp spec fn lossy(bytes: Seq<u8>) -> Seq<char>;

/// `String::from_utf8_lossy`: the text the bytes encode, where they encode one. What stands for bytes that
/// do not is its own and is not stated here; it depends on the bytes alone.
#[verifier::external_body]
fn lossy_text(bytes: &[u8]) -> (text: String)
    ensures
        text@ == lossy(bytes@),
        vstd::utf8::valid_utf8(bytes@) ==> text@ == vstd::utf8::decode_utf8(bytes@),
{
    String::from_utf8_lossy(bytes).into_owned()
}

/// A header: its name and its value.
#[derive(Debug)]
pub struct Header {
    pub name: String,
    pub value: String,
}

/// The headers, as values.
pub open spec fn header_views(headers: Seq<Header>) -> Seq<(Seq<char>, Seq<char>)> {
    headers.map_values(|h: Header| (h.name@, h.value@))
}

/// A parsed request head: what is relayed onward.
#[derive(Debug)]
pub struct Parsed {
    pub method: String,
    pub target: String,
    pub headers: Vec<Header>,
}

/// A parsed request head as a value.
pub ghost struct ParsedView {
    pub method: Seq<char>,
    pub target: Seq<char>,
    pub headers: Seq<(Seq<char>, Seq<char>)>,
}

impl View for Parsed {
    type V = ParsedView;

    open spec fn view(&self) -> ParsedView {
        ParsedView {
            method: self.method@,
            target: self.target@,
            headers: header_views(self.headers@),
        }
    }
}

/// The headers that have a name, each value read as text.
pub open spec fn named_headers(raw: Seq<(Seq<char>, Seq<u8>)>) -> Seq<(Seq<char>, Seq<char>)>
    decreases raw.len(),
{
    if raw.len() == 0 {
        Seq::empty()
    } else {
        let rest = named_headers(raw.drop_last());
        if raw.last().0.len() == 0 {
            rest
        } else {
            rest.push((raw.last().0, lossy(raw.last().1)))
        }
    }
}

/// The request a reading is, or why it is none.
pub open spec fn request_of(reading: HeadReadingView) -> Result<ParsedView, Seq<char>> {
    match reading {
        HeadReadingView::Malformed(cause) => Err(cause),
        HeadReadingView::Partial => Err("incomplete request head"@),
        HeadReadingView::Whole { method, path, headers } => if method is None {
            Err("no method in request"@)
        } else if path is None {
            Err("no path in request"@)
        } else {
            Ok(
                ParsedView {
                    method: method->0,
                    target: path->0,
                    headers: named_headers(headers),
                },
            )
        },
    }
}

/// The request that a reading of a head is.
pub fn accept_head(reading: HeadReading) -> (parsed: Result<Parsed, String>)
    ensures
        match parsed {
            Ok(parsed) => request_of(reading@) == Ok::<ParsedView, Seq<char>>(parsed@),
            Err(line) => request_of(reading@) == Err::<ParsedView, Seq<char>>(line@),
        },
{
    match reading {
        HeadReading::Malformed(cause) => Err(cause),
        HeadReading::Partial => Err("incomplete request head".to_owned()),
        HeadReading::Whole { method, path, headers } => {
            let method = match method {
                Some(method) => method,
                None => {
                    return Err("no method in request".to_owned());
                },
            };
            let target = match path {
                Some(path) => path,
                None => {
                    return Err("no path in request".to_owned());
                },
            };
            let ghost raw = headers@.map_values(|h: RawHeader| (h.name@, h.value@));
            let mut named: Vec<Header> = Vec::new();
            let mut i: usize = 0;
            assert(header_views(named@) =~= named_headers(raw.take(0)));
            while i < headers.len()
                invariant
                    i <= headers.len(),
                    raw == headers@.map_values(|h: RawHeader| (h.name@, h.value@)),
                    header_views(named@) == named_headers(raw.take(i as int)),
                decreases headers.len() - i,
            {
                assert(raw.take(i + 1).drop_last() =~= raw.take(i as int));
                let ghost before = named@;
                if !headers[i].name.as_str().is_empty() {
                    named.push(
                        Header {
                            name: headers[i].name.clone(),
                            value: lossy_text(headers[i].value.as_slice()),
                        },
                    );
                    assert(header_views(named@) =~= header_views(before).push(
                        (raw[i as int].0, lossy(raw[i as int].1)),
                    ));
                }
                i = i + 1;
            }
            assert(raw.take(i as int) =~= raw);
            Ok(Parsed { method, target, headers: named })
        },
    }
}

/// Parse the method, the request target and the headers from a request head.
pub fn parse_request(head: &Vec<u8>) -> (parsed: Result<Parsed, String>)
    ensures
        match parsed {
            Ok(parsed) => request_of(request_head(head@, MAX_HEADERS as nat)) == Ok::<
                ParsedView,
                Seq<char>,
            >(parsed@),
            Err(line) => request_of(request_head(head@, MAX_HEADERS as nat)) == Err::<
                ParsedView,
                Seq<char>,
            >(line@),
        },
{
    accept_head(parse_head(head.as_slice(), MAX_HEADERS))
}

/// What `url::Url::join` makes of a target against the base a text parses to, or the words of the error.
pub uninterp spec fn joined_url(base: Seq<char>, target: Seq<char>) -> Result<
    Seq<char>,
    Seq<char>,
>;

/// `url::Url::join` of `target` on the URL that `base` parses to, as text, or the words of the error of
/// the parse or the join. The two are one call here because a join is made on the parsed base, which is
/// the crate's own value and has no plain form to hand from one call to the other. What the URL grammar
/// makes of the two texts is the crate's and is not stated here; it depends on the two texts alone.
#[verifier::external_body]
fn join_url(base: &str, target: &str) -> (url: Result<String, String>)
    ensures
        match url {
            Ok(text) => joined_url(base@, target@) == Ok::<Seq<char>, Seq<char>>(text@),
            Err(words) => joined_url(base@, target@) == Err::<Seq<char>, Seq<char>>(words@),
        },
{
    match url::Url::parse(base) {
        Ok(base) => match base.join(target) {
            Ok(url) => Ok(url.to_string()),
            Err(error) => Err(error.to_string()),
        },
        Err(error) => Err(error.to_string()),
    }
}

/// The words of the error of `url::Url::parse` on a text, where it fails.
pub uninterp spec fn url_fault(text: Seq<char>) -> Option<Seq<char>>;

/// `url::Url::parse`: whether the text is a URL, or the words of the error. What the URL grammar takes is
/// the crate's and is not stated here; it depends on the text alone.
#[verifier::external_body]
pub(crate) fn parse_url(text: &str) -> (fault: Option<String>)
    ensures
        match fault {
            Some(words) => url_fault(text@) == Some(words@),
            None => url_fault(text@) is None,
        },
{
    match url::Url::parse(text) {
        Ok(_) => None,
        Err(error) => Some(error.to_string()),
    }
}

/// Whether the target asks for the root: `/`, or nothing.
pub open spec fn is_root(target: Seq<char>) -> bool {
    target == "/"@ || target.len() == 0
}

/// The origin URL for one request: the base as given for a root request, else the target resolved against
/// it.
pub fn origin_url(base: &str, target: &str) -> (url: Result<String, String>)
    ensures
        is_root(target@) ==> (url matches Ok(text) && text@ == base@),
        !is_root(target@) ==> (match url {
            Ok(text) => joined_url(base@, target@) == Ok::<Seq<char>, Seq<char>>(text@),
            Err(words) => joined_url(base@, target@) == Err::<Seq<char>, Seq<char>>(words@),
        }),
{
    if text::same(target, "/") || target.is_empty() {
        return Ok(base.to_owned());
    }
    join_url(base, target)
}

/// The lower-case form of an ASCII letter; every other character as it is.
pub open spec fn lower(c: char) -> char {
    if 'A' <= c && c <= 'Z' {
        (c as u32 + 32) as char
    } else {
        c
    }
}

/// A text with its ASCII letters in lower case.
pub open spec fn lowered(s: Seq<char>) -> Seq<char> {
    s.map_values(|c: char| lower(c))
}

/// Whether the header is one this proxy sets itself.
pub open spec fn is_framing(name: Seq<char>) -> bool {
    lowered(name) == "connection"@ || lowered(name) == "transfer-encoding"@ || lowered(name)
        == "keep-alive"@
}

fn lower_text(s: &str) -> (out: Vec<char>)
    ensures
        out@ == lowered(s@),
{
    let chars = text::chars_of(s);
    let mut out: Vec<char> = Vec::new();
    let mut i: usize = 0;
    while i < chars.len()
        invariant
            i <= chars.len(),
            chars@ == s@,
            out@ == lowered(s@.take(i as int)),
        decreases chars.len() - i,
    {
        let c: char = chars[i];
        if 'A' <= c && c <= 'Z' {
            out.push((c as u8 + 32) as char);
        } else {
            out.push(c);
        }
        i = i + 1;
        assert(out@ =~= lowered(s@.take(i as int)));
    }
    assert(s@.take(i as int) =~= s@);
    out
}

fn framing(name: &str) -> (yes: bool)
    ensures
        yes == is_framing(name@),
{
    let lower = lower_text(name);
    text::same_chars(&lower, &text::chars_of("connection")) || text::same_chars(
        &lower,
        &text::chars_of("transfer-encoding"),
    ) || text::same_chars(&lower, &text::chars_of("keep-alive"))
}

/// The reason phrase of the common statuses.
pub open spec fn reason_phrase(status: u16) -> Seq<char> {
    if status == 200 {
        "OK"@
    } else if status == 206 {
        "Partial Content"@
    } else if status == 301 {
        "Moved Permanently"@
    } else if status == 302 {
        "Found"@
    } else if status == 304 {
        "Not Modified"@
    } else if status == 404 {
        "Not Found"@
    } else if status == 416 {
        "Range Not Satisfiable"@
    } else {
        ""@
    }
}

/// A reason phrase for the common statuses; empty for the rest.
pub fn reason(status: u16) -> (phrase: &'static str)
    ensures
        phrase@ == reason_phrase(status),
{
    match status {
        200 => "OK",
        206 => "Partial Content",
        301 => "Moved Permanently",
        302 => "Found",
        304 => "Not Modified",
        404 => "Not Found",
        416 => "Range Not Satisfiable",
        _ => "",
    }
}

/// The forwarded headers as they are written: each on its line, the framing ones left out.
pub open spec fn forwarded(headers: Seq<(Seq<char>, Seq<char>)>) -> Seq<char>
    decreases headers.len(),
{
    if headers.len() == 0 {
        Seq::empty()
    } else {
        let rest = forwarded(headers.drop_last());
        let (name, value) = headers.last();
        if is_framing(name) {
            rest
        } else {
            rest + (name + ": "@ + value + "\r\n"@)
        }
    }
}

/// The response head written to the client.
pub open spec fn head_text(status: u16, headers: Seq<(Seq<char>, Seq<char>)>) -> Seq<char> {
    "HTTP/1.1 "@ + text::decimal(status as nat) + " "@ + reason_phrase(status) + "\r\n"@ + forwarded(
        headers,
    ) + "Connection: close\r\n\r\n"@
}

/// The response status line and headers: the origin's headers as they came, except the framing ones, which
/// this proxy sets itself.
pub fn response_head(status: u16, headers: &Vec<Header>) -> (head: String)
    ensures
        head@ == head_text(status, header_views(headers@)),
{
    let mut head = "HTTP/1.1 ".to_owned();
    text::push_decimal(&mut head, status as u128);
    head.append(" ");
    head.append(reason(status));
    head.append("\r\n");
    let ghost line = head@;
    let ghost all = header_views(headers@);
    let mut i: usize = 0;
    assert(head@ =~= line + forwarded(all.take(0)));
    while i < headers.len()
        invariant
            i <= headers.len(),
            all == header_views(headers@),
            head@ == line + forwarded(all.take(i as int)),
        decreases headers.len() - i,
    {
        assert(all.take(i + 1).drop_last() =~= all.take(i as int));
        let ghost before = head@;
        if !framing(headers[i].name.as_str()) {
            head.append(headers[i].name.as_str());
            head.append(": ");
            head.append(headers[i].value.as_str());
            head.append("\r\n");
            assert(head@ =~= before + (all[i as int].0 + ": "@ + all[i as int].1 + "\r\n"@));
        }
        assert(head@ =~= line + forwarded(all.take(i + 1)));
        i = i + 1;
    }
    assert(all.take(i as int) =~= all);
    head.append("Connection: close\r\n\r\n");
    head
}

/// An error status this proxy serves.
#[derive(Debug, Clone, Copy, PartialEq, Eq, Structural)]
pub enum Status {
    /// The exit node did not take this caller.
    Forbidden,
    /// The node could not serve the request, or the origin failed: never a claim about the caller.
    BadGateway,
}

impl Status {
    pub open spec fn code(self) -> u16 {
        match self {
            Status::Forbidden => 403,
            Status::BadGateway => 502,
        }
    }

    pub open spec fn phrase(self) -> Seq<char> {
        match self {
            Status::Forbidden => "Forbidden"@,
            Status::BadGateway => "Bad Gateway"@,
        }
    }

    /// The status line pieces of the status.
    pub fn parts(self) -> (parts: (u16, &'static str))
        ensures
            parts.0 == self.code(),
            parts.1@ == self.phrase(),
    {
        match self {
            Status::Forbidden => (403, "Forbidden"),
            Status::BadGateway => (502, "Bad Gateway"),
        }
    }
}

/// A whole error response: its head, with the length of the body in bytes, and the body.
pub open spec fn error_text(status: Status, message: Seq<char>) -> Seq<char> {
    "HTTP/1.1 "@ + text::decimal(status.code() as nat) + " "@ + status.phrase()
        + "\r\nContent-Length: "@ + text::decimal(vstd::utf8::encode_utf8(message).len())
        + "\r\nConnection: close\r\n\r\n"@ + message
}

/// An error status with a short message, so that a downloader sees a real HTTP error.
pub fn error_response(status: Status, message: &str) -> (response: String)
    ensures
        response@ == error_text(status, message@),
{
    let (code, phrase) = status.parts();
    let mut response = "HTTP/1.1 ".to_owned();
    text::push_decimal(&mut response, code as u128);
    response.append(" ");
    response.append(phrase);
    response.append("\r\nContent-Length: ");
    text::push_decimal(&mut response, message.as_bytes().len() as u128);
    response.append("\r\nConnection: close\r\n\r\n");
    response.append(message);
    response
}

/// A head is bounded: what a reader holds never passes the limit by more than the byte that broke it,
/// and a head that ended is the shortest one that could.
pub proof fn a_head_stops_at_its_first_blank_line(head: Seq<u8>, byte: u8, n: int)
    requires
        unfinished(head),
        ended(head.push(byte)),
        0 <= n < head.push(byte).len(),
    ensures
        !ended(head.push(byte).take(n)),
        head.push(byte).len() <= MAX_HEAD + 1,
{
    assert(head.push(byte).take(n) =~= head.take(n));
}

/// The framing headers are never forwarded, whatever their case, and nothing else is held back: a header
/// adds its own line to the head exactly where it is not one of them.
pub proof fn only_framing_is_held_back(
    headers: Seq<(Seq<char>, Seq<char>)>,
    name: Seq<char>,
    value: Seq<char>,
)
    ensures
        forwarded(headers.push((name, value))) == if is_framing(name) {
            forwarded(headers)
        } else {
            forwarded(headers) + (name + ": "@ + value + "\r\n"@)
        },
{
    assert(headers.push((name, value)).drop_last() =~= headers);
}

/// A head ends at a blank line and nowhere else: it ends exactly where its last four bytes are two line
/// ends, whatever stands before them. It may run to sixty-four KiB, with sixty-four headers.
pub proof fn a_head_ends_at_a_blank_line(front: Seq<u8>, head: Seq<u8>)
    ensures
        ended(front + seq![13u8, 10, 13, 10]),
        ended(head) ==> head == head.take(head.len() - 4) + seq![13u8, 10, 13, 10],
        MAX_HEAD == 64 * 1024,
        MAX_HEADERS == 64,
{
    let whole = front + seq![13u8, 10, 13, 10];
    assert(whole.subrange(whole.len() - 4, whole.len() as int) =~= seq![13u8, 10, 13, 10]);
    if ended(head) {
        assert(head =~= head.take(head.len() - 4) + head.subrange(
            head.len() - 4,
            head.len() as int,
        ));
    }
}

/// A request is taken as it was read: its method, its target and every header that has a name, in order and
/// with its own value; and it is taken exactly where it is whole and has a method and a target.
pub proof fn a_request_is_taken_as_it_was_read(
    method: Seq<char>,
    target: Seq<char>,
    a: Seq<(Seq<char>, Seq<u8>)>,
    b: Seq<(Seq<char>, Seq<u8>)>,
    name: Seq<char>,
    value: Seq<u8>,
    cause: Seq<char>,
)
    ensures
        ({
            let whole = |m: Option<Seq<char>>, p: Option<Seq<char>>|
                request_of(HeadReadingView::Whole { method: m, path: p, headers: a });
            &&& whole(Some(method), Some(target)) == Ok::<ParsedView, Seq<char>>(
                (ParsedView { method, target, headers: named_headers(a) }),
            )
            &&& whole(None, Some(target)) is Err
            &&& whole(Some(method), None) is Err
            &&& whole(None, None) is Err
        }),
        request_of(HeadReadingView::Partial) is Err,
        request_of(HeadReadingView::Malformed(cause)) == Err::<ParsedView, Seq<char>>(cause),
        named_headers(a + b) == named_headers(a) + named_headers(b),
        named_headers(Seq::<(Seq<char>, Seq<u8>)>::empty()).len() == 0,
        named_headers(seq![(name, value)]) == if name.len() == 0 {
            seq![]
        } else {
            seq![(name, lossy(value))]
        },
    decreases b.len(),
{
    reveal_with_fuel(named_headers, 2);
    assert(seq![(name, value)].drop_last() =~= Seq::<(Seq<char>, Seq<u8>)>::empty());
    assert(named_headers(seq![(name, value)]) =~= if name.len() == 0 {
        seq![]
    } else {
        seq![(name, lossy(value))]
    });
    if b.len() == 0 {
        assert(a + b =~= a);
        assert(named_headers(a) + named_headers(b) =~= named_headers(a));
    } else {
        assert((a + b).drop_last() =~= a + b.drop_last());
        a_request_is_taken_as_it_was_read(method, target, a, b.drop_last(), name, value, cause);
        assert(named_headers(a + b) =~= named_headers(a) + named_headers(b));
    }
}

/// Whether the two are the same letter, or the same character, whatever their case.
pub open spec fn same_letter(c: char, lower: char) -> bool {
    c == lower || ('A' <= c && c <= 'Z' && c as int + 32 == lower as int)
}

/// Whether `name` reads as the lower-case `word`, whatever its case.
pub open spec fn reads_as(name: Seq<char>, word: Seq<char>) -> bool {
    name.len() == word.len() && forall|i: int|
        0 <= i < name.len() ==> same_letter(#[trigger] name[i], word[i])
}

/// The headers this proxy sets itself are these three, in any case, and no other.
pub proof fn three_headers_are_framing(name: Seq<char>)
    ensures
        is_framing(name) <==> reads_as(name, "connection"@) || reads_as(name, "transfer-encoding"@)
            || reads_as(name, "keep-alive"@),
{
    reveal_strlit("connection");
    reveal_strlit("transfer-encoding");
    reveal_strlit("keep-alive");
    lemma_lowered_reads(name, "connection"@);
    lemma_lowered_reads(name, "transfer-encoding"@);
    lemma_lowered_reads(name, "keep-alive"@);
}

proof fn lemma_lowered_reads(name: Seq<char>, word: Seq<char>)
    requires
        forall|i: int| 0 <= i < word.len() ==> !('A' <= #[trigger] word[i] && word[i] <= 'Z'),
    ensures
        lowered(name) == word <==> reads_as(name, word),
{
    if lowered(name) == word {
        assert forall|i: int| 0 <= i < name.len() implies same_letter(#[trigger] name[i], word[i]) by {
            assert(lowered(name)[i] == lower(name[i]));
        }
    }
    if reads_as(name, word) {
        assert forall|i: int| 0 <= i < name.len() implies #[trigger] lowered(name)[i] == word[i] by {
            assert(same_letter(name[i], word[i]));
            assert(!('A' <= word[i] && word[i] <= 'Z'));
        }
        assert(lowered(name) =~= word);
    }
}

/// A response is written under the origin's own status, with the forwarded headers between the status line
/// and the blank line, and closes.
pub proof fn a_response_keeps_its_status(status: u16, headers: Seq<(Seq<char>, Seq<char>)>)
    ensures
        text::begins(
            head_text(status, headers),
            "HTTP/1.1 "@ + text::decimal(status as nat) + " "@,
        ),
        text::mentions(
            head_text(status, headers),
            "\r\n"@ + forwarded(headers) + "Connection: close\r\n\r\n"@,
        ),
        forwarded(Seq::<(Seq<char>, Seq<char>)>::empty()).len() == 0,
{
    let front = "HTTP/1.1 "@ + text::decimal(status as nat) + " "@;
    let rest = reason_phrase(status) + "\r\n"@ + forwarded(headers) + "Connection: close\r\n\r\n"@;
    let tail = "\r\n"@ + forwarded(headers) + "Connection: close\r\n\r\n"@;
    assert(head_text(status, headers) =~= front + rest);
    text::a_prefix_comes_off_as_it_went_on(front, rest, Seq::empty());
    assert(head_text(status, headers) =~= (front + reason_phrase(status)) + tail);
    text::lemma_mentions(front + reason_phrase(status), tail, Seq::empty());
}

/// The two errors this proxy serves are a `403` and a `502`, each under its own phrase, and an error
/// response says the length of its message in bytes and ends in the message itself.
pub proof fn an_error_says_what_it_is(status: Status, message: Seq<char>)
    ensures
        error_text(status, message) == (match status {
            Status::Forbidden => "HTTP/1.1 403 Forbidden\r\n"@,
            Status::BadGateway => "HTTP/1.1 502 Bad Gateway\r\n"@,
        }) + "Content-Length: "@ + text::decimal(vstd::utf8::encode_utf8(message).len())
            + "\r\nConnection: close\r\n\r\n"@ + message,
{
    lemma_status_line(status);
    lemma_break_before_length();
    lemma_regroup(
        "HTTP/1.1 "@ + text::decimal(status.code() as nat) + " "@ + status.phrase(),
        "\r\n"@,
        "Content-Length: "@,
    );
}

proof fn lemma_break_before_length()
    ensures
        "\r\nContent-Length: "@ == "\r\n"@ + "Content-Length: "@,
{
    reveal_strlit("\r\nContent-Length: ");
    reveal_strlit("\r\n");
    reveal_strlit("Content-Length: ");
    assert("\r\nContent-Length: "@ =~= "\r\n"@ + "Content-Length: "@);
}

proof fn lemma_regroup(a: Seq<char>, b: Seq<char>, c: Seq<char>)
    ensures
        a + (b + c) == (a + b) + c,
{
    assert(a + (b + c) =~= (a + b) + c);
}

proof fn lemma_status_line(status: Status)
    ensures
        "HTTP/1.1 "@ + text::decimal(status.code() as nat) + " "@ + status.phrase() + "\r\n"@ == (
        match status {
            Status::Forbidden => "HTTP/1.1 403 Forbidden\r\n"@,
            Status::BadGateway => "HTTP/1.1 502 Bad Gateway\r\n"@,
        }),
{
    reveal_strlit("HTTP/1.1 ");
    reveal_strlit(" ");
    reveal_strlit("Forbidden");
    reveal_strlit("Bad Gateway");
    reveal_strlit("\r\n");
    reveal_strlit("HTTP/1.1 403 Forbidden\r\n");
    reveal_strlit("HTTP/1.1 502 Bad Gateway\r\n");
    reveal_with_fuel(text::decimal, 4);
    match status {
        Status::Forbidden => {
            assert(text::decimal(403) =~= seq!['4', '0', '3']);
            assert("HTTP/1.1 "@ + text::decimal(403) + " "@ + "Forbidden"@ + "\r\n"@
                =~= "HTTP/1.1 403 Forbidden\r\n"@);
        },
        Status::BadGateway => {
            assert(text::decimal(502) =~= seq!['5', '0', '2']);
            assert("HTTP/1.1 "@ + text::decimal(502) + " "@ + "Bad Gateway"@ + "\r\n"@
                =~= "HTTP/1.1 502 Bad Gateway\r\n"@);
        },
    }
}

} // verus!
