//! Fetching through a node: request heads, where a request resolves to, and the answers a downloader reads.

use swoosh::fetch::{Act, FetchCmd, Fetched, Origin, Refusal, Stage, Step, Told, status_of};
use swoosh::http::{
    HeadReader, HeadReading, HeadStep, Header, MAX_HEAD, MAX_HEADERS, Parsed, RawHeader, Status,
    accept_head, error_response, origin_url, parse_request, reason, response_head,
};

#[test]
fn root_request_uses_the_base_verbatim() {
    assert_eq!(
        origin_url("https://example.com/big.iso", "/").unwrap(),
        "https://example.com/big.iso"
    );
}

#[test]
fn a_path_and_query_resolve_against_the_base() {
    assert_eq!(
        origin_url("https://api.example.com", "/users?id=5").unwrap(),
        "https://api.example.com/users?id=5"
    );
}

/// A base with a trailing slash and a target with a leading one compose to one slash, not two.
#[test]
fn a_trailing_slash_base_and_leading_slash_target_do_not_double_the_slash() {
    assert_eq!(
        origin_url("https://api.example.com/", "/users").unwrap(),
        "https://api.example.com/users"
    );
}

/// An empty target is the root; a base that is no URL is refused, but not for a root request.
#[test]
fn only_a_resolved_request_reads_the_base() {
    assert_eq!(origin_url("https://e.com/a", "").unwrap(), "https://e.com/a");
    assert_eq!(origin_url("not a url", "/").unwrap(), "not a url");
    assert_eq!(
        origin_url("not a url", "/x").unwrap_err(),
        "relative URL without a base"
    );
}

/// Feed a whole text, and say where the reader stands after its last byte.
fn feed(reader: &mut HeadReader, text: &[u8]) -> HeadStep {
    let mut step = HeadStep::More;
    for byte in text {
        assert_eq!(step, HeadStep::More, "nothing is read past the end");
        step = reader.take(Some(*byte));
    }
    step
}

#[test]
fn a_head_ends_at_its_blank_line() {
    let mut reader = HeadReader::new();
    let head = b"GET / HTTP/1.1\r\nHost: e\r\n\r\n";
    assert_eq!(feed(&mut reader, head), HeadStep::Done);
    assert_eq!(reader.bytes(), head);

    let mut closed = HeadReader::new();
    assert_eq!(feed(&mut closed, b"GET /"), HeadStep::More);
    assert_eq!(closed.take(None), HeadStep::Done, "a closed client ends it");
    assert_eq!(closed.bytes(), b"GET /");
}

/// The limit is 64 KiB: the byte past it is too much, unless it ends the head.
#[test]
fn a_head_past_the_limit_is_too_large() {
    let mut reader = HeadReader::new();
    let filler = vec![b'a'; MAX_HEAD];
    assert_eq!(feed(&mut reader, &filler), HeadStep::More);
    assert_eq!(reader.take(Some(b'a')), HeadStep::TooLarge);

    let mut last = HeadReader::new();
    let mut head = vec![b'a'; MAX_HEAD - 3];
    head.extend_from_slice(b"\r\n\r\n");
    assert_eq!(feed(&mut last, &head), HeadStep::Done);
}

fn pairs(parsed: &Parsed) -> Vec<(String, String)> {
    parsed
        .headers
        .iter()
        .map(|h| (h.name.clone(), h.value.clone()))
        .collect()
}

#[test]
fn a_request_head_parses() {
    let head = b"POST /a?b=c HTTP/1.1\r\nHost: example.com\r\nRange: bytes=0-9\r\n\r\n".to_vec();
    let parsed = parse_request(&head).expect("a whole head parses");
    assert_eq!(parsed.method, "POST");
    assert_eq!(parsed.target, "/a?b=c");
    assert_eq!(
        pairs(&parsed),
        [
            ("Host".to_owned(), "example.com".to_owned()),
            ("Range".to_owned(), "bytes=0-9".to_owned()),
        ]
    );
}

/// Bytes of a header's value that are no text stand as the replacement character.
#[test]
fn a_header_value_is_read_as_text() {
    let head = b"GET / HTTP/1.1\r\nX-A: caf\xc3\xa9\r\nX-B: a\xffb\r\n\r\n".to_vec();
    let parsed = parse_request(&head).expect("a whole head parses");
    assert_eq!(
        pairs(&parsed),
        [
            ("X-A".to_owned(), "café".to_owned()),
            ("X-B".to_owned(), "a\u{fffd}b".to_owned()),
        ]
    );
}

#[test]
fn a_head_that_is_no_request_is_refused() {
    let partial = parse_request(&b"GET / HTTP/1.1\r\nHost: e\r\n".to_vec());
    assert_eq!(partial.unwrap_err(), "incomplete request head");
    let malformed = parse_request(&b"GET / JUNK\r\n\r\n".to_vec());
    assert_eq!(malformed.unwrap_err(), "invalid HTTP version");

    let mut crowded = b"GET / HTTP/1.1\r\n".to_vec();
    for _ in 0..=MAX_HEADERS {
        crowded.extend_from_slice(b"A: b\r\n");
    }
    crowded.extend_from_slice(b"\r\n");
    assert_eq!(parse_request(&crowded).unwrap_err(), "too many headers");
}

/// A header without a name is left out, and a head without a method or a path is refused.
#[test]
fn a_reading_is_taken_only_where_it_is_whole() {
    let reading = |method: Option<&str>, path: Option<&str>| HeadReading::Whole {
        method: method.map(str::to_owned),
        path: path.map(str::to_owned),
        headers: vec![
            RawHeader {
                name: String::new(),
                value: b"gone".to_vec(),
            },
            RawHeader {
                name: "A".to_owned(),
                value: b"kept".to_vec(),
            },
        ],
    };
    let parsed = accept_head(reading(Some("GET"), Some("/"))).expect("a whole reading");
    assert_eq!(pairs(&parsed), [("A".to_owned(), "kept".to_owned())]);
    assert_eq!(
        accept_head(reading(None, Some("/"))).unwrap_err(),
        "no method in request"
    );
    assert_eq!(
        accept_head(reading(Some("GET"), None)).unwrap_err(),
        "no path in request"
    );
    assert_eq!(
        accept_head(HeadReading::Malformed("odd".to_owned())).unwrap_err(),
        "odd"
    );
}

fn header(name: &str, value: &str) -> Header {
    Header {
        name: name.to_owned(),
        value: value.to_owned(),
    }
}

/// The framing headers are the proxy's own, in whatever case they come.
#[test]
fn only_the_framing_headers_are_held_back() {
    let headers = vec![
        header("Content-Length", "5"),
        header("CONNECTION", "keep-alive"),
        header("Transfer-Encoding", "chunked"),
        header("keep-Alive", "timeout=5"),
        header("Connection2", "x"),
    ];
    assert_eq!(
        response_head(206, &headers),
        "HTTP/1.1 206 Partial Content\r\nContent-Length: 5\r\nConnection2: x\r\nConnection: close\r\n\r\n"
    );
    assert_eq!(
        response_head(418, &Vec::new()),
        "HTTP/1.1 418 \r\nConnection: close\r\n\r\n"
    );
    let phrases = [
        (200, "OK"),
        (206, "Partial Content"),
        (301, "Moved Permanently"),
        (302, "Found"),
        (304, "Not Modified"),
        (404, "Not Found"),
        (416, "Range Not Satisfiable"),
        (500, ""),
    ];
    for (status, phrase) in phrases {
        assert_eq!(reason(status), phrase);
    }
}

/// The length of an error's body is in bytes.
#[test]
fn an_error_carries_its_length_in_bytes() {
    assert_eq!(
        error_response(Status::Forbidden, "né"),
        "HTTP/1.1 403 Forbidden\r\nContent-Length: 3\r\nConnection: close\r\n\r\nné"
    );
    assert_eq!(Status::BadGateway.parts(), (502, "Bad Gateway"));
    assert_eq!(Status::Forbidden.parts(), (403, "Forbidden"));
}

fn fetch(service: &str) -> FetchCmd {
    FetchCmd {
        url: "http://example.com/x".to_owned(),
        via: "desk".to_owned(),
        service: service.to_owned(),
        present: None,
        port: None,
    }
}

fn origin() -> Origin {
    Origin {
        method: "GET".to_owned(),
        url: "http://example.com/x".to_owned(),
        headers: Vec::new(),
    }
}

/// The text a step writes, where it ends the request with an error.
fn written(step: Step) -> String {
    assert!(matches!(step.stage, Stage::Over), "{:?}", step.stage);
    match step.acts.as_slice() {
        [Act::Write(text), Act::Close] => text.clone(),
        other => panic!("an error is written once and the socket closed: {other:?}"),
    }
}

const TEACHING: &str = "serve it with `swoosh serve fetch=fetch:<origin>`";

/// A failed request names the serve line that would bind a defaulted service, and nothing about a service
/// the operator named.
#[test]
fn a_failed_request_names_the_serve_line_for_the_defaulted_service() {
    let failed = || Told::Failed {
        cause: "the session does not prove the peer".to_owned(),
    };
    let defaulted = written(fetch("fetch").relay(
        Stage::Asking { origin: origin() },
        failed(),
        Some(TEACHING),
    ));
    assert!(
        defaulted.contains("swoosh serve fetch=fetch:<origin>"),
        "the defaulted service names the line that would bind it: {defaulted}"
    );
    let named = written(fetch("news").relay(Stage::Asking { origin: origin() }, failed(), None));
    assert!(
        !named.contains("swoosh serve"),
        "a named service gets no serve line appended: {named}"
    );
}

#[test]
fn fetch_refuses_to_present_a_credential_over_an_announced_session() {
    let text = written(fetch("fetch").relay(
        Stage::Asking { origin: origin() },
        Told::Failed {
            cause: "the session does not prove the peer".to_owned(),
        },
        None,
    ));
    assert!(text.starts_with("HTTP/1.1 502 Bad Gateway"), "{text}");
    assert!(text.contains("does not prove the peer"), "{text}");
    assert!(
        text.ends_with("fetch failed: the session does not prove the peer"),
        "{text}"
    );
}

/// A request runs from its head to its body.
#[test]
fn a_request_runs_to_its_body() {
    let cmd = fetch("fetch");
    let request = parse_request(&b"GET /y HTTP/1.1\r\nA: b\r\n\r\n".to_vec());
    let on = |step: Step| {
        assert_eq!(step.failure, None, "nothing failed");
        (step.stage, step.acts)
    };
    let (opening, acts) = on(cmd.relay(Stage::Reading, Told::Head { request }, None));
    assert!(matches!(acts.as_slice(), [Act::Open]), "{acts:?}");
    let (asking, acts) = on(cmd.relay(
        opening,
        Told::Opened {
            present: Some("a link".to_owned()),
            membership: None,
        },
        None,
    ));
    match acts.as_slice() {
        [Act::AskService { request }] => {
            assert_eq!(request.service, "fetch");
            assert_eq!(request.capability.as_deref(), Some("a link"));
            assert_eq!(request.membership, None);
        }
        other => panic!("the service is asked for: {other:?}"),
    }
    let (fetching, acts) = on(cmd.relay(asking, Told::Granted, None));
    match acts.as_slice() {
        [Act::SendFetch {
            method,
            url,
            headers,
        }] => {
            assert_eq!(method, "GET");
            assert_eq!(url, "http://example.com/y");
            assert_eq!(headers.len(), 1);
            assert_eq!(headers[0].name, "A");
        }
        other => panic!("the origin request is sent: {other:?}"),
    }
    let (responding, acts) = on(cmd.relay(
        fetching,
        Told::Fetched(Fetched::Begun {
            status: 200,
            headers: vec![header("B", "c")],
        }),
        None,
    ));
    match acts.as_slice() {
        [Act::Write(head), Act::CopyBody, Act::Close] => {
            assert_eq!(head, "HTTP/1.1 200 OK\r\nB: c\r\nConnection: close\r\n\r\n");
        }
        other => panic!("the response begins: {other:?}"),
    }
    let (over, acts) = on(cmd.relay(responding, Told::Sent, None));
    assert!(matches!(over, Stage::Over) && acts.is_empty());
}

/// The node is asked for the named service, with what the dial resolved.
#[test]
fn a_request_asks_for_its_own_service() {
    let request = fetch("news").service_request(None, Some("a badge".to_owned()));
    assert_eq!(request.service, "news");
    assert_eq!(request.capability, None);
    assert_eq!(request.membership.as_deref(), Some("a badge"));
}

/// Only a ruling on the caller reads as one, and every other failure is a bad gateway.
#[test]
fn only_a_ruling_is_forbidden() {
    let cases = [
        (Refusal::NotAdmitted, Status::Forbidden),
        (Refusal::BadRequest, Status::BadGateway),
        (Refusal::Unavailable, Status::BadGateway),
        (Refusal::Unreadable, Status::BadGateway),
    ];
    for (refusal, status) in cases {
        assert_eq!(status_of(&refusal), status, "{refusal:?}");
        let text = written(fetch("fetch").relay(
            Stage::Asking { origin: origin() },
            Told::Refused {
                refusal,
                words: "no".to_owned(),
            },
            Some(TEACHING),
        ));
        assert_eq!(
            text,
            error_response(
                status,
                "fetch service refused: no: serve it with `swoosh serve fetch=fetch:<origin>`"
            )
        );
    }
}

#[test]
fn an_origin_that_failed_is_a_bad_gateway() {
    let text = written(fetch("fetch").relay(
        Stage::Fetching,
        Told::Fetched(Fetched::Error("no route".to_owned())),
        Some(TEACHING),
    ));
    assert_eq!(
        text,
        error_response(Status::BadGateway, "origin error: no route"),
        "an origin's failure teaches nothing about the service"
    );
}

/// A head that is no request, and a target that resolves to nothing, are answered before anything opens.
#[test]
fn a_bad_request_is_answered_at_once() {
    let bad = parse_request(&b"GET /".to_vec());
    let text = written(fetch("fetch").relay(Stage::Reading, Told::Head { request: bad }, None));
    assert_eq!(
        text,
        error_response(Status::BadGateway, "fetch failed: incomplete request head")
    );
    let nowhere = FetchCmd {
        url: "nowhere".to_owned(),
        ..fetch("fetch")
    };
    let request = parse_request(&b"GET /y HTTP/1.1\r\n\r\n".to_vec());
    let text = written(nowhere.relay(Stage::Reading, Told::Head { request }, None));
    assert_eq!(
        text,
        error_response(
            Status::BadGateway,
            "fetch failed: relative URL without a base"
        )
    );
}

/// Once a response has begun, a failure only closes the socket.
#[test]
fn a_failure_in_the_body_writes_nothing() {
    let step = fetch("fetch").relay(
        Stage::Responding,
        Told::Failed {
            cause: "reset".to_owned(),
        },
        Some(TEACHING),
    );
    assert!(matches!(step.stage, Stage::Over));
    assert!(matches!(step.acts.as_slice(), [Act::Close]), "{step:?}");
    assert_eq!(step.failure.as_deref(), Some("reset"));
}

/// A failed request ends in its failure; a refusal and an error of the origin are answers, and no failure.
#[test]
fn a_failure_ends_the_request() {
    let failure = |cmd: &FetchCmd, stage: Stage, told: Told| cmd.relay(stage, told, None).failure;
    let cmd = fetch("fetch");
    let bad = parse_request(&b"GET /".to_vec());
    assert_eq!(
        failure(&cmd, Stage::Reading, Told::Head { request: bad }).as_deref(),
        Some("incomplete request head")
    );
    let nowhere = FetchCmd {
        url: "nowhere".to_owned(),
        ..fetch("fetch")
    };
    let request = parse_request(&b"GET /y HTTP/1.1\r\n\r\n".to_vec());
    assert_eq!(
        failure(&nowhere, Stage::Reading, Told::Head { request }).as_deref(),
        Some("relative URL without a base")
    );
    assert_eq!(
        failure(
            &cmd,
            Stage::Opening { origin: origin() },
            Told::Failed {
                cause: "no stream".to_owned()
            }
        )
        .as_deref(),
        Some("no stream")
    );
    assert_eq!(
        failure(
            &cmd,
            Stage::Asking { origin: origin() },
            Told::Refused {
                refusal: Refusal::NotAdmitted,
                words: "no".to_owned()
            }
        ),
        None
    );
    assert_eq!(
        failure(
            &cmd,
            Stage::Fetching,
            Told::Fetched(Fetched::Error("no route".to_owned()))
        ),
        None
    );
}

#[test]
fn the_ready_lines_hand_over_the_local_url() {
    assert_eq!(
        fetch("fetch").ready("127.0.0.1:4000", "desk"),
        "swoosh fetch ready. local URL:\n\n    http://127.0.0.1:4000/\n\nfetching http://example.com/x via \
         desk. hand this URL to a downloader. ctrl-c to stop.\n"
    );
    assert_eq!(
        fetch("fetch").body("failed".to_owned(), Some("teach")),
        "failed: teach"
    );
}
