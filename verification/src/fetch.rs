//! Fetching through a node: a local URL whose requests leave at a node you name.
//!
//! Each inbound request rides its own stream to that node, which performs the origin request and streams
//! the response back. The course of one request is here, from one answer of the outside to the next thing
//! to do.

use vstd::prelude::*;
use vstd::string::StringExecFns;

use crate::dial;
use crate::dial::BindRole;
use crate::dial::Slip;
use crate::http;
use crate::http::Header;
use crate::http::Parsed;
use crate::http::ParsedView;
use crate::http::Status;
use crate::text;

verus! {

broadcast use {vstd::seq::group_seq_axioms, vstd::string::group_string_axioms};

/// Mint a local URL that fetches an origin through a node you name.
#[derive(Debug)]
pub struct FetchCmd {
    /// The origin URL.
    pub url: String,
    /// The node to fetch through.
    pub via: String,
    /// The served service to reach.
    pub service: String,
    /// A link to present in place of the badge.
    pub present: Option<String>,
    /// The local port, or a free one.
    pub port: Option<u16>,
}

/// Why the node refused a request.
#[derive(Debug)]
pub enum Refusal {
    /// The node did not take this caller.
    NotAdmitted,
    /// The node could not read the request.
    BadRequest,
    /// The node could not serve the request.
    Unavailable,
    /// A class this build cannot read.
    Unreadable,
}

/// The status of a refusal: only a ruling on the caller reads as one.
pub open spec fn refusal_status(refusal: Refusal) -> Status {
    match refusal {
        Refusal::NotAdmitted => Status::Forbidden,
        _ => Status::BadGateway,
    }
}

/// The status a refusal is served with. A refusal that cannot be read carries no ruling on the caller, so
/// it claims none.
pub fn status_of(refusal: &Refusal) -> (status: Status)
    ensures
        status == refusal_status(*refusal),
{
    match refusal {
        Refusal::NotAdmitted => Status::Forbidden,
        Refusal::BadRequest => Status::BadGateway,
        Refusal::Unavailable => Status::BadGateway,
        Refusal::Unreadable => Status::BadGateway,
    }
}

/// The body of a failure: what failed, and what the node would have to serve, where the service was a
/// default that a bare serve does not bind.
pub open spec fn failure_body(failure: Seq<char>, teaching: Option<Seq<char>>) -> Seq<char> {
    match teaching {
        Some(line) => failure + ": "@ + line,
        None => failure,
    }
}

/// The lines a fetch prints once it listens.
pub open spec fn ready_words(addr: Seq<char>, url: Seq<char>, label: Seq<char>) -> Seq<char> {
    "swoosh fetch ready. local URL:\n\n"@ + "    http://"@ + addr + "/\n\n"@ + "fetching "@ + url
        + " via "@ + label + ". hand this URL to a downloader. ctrl-c to stop.\n"@
}

/// What the node answered to a fetch.
#[derive(Debug)]
pub enum Fetched {
    /// The origin's response head; its body follows on the stream.
    Begun { status: u16, headers: Vec<Header> },
    /// The origin failed.
    Error(String),
}

/// What the node is asked for: the service, and what this machine presents for it.
#[derive(Debug)]
pub struct ServiceRequest {
    pub service: String,
    /// The link that is presented.
    pub capability: Option<String>,
    /// The membership badge that goes with it.
    pub membership: Option<String>,
}

pub ghost struct ServiceRequestView {
    pub service: Seq<char>,
    pub capability: Option<Seq<char>>,
    pub membership: Option<Seq<char>>,
}

impl View for ServiceRequest {
    type V = ServiceRequestView;

    open spec fn view(&self) -> ServiceRequestView {
        ServiceRequestView {
            service: self.service@,
            capability: dial::opt(self.capability),
            membership: dial::opt(self.membership),
        }
    }
}

/// One thing to do for a request.
#[derive(Debug)]
pub enum Act {
    /// Open a stream to the node.
    Open,
    /// Ask the node for the service.
    AskService { request: ServiceRequest },
    /// Send the origin request on the stream.
    SendFetch { method: String, url: String, headers: Vec<Header> },
    /// Write this to the client.
    Write(String),
    /// Copy the body from the stream to the client.
    CopyBody,
    /// Close the client's socket.
    Close,
}

pub ghost enum ActView {
    Open,
    AskService { request: ServiceRequestView },
    SendFetch { method: Seq<char>, url: Seq<char>, headers: Seq<(Seq<char>, Seq<char>)> },
    Write(Seq<char>),
    CopyBody,
    Close,
}

impl View for Act {
    type V = ActView;

    open spec fn view(&self) -> ActView {
        match self {
            Act::Open => ActView::Open,
            Act::AskService { request } => ActView::AskService { request: request@ },
            Act::SendFetch { method, url, headers } => ActView::SendFetch {
                method: method@,
                url: url@,
                headers: http::header_views(headers@),
            },
            Act::Write(text) => ActView::Write(text@),
            Act::CopyBody => ActView::CopyBody,
            Act::Close => ActView::Close,
        }
    }
}

/// The acts, as values.
pub open spec fn act_views(acts: Seq<Act>) -> Seq<ActView> {
    acts.map_values(|a: Act| a@)
}

/// An origin request.
#[derive(Debug)]
pub struct Origin {
    pub method: String,
    pub url: String,
    pub headers: Vec<Header>,
}

pub ghost struct OriginView {
    pub method: Seq<char>,
    pub url: Seq<char>,
    pub headers: Seq<(Seq<char>, Seq<char>)>,
}

impl View for Origin {
    type V = OriginView;

    open spec fn view(&self) -> OriginView {
        OriginView {
            method: self.method@,
            url: self.url@,
            headers: http::header_views(self.headers@),
        }
    }
}

/// How far a request has come.
#[derive(Debug)]
pub enum Stage {
    /// The head is being read.
    Reading,
    /// The stream is being opened.
    Opening { origin: Origin },
    /// The service was asked for.
    Asking { origin: Origin },
    /// The origin request was sent.
    Fetching,
    /// A response has begun.
    Responding,
    /// The request is over.
    Over,
}

pub ghost enum StageView {
    Reading,
    Opening { origin: OriginView },
    Asking { origin: OriginView },
    Fetching,
    Responding,
    Over,
}

impl View for Stage {
    type V = StageView;

    open spec fn view(&self) -> StageView {
        match self {
            Stage::Reading => StageView::Reading,
            Stage::Opening { origin } => StageView::Opening { origin: origin@ },
            Stage::Asking { origin } => StageView::Asking { origin: origin@ },
            Stage::Fetching => StageView::Fetching,
            Stage::Responding => StageView::Responding,
            Stage::Over => StageView::Over,
        }
    }
}

/// An answer of the outside.
#[derive(Debug)]
pub enum Told {
    /// The request of the head that was read, or why it is none.
    Head { request: Result<Parsed, String> },
    /// The stream is open; the link and the badge that this machine presents, as the dial resolved them.
    Opened { present: Option<String>, membership: Option<String> },
    /// The service was granted.
    Granted,
    /// The service was refused, in these words.
    Refused { refusal: Refusal, words: String },
    /// What the node answered to the fetch.
    Fetched(Fetched),
    /// The body was copied and the socket closed.
    Sent,
    /// Something failed, for this cause.
    Failed { cause: String },
}

impl Stage {
    /// Whether the stage waits for that answer. Anything may fail before the request is over.
    pub open spec fn awaits(self, told: Told) -> bool {
        match told {
            Told::Head { request } => self is Reading,
            Told::Opened { present, membership } => self is Opening,
            Told::Granted => self is Asking,
            Told::Refused { refusal, words } => self is Asking,
            Told::Fetched(fetched) => self is Fetching,
            Told::Sent => self is Responding,
            Told::Failed { cause } => !(self is Over),
        }
    }
}

/// What one answer comes to.
#[derive(Debug)]
pub struct Step {
    /// How far the request has come.
    pub stage: Stage,
    /// What to do next.
    pub acts: Vec<Act>,
    /// The failure the request ended in, where it failed.
    pub failure: Option<String>,
}

/// Answer with an error, and be done.
pub open spec fn answer(status: Status, message: Seq<char>) -> (StageView, Seq<ActView>) {
    (StageView::Over, seq![ActView::Write(http::error_text(status, message)), ActView::Close])
}

/// A failure: a `502` where no response has begun, and only a closed socket where one has.
pub open spec fn failed(stage: StageView, cause: Seq<char>, teaching: Option<Seq<char>>) -> (
    StageView,
    Seq<ActView>,
) {
    if stage is Responding {
        (StageView::Over, seq![ActView::Close])
    } else {
        answer(Status::BadGateway, failure_body("fetch failed: "@ + cause, teaching))
    }
}

/// Where a request resolves to, against the base.
pub open spec fn resolved(base: Seq<char>, target: Seq<char>) -> Result<Seq<char>, Seq<char>> {
    if http::is_root(target) {
        Ok(base)
    } else {
        http::joined_url(base, target)
    }
}

/// What the head asks for.
pub open spec fn next_head(
    base: Seq<char>,
    request: Result<ParsedView, Seq<char>>,
    teaching: Option<Seq<char>>,
) -> (StageView, Seq<ActView>) {
    match request {
        Err(cause) => failed(StageView::Reading, cause, teaching),
        Ok(parsed) => match resolved(base, parsed.target) {
            Err(cause) => failed(StageView::Reading, cause, teaching),
            Ok(url) => (
                StageView::Opening {
                    origin: OriginView { method: parsed.method, url, headers: parsed.headers },
                },
                seq![ActView::Open],
            ),
        },
    }
}

/// What the node answered to the fetch.
pub open spec fn next_fetched(fetched: Fetched) -> (StageView, Seq<ActView>) {
    match fetched {
        Fetched::Begun { status, headers } => (
            StageView::Responding,
            seq![
                ActView::Write(http::head_text(status, http::header_views(headers@))),
                ActView::CopyBody,
                ActView::Close,
            ],
        ),
        Fetched::Error(message) => answer(Status::BadGateway, "origin error: "@ + message@),
    }
}

/// What comes next, for each stage and each answer it waits for. `teaching` is what the requested service
/// name alone teaches.
pub open spec fn next(
    base: Seq<char>,
    service: Seq<char>,
    teaching: Option<Seq<char>>,
    stage: StageView,
    told: Told,
) -> (StageView, Seq<ActView>) {
    match (stage, told) {
        (_, Told::Failed { cause }) => failed(stage, cause@, teaching),
        (StageView::Reading, Told::Head { request }) => next_head(
            base,
            match request {
                Ok(parsed) => Ok(parsed@),
                Err(cause) => Err(cause@),
            },
            teaching,
        ),
        (StageView::Opening { origin }, Told::Opened { present, membership }) => (
            StageView::Asking { origin },
            seq![
                ActView::AskService {
                    request: ServiceRequestView {
                        service,
                        capability: dial::opt(present),
                        membership: dial::opt(membership),
                    },
                },
            ],
        ),
        (StageView::Asking { origin }, Told::Refused { refusal, words }) => answer(
            refusal_status(refusal),
            failure_body("fetch service refused: "@ + words@, teaching),
        ),
        (StageView::Asking { origin }, Told::Granted) => (
            StageView::Fetching,
            seq![
                ActView::SendFetch {
                    method: origin.method,
                    url: origin.url,
                    headers: origin.headers,
                },
            ],
        ),
        (StageView::Fetching, Told::Fetched(fetched)) => next_fetched(fetched),
        _ => (StageView::Over, seq![]),
    }
}

/// The failure a request ends in, where the answer is one: what failed outside, a head that is no request,
/// or a target that resolves to no URL. A refusal of the node and an error of the origin are answers that
/// the client is served, and no failure.
pub open spec fn failure_of(base: Seq<char>, told: Told) -> Option<Seq<char>> {
    match told {
        Told::Failed { cause } => Some(cause@),
        Told::Head { request: Err(cause) } => Some(cause@),
        Told::Head { request: Ok(parsed) } => match resolved(base, parsed.target@) {
            Ok(url) => None,
            Err(cause) => Some(cause),
        },
        _ => None,
    }
}

/// Whether the step carries the failure.
pub open spec fn carries(step: Step, failure: Option<Seq<char>>) -> bool {
    match step.failure {
        Some(cause) => failure == Some(cause@),
        None => failure is None,
    }
}

fn one(act: Act) -> (acts: Vec<Act>)
    ensures
        act_views(acts@) == seq![act@],
{
    let mut acts: Vec<Act> = Vec::new();
    acts.push(act);
    assert(act_views(acts@) =~= seq![act@]);
    acts
}

fn answer_with(status: Status, message: &str) -> (step: Step)
    ensures
        (step.stage@, act_views(step.acts@)) == answer(status, message@),
        step.failure is None,
{
    let mut acts: Vec<Act> = Vec::new();
    acts.push(Act::Write(http::error_response(status, message)));
    acts.push(Act::Close);
    assert(act_views(acts@) =~= answer(status, message@).1);
    Step { stage: Stage::Over, acts, failure: None }
}

fn going_on(stage: Stage, act: Act) -> (step: Step)
    ensures
        (step.stage@, act_views(step.acts@)) == (stage@, seq![act@]),
        step.failure is None,
{
    Step { stage, acts: one(act), failure: None }
}

impl FetchCmd {
    /// A fetch dials as one of the family: the owner's own exit node admits its badge.
    pub fn bind_role(&self, own: Option<&Slip>) -> (role: BindRole)
        ensures
            role@ == dial::as_family(dial::opt_slip(own), dial::opt(self.present)),
    {
        BindRole::family(own, &self.present)
    }

    /// What the node is asked for: the service this command names, and the credentials the dial resolved.
    pub fn service_request(&self, present: Option<String>, membership: Option<String>) -> (request:
        ServiceRequest)
        ensures
            request.service@ == self.service@,
            request.capability == present,
            request.membership == membership,
    {
        ServiceRequest { service: self.service.clone(), capability: present, membership }
    }

    /// The body of a failure this proxy serves. `teaching` is what the requested service name teaches,
    /// where it is a default that a bare serve does not bind; what came back picks no part of it.
    pub fn body(&self, failure: String, teaching: Option<&str>) -> (body: String)
        ensures
            body@ == failure_body(
                failure@,
                match teaching {
                    Some(line) => Some(line@),
                    None => None,
                },
            ),
    {
        let mut body = failure;
        if let Some(line) = teaching {
            body.append(": ");
            body.append(line);
        }
        body
    }

    /// What is printed once the local listener is up.
    pub fn ready(&self, addr: &str, label: &str) -> (out: String)
        ensures
            out@ == ready_words(addr@, self.url@, label@),
    {
        let mut out = "swoosh fetch ready. local URL:\n\n".to_owned();
        out.append("    http://");
        out.append(addr);
        out.append("/\n\n");
        out.append("fetching ");
        out.append(self.url.as_str());
        out.append(" via ");
        out.append(label);
        out.append(". hand this URL to a downloader. ctrl-c to stop.\n");
        out
    }

    fn fail(&self, responding: bool, cause: String, teaching: Option<&str>) -> (step: Step)
        ensures
            (step.stage@, act_views(step.acts@)) == failed(
                if responding {
                    StageView::Responding
                } else {
                    StageView::Reading
                },
                cause@,
                match teaching {
                    Some(line) => Some(line@),
                    None => None,
                },
            ),
            step.failure == Some(cause),
    {
        if responding {
            return Step { stage: Stage::Over, acts: one(Act::Close), failure: Some(cause) };
        }
        let mut failure = "fetch failed: ".to_owned();
        failure.append(cause.as_str());
        let body = self.body(failure, teaching);
        let answered = answer_with(Status::BadGateway, body.as_str());
        Step { stage: answered.stage, acts: answered.acts, failure: Some(cause) }
    }

    fn head_read(&self, request: Result<Parsed, String>, teaching: Option<&str>) -> (step: Step)
        ensures
            (step.stage@, act_views(step.acts@)) == next_head(
                self.url@,
                match request {
                    Ok(parsed) => Ok(parsed@),
                    Err(cause) => Err(cause@),
                },
                match teaching {
                    Some(line) => Some(line@),
                    None => None,
                },
            ),
            carries(step, failure_of(self.url@, Told::Head { request })),
    {
        match request {
            Err(cause) => self.fail(false, cause, teaching),
            Ok(parsed) => match http::origin_url(self.url.as_str(), parsed.target.as_str()) {
                Err(cause) => self.fail(false, cause, teaching),
                Ok(url) => {
                    let origin = Origin {
                        method: parsed.method,
                        url,
                        headers: parsed.headers,
                    };
                    going_on(Stage::Opening { origin }, Act::Open)
                },
            },
        }
    }

    /// Take one answer of the outside: how far the request has come with it, what to do next, and the
    /// failure it ends in, where it does.
    pub fn relay(&self, stage: Stage, told: Told, teaching: Option<&str>) -> (step: Step)
        requires
            stage.awaits(told),
        ensures
            (step.stage@, act_views(step.acts@)) == next(
                self.url@,
                self.service@,
                match teaching {
                    Some(line) => Some(line@),
                    None => None,
                },
                stage@,
                told,
            ),
            carries(step, failure_of(self.url@, told)),
    {
        match (stage, told) {
            (stage, Told::Failed { cause }) => {
                let responding: bool = match stage {
                    Stage::Responding => true,
                    _ => false,
                };
                self.fail(responding, cause, teaching)
            },
            (Stage::Reading, Told::Head { request }) => self.head_read(request, teaching),
            (Stage::Opening { origin }, Told::Opened { present, membership }) => going_on(
                Stage::Asking { origin },
                Act::AskService { request: self.service_request(present, membership) },
            ),
            (Stage::Asking { .. }, Told::Refused { refusal, words }) => {
                let mut failure = "fetch service refused: ".to_owned();
                failure.append(words.as_str());
                let body = self.body(failure, teaching);
                answer_with(status_of(&refusal), body.as_str())
            },
            (Stage::Asking { origin }, Told::Granted) => going_on(
                Stage::Fetching,
                Act::SendFetch {
                    method: origin.method,
                    url: origin.url,
                    headers: origin.headers,
                },
            ),
            (Stage::Fetching, Told::Fetched(Fetched::Begun { status, headers })) => {
                let mut acts: Vec<Act> = Vec::new();
                acts.push(Act::Write(http::response_head(status, &headers)));
                acts.push(Act::CopyBody);
                acts.push(Act::Close);
                assert(act_views(acts@) =~= next_fetched(Fetched::Begun { status, headers }).1);
                Step { stage: Stage::Responding, acts, failure: None }
            },
            (Stage::Fetching, Told::Fetched(Fetched::Error(message))) => {
                let mut words = "origin error: ".to_owned();
                words.append(message.as_str());
                answer_with(Status::BadGateway, words.as_str())
            },
            _ => {
                let acts: Vec<Act> = Vec::new();
                assert(act_views(acts@) =~= seq![]);
                Step { stage: Stage::Over, acts, failure: None }
            },
        }
    }
}

/// A failed request ends there, and its client is answered once at most: a `502` with the cause where no
/// response has begun, and only a closed socket where one has.
pub proof fn a_failure_ends_the_request(
    base: Seq<char>,
    service: Seq<char>,
    teaching: Option<Seq<char>>,
    stage: Stage,
    told: Told,
)
    requires
        stage.awaits(told),
    ensures
        failure_of(base, told) matches Some(cause) ==> ({
            let (after, acts) = next(base, service, teaching, stage@, told);
            &&& after is Over
            &&& stage is Responding ==> acts == seq![ActView::Close]
            &&& !(stage is Responding) ==> acts == seq![
                ActView::Write(
                    http::error_text(
                        Status::BadGateway,
                        failure_body("fetch failed: "@ + cause, teaching),
                    ),
                ),
                ActView::Close,
            ]
        }),
{
}

/// A downloader tells a ruling on itself from any other failure by the status alone: a refused service
/// is answered `403` exactly where the node did not take the caller, and every other failure is a `502`.
pub proof fn only_a_ruling_is_forbidden(
    base: Seq<char>,
    service: Seq<char>,
    teaching: Option<Seq<char>>,
    origin: OriginView,
    refusal: Refusal,
    words: String,
)
    ensures
        next(
            base,
            service,
            teaching,
            StageView::Asking { origin },
            Told::Refused { refusal, words },
        ) == answer(
            if refusal is NotAdmitted {
                Status::Forbidden
            } else {
                Status::BadGateway
            },
            failure_body("fetch service refused: "@ + words@, teaching),
        ),
{
}

/// What is taught is owed to the name this client asked for and to nothing that came back: two refusals
/// in the same words are answered with the same body, whatever their class.
pub proof fn the_body_does_not_tell_refusals_apart(
    base: Seq<char>,
    service: Seq<char>,
    teaching: Option<Seq<char>>,
    origin: OriginView,
    a: Refusal,
    b: Refusal,
    words: String,
)
    ensures
        ({
            let body = failure_body("fetch service refused: "@ + words@, teaching);
            let asking = StageView::Asking { origin };
            &&& next(base, service, teaching, asking, Told::Refused { refusal: a, words }) == answer(
                refusal_status(a),
                body,
            )
            &&& next(base, service, teaching, asking, Told::Refused { refusal: b, words }) == answer(
                refusal_status(b),
                body,
            )
        }),
{
}

/// At most one response: once one has begun nothing more is written, so a failure in the body can only
/// close the socket.
pub proof fn a_response_is_written_once(
    base: Seq<char>,
    service: Seq<char>,
    teaching: Option<Seq<char>>,
    stage: Stage,
    told: Told,
    i: int,
    j: int,
)
    requires
        stage.awaits(told),
        0 <= i < next(base, service, teaching, stage@, told).1.len(),
        0 <= j < next(base, service, teaching, stage@, told).1.len(),
    ensures
        ({
            let (after, acts) = next(base, service, teaching, stage@, told);
            &&& acts[i] is Write ==> !(stage is Responding) && (after is Responding || after is Over)
            &&& acts[i] is Write && acts[j] is Write ==> i == j
        }),
{
}

/// Credentials go only with the request for the service this command names: the node is asked once the
/// stream is open, for that service, with what the dial resolved and nothing else.
pub proof fn a_request_asks_for_its_own_service(
    base: Seq<char>,
    service: Seq<char>,
    teaching: Option<Seq<char>>,
    stage: Stage,
    told: Told,
    i: int,
)
    requires
        stage.awaits(told),
        0 <= i < next(base, service, teaching, stage@, told).1.len(),
    ensures
        next(base, service, teaching, stage@, told).1[i] matches ActView::AskService { request }
            ==> (told matches Told::Opened { present, membership } && request.service == service
            && request.capability == dial::opt(present) && request.membership == dial::opt(
            membership,
        )),
{
}

/// The origin request is the client's own. Whatever head was read, once the stream is open and the service
/// granted there is one request to the origin: the client's method, the client's headers in order, and the
/// URL that the client's target is against the base, which for the root is the base as it is.
pub proof fn the_origin_request_is_the_clients_own(
    base: Seq<char>,
    service: Seq<char>,
    teaching: Option<Seq<char>>,
    parsed: Parsed,
    present: Option<String>,
    membership: Option<String>,
)
    ensures
        ({
            let target = parsed.target@;
            let root = target == "/"@ || target.len() == 0;
            let url = if root {
                Ok::<Seq<char>, Seq<char>>(base)
            } else {
                http::joined_url(base, target)
            };
            let opening = next(
                base,
                service,
                teaching,
                StageView::Reading,
                Told::Head { request: Ok(parsed) },
            );
            let asking = next(
                base,
                service,
                teaching,
                opening.0,
                Told::Opened { present, membership },
            );
            let fetching = next(base, service, teaching, asking.0, Told::Granted);
            &&& url is Ok ==> {
                &&& opening.1 == seq![ActView::Open]
                &&& asking.1.len() == 1 && asking.1[0] is AskService
                &&& fetching.0 is Fetching
                &&& fetching.1.len() == 1
                &&& fetching.1[0] == (ActView::SendFetch {
                    method: parsed.method@,
                    url: url->Ok_0,
                    headers: parsed.headers@.map_values(|h: Header| (h.name@, h.value@)),
                })
            }
            &&& url is Err ==> opening.0 is Over
        }),
{
}

/// What the node answers is what the client gets: the origin's status and headers in the head, then the body
/// as it comes; an error of the origin in its own words; and the stages take a request nowhere else.
pub proof fn the_answer_is_the_origins_own(
    base: Seq<char>,
    service: Seq<char>,
    teaching: Option<Seq<char>>,
    status: u16,
    headers: Vec<Header>,
    message: String,
)
    ensures
        ({
            let begun = next(
                base,
                service,
                teaching,
                StageView::Fetching,
                Told::Fetched(Fetched::Begun { status, headers }),
            );
            let failed = next(
                base,
                service,
                teaching,
                StageView::Fetching,
                Told::Fetched(Fetched::Error(message)),
            );
            let sent = next(base, service, teaching, StageView::Responding, Told::Sent);
            &&& begun.0 is Responding
            &&& begun.1.len() == 3
            &&& begun.1[0] == ActView::Write(
                http::head_text(status, headers@.map_values(|h: Header| (h.name@, h.value@))),
            )
            &&& begun.1[1] is CopyBody && begun.1[2] is Close
            &&& failed.0 is Over
            &&& failed.1.len() == 2 && failed.1[1] is Close
            &&& failed.1[0] == ActView::Write(
                http::error_text(Status::BadGateway, "origin error: "@ + message@),
            )
            &&& sent.0 is Over && sent.1.len() == 0
        }),
{
}

/// The body of a failure starts with what failed, and adds the line that is taught where there is one and
/// nothing where there is none.
pub proof fn a_failure_says_what_failed_first(failure: Seq<char>, line: Seq<char>)
    ensures
        failure_body(failure, None) == failure,
        text::begins(failure_body(failure, Some(line)), failure),
        text::after(failure_body(failure, Some(line)), failure + ": "@) == Some(line),
{
    assert(failure_body(failure, Some(line)) =~= failure + (": "@ + line));
    text::a_prefix_comes_off_as_it_went_on(failure, ": "@ + line, Seq::empty());
    assert(failure_body(failure, Some(line)) =~= (failure + ": "@) + line);
    text::a_prefix_comes_off_as_it_went_on(failure + ": "@, line, Seq::empty());
}

/// A request fails with a cause exactly where something failed: what the outside reports, what the head does
/// not read as, or what its target does not resolve to; and a step carries that cause and no other.
pub proof fn a_failure_is_carried_with_its_cause(base: Seq<char>, told: Told, step: Step)
    requires
        carries(step, failure_of(base, told)),
    ensures
        told matches Told::Failed { cause } ==> step.failure is Some && step.failure->0@ == cause@,
        told matches Told::Head { request: Err(cause) } ==> step.failure is Some && step.failure->0@
            == cause@,
        told matches Told::Head { request: Ok(parsed) } ==> (step.failure is Some <==> resolved(
            base,
            parsed.target@,
        ) is Err),
        !(told is Failed) && !(told is Head) ==> step.failure is None,
{
}

} // verus!
