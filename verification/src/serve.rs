//! Being a node: which services a serve publishes, the order its work runs in, the readiness banner it
//! prints, and why it stopped.

use vstd::prelude::*;
use vstd::string::StringExecFns;

use crate::dial;
use crate::dial::BindRole;
use crate::reach;
use crate::reach::Dialable;
use crate::reach::MdnsState;
use crate::reach::Reach;
use crate::reach::ReachKind;
use crate::reach::Socket;
use crate::reach::Transport;
use crate::routes;
use crate::routes::FetchScope;
use crate::routes::RecvService;
use crate::serving;
use crate::serving::ManifestEntry;
use crate::serving::Targets;
use crate::span;
use crate::text;

verus! {

broadcast use {vstd::seq::group_seq_axioms, vstd::string::group_string_axioms};

/// Be a node: publish these services, then stay reachable.
#[derive(Debug)]
pub struct ServeCmd {
    /// The services to publish, as `name=target`.
    pub services: Vec<String>,
    /// The services opened to anyone.
    pub public: Vec<String>,
    /// The raw streams opened to anyone.
    pub public_unsafe: Vec<String>,
    /// No banner and no activity lines.
    pub quiet: bool,
    /// Serve this many seconds, then stop.
    pub expires: Option<u64>,
    /// Be the one resident node of this home, with a control socket.
    pub resident: bool,
    /// The transport to bind.
    pub transport: Transport,
    /// Bind locally only.
    pub local: bool,
}

/// One piece of work of a serve, in the order it runs.
#[derive(Debug, Clone, Copy, PartialEq, Eq, Structural)]
pub enum Step {
    /// Take each fetch service out of the requested entries, each with its own origins.
    ExtractFetch,
    /// Take each receive service out of the requested entries, each with its own directory.
    ExtractReceive,
    /// Parse the names opened to anyone.
    ParsePublic,
    /// Bind every entry that is left.
    BindEntries,
    /// Bind the update route, for this root's devices only.
    BindRoster,
    /// Bind one instance per fetch service.
    BindFetch,
    /// Start the activity lines.
    StartActivity,
    /// Bind one instance per receive service.
    BindReceive,
    /// Bind the stop route, for this root's devices only.
    BindStop,
    /// Refuse a fetch opened to anyone that names no origin.
    RefuseOpenRelay,
    /// Parse the raw streams opened to anyone.
    ParsePublicUnsafe,
    /// Snapshot the catalog and bind the route that lists it.
    BindCatalog,
    /// Prove the opened names against what was bound.
    Expose,
    /// Prove that the transport authenticates what the gated routes rest on.
    ProveTransport,
    /// Take the one resident place of this home and its control socket.
    AcquireResident,
    /// Print the readiness banner.
    PrintBanner,
    /// Start the timer that stops the node.
    StartTimer,
    /// Serve until a stop.
    Run,
    /// Print why the node stopped.
    PrintStop,
}

/// The part of the work every serve does before it announces anything.
pub open spec fn binding_steps(quiet: bool) -> Seq<Step> {
    seq![
        Step::ExtractFetch,
        Step::ExtractReceive,
        Step::ParsePublic,
        Step::BindEntries,
        Step::BindRoster,
        Step::BindFetch,
    ] + (if quiet {
        Seq::empty()
    } else {
        seq![Step::StartActivity]
    }) + seq![
        Step::BindReceive,
        Step::BindStop,
        Step::RefuseOpenRelay,
        Step::ParsePublicUnsafe,
        Step::BindCatalog,
        Step::Expose,
        Step::ProveTransport,
    ]
}

/// A step that is there only where `wanted`.
pub open spec fn only_if(wanted: bool, step: Step) -> Seq<Step> {
    if wanted {
        seq![step]
    } else {
        Seq::empty()
    }
}

/// All the work of a serve, in order.
pub open spec fn serve_steps(quiet: bool, resident: bool, expires: Option<u64>) -> Seq<Step> {
    binding_steps(quiet) + only_if(resident, Step::AcquireResident) + only_if(
        !quiet,
        Step::PrintBanner,
    ) + only_if(expires is Some, Step::StartTimer) + seq![Step::Run, Step::PrintStop]
}

/// One route to bind.
#[derive(Debug)]
pub enum Bind {
    /// A requested entry, as it was typed; `open` is whether its name is opened to anyone, and so whether a
    /// diagnostic engine behind it is a metered one.
    Entry { entry: String, open: bool },
    /// A fetch service, which holds its own origin and no other. Without one it fetches from anywhere, and
    /// can never be opened.
    Fetch { name: String, origin: Option<String> },
    /// A receive service, which writes into its own directory and no other.
    Receive { name: String, out: String },
    /// A route of the node itself, for this root's devices only.
    Member { name: String },
}

pub ghost enum BindView {
    Entry { entry: Seq<char>, open: bool },
    Fetch { name: Seq<char>, origin: Option<Seq<char>> },
    Receive { name: Seq<char>, out: Seq<char> },
    Member { name: Seq<char> },
}

impl View for Bind {
    type V = BindView;

    open spec fn view(&self) -> BindView {
        match self {
            Bind::Entry { entry, open } => BindView::Entry { entry: entry@, open: *open },
            Bind::Fetch { name, origin } => BindView::Fetch {
                name: name@,
                origin: dial::opt(*origin),
            },
            Bind::Receive { name, out } => BindView::Receive { name: name@, out: out@ },
            Bind::Member { name } => BindView::Member { name: name@ },
        }
    }
}

/// The routes, as values.
pub open spec fn bind_views(binds: Seq<Bind>) -> Seq<BindView> {
    binds.map_values(|b: Bind| b@)
}

/// Whether the entry's name is among those opened to anyone.
pub open spec fn is_open(entry: Seq<char>, public: Seq<Seq<char>>) -> bool {
    match text::split_first(entry, '=') {
        Some((name, target)) => public.contains(name),
        None => false,
    }
}

/// The routes a step binds: each requested entry on its own, each fetch and each receive service with what
/// is its own, and the routes of the node itself, which nothing that was requested decides.
pub open spec fn bound_by(
    step: Step,
    entries: Seq<Seq<char>>,
    fetches: Seq<(Seq<char>, Option<Seq<char>>)>,
    receives: Seq<(Seq<char>, Seq<char>)>,
    public: Seq<Seq<char>>,
) -> Seq<BindView> {
    match step {
        Step::BindEntries => entries.map_values(
            |e: Seq<char>| BindView::Entry { entry: e, open: is_open(e, public) },
        ),
        Step::BindFetch => fetches.map_values(
            |f: (Seq<char>, Option<Seq<char>>)| BindView::Fetch { name: f.0, origin: f.1 },
        ),
        Step::BindReceive => receives.map_values(
            |r: (Seq<char>, Seq<char>)| BindView::Receive { name: r.0, out: r.1 },
        ),
        Step::BindRoster => seq![BindView::Member { name: serving::ROSTER_SERVICE@ }],
        Step::BindStop => seq![BindView::Member { name: serving::CONTROL_STOP_SERVICE@ }],
        Step::BindCatalog => seq![BindView::Member { name: serving::CONTROL_SERVICES_SERVICE@ }],
        _ => seq![],
    }
}

fn member(name: &str) -> (binds: Vec<Bind>)
    ensures
        bind_views(binds@) == seq![BindView::Member { name: name@ }],
{
    let mut binds: Vec<Bind> = Vec::new();
    binds.push(Bind::Member { name: name.to_owned() });
    assert(bind_views(binds@) =~= seq![BindView::Member { name: name@ }]);
    binds
}

/// The services published where none is named.
pub open spec fn default_services() -> Seq<Seq<char>> {
    seq!["ping=ping:"@, "speed=speed:"@]
}

/// What a serve says of its end.
pub open spec fn stop_words(expires: Option<u64>) -> Seq<char> {
    match expires {
        Some(secs) => "runs for "@ + span::two_coarsest(secs as nat) + ", then stops (or ctrl-c)"@,
        None => "ctrl-c to stop"@,
    }
}

/// The line that names the control socket.
pub open spec fn control_words(socket: Option<Seq<char>>) -> Seq<char> {
    "control "@ + (match socket {
        Some(path) => path,
        None => "<socket>"@,
    }) + " (local, this user)"@
}

impl ServeCmd {
    /// A serve accepts connections under this home's key, and presents nothing.
    pub fn bind_role(&self) -> (role: BindRole)
        ensures
            role@ == dial::BindRoleView::Serving,
    {
        BindRole::Serving
    }

    /// The entries this serve publishes: the named ones, or `ping` and `speed`.
    pub fn requested(&self) -> (entries: Vec<String>)
        ensures
            text::texts(entries@) == if self.services@.len() == 0 {
                default_services()
            } else {
                text::texts(self.services@)
            },
    {
        if self.services.len() > 0 {
            return text::copy_texts(&self.services);
        }
        let mut entries: Vec<String> = Vec::new();
        entries.push("ping=ping:".to_owned());
        entries.push("speed=speed:".to_owned());
        assert(text::texts(entries@) =~= default_services());
        entries
    }

    /// All the work of this serve, in order.
    pub fn steps(&self) -> (steps: Vec<Step>)
        ensures
            steps@ == serve_steps(self.quiet, self.resident, self.expires),
    {
        let mut steps: Vec<Step> = Vec::new();
        steps.push(Step::ExtractFetch);
        steps.push(Step::ExtractReceive);
        steps.push(Step::ParsePublic);
        steps.push(Step::BindEntries);
        steps.push(Step::BindRoster);
        steps.push(Step::BindFetch);
        if !self.quiet {
            steps.push(Step::StartActivity);
        }
        steps.push(Step::BindReceive);
        steps.push(Step::BindStop);
        steps.push(Step::RefuseOpenRelay);
        steps.push(Step::ParsePublicUnsafe);
        steps.push(Step::BindCatalog);
        steps.push(Step::Expose);
        steps.push(Step::ProveTransport);
        assert(steps@ =~= binding_steps(self.quiet));
        if self.resident {
            steps.push(Step::AcquireResident);
        }
        if !self.quiet {
            steps.push(Step::PrintBanner);
        }
        if self.expires.is_some() {
            steps.push(Step::StartTimer);
        }
        steps.push(Step::Run);
        steps.push(Step::PrintStop);
        assert(steps@ =~= serve_steps(self.quiet, self.resident, self.expires));
        steps
    }

    /// The routes that `step` binds, of the entries that are left of the requested ones and the services
    /// that were taken out of them.
    pub fn binds(
        &self,
        step: Step,
        requested: &Vec<String>,
        fetch: &FetchScope,
        receive: &Vec<RecvService>,
    ) -> (binds: Vec<Bind>)
        ensures
            bind_views(binds@) == bound_by(
                step,
                text::texts(requested@),
                fetch@,
                routes::recv_views(receive@),
                text::texts(self.public@),
            ),
    {
        match step {
            Step::BindEntries => self.bind_entries(requested),
            Step::BindFetch => bind_fetches(fetch),
            Step::BindReceive => bind_receivers(receive),
            Step::BindRoster => member(serving::ROSTER_SERVICE),
            Step::BindStop => member(serving::CONTROL_STOP_SERVICE),
            Step::BindCatalog => member(serving::CONTROL_SERVICES_SERVICE),
            _ => {
                let binds: Vec<Bind> = Vec::new();
                assert(bind_views(binds@) =~= seq![]);
                binds
            },
        }
    }

    fn bind_entries(&self, requested: &Vec<String>) -> (binds: Vec<Bind>)
        ensures
            bind_views(binds@) == bound_by(
                Step::BindEntries,
                text::texts(requested@),
                seq![],
                seq![],
                text::texts(self.public@),
            ),
    {
        let mut binds: Vec<Bind> = Vec::new();
        let mut i: usize = 0;
        while i < requested.len()
            invariant
                i <= requested.len(),
                binds.len() == i,
                forall|k: int|
                    0 <= k < i ==> (#[trigger] binds@[k])@ == (BindView::Entry {
                        entry: requested@[k]@,
                        open: is_open(requested@[k]@, text::texts(self.public@)),
                    }),
            decreases requested.len() - i,
        {
            let open: bool = match text::split_once(requested[i].as_str(), '=') {
                Some((name, _)) => text::holds(&self.public, name.as_str()),
                None => false,
            };
            binds.push(Bind::Entry { entry: requested[i].clone(), open });
            i = i + 1;
        }
        assert(bind_views(binds@) =~= bound_by(
            Step::BindEntries,
            text::texts(requested@),
            seq![],
            seq![],
            text::texts(self.public@),
        ));
        binds
    }

    /// The reach the banner tells of.
    pub fn reach_kind(&self) -> (kind: ReachKind)
        ensures
            kind == ReachKind::Internet <==> self.transport == Transport::Iroh && !self.local,
    {
        ReachKind::of(self.transport, self.local)
    }

    /// The banner's last line.
    pub fn stop_line(&self) -> (line: String)
        ensures
            line@ == stop_words(self.expires),
    {
        match self.expires {
            Some(secs) => {
                let mut line = "runs for ".to_owned();
                line.append(span::humanize_secs(secs).as_str());
                line.append(", then stops (or ctrl-c)");
                line
            },
            None => "ctrl-c to stop".to_owned(),
        }
    }

    /// The line that names the control socket, on a resident serve only.
    pub fn control_line(&self, socket: Option<&str>) -> (line: Option<String>)
        ensures
            match line {
                Some(text) => self.resident && text@ == control_words(
                    match socket {
                        Some(path) => Some(path@),
                        None => None,
                    },
                ),
                None => !self.resident,
            },
    {
        if !self.resident {
            return None;
        }
        let mut line = "control ".to_owned();
        match socket {
            Some(path) => line.append(path),
            None => line.append("<socket>"),
        }
        line.append(" (local, this user)");
        Some(line)
    }

    /// The targets the banner shows: those of the requested entries, and each receive service under its
    /// scheme, whose directory is not shown. The first entry without a `=` is refused.
    pub fn shown_targets(requested: &Vec<String>, receivers: &Vec<String>) -> (shown: Result<
        Targets,
        String,
    >)
        ensures
            match shown {
                Ok(targets) => (forall|i: int|
                    0 <= i < requested@.len() ==> serving::is_named((#[trigger] requested@[i])@))
                    && targets@ == receiving(
                    serving::targets_of(text::texts(requested@)),
                    text::texts(receivers@),
                ),
                Err(message) => exists|i: int|
                    0 <= i < requested@.len() && !serving::is_named((#[trigger] requested@[i])@)
                        && message@ == serving::bare_entry_message(requested@[i]@) && forall|j: int|
                        0 <= j < i ==> serving::is_named((#[trigger] requested@[j])@),
            },
    {
        let mut targets = match serving::display_targets(requested) {
            Ok(targets) => targets,
            Err(message) => {
                return Err(message);
            },
        };
        let ghost base = targets@;
        let ghost names = text::texts(receivers@);
        let mut i: usize = 0;
        assert(names.take(0) =~= Seq::<Seq<char>>::empty());
        while i < receivers.len()
            invariant
                i <= receivers.len(),
                names == text::texts(receivers@),
                targets@ == receiving(base, names.take(i as int)),
            decreases receivers.len() - i,
        {
            targets.insert(receivers[i].clone(), routes::RECV_TARGET.to_owned());
            assert(names.take(i + 1).drop_last() =~= names.take(i as int));
            i = i + 1;
        }
        assert(names.take(i as int) =~= names);
        Ok(targets)
    }

    /// The address a resident serve reports: the first the bind hands over, where there is one. None of
    /// the others is of a wider class.
    pub fn status_addr<'a>(&self, dialable: &'a Dialable) -> (addr: Option<&'a Socket>)
        ensures
            match addr {
                Some(socket) => self.resident && dialable.entries().len() > 0 && *socket
                    == dialable.entries()[0].socket,
                None => !self.resident || dialable.entries().len() == 0,
            },
            addr is Some ==> forall|i: int|
                0 <= i < dialable.entries().len() ==> dialable.entries()[0].scope.of_class().rank()
                    <= (#[trigger] dialable.entries()[i]).scope.of_class().rank(),
    {
        if !self.resident || dialable.all().len() == 0 {
            return None;
        }
        Some(&dialable.all()[0].socket)
    }
}

fn bind_fetches(fetch: &FetchScope) -> (binds: Vec<Bind>)
    ensures
        bind_views(binds@) == bound_by(Step::BindFetch, seq![], fetch@, seq![], seq![]),
{
    let services = fetch.services();
    let ghost all = routes::fetch_views(services@);
    let mut binds: Vec<Bind> = Vec::new();
    let mut i: usize = 0;
    while i < services.len()
        invariant
            i <= services.len(),
            all == routes::fetch_views(services@),
            binds.len() == i,
            forall|k: int|
                0 <= k < i ==> (#[trigger] binds@[k])@ == (BindView::Fetch {
                    name: all[k].0,
                    origin: all[k].1,
                }),
        decreases services.len() - i,
    {
        let origin = match &services[i].origin {
            Some(origin) => Some(origin.clone()),
            None => None,
        };
        binds.push(Bind::Fetch { name: services[i].name.clone(), origin });
        i = i + 1;
    }
    assert(bind_views(binds@) =~= bound_by(Step::BindFetch, seq![], fetch@, seq![], seq![]));
    binds
}

fn bind_receivers(receive: &Vec<RecvService>) -> (binds: Vec<Bind>)
    ensures
        bind_views(binds@) == bound_by(
            Step::BindReceive,
            seq![],
            seq![],
            routes::recv_views(receive@),
            seq![],
        ),
{
    let ghost all = routes::recv_views(receive@);
    let mut binds: Vec<Bind> = Vec::new();
    let mut i: usize = 0;
    while i < receive.len()
        invariant
            i <= receive.len(),
            all == routes::recv_views(receive@),
            binds.len() == i,
            forall|k: int|
                0 <= k < i ==> (#[trigger] binds@[k])@ == (BindView::Receive {
                    name: all[k].0,
                    out: all[k].1,
                }),
        decreases receive.len() - i,
    {
        binds.push(Bind::Receive { name: receive[i].name.clone(), out: receive[i].out.clone() });
        i = i + 1;
    }
    assert(bind_views(binds@) =~= bound_by(Step::BindReceive, seq![], seq![], all, seq![]));
    binds
}

/// `targets` with each receive service pointed at its scheme.
pub open spec fn receiving(
    targets: Map<Seq<char>, Seq<char>>,
    receivers: Seq<Seq<char>>,
) -> Map<Seq<char>, Seq<char>>
    decreases receivers.len(),
{
    if receivers.len() == 0 {
        targets
    } else {
        receiving(targets, receivers.drop_last()).insert(receivers.last(), routes::RECV_TARGET@)
    }
}

/// The banner down to its last blank line: everything above the control line.
pub open spec fn banner_body(node_id: Seq<char>, reach: Seq<char>, serving: Seq<char>) -> Seq<
    char,
> {
    "swoosh ready\n\n"@ + "    "@ + node_id + "\n\n"@ + reach + "\n"@ + serving + "\n"@
}

/// The readiness banner.
pub open spec fn banner(
    node_id: Seq<char>,
    reach: Seq<char>,
    serving: Seq<char>,
    stop_line: Seq<char>,
    control_line: Option<Seq<char>>,
) -> Seq<char> {
    banner_body(node_id, reach, serving) + (match control_line {
        Some(control) => control + "\n"@,
        None => Seq::empty(),
    }) + (stop_line + "\n"@)
}

/// Render the full readiness banner: the id alone on its line, how peers reach the node, what it serves,
/// the control line of a resident node, and the stop line.
pub fn render_ready_banner(
    node_id: &str,
    reach: ReachKind,
    mdns: &MdnsState,
    bound_reach: &Reach,
    dialable: &Dialable,
    manifest: &Vec<ManifestEntry>,
    targets: &Targets,
    fetch_names: &Vec<String>,
    stop_line: &str,
    control_line: Option<&str>,
) -> (out: String)
    ensures
        out@ == banner(
            node_id@,
            reach::section(reach, *mdns, *bound_reach, dialable.entries(), dialable.gap()),
            serving::section(manifest@, targets@, text::texts(fetch_names@)),
            stop_line@,
            match control_line {
                Some(control) => Some(control@),
                None => None,
            },
        ),
{
    let mut out = "swoosh ready\n\n".to_owned();
    out.append("    ");
    out.append(node_id);
    out.append("\n\n");
    out.append(reach::reach_section(reach, mdns, bound_reach, dialable).as_str());
    out.append("\n");
    out.append(serving::serving_section(manifest, targets, fetch_names).as_str());
    out.append("\n");
    let ghost body = out@;
    match control_line {
        Some(control) => {
            out.append(control);
            out.append("\n");
            assert(out@ =~= body + (control@ + "\n"@));
        },
        None => {
            assert(out@ =~= body + Seq::<char>::empty());
        },
    }
    let ghost above = out@;
    out.append(stop_line);
    out.append("\n");
    assert(out@ =~= above + (stop_line@ + "\n"@));
    out
}

/// Where a stop was asked.
#[derive(Debug, Clone, Copy, PartialEq, Eq, Structural)]
pub enum StopKind {
    /// On the local control socket.
    Socket,
    /// On the wire, by a device of this root.
    Wire,
    /// By the timer.
    Expires,
    /// By an interrupt at the terminal.
    Interrupted,
}

/// Why a node stopped gracefully. A failed teardown is an error, never one of these.
#[derive(Debug, Clone, Copy, PartialEq, Eq, Structural)]
pub enum Stopped {
    Requested,
    Interrupted,
    Local,
}

impl Stopped {
    pub open spec fn words(self) -> Seq<char> {
        match self {
            Stopped::Requested => "stopped gracefully, as requested"@,
            Stopped::Interrupted => "interrupted; stopped"@,
            Stopped::Local => "stopped by a local request"@,
        }
    }

    /// The line that says why the node stopped.
    pub fn message(self) -> (line: &'static str)
        ensures
            line@ == self.words(),
    {
        match self {
            Stopped::Requested => "stopped gracefully, as requested",
            Stopped::Interrupted => "interrupted; stopped",
            Stopped::Local => "stopped by a local request",
        }
    }
}

/// A log tells the reasons apart: no two of them print the same line.
pub proof fn each_reason_has_its_own_line(a: Stopped, b: Stopped)
    requires
        a != b,
    ensures
        a.words() != b.words(),
{
    reveal_strlit("stopped gracefully, as requested");
    reveal_strlit("interrupted; stopped");
    reveal_strlit("stopped by a local request");
    assert(a.words().len() != b.words().len());
}

/// The reason a recorded stop reads as.
pub open spec fn stop_reason(source: Option<StopKind>) -> Stopped {
    match source {
        Some(StopKind::Socket) => Stopped::Local,
        Some(StopKind::Interrupted) => Stopped::Interrupted,
        Some(StopKind::Wire) => Stopped::Requested,
        Some(StopKind::Expires) => Stopped::Requested,
        None => Stopped::Requested,
    }
}

/// Why a resident node stopped, from what was recorded first and never from what noticed it.
pub fn classify_stop(source: Option<StopKind>) -> (reason: Stopped)
    ensures
        reason == stop_reason(source),
{
    match source {
        Some(StopKind::Socket) => Stopped::Local,
        Some(StopKind::Interrupted) => Stopped::Interrupted,
        Some(StopKind::Wire) => Stopped::Requested,
        Some(StopKind::Expires) => Stopped::Requested,
        None => Stopped::Requested,
    }
}

/// What ended the wait of a serve, and whether it ended well.
#[derive(Debug, Clone, Copy, PartialEq, Eq, Structural)]
pub enum Ended {
    /// The exposer returned.
    Exposer { ok: bool },
    /// The control socket's loop returned.
    Control { ok: bool },
    /// The interrupt handler returned: an interrupt, or a failure to install the handler.
    Interrupt { ok: bool },
}

impl Ended {
    pub open spec fn well(self) -> bool {
        match self {
            Ended::Exposer { ok } => ok,
            Ended::Control { ok } => ok,
            Ended::Interrupt { ok } => ok,
        }
    }
}

/// What a graceful end does, and what it is reported as.
#[derive(Debug, Clone, Copy, PartialEq, Eq, Structural)]
pub struct Teardown {
    /// Record the interrupt as a source of the stop.
    pub note_interrupt: bool,
    /// Cancel the node's one teardown token.
    pub cancel: bool,
    /// Release the resident lock and unlink its socket.
    pub release: bool,
    /// Why the node stopped.
    pub stopped: Stopped,
}

/// The end of a serve. `resident` is what a resident serve recorded first of its stop, and is absent for
/// a plain serve. A failure to end well is no teardown: the error is the caller's to report.
pub open spec fn ending(resident: Option<Option<StopKind>>, ended: Ended) -> Option<Teardown> {
    if !ended.well() {
        None
    } else {
        Some(
            Teardown {
                note_interrupt: resident is Some && ended is Interrupt,
                cancel: ended is Interrupt,
                release: resident is Some,
                stopped: match resident {
                    None => if ended is Interrupt {
                        Stopped::Interrupted
                    } else {
                        Stopped::Requested
                    },
                    Some(first) => stop_reason(
                        if first is None && ended is Interrupt {
                            Some(StopKind::Interrupted)
                        } else {
                            first
                        },
                    ),
                },
            },
        )
    }
}

/// What to do when a serve's wait ended, or nothing where it ended in an error.
pub fn run_until_stopped(resident: Option<Option<StopKind>>, ended: Ended) -> (teardown: Option<
    Teardown,
>)
    ensures
        teardown == ending(resident, ended),
{
    let (ok, interrupt) = match ended {
        Ended::Exposer { ok } => (ok, false),
        Ended::Control { ok } => (ok, false),
        Ended::Interrupt { ok } => (ok, true),
    };
    if !ok {
        return None;
    }
    let stopped = match resident {
        None => if interrupt {
            Stopped::Interrupted
        } else {
            Stopped::Requested
        },
        Some(None) => if interrupt {
            classify_stop(Some(StopKind::Interrupted))
        } else {
            classify_stop(None)
        },
        Some(first) => classify_stop(first),
    };
    Some(
        Teardown {
            note_interrupt: resident.is_some() && interrupt,
            cancel: interrupt,
            release: resident.is_some(),
            stopped,
        },
    )
}

/// The resident banner is the plain banner plus exactly one control line, above the stop line.
pub proof fn a_resident_banner_adds_one_line(
    node_id: Seq<char>,
    reach: Seq<char>,
    serving: Seq<char>,
    stop_line: Seq<char>,
    control: Seq<char>,
)
    ensures
        banner(node_id, reach, serving, stop_line, None) == banner_body(node_id, reach, serving) + (
        stop_line + "\n"@),
        banner(node_id, reach, serving, stop_line, Some(control)) == banner_body(
            node_id,
            reach,
            serving,
        ) + (control + "\n"@) + (stop_line + "\n"@),
{
    let body = banner_body(node_id, reach, serving);
    assert(body + Seq::<char>::empty() =~= body);
}

/// Nothing is announced before it is proven: every serve proves what it opened and what carries it before
/// it takes the resident place, prints the banner, or starts the timer. And what was not asked for is
/// absent: a plain serve takes no resident place, a quiet one prints no banner and starts no activity
/// lines, and one with no end starts no timer.
pub proof fn a_serve_proves_before_it_announces(
    quiet: bool,
    resident: bool,
    expires: Option<u64>,
    i: int,
    j: int,
)
    requires
        0 <= i < serve_steps(quiet, resident, expires).len(),
        0 <= j < serve_steps(quiet, resident, expires).len(),
    ensures
        ({
            let steps = serve_steps(quiet, resident, expires);
            &&& steps.contains(Step::Expose)
            &&& steps.contains(Step::ProveTransport)
            &&& steps.contains(Step::AcquireResident) <==> resident
            &&& steps.contains(Step::PrintBanner) <==> !quiet
            &&& steps.contains(Step::StartActivity) <==> !quiet
            &&& steps.contains(Step::StartTimer) <==> expires is Some
            &&& (steps[i] == Step::Expose || steps[i] == Step::ProveTransport) && (steps[j]
                == Step::AcquireResident || steps[j] == Step::PrintBanner || steps[j]
                == Step::StartTimer || steps[j] == Step::Run) ==> i < j
        }),
{
    let steps = serve_steps(quiet, resident, expires);
    let bound = binding_steps(quiet);
    let n = bound.len();
    assert(steps.take(n as int) =~= bound);
    assert(steps[n - 1] == Step::ProveTransport);
    assert(steps[n - 2] == Step::Expose);
    if !quiet {
        assert(steps[6] == Step::StartActivity);
        assert(steps[n + (if resident {
            1int
        } else {
            0
        })] == Step::PrintBanner);
    }
    if resident {
        assert(steps[n as int] == Step::AcquireResident);
    }
    if expires is Some {
        assert(steps[steps.len() - 3] == Step::StartTimer);
    }
}

/// Every node answers for itself: whatever it serves and however it runs, a serve binds its roster, its
/// stop and its list of services, for this root's devices only, and before it announces anything.
pub proof fn a_node_always_answers_for_itself(
    quiet: bool,
    resident: bool,
    expires: Option<u64>,
    entries: Seq<Seq<char>>,
    fetches: Seq<(Seq<char>, Option<Seq<char>>)>,
    receives: Seq<(Seq<char>, Seq<char>)>,
    public: Seq<Seq<char>>,
)
    ensures
        binding_steps(quiet).contains(Step::BindRoster),
        binding_steps(quiet).contains(Step::BindStop),
        binding_steps(quiet).contains(Step::BindCatalog),
        binding_steps(quiet).is_prefix_of(serve_steps(quiet, resident, expires)),
        bound_by(Step::BindRoster, entries, fetches, receives, public) == seq![
            BindView::Member { name: serving::ROSTER_SERVICE@ },
        ],
        bound_by(Step::BindStop, entries, fetches, receives, public) == seq![
            BindView::Member { name: serving::CONTROL_STOP_SERVICE@ },
        ],
        bound_by(Step::BindCatalog, entries, fetches, receives, public) == seq![
            BindView::Member { name: serving::CONTROL_SERVICES_SERVICE@ },
        ],
{
    let bound = binding_steps(quiet);
    let n = bound.len();
    assert(bound[4] == Step::BindRoster);
    assert(bound[n - 6] == Step::BindStop);
    assert(bound[n - 3] == Step::BindCatalog);
    assert(serve_steps(quiet, resident, expires).subrange(0, n as int) =~= bound);
}

/// A resident stop is told from its source: once a stop is recorded, the same line is printed whichever
/// part of the node notices it first.
pub proof fn a_recorded_stop_reads_the_same(first: StopKind, a: Ended, b: Ended)
    requires
        a.well(),
        b.well(),
    ensures
        ending(Some(Some(first)), a)->0.stopped == ending(Some(Some(first)), b)->0.stopped,
        ending(Some(Some(first)), a)->0.stopped == stop_reason(Some(first)),
{
}

/// Whether each `a` among the steps runs before each `b`.
pub open spec fn precedes(steps: Seq<Step>, a: Step, b: Step) -> bool {
    forall|i: int, j: int|
        0 <= i < steps.len() && 0 <= j < steps.len() && #[trigger] steps[i] == a
            && #[trigger] steps[j] == b ==> i < j
}

spec fn place(step: Step) -> int {
    match step {
        Step::ExtractFetch => 0,
        Step::ExtractReceive => 1,
        Step::ParsePublic => 2,
        Step::BindEntries => 3,
        Step::BindRoster => 4,
        Step::BindFetch => 5,
        Step::StartActivity => 6,
        Step::BindReceive => 7,
        Step::BindStop => 8,
        Step::RefuseOpenRelay => 9,
        Step::ParsePublicUnsafe => 10,
        Step::BindCatalog => 11,
        Step::Expose => 12,
        Step::ProveTransport => 13,
        Step::AcquireResident => 14,
        Step::PrintBanner => 15,
        Step::StartTimer => 16,
        Step::Run => 17,
        Step::PrintStop => 18,
    }
}

proof fn lemma_steps_climb(quiet: bool, resident: bool, expires: Option<u64>)
    ensures
        ({
            let steps = serve_steps(quiet, resident, expires);
            forall|i: int, j: int|
                0 <= i < j < steps.len() ==> place(#[trigger] steps[i]) < place(#[trigger] steps[j])
        }),
{
    let steps = serve_steps(quiet, resident, expires);
    let bound = binding_steps(quiet);
    let n = bound.len() as int;
    assert forall|i: int, j: int| 0 <= i < j < bound.len() implies place(#[trigger] bound[i]) < place(
        #[trigger] bound[j],
    ) by {}
    assert(forall|i: int| 0 <= i < n ==> place(#[trigger] bound[i]) <= 13);
    assert(forall|i: int| 0 <= i < n ==> #[trigger] steps[i] == bound[i]);
    assert(forall|i: int| n <= i < steps.len() ==> place(#[trigger] steps[i]) >= 14);
    assert forall|i: int, j: int| 0 <= i < j < steps.len() implies place(#[trigger] steps[i])
        < place(#[trigger] steps[j]) by {}
}

/// Every part of a serve runs once, and in its place. The services are taken out and the opened names read
/// before anything is bound; everything is bound, and an open relay refused, before the names are proved;
/// the list of services is cut last of what is bound, when the opened names are known; and the node runs
/// after all of it and says why it stopped after that.
pub proof fn every_part_of_a_serve_runs_once_and_in_its_place(
    quiet: bool,
    resident: bool,
    expires: Option<u64>,
)
    ensures
        ({
            let steps = serve_steps(quiet, resident, expires);
            &&& steps.no_duplicates()
            &&& steps.contains(Step::ExtractFetch)
            &&& steps.contains(Step::ExtractReceive)
            &&& steps.contains(Step::ParsePublic)
            &&& steps.contains(Step::BindEntries)
            &&& steps.contains(Step::BindRoster)
            &&& steps.contains(Step::BindFetch)
            &&& steps.contains(Step::BindReceive)
            &&& steps.contains(Step::BindStop)
            &&& steps.contains(Step::RefuseOpenRelay)
            &&& steps.contains(Step::ParsePublicUnsafe)
            &&& steps.contains(Step::BindCatalog)
            &&& steps.contains(Step::Expose)
            &&& steps.contains(Step::ProveTransport)
            &&& steps.contains(Step::Run)
            &&& steps.contains(Step::PrintStop)
            &&& precedes(steps, Step::ExtractFetch, Step::BindEntries)
            &&& precedes(steps, Step::ExtractFetch, Step::BindFetch)
            &&& precedes(steps, Step::ExtractReceive, Step::BindEntries)
            &&& precedes(steps, Step::ExtractReceive, Step::BindReceive)
            &&& precedes(steps, Step::ParsePublic, Step::BindEntries)
            &&& precedes(steps, Step::BindEntries, Step::BindCatalog)
            &&& precedes(steps, Step::BindRoster, Step::BindCatalog)
            &&& precedes(steps, Step::BindFetch, Step::BindCatalog)
            &&& precedes(steps, Step::StartActivity, Step::BindReceive)
            &&& precedes(steps, Step::BindReceive, Step::BindCatalog)
            &&& precedes(steps, Step::BindStop, Step::BindCatalog)
            &&& precedes(steps, Step::ParsePublicUnsafe, Step::BindCatalog)
            &&& precedes(steps, Step::RefuseOpenRelay, Step::BindCatalog)
            &&& precedes(steps, Step::BindCatalog, Step::Expose)
            &&& precedes(steps, Step::Expose, Step::ProveTransport)
            &&& precedes(steps, Step::ProveTransport, Step::AcquireResident)
            &&& precedes(steps, Step::ProveTransport, Step::PrintBanner)
            &&& precedes(steps, Step::AcquireResident, Step::PrintBanner)
            &&& precedes(steps, Step::PrintBanner, Step::StartTimer)
            &&& precedes(steps, Step::StartTimer, Step::Run)
            &&& precedes(steps, Step::PrintBanner, Step::Run)
            &&& precedes(steps, Step::ProveTransport, Step::Run)
            &&& precedes(steps, Step::Run, Step::PrintStop)
        }),
{
    let steps = serve_steps(quiet, resident, expires);
    let n = binding_steps(quiet).len() as int;
    lemma_steps_climb(quiet, resident, expires);
    assert(steps[0] == Step::ExtractFetch);
    assert(steps[1] == Step::ExtractReceive);
    assert(steps[2] == Step::ParsePublic);
    assert(steps[3] == Step::BindEntries);
    assert(steps[4] == Step::BindRoster);
    assert(steps[5] == Step::BindFetch);
    assert(steps[n - 7] == Step::BindReceive);
    assert(steps[n - 6] == Step::BindStop);
    assert(steps[n - 5] == Step::RefuseOpenRelay);
    assert(steps[n - 4] == Step::ParsePublicUnsafe);
    assert(steps[n - 3] == Step::BindCatalog);
    assert(steps[n - 2] == Step::Expose);
    assert(steps[n - 1] == Step::ProveTransport);
    assert(steps[steps.len() - 2] == Step::Run);
    assert(steps[steps.len() - 1] == Step::PrintStop);
}

/// The routes all the steps bind, in order.
pub open spec fn routes_of(
    steps: Seq<Step>,
    entries: Seq<Seq<char>>,
    fetches: Seq<(Seq<char>, Option<Seq<char>>)>,
    receives: Seq<(Seq<char>, Seq<char>)>,
    public: Seq<Seq<char>>,
) -> Seq<BindView>
    decreases steps.len(),
{
    if steps.len() == 0 {
        seq![]
    } else {
        routes_of(steps.drop_last(), entries, fetches, receives, public) + bound_by(
            steps.last(),
            entries,
            fetches,
            receives,
            public,
        )
    }
}

proof fn lemma_routes_part(
    a: Seq<Step>,
    b: Seq<Step>,
    entries: Seq<Seq<char>>,
    fetches: Seq<(Seq<char>, Option<Seq<char>>)>,
    receives: Seq<(Seq<char>, Seq<char>)>,
    public: Seq<Seq<char>>,
)
    ensures
        routes_of(a + b, entries, fetches, receives, public) == routes_of(
            a,
            entries,
            fetches,
            receives,
            public,
        ) + routes_of(b, entries, fetches, receives, public),
    decreases b.len(),
{
    if b.len() == 0 {
        assert(a + b =~= a);
        assert(routes_of(a, entries, fetches, receives, public) + Seq::<BindView>::empty()
            =~= routes_of(a, entries, fetches, receives, public));
    } else {
        assert((a + b).drop_last() =~= a + b.drop_last());
        lemma_routes_part(a, b.drop_last(), entries, fetches, receives, public);
        assert(routes_of(a + b, entries, fetches, receives, public) =~= routes_of(
            a,
            entries,
            fetches,
            receives,
            public,
        ) + routes_of(b, entries, fetches, receives, public));
    }
}

proof fn lemma_one_step_routes(
    step: Step,
    entries: Seq<Seq<char>>,
    fetches: Seq<(Seq<char>, Option<Seq<char>>)>,
    receives: Seq<(Seq<char>, Seq<char>)>,
    public: Seq<Seq<char>>,
)
    ensures
        routes_of(seq![step], entries, fetches, receives, public) == bound_by(
            step,
            entries,
            fetches,
            receives,
            public,
        ),
{
    reveal_with_fuel(routes_of, 2);
    assert(seq![step].drop_last() =~= Seq::<Step>::empty());
    assert(routes_of(seq![step], entries, fetches, receives, public) =~= bound_by(
        step,
        entries,
        fetches,
        receives,
        public,
    ));
}

/// A serve binds everything that was asked of it, and nothing that was not: over all its steps together,
/// one route for each entry that is left, each fetch service with its own origin and each receive service
/// with its own directory, and the node's own three. How it runs adds no route and takes none away.
pub proof fn a_serve_binds_what_was_asked(
    quiet: bool,
    resident: bool,
    expires: Option<u64>,
    entries: Seq<Seq<char>>,
    fetches: Seq<(Seq<char>, Option<Seq<char>>)>,
    receives: Seq<(Seq<char>, Seq<char>)>,
    public: Seq<Seq<char>>,
)
    ensures
        ({
            let routes = routes_of(
                serve_steps(quiet, resident, expires),
                entries,
                fetches,
                receives,
                public,
            );
            &&& routes.len() == entries.len() + fetches.len() + receives.len() + 3
            &&& forall|i: int|
                0 <= i < entries.len() ==> routes.contains(
                    BindView::Entry {
                        entry: #[trigger] entries[i],
                        open: is_open(entries[i], public),
                    },
                )
            &&& forall|i: int|
                0 <= i < fetches.len() ==> routes.contains(
                    BindView::Fetch { name: (#[trigger] fetches[i]).0, origin: fetches[i].1 },
                )
            &&& forall|i: int|
                0 <= i < receives.len() ==> routes.contains(
                    BindView::Receive { name: (#[trigger] receives[i]).0, out: receives[i].1 },
                )
            &&& routes.contains(BindView::Member { name: "roster"@ })
            &&& routes.contains(BindView::Member { name: "control.stop"@ })
            &&& routes.contains(BindView::Member { name: "control.services"@ })
        }),
{
    let steps = serve_steps(quiet, resident, expires);
    let e = bound_by(Step::BindEntries, entries, fetches, receives, public);
    let f = bound_by(Step::BindFetch, entries, fetches, receives, public);
    let r = bound_by(Step::BindReceive, entries, fetches, receives, public);
    let roster = BindView::Member { name: "roster"@ };
    let stop = BindView::Member { name: "control.stop"@ };
    let list = BindView::Member { name: "control.services"@ };
    let all = e + seq![roster] + f + r + seq![stop] + seq![list];
    lemma_routes_in_order(quiet, resident, expires, entries, fetches, receives, public);
    let routes = routes_of(steps, entries, fetches, receives, public);
    assert(routes == all);
    let (ne, nf, nr) = (entries.len() as int, fetches.len() as int, receives.len() as int);
    assert forall|i: int| 0 <= i < entries.len() implies routes.contains(
        BindView::Entry { entry: #[trigger] entries[i], open: is_open(entries[i], public) },
    ) by {
        assert(all[i] == e[i]);
    }
    assert forall|i: int| 0 <= i < fetches.len() implies routes.contains(
        BindView::Fetch { name: (#[trigger] fetches[i]).0, origin: fetches[i].1 },
    ) by {
        assert(all[ne + 1 + i] == f[i]);
    }
    assert forall|i: int| 0 <= i < receives.len() implies routes.contains(
        BindView::Receive { name: (#[trigger] receives[i]).0, out: receives[i].1 },
    ) by {
        assert(all[ne + 1 + nf + i] == r[i]);
    }
    assert(all[ne] == roster);
    assert(all[ne + 1 + nf + nr] == stop);
    assert(all[ne + 2 + nf + nr] == list);
}

proof fn lemma_routes_in_order(
    quiet: bool,
    resident: bool,
    expires: Option<u64>,
    entries: Seq<Seq<char>>,
    fetches: Seq<(Seq<char>, Option<Seq<char>>)>,
    receives: Seq<(Seq<char>, Seq<char>)>,
    public: Seq<Seq<char>>,
)
    ensures
        routes_of(serve_steps(quiet, resident, expires), entries, fetches, receives, public)
            == bound_by(Step::BindEntries, entries, fetches, receives, public) + seq![
            BindView::Member { name: "roster"@ },
        ] + bound_by(Step::BindFetch, entries, fetches, receives, public) + bound_by(
            Step::BindReceive,
            entries,
            fetches,
            receives,
            public,
        ) + seq![BindView::Member { name: "control.stop"@ }] + seq![
            BindView::Member { name: "control.services"@ },
        ],
{
    let steps = serve_steps(quiet, resident, expires);
    let head = seq![Step::ExtractFetch, Step::ExtractReceive, Step::ParsePublic];
    let activity = if quiet {
        Seq::<Step>::empty()
    } else {
        seq![Step::StartActivity]
    };
    let between = seq![Step::RefuseOpenRelay, Step::ParsePublicUnsafe];
    let tail = seq![Step::Expose, Step::ProveTransport] + only_if(resident, Step::AcquireResident)
        + only_if(!quiet, Step::PrintBanner) + only_if(expires is Some, Step::StartTimer) + seq![
        Step::Run,
        Step::PrintStop,
    ];
    let a = head + seq![Step::BindEntries];
    let b = a + seq![Step::BindRoster];
    let c = b + seq![Step::BindFetch];
    let d = c + activity;
    let e = d + seq![Step::BindReceive];
    let f = e + seq![Step::BindStop];
    let g = f + between;
    let h = g + seq![Step::BindCatalog];
    assert(steps =~= h + tail);
    lemma_routes_part(head, seq![Step::BindEntries], entries, fetches, receives, public);
    lemma_routes_part(a, seq![Step::BindRoster], entries, fetches, receives, public);
    lemma_routes_part(b, seq![Step::BindFetch], entries, fetches, receives, public);
    lemma_routes_part(c, activity, entries, fetches, receives, public);
    lemma_routes_part(d, seq![Step::BindReceive], entries, fetches, receives, public);
    lemma_routes_part(e, seq![Step::BindStop], entries, fetches, receives, public);
    lemma_routes_part(f, between, entries, fetches, receives, public);
    lemma_routes_part(g, seq![Step::BindCatalog], entries, fetches, receives, public);
    lemma_routes_part(h, tail, entries, fetches, receives, public);
    lemma_one_step_routes(Step::BindEntries, entries, fetches, receives, public);
    lemma_one_step_routes(Step::BindRoster, entries, fetches, receives, public);
    lemma_one_step_routes(Step::BindFetch, entries, fetches, receives, public);
    lemma_one_step_routes(Step::BindReceive, entries, fetches, receives, public);
    lemma_one_step_routes(Step::BindStop, entries, fetches, receives, public);
    lemma_one_step_routes(Step::BindCatalog, entries, fetches, receives, public);
    lemma_no_routes(head, entries, fetches, receives, public);
    lemma_no_routes(activity, entries, fetches, receives, public);
    lemma_no_routes(between, entries, fetches, receives, public);
    lemma_no_routes(tail, entries, fetches, receives, public);
    assert(routes_of(steps, entries, fetches, receives, public) =~= bound_by(
        Step::BindEntries,
        entries,
        fetches,
        receives,
        public,
    ) + seq![BindView::Member { name: "roster"@ }] + bound_by(
        Step::BindFetch,
        entries,
        fetches,
        receives,
        public,
    ) + bound_by(Step::BindReceive, entries, fetches, receives, public) + seq![
        BindView::Member { name: "control.stop"@ },
    ] + seq![BindView::Member { name: "control.services"@ }]);
}

proof fn lemma_no_routes(
    steps: Seq<Step>,
    entries: Seq<Seq<char>>,
    fetches: Seq<(Seq<char>, Option<Seq<char>>)>,
    receives: Seq<(Seq<char>, Seq<char>)>,
    public: Seq<Seq<char>>,
)
    requires
        forall|i: int|
            0 <= i < steps.len() ==> bound_by(#[trigger] steps[i], entries, fetches, receives, public)
                == Seq::<BindView>::empty(),
    ensures
        routes_of(steps, entries, fetches, receives, public) == Seq::<BindView>::empty(),
    decreases steps.len(),
{
    if steps.len() > 0 {
        assert forall|i: int| 0 <= i < steps.drop_last().len() implies bound_by(
            #[trigger] steps.drop_last()[i],
            entries,
            fetches,
            receives,
            public,
        ) == Seq::<BindView>::empty() by {
            assert(steps.drop_last()[i] == steps[i]);
        }
        lemma_no_routes(steps.drop_last(), entries, fetches, receives, public);
        assert(routes_of(steps, entries, fetches, receives, public) =~= Seq::<BindView>::empty());
    }
}

/// A requested entry is opened by its name and by nothing else: `name=target` is open exactly where `name`
/// is among the names opened to anyone, and an entry without a name never is.
pub proof fn an_entry_is_opened_by_its_name(
    name: Seq<char>,
    target: Seq<char>,
    bare: Seq<char>,
    public: Seq<Seq<char>>,
)
    requires
        !name.contains('='),
        !bare.contains('='),
    ensures
        is_open(name + seq!['='] + target, public) <==> public.contains(name),
        !is_open(bare, public),
        bound_by(Step::BindEntries, seq![name + seq!['='] + target], seq![], seq![], public) == seq![
            BindView::Entry { entry: name + seq!['='] + target, open: public.contains(name) },
        ],
{
    text::a_cut_undoes_a_join(name, '=', target);
    text::a_cut_loses_nothing(bare, '=');
    assert(bound_by(Step::BindEntries, seq![name + seq!['='] + target], seq![], seq![], public)
        =~= seq![
        BindView::Entry { entry: name + seq!['='] + target, open: public.contains(name) },
    ]);
}

/// A stop is reported as what asked for it: at the control socket as local, at the terminal as an interrupt,
/// and otherwise as a request.
pub proof fn a_stop_is_reported_as_what_asked_for_it(
    first: Option<StopKind>,
    ended: Ended,
    resident: Option<Option<StopKind>>,
)
    ensures
        ending(resident, ended) is Some <==> ended.well(),
        ended.well() ==> ({
            let plain = ending(None, ended)->0;
            let held = ending(Some(first), ended)->0;
            &&& plain.stopped == Stopped::Interrupted <==> ended is Interrupt
            &&& plain.stopped == Stopped::Requested <==> !(ended is Interrupt)
            &&& held.stopped == Stopped::Local <==> first == Some(StopKind::Socket)
            &&& held.stopped == Stopped::Interrupted <==> first == Some(StopKind::Interrupted) || (
            first is None && ended is Interrupt)
            &&& !plain.release && held.release
            &&& !plain.note_interrupt && (held.note_interrupt <==> ended is Interrupt)
            &&& plain.cancel == (ended is Interrupt) && held.cancel == (ended is Interrupt)
        }),
        (Ended::Exposer { ok: true }).well() && (Ended::Control { ok: true }).well() && (
        Ended::Interrupt { ok: true }).well(),
        !(Ended::Exposer { ok: false }).well() && !(Ended::Control { ok: false }).well() && !(
        Ended::Interrupt { ok: false }).well(),
{
}

/// The banner's last line says how long the node runs, in the span it was given, or how to stop it; the
/// control line names the socket.
pub proof fn the_last_lines_say_what_they_were_given(secs: u64, path: Seq<char>)
    ensures
        stop_words(Some(secs)) == "runs for "@ + span::two_coarsest(secs as nat)
            + ", then stops (or ctrl-c)"@,
        stop_words(None) == "ctrl-c to stop"@,
        control_words(Some(path)) == "control "@ + path + " (local, this user)"@,
{
}

/// Every receive service is shown under its scheme, its directory never; every other target stays.
pub proof fn a_receiver_is_shown_under_its_scheme(
    targets: Map<Seq<char>, Seq<char>>,
    receivers: Seq<Seq<char>>,
    name: Seq<char>,
)
    ensures
        receivers.contains(name) ==> receiving(targets, receivers).contains_pair(name, "recv:"@),
        !receivers.contains(name) ==> (receiving(targets, receivers).dom().contains(name)
            <==> targets.dom().contains(name)),
        !receivers.contains(name) && targets.dom().contains(name) ==> receiving(targets, receivers)[name]
            == targets[name],
    decreases receivers.len(),
{
    if receivers.len() > 0 {
        let rest = receivers.drop_last();
        a_receiver_is_shown_under_its_scheme(targets, rest, name);
        if receivers.contains(name) && receivers.last() != name {
            let i = choose|i: int| 0 <= i < receivers.len() && receivers[i] == name;
            assert(rest[i] == name);
        }
        if rest.contains(name) {
            let i = choose|i: int| 0 <= i < rest.len() && rest[i] == name;
            assert(receivers[i] == name);
        }
    }
}

/// A serve that names no service publishes two, the probe and the throughput test, each under its scheme.
pub proof fn a_bare_serve_publishes_ping_and_speed()
    ensures
        default_services().len() == 2,
        default_services()[0] == "ping"@ + seq!['='] + "ping:"@,
        default_services()[1] == "speed"@ + seq!['='] + "speed:"@,
{
    reveal_strlit("ping");
    reveal_strlit("ping:");
    reveal_strlit("ping=ping:");
    reveal_strlit("speed");
    reveal_strlit("speed:");
    reveal_strlit("speed=speed:");
    assert("ping=ping:"@ =~= "ping"@ + seq!['='] + "ping:"@);
    assert("speed=speed:"@ =~= "speed"@ + seq!['='] + "speed:"@);
}

/// The banner shows everything it was given, in order: the id alone on its line, how peers reach the node,
/// what it serves, the control line where there is one, and last how it stops.
pub proof fn the_banner_shows_everything_it_was_given(
    node_id: Seq<char>,
    reach: Seq<char>,
    serving: Seq<char>,
    stop_line: Seq<char>,
    control_line: Option<Seq<char>>,
)
    ensures
        ({
            let out = banner(node_id, reach, serving, stop_line, control_line);
            &&& text::begins(out, "swoosh ready\n\n    "@ + node_id + "\n\n"@ + reach + "\n"@ + serving)
            &&& control_line matches Some(control) ==> out.skip(
                out.len() - (control.len() + 1 + stop_line.len() + 1),
            ) == control + "\n"@ + stop_line + "\n"@
            &&& out.skip(out.len() - (stop_line.len() + 1)) == stop_line + "\n"@
        }),
{
    reveal_strlit("swoosh ready\n\n    ");
    reveal_strlit("swoosh ready\n\n");
    reveal_strlit("    ");
    reveal_strlit("\n");
    assert("swoosh ready\n\n    "@ =~= "swoosh ready\n\n"@ + "    "@);
    let out = banner(node_id, reach, serving, stop_line, control_line);
    let head = "swoosh ready\n\n"@ + "    "@ + node_id + "\n\n"@ + reach + "\n"@ + serving;
    let body = banner_body(node_id, reach, serving);
    assert(body == head + "\n"@);
    match control_line {
        Some(control) => {
            lemma_lines_end(head, control, stop_line);
        },
        None => {
            assert(body + Seq::<char>::empty() =~= body);
            assert(head + "\n"@ + (stop_line + "\n"@) =~= head + ("\n"@ + stop_line + "\n"@));
            text::a_prefix_comes_off_as_it_went_on(
                head,
                "\n"@ + stop_line + "\n"@,
                Seq::empty(),
            );
            assert((body + (stop_line + "\n"@)).skip(body.len() as int) =~= stop_line + "\n"@);
        },
    }
}

proof fn lemma_lines_end(head: Seq<char>, control: Seq<char>, stop_line: Seq<char>)
    ensures
        ({
            let out = head + "\n"@ + (control + "\n"@) + (stop_line + "\n"@);
            &&& text::begins(out, head)
            &&& out.skip(out.len() - (control.len() + 1 + stop_line.len() + 1)) == control + "\n"@
                + stop_line + "\n"@
            &&& out.skip(out.len() - (stop_line.len() + 1)) == stop_line + "\n"@
        }),
{
    reveal_strlit("\n");
    let tail = stop_line + "\n"@;
    let told = control + "\n"@;
    let out = head + "\n"@ + told + tail;
    assert(out =~= head + ("\n"@ + told + tail));
    text::a_prefix_comes_off_as_it_went_on(head, "\n"@ + told + tail, Seq::empty());
    assert(out.skip(out.len() - tail.len()) =~= tail);
    assert(told + stop_line + "\n"@ =~= told + tail);
    assert(out.skip(out.len() - (told.len() + tail.len())) =~= told + tail);
}

} // verus!
