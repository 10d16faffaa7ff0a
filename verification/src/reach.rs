//! How peers reach this node: the addresses a bind answers on, ranked by how far each one goes, and the
//! `how peers reach you` section of the readiness banner.
//!
//! The section has one channel per line. An internet bind says that it is reached by its key, where its
//! address records go, and which relay it offers when either server is its own. A direct-only bind hands
//! over addresses instead, one per reach class, on the `direct` lane.

use vstd::prelude::*;
use vstd::string::StrSliceExecFns;
use vstd::string::StringExecFns;

use crate::text;

verus! {

broadcast use {vstd::seq::group_seq_axioms, vstd::string::group_string_axioms};

/// The transport a node binds.
#[derive(Debug, Clone, Copy, PartialEq, Eq, Structural)]
pub enum Transport {
    Iroh,
    Quirk,
    QuirkNoise,
}

/// How peers reach this node: across the internet, or only locally and directly.
#[derive(Debug, Clone, Copy, PartialEq, Eq, Structural)]
pub enum ReachKind {
    /// The transport routes across the internet and NATs: a peer reaches this node by the key alone.
    Internet,
    /// The bind is local and direct only: a peer reaches this node over local mDNS, or by a handed-over
    /// address.
    DirectOnly,
}

impl ReachKind {
    /// The reach of the selected transport and bind mode. Only an iroh bind that is not local routes
    /// across the internet.
    pub fn of(transport: Transport, local: bool) -> (kind: Self)
        ensures
            kind == ReachKind::Internet <==> transport == Transport::Iroh && !local,
    {
        match transport {
            Transport::Iroh => if local {
                ReachKind::DirectOnly
            } else {
                ReachKind::Internet
            },
            Transport::Quirk => ReachKind::DirectOnly,
            Transport::QuirkNoise => ReachKind::DirectOnly,
        }
    }
}

/// How far a class of address reaches, widest first.
#[derive(Debug, Clone, Copy, PartialEq, Eq, Structural)]
pub enum ScopeClass {
    Internet,
    Network,
    Tunnel,
    ThisMachine,
}

impl ScopeClass {
    /// The place of the class in the order addresses are handed over: what a peer elsewhere can route to
    /// first, loopback last.
    pub open spec fn rank(self) -> int {
        match self {
            ScopeClass::Internet => 0,
            ScopeClass::Network => 1,
            ScopeClass::Tunnel => 2,
            ScopeClass::ThisMachine => 3,
        }
    }

    /// The word the class is spelled with, on its row and in the expiring gloss alike.
    pub open spec fn word(self) -> Seq<char> {
        match self {
            ScopeClass::Internet => "the internet"@,
            ScopeClass::Network => "this network"@,
            ScopeClass::Tunnel => "this tunnel"@,
            ScopeClass::ThisMachine => "this machine"@,
        }
    }
}

/// How far one address reaches. A tunnel carries the link it rides, which no line names.
#[derive(Debug)]
pub enum Scope {
    Internet,
    Network,
    Tunnel { link: String },
    ThisMachine,
}

impl Scope {
    pub open spec fn of_class(self) -> ScopeClass {
        match self {
            Scope::Internet => ScopeClass::Internet,
            Scope::Network => ScopeClass::Network,
            Scope::Tunnel { link } => ScopeClass::Tunnel,
            Scope::ThisMachine => ScopeClass::ThisMachine,
        }
    }

    /// The class of the scope, whatever link it rides.
    pub fn class(&self) -> (class: ScopeClass)
        ensures
            class == self.of_class(),
    {
        match self {
            Scope::Internet => ScopeClass::Internet,
            Scope::Network => ScopeClass::Network,
            Scope::Tunnel { .. } => ScopeClass::Tunnel,
            Scope::ThisMachine => ScopeClass::ThisMachine,
        }
    }
}

/// A socket address as it is printed, with the two facts about it that a line depends on.
#[derive(Debug)]
pub struct Socket {
    pub text: String,
    pub v6: bool,
    pub port: u16,
}

/// One address a bind answers on, and how far it reaches.
#[derive(Debug)]
pub struct At {
    pub socket: Socket,
    pub scope: Scope,
}

/// The classes of the addresses a flag read dropped as expiring: never an empty report.
#[derive(Debug)]
pub struct Expiring {
    dropped: Vec<ScopeClass>,
}

impl Expiring {
    /// The classes that lost an address.
    pub closed spec fn view(&self) -> Seq<ScopeClass> {
        self.dropped@
    }

    /// The report of the dropped scopes, or nothing where none was dropped.
    pub fn of(dropped: &Vec<Scope>) -> (report: Option<Expiring>)
        ensures
            report is None <==> dropped@.len() == 0,
            report is Some ==> report->0@ == dropped@.map_values(|s: Scope| s.of_class()),
    {
        let mut classes: Vec<ScopeClass> = Vec::new();
        let mut i: usize = 0;
        while i < dropped.len()
            invariant
                i <= dropped.len(),
                classes@ == dropped@.take(i as int).map_values(|s: Scope| s.of_class()),
            decreases dropped.len() - i,
        {
            classes.push(dropped[i].class());
            i = i + 1;
            assert(classes@ =~= dropped@.take(i as int).map_values(|s: Scope| s.of_class()));
        }
        assert(dropped@.take(i as int) =~= dropped@);
        if classes.len() == 0 {
            None
        } else {
            Some(Expiring { dropped: classes })
        }
    }

    /// Whether the class lost an address.
    pub fn lost(&self, class: ScopeClass) -> (yes: bool)
        ensures
            yes == self@.contains(class),
    {
        let mut i: usize = 0;
        while i < self.dropped.len()
            invariant
                i <= self.dropped.len(),
                forall|j: int| 0 <= j < i ==> self.dropped@[j] != class,
            decreases self.dropped.len() - i,
        {
            if self.dropped[i] == class {
                return true;
            }
            i = i + 1;
        }
        false
    }
}

/// What an expansion of a bind could not read, or left out.
#[derive(Debug)]
pub enum Missing {
    /// The list is whole.
    Nothing,
    /// This host's interfaces could not be read, so the list is short.
    Interfaces,
    /// Addresses about to stop answering were dropped.
    Expiring(Expiring),
    /// The address flags could not be read, so the list is whole and unchecked.
    Flags,
}

/// The addresses a bind answers on, in rank order, and what is missing from them.
#[derive(Debug)]
pub struct Dialable {
    entries: Vec<At>,
    missing: Missing,
}

/// Whether `at` is of `class`.
pub open spec fn of(at: At, class: ScopeClass) -> bool {
    at.scope.of_class() == class
}

/// The entries of `class`, in their order.
pub open spec fn those(entries: Seq<At>, class: ScopeClass) -> Seq<At> {
    entries.filter(|at: At| of(at, class))
}

/// `entries` by rank: the widest class first, each class in its own order.
pub open spec fn ranked(entries: Seq<At>) -> Seq<At> {
    those(entries, ScopeClass::Internet) + those(entries, ScopeClass::Network) + those(
        entries,
        ScopeClass::Tunnel,
    ) + those(entries, ScopeClass::ThisMachine)
}

/// Whether the addresses stand in rank order: no address before one of a wider class.
pub open spec fn in_rank_order(entries: Seq<At>) -> bool {
    forall|i: int, j: int|
        0 <= i < j < entries.len() ==> (#[trigger] entries[i]).scope.of_class().rank() <= (
        #[trigger] entries[j]).scope.of_class().rank()
}

impl Dialable {
    /// What is handed over always stands in rank order.
    #[verifier::type_invariant]
    spec fn is_in_rank_order(self) -> bool {
        in_rank_order(self.entries@)
    }

    /// The addresses, in the order they are handed over.
    pub closed spec fn entries(&self) -> Seq<At> {
        self.entries@
    }

    pub closed spec fn gap(&self) -> Missing {
        self.missing
    }

    /// The expansion `entries` with `missing` left out of it.
    pub fn short(entries: Vec<At>, missing: Missing) -> (d: Dialable)
        ensures
            d.entries() == ranked(entries@),
            d.gap() == missing,
    {
        let mut rest = entries;
        let mut internet: Vec<At> = Vec::new();
        let mut network: Vec<At> = Vec::new();
        let mut tunnel: Vec<At> = Vec::new();
        let mut machine: Vec<At> = Vec::new();
        let ghost all = rest@;
        let ghost mut n: int = 0;
        assert(all.take(0) =~= Seq::<At>::empty());
        while rest.len() > 0
            invariant
                0 <= n <= all.len(),
                rest@ == all.skip(n),
                internet@ == those(all.take(n), ScopeClass::Internet),
                network@ == those(all.take(n), ScopeClass::Network),
                tunnel@ == those(all.take(n), ScopeClass::Tunnel),
                machine@ == those(all.take(n), ScopeClass::ThisMachine),
            decreases rest.len(),
        {
            let at = rest.remove(0);
            proof {
                assert(all.skip(n).remove(0) =~= all.skip(n + 1));
                assert(all.take(n + 1) =~= all.take(n).push(all[n]));
                lemma_those_push(all.take(n), all[n], ScopeClass::Internet);
                lemma_those_push(all.take(n), all[n], ScopeClass::Network);
                lemma_those_push(all.take(n), all[n], ScopeClass::Tunnel);
                lemma_those_push(all.take(n), all[n], ScopeClass::ThisMachine);
                n = n + 1;
            }
            match at.scope.class() {
                ScopeClass::Internet => internet.push(at),
                ScopeClass::Network => network.push(at),
                ScopeClass::Tunnel => tunnel.push(at),
                ScopeClass::ThisMachine => machine.push(at),
            }
        }
        assert(all.take(n) =~= all);
        internet.append(&mut network);
        internet.append(&mut tunnel);
        internet.append(&mut machine);
        proof {
            ranking_keeps_every_address(all);
        }
        Dialable { entries: internet, missing }
    }

    /// The expansion `entries`, with nothing missing.
    pub fn whole(entries: Vec<At>) -> (d: Dialable)
        ensures
            d.entries() == ranked(entries@),
            d.gap() == Missing::Nothing,
    {
        Dialable::short(entries, Missing::Nothing)
    }

    /// The addresses, in the order they are handed over.
    pub fn all(&self) -> (entries: &Vec<At>)
        ensures
            entries@ == self.entries(),
            in_rank_order(entries@),
    {
        proof {
            use_type_invariant(self);
        }
        &self.entries
    }

    /// What is missing from the addresses.
    pub fn missing(&self) -> (missing: &Missing)
        ensures
            *missing == self.gap(),
    {
        &self.missing
    }
}

proof fn lemma_those_push(entries: Seq<At>, at: At, class: ScopeClass)
    ensures
        those(entries.push(at), class) == if of(at, class) {
            those(entries, class).push(at)
        } else {
            those(entries, class)
        },
{
    reveal(Seq::filter);
    assert(entries.push(at).drop_last() =~= entries);
}

/// Whether `entries[i]` is the address its class hands over: the first v4 of the class, or the first of
/// the class where it has no v4.
pub open spec fn leads(entries: Seq<At>, class: ScopeClass, i: int) -> bool {
    &&& 0 <= i < entries.len()
    &&& of(entries[i], class)
    &&& entries[i].socket.v6 ==> forall|j: int|
        0 <= j < entries.len() && of(#[trigger] entries[j], class) ==> entries[j].socket.v6
    &&& forall|j: int|
        0 <= j < i && of(#[trigger] entries[j], class) ==> entries[j].socket.v6
            != entries[i].socket.v6
}

/// One line of the lane: the address, its port and its class.
#[derive(Debug)]
pub struct Row {
    pub addr: String,
    pub port: u16,
    pub class: ScopeClass,
}

/// A row as a value.
pub ghost struct RowView {
    pub addr: Seq<char>,
    pub port: u16,
    pub class: ScopeClass,
}

impl View for Row {
    type V = RowView;

    open spec fn view(&self) -> RowView {
        RowView { addr: self.addr@, port: self.port, class: self.class }
    }
}

pub open spec fn row_of(at: At) -> RowView {
    RowView { addr: at.socket.text@, port: at.socket.port, class: at.scope.of_class() }
}

/// The row of `class`: one where the class has an address, none where it has not.
pub open spec fn row(entries: Seq<At>, class: ScopeClass) -> Seq<RowView> {
    if exists|i: int| leads(entries, class, i) {
        seq![row_of(entries[choose|i: int| leads(entries, class, i)])]
    } else {
        Seq::empty()
    }
}

/// The rows of the lane: at most one per class, widest class first.
pub open spec fn rows(entries: Seq<At>) -> Seq<RowView> {
    row(entries, ScopeClass::Internet) + row(entries, ScopeClass::Network) + row(
        entries,
        ScopeClass::Tunnel,
    ) + row(entries, ScopeClass::ThisMachine)
}

/// The rows, as values.
pub open spec fn views(rows: Seq<Row>) -> Seq<RowView> {
    rows.map_values(|r: Row| r@)
}

/// At most one address leads a class.
proof fn lemma_one_leads(entries: Seq<At>, class: ScopeClass, i: int, j: int)
    requires
        leads(entries, class, i),
        leads(entries, class, j),
    ensures
        i == j,
{
    assert(of(entries[i], class) && of(entries[j], class));
}

/// A class with an address has one that leads it.
proof fn lemma_some_leads(entries: Seq<At>, class: ScopeClass, k: int)
    requires
        0 <= k < entries.len(),
        of(entries[k], class),
    ensures
        exists|i: int| leads(entries, class, i),
    decreases k,
{
    if !leads(entries, class, k) {
        if exists|j: int| 0 <= j < k && of(#[trigger] entries[j], class) && entries[j].socket.v6
            == entries[k].socket.v6 {
            let j = choose|j: int|
                0 <= j < k && of(#[trigger] entries[j], class) && entries[j].socket.v6
                    == entries[k].socket.v6;
            lemma_some_leads(entries, class, j);
        } else {
            // The entry is a v6 and the class has a v4: the first of those leads.
            let j = choose|j: int|
                0 <= j < entries.len() && of(#[trigger] entries[j], class) && !entries[j].socket.v6;
            lemma_first_v4_leads(entries, class, j);
        }
    }
}

proof fn lemma_first_v4_leads(entries: Seq<At>, class: ScopeClass, k: int)
    requires
        0 <= k < entries.len(),
        of(entries[k], class),
        !entries[k].socket.v6,
    ensures
        exists|i: int| leads(entries, class, i),
    decreases k,
{
    if !leads(entries, class, k) {
        let j = choose|j: int|
            0 <= j < k && of(#[trigger] entries[j], class) && !entries[j].socket.v6;
        lemma_first_v4_leads(entries, class, j);
    }
}

/// Put the row of `class` on the end, if the class has one.
fn push_row(out: &mut Vec<Row>, entries: &Vec<At>, class: ScopeClass)
    ensures
        views(final(out)@) == views(old(out)@) + row(entries@, class),
{
    let mut first: Option<usize> = None;
    let mut first_v4: Option<usize> = None;
    let mut i: usize = 0;
    while i < entries.len()
        invariant
            i <= entries.len(),
            match first {
                Some(f) => f < i && of(entries@[f as int], class) && forall|j: int|
                    0 <= j < f ==> !of(#[trigger] entries@[j], class),
                None => forall|j: int| 0 <= j < i ==> !of(#[trigger] entries@[j], class),
            },
            match first_v4 {
                Some(f) => f < i && of(entries@[f as int], class) && !entries@[f as int].socket.v6
                    && forall|j: int|
                    0 <= j < f && of(#[trigger] entries@[j], class) ==> entries@[j].socket.v6,
                None => forall|j: int|
                    0 <= j < i && of(#[trigger] entries@[j], class) ==> entries@[j].socket.v6,
            },
        decreases entries.len() - i,
    {
        if entries[i].scope.class() == class {
            if first.is_none() {
                first = Some(i);
            }
            if first_v4.is_none() && !entries[i].socket.v6 {
                first_v4 = Some(i);
            }
        }
        i = i + 1;
    }
    let lead: Option<usize> = if first_v4.is_some() {
        first_v4
    } else {
        first
    };
    match lead {
        Some(k) => {
            proof {
                assert(leads(entries@, class, k as int));
                lemma_one_leads(
                    entries@,
                    class,
                    k as int,
                    choose|i: int| leads(entries@, class, i),
                );
            }
            let at = &entries[k];
            out.push(
                Row { addr: at.socket.text.clone(), port: at.socket.port, class: at.scope.class() },
            );
        },
        None => {
            assert(forall|i: int| leads(entries@, class, i) ==> of(entries@[i], class));
        },
    }
    assert(views(out@) =~= views(old(out)@) + row(entries@, class));
}

/// The rows of the lane.
pub fn lane(entries: &Vec<At>) -> (out: Vec<Row>)
    ensures
        views(out@) == rows(entries@),
{
    let mut out: Vec<Row> = Vec::new();
    push_row(&mut out, entries, ScopeClass::Internet);
    push_row(&mut out, entries, ScopeClass::Network);
    push_row(&mut out, entries, ScopeClass::Tunnel);
    push_row(&mut out, entries, ScopeClass::ThisMachine);
    assert(views(out@) =~= rows(entries@));
    out
}

/// Whether one of `rows` is of `class`.
pub open spec fn has_row(rows: Seq<RowView>, class: ScopeClass) -> bool {
    exists|i: int| 0 <= i < rows.len() && (#[trigger] rows[i]).class == class
}

/// Whether one of `entries` is of `class`.
pub open spec fn has_address(entries: Seq<At>, class: ScopeClass) -> bool {
    exists|k: int| 0 <= k < entries.len() && #[trigger] of(entries[k], class)
}

/// Whether `class` lost an address and has no row left.
pub open spec fn gone(dropped: Seq<ScopeClass>, rows: Seq<RowView>, class: ScopeClass) -> bool {
    dropped.contains(class) && !has_row(rows, class)
}

/// The word of the class.
pub fn mark(class: ScopeClass) -> (word: &'static str)
    ensures
        word@ == class.word(),
{
    match class {
        ScopeClass::Internet => "the internet",
        ScopeClass::Network => "this network",
        ScopeClass::Tunnel => "this tunnel",
        ScopeClass::ThisMachine => "this machine",
    }
}

/// The highest-ranked class that the dropped addresses took the last row of, if any.
pub fn emptied(dropped: &Expiring, rows: &Vec<Row>) -> (class: Option<ScopeClass>)
    ensures
        match class {
            Some(c) => gone(dropped@, views(rows@), c) && forall|d: ScopeClass|
                gone(dropped@, views(rows@), d) ==> c.rank() <= d.rank(),
            None => forall|d: ScopeClass| !gone(dropped@, views(rows@), d),
        },
{
    if is_gone(dropped, rows, ScopeClass::Internet) {
        return Some(ScopeClass::Internet);
    }
    if is_gone(dropped, rows, ScopeClass::Network) {
        return Some(ScopeClass::Network);
    }
    if is_gone(dropped, rows, ScopeClass::Tunnel) {
        return Some(ScopeClass::Tunnel);
    }
    if is_gone(dropped, rows, ScopeClass::ThisMachine) {
        return Some(ScopeClass::ThisMachine);
    }
    assert forall|d: ScopeClass| !gone(dropped@, views(rows@), d) by {
        match d {
            ScopeClass::Internet => {},
            ScopeClass::Network => {},
            ScopeClass::Tunnel => {},
            ScopeClass::ThisMachine => {},
        }
    }
    None
}

fn is_gone(dropped: &Expiring, rows: &Vec<Row>, class: ScopeClass) -> (yes: bool)
    ensures
        yes == gone(dropped@, views(rows@), class),
{
    if !dropped.lost(class) {
        return false;
    }
    let mut i: usize = 0;
    while i < rows.len()
        invariant
            i <= rows.len(),
            forall|j: int| 0 <= j < i ==> (#[trigger] views(rows@)[j]).class != class,
        decreases rows.len() - i,
    {
        if rows[i].class == class {
            assert(views(rows@)[i as int].class == class);
            return false;
        }
        i = i + 1;
    }
    true
}

/// Whether two rows of the lane name different ports.
pub open spec fn mixed_ports(rows: Seq<RowView>) -> bool {
    exists|i: int, j: int|
        0 <= i < rows.len() && 0 <= j < rows.len() && (#[trigger] rows[i]).port != (
        #[trigger] rows[j]).port
}

fn has_mixed_ports(rows: &Vec<Row>) -> (yes: bool)
    ensures
        yes == mixed_ports(views(rows@)),
{
    let mut i: usize = 0;
    while i < rows.len()
        invariant
            i <= rows.len(),
            forall|j: int| 0 <= j < i ==> (#[trigger] views(rows@)[j]).port == views(rows@)[0].port,
        decreases rows.len() - i,
    {
        if rows[i].port != rows[0].port {
            assert(views(rows@)[i as int].port != views(rows@)[0].port);
            return true;
        }
        i = i + 1;
    }
    false
}

/// The highest-ranked class that is gone, where addresses were dropped as expiring.
pub open spec fn emptied_class(missing: Missing, rows: Seq<RowView>) -> Option<ScopeClass> {
    match missing {
        Missing::Expiring(dropped) => if gone(dropped@, rows, ScopeClass::Internet) {
            Some(ScopeClass::Internet)
        } else if gone(dropped@, rows, ScopeClass::Network) {
            Some(ScopeClass::Network)
        } else if gone(dropped@, rows, ScopeClass::Tunnel) {
            Some(ScopeClass::Tunnel)
        } else if gone(dropped@, rows, ScopeClass::ThisMachine) {
            Some(ScopeClass::ThisMachine)
        } else {
            None
        },
        _ => None,
    }
}

/// What the lane says of its rows: one clause, the loudest that holds. A list that could not be read
/// outranks one that lost a class, which outranks one that nothing could be checked against, which
/// outranks ports that differ.
pub open spec fn lane_gloss(missing: Missing, rows: Seq<RowView>) -> Seq<char> {
    if rows.len() == 0 {
        "no address to hand over"@
    } else if missing is Interfaces {
        if rows.len() == 1 {
            "could not read this host's addresses; only this one is known:"@
        } else {
            "could not read this host's addresses; only these are known:"@
        }
    } else if emptied_class(missing, rows) is Some {
        "only expiring addresses reach "@ + emptied_class(missing, rows)->0.word()
            + "; what is left:"@
    } else if missing is Flags {
        if rows.len() == 1 {
            "hand a peer this address (could not check for expiry):"@
        } else {
            "hand a peer one of these (could not check for expiry):"@
        }
    } else if rows.len() == 1 {
        "hand a peer this address:"@
    } else if mixed_ports(rows) {
        "hand a peer one of these (each address has its own port):"@
    } else {
        "hand a peer one of these:"@
    }
}

fn gloss_of(missing: &Missing, rows: &Vec<Row>) -> (gloss: String)
    ensures
        gloss@ == lane_gloss(*missing, views(rows@)),
{
    if rows.len() == 0 {
        return "no address to hand over".to_owned();
    }
    let one: bool = rows.len() == 1;
    if let Missing::Interfaces = missing {
        return if one {
            "could not read this host's addresses; only this one is known:".to_owned()
        } else {
            "could not read this host's addresses; only these are known:".to_owned()
        };
    }
    let lost: Option<ScopeClass> = match missing {
        Missing::Expiring(dropped) => emptied(dropped, rows),
        _ => None,
    };
    if let Some(class) = lost {
        let mut gloss = "only expiring addresses reach ".to_owned();
        gloss.append(mark(class));
        gloss.append("; what is left:");
        return gloss;
    }
    if let Missing::Flags = missing {
        return if one {
            "hand a peer this address (could not check for expiry):".to_owned()
        } else {
            "hand a peer one of these (could not check for expiry):".to_owned()
        };
    }
    if one {
        "hand a peer this address:".to_owned()
    } else if has_mixed_ports(rows) {
        "hand a peer one of these (each address has its own port):".to_owned()
    } else {
        "hand a peer one of these:".to_owned()
    }
}

/// One line of the section: two spaces, the label filled to `width`, the gutter, the gloss.
pub open spec fn channel(width: nat, gutter: nat, label: Seq<char>, gloss: Seq<char>) -> Seq<char> {
    "  "@ + text::padded(label, width) + text::spaces(gutter) + gloss + "\n"@
}

/// One `how peers reach you` line.
pub fn reach_line(width: usize, gutter: usize, label: &str, gloss: &str) -> (line: String)
    ensures
        line@ == channel(width as nat, gutter as nat, label@, gloss@),
{
    let mut line = "  ".to_owned();
    text::push_padded(&mut line, label, width);
    text::push_spaces(&mut line, gutter);
    line.append(gloss);
    line.append("\n");
    line
}

/// The widest address of the rows, in characters.
pub open spec fn widest(rows: Seq<RowView>) -> nat
    decreases rows.len(),
{
    if rows.len() == 0 {
        0
    } else {
        let rest = widest(rows.drop_last());
        if rows.last().addr.len() > rest {
            rows.last().addr.len()
        } else {
            rest
        }
    }
}

/// One row as it is printed: the address at the gloss column, filled to the widest one, then its mark.
pub open spec fn row_line(gloss_col: nat, addr_col: nat, row: RowView) -> Seq<char> {
    text::spaces(gloss_col) + text::padded(row.addr, addr_col) + "  ("@ + row.class.word() + ")\n"@
}

/// The rows as they are printed.
pub open spec fn row_lines(gloss_col: nat, addr_col: nat, rows: Seq<RowView>) -> Seq<char>
    decreases rows.len(),
{
    if rows.len() == 0 {
        Seq::empty()
    } else {
        row_lines(gloss_col, addr_col, rows.drop_last()) + row_line(
            gloss_col,
            addr_col,
            rows.last(),
        )
    }
}

/// The lane: its gloss, then its rows.
pub open spec fn lane_text(
    entries: Seq<At>,
    missing: Missing,
    width: nat,
    gutter: nat,
) -> Seq<char> {
    let shown = rows(entries);
    channel(width, gutter, "direct"@, lane_gloss(missing, shown)) + row_lines(
        2 + width + gutter,
        widest(shown),
        shown,
    )
}

fn widest_of(rows: &Vec<Row>) -> (col: usize)
    ensures
        col == widest(views(rows@)),
{
    let mut col: usize = 0;
    let mut i: usize = 0;
    assert(views(rows@).take(0).len() == 0);
    while i < rows.len()
        invariant
            i <= rows.len(),
            col == widest(views(rows@).take(i as int)),
        decreases rows.len() - i,
    {
        let len: usize = rows[i].addr.as_str().unicode_len();
        if len > col {
            col = len;
        }
        assert(views(rows@).take(i + 1).drop_last() =~= views(rows@).take(i as int));
        i = i + 1;
    }
    assert(views(rows@).take(i as int) =~= views(rows@));
    col
}

/// The `direct` lane: the gloss that says what to do with the lines, then one address per class.
pub fn direct_lane(dialable: &Dialable, width: usize, gutter: usize) -> (out: String)
    requires
        2 + width + gutter <= usize::MAX,
    ensures
        out@ == lane_text(dialable.entries(), dialable.gap(), width as nat, gutter as nat),
{
    let gloss_col: usize = 2 + width + gutter;
    let rows = lane(dialable.all());
    let addr_col: usize = widest_of(&rows);
    let gloss = gloss_of(dialable.missing(), &rows);
    let mut out = reach_line(width, gutter, "direct", gloss.as_str());
    let ghost head = out@;
    let ghost all = views(rows@);
    let mut i: usize = 0;
    assert(head =~= head + row_lines(gloss_col as nat, addr_col as nat, all.take(0)));
    while i < rows.len()
        invariant
            i <= rows.len(),
            all == views(rows@),
            out@ == head + row_lines(gloss_col as nat, addr_col as nat, all.take(i as int)),
        decreases rows.len() - i,
    {
        let ghost before = out@;
        text::push_spaces(&mut out, gloss_col);
        text::push_padded(&mut out, rows[i].addr.as_str(), addr_col);
        out.append("  (");
        out.append(mark(rows[i].class));
        out.append(")\n");
        proof {
            assert(all.take(i + 1).drop_last() =~= all.take(i as int));
            assert(all.take(i + 1).last() == rows@[i as int]@);
            assert(out@ =~= before + row_line(gloss_col as nat, addr_col as nat, all[i as int]));
            assert(out@ =~= head + row_lines(gloss_col as nat, addr_col as nat, all.take(i + 1)));
        }
        i = i + 1;
    }
    assert(all.take(i as int) =~= all);
    out
}

/// What the one advertisement of this node came to.
#[derive(Debug)]
pub enum MdnsState {
    /// Other hosts hear it, at these addresses.
    OnLan(Vec<Socket>),
    /// Only this host hears it.
    LoopbackOnly,
    /// This node hears peers and is heard by none, for this cause.
    BrowseOnly(String),
    /// There is no mDNS here.
    Blocked,
}

/// The relay a bind offers: n0's public ones, or one of its own by its URL.
#[derive(Debug)]
pub enum RelayHome {
    N0,
    Custom(String),
}

/// The resolver a bind publishes its address records to: n0's, or one of its own by its URL.
#[derive(Debug)]
pub enum Resolver {
    N0,
    Custom(String),
}

/// The two servers a bind leans on.
#[derive(Debug)]
pub struct Reach {
    pub relay: RelayHome,
    pub resolver: Resolver,
}

impl Default for Reach {
    /// n0's on both halves.
    fn default() -> (reach: Reach)
        ensures
            reach.relay is N0,
            reach.resolver is N0,
    {
        Reach { relay: RelayHome::N0, resolver: Resolver::N0 }
    }
}

/// The gutter between the label column and the gloss.
pub const GUTTER: usize = 3;

/// What the `records` line says: every internet bind publishes its addresses, and says to whom.
pub open spec fn records_gloss(reach: ReachKind, bound: Reach) -> Option<Seq<char>> {
    match (reach, bound.resolver) {
        (ReachKind::DirectOnly, _) => None,
        (ReachKind::Internet, Resolver::N0) => Some(
            "n0's public discovery: your addresses, for anyone with your key"@,
        ),
        (ReachKind::Internet, Resolver::Custom(url)) => Some(
            url@ + ": your addresses, for anyone with your key"@,
        ),
    }
}

/// What the `relay` line says: shown on an internet bind as soon as either server is its own.
pub open spec fn relay_gloss(reach: ReachKind, bound: Reach) -> Option<Seq<char>> {
    match (reach, bound.relay) {
        (ReachKind::DirectOnly, _) => None,
        (ReachKind::Internet, RelayHome::Custom(url)) => Some(url@),
        (ReachKind::Internet, RelayHome::N0) => if bound.resolver is N0 {
            None
        } else {
            Some("n0's public relays"@)
        },
    }
}

/// What the `local` line says, by how far the advertisement went.
pub open spec fn local_gloss(mdns: MdnsState, reach: ReachKind) -> Seq<char> {
    match (mdns, reach) {
        (
            MdnsState::OnLan(addrs),
            ReachKind::Internet,
        ) => "automatic; your devices just need the key (mDNS), announced at:"@,
        (
            MdnsState::OnLan(addrs),
            ReachKind::DirectOnly,
        ) => "automatic; local mDNS, or direct, no NAT traversal"@,
        (
            MdnsState::LoopbackOnly,
            _,
        ) => "mDNS on this host only; another host needs a direct address hint"@,
        (MdnsState::BrowseOnly(cause), _) => "finding peers, not announcing you ("@ + cause@ + ")"@,
        (
            MdnsState::Blocked,
            ReachKind::Internet,
        ) => "off; mDNS unavailable here, so reach by the key over the internet"@,
        (
            MdnsState::Blocked,
            ReachKind::DirectOnly,
        ) => "off; mDNS unavailable here, so hand a peer the address below"@,
    }
}

/// The addresses the `local` line announces: none on a direct-only bind, whose addresses stand on the
/// `direct` lane.
pub open spec fn announced(mdns: MdnsState, reach: ReachKind) -> Seq<Socket> {
    match (mdns, reach) {
        (MdnsState::OnLan(addrs), ReachKind::Internet) => addrs@,
        _ => Seq::empty(),
    }
}

/// The announced addresses as they are printed: each alone on its line, at the gloss column.
pub open spec fn announced_lines(gloss_col: nat, addrs: Seq<Socket>) -> Seq<char>
    decreases addrs.len(),
{
    if addrs.len() == 0 {
        Seq::empty()
    } else {
        announced_lines(gloss_col, addrs.drop_last()) + (text::spaces(gloss_col)
            + addrs.last().text@ + "\n"@)
    }
}

/// The labels a section shows, top to bottom.
pub open spec fn labels(reach: ReachKind, bound: Reach) -> Seq<Seq<char>> {
    match reach {
        ReachKind::Internet => seq!["internet"@, "records"@] + (if relay_gloss(reach, bound) is Some {
            seq!["relay"@]
        } else {
            seq![]
        }) + seq!["local"@],
        ReachKind::DirectOnly => seq!["local"@, "direct"@],
    }
}

/// The width of the label column.
pub open spec fn label_width(reach: ReachKind) -> nat {
    match reach {
        ReachKind::Internet => "internet"@.len(),
        ReachKind::DirectOnly => "direct"@.len(),
    }
}

/// A channel that is shown only where it has something to say.
pub open spec fn optional_channel(width: nat, label: Seq<char>, gloss: Option<Seq<char>>) -> Seq<
    char,
> {
    match gloss {
        Some(gloss) => channel(width, GUTTER as nat, label, gloss),
        None => Seq::empty(),
    }
}

/// The whole section.
pub open spec fn section(
    reach: ReachKind,
    mdns: MdnsState,
    bound: Reach,
    entries: Seq<At>,
    missing: Missing,
) -> Seq<char> {
    let width = label_width(reach);
    "how peers reach you\n"@ + optional_channel(
        width,
        "internet"@,
        if reach == ReachKind::Internet {
            Some("automatic; peers reach you by the key above, even across NATs"@)
        } else {
            None
        },
    ) + optional_channel(width, "records"@, records_gloss(reach, bound)) + optional_channel(
        width,
        "relay"@,
        relay_gloss(reach, bound),
    ) + channel(width, GUTTER as nat, "local"@, local_gloss(mdns, reach)) + announced_lines(
        2 + width + GUTTER as nat,
        announced(mdns, reach),
    ) + (if reach == ReachKind::DirectOnly {
        lane_text(entries, missing, width, GUTTER as nat)
    } else {
        Seq::empty()
    })
}

fn records_of(reach: ReachKind, bound: &Reach) -> (gloss: Option<String>)
    ensures
        match gloss {
            Some(text) => records_gloss(reach, *bound) == Some(text@),
            None => records_gloss(reach, *bound) is None,
        },
{
    if reach == ReachKind::DirectOnly {
        return None;
    }
    match &bound.resolver {
        Resolver::N0 => Some(
            "n0's public discovery: your addresses, for anyone with your key".to_owned(),
        ),
        Resolver::Custom(url) => {
            let mut gloss = url.clone();
            gloss.append(": your addresses, for anyone with your key");
            Some(gloss)
        },
    }
}

fn relay_of(reach: ReachKind, bound: &Reach) -> (gloss: Option<String>)
    ensures
        match gloss {
            Some(text) => relay_gloss(reach, *bound) == Some(text@),
            None => relay_gloss(reach, *bound) is None,
        },
{
    if reach == ReachKind::DirectOnly {
        return None;
    }
    match (&bound.relay, &bound.resolver) {
        (RelayHome::Custom(url), _) => Some(url.clone()),
        (RelayHome::N0, Resolver::N0) => None,
        (RelayHome::N0, Resolver::Custom(_)) => Some("n0's public relays".to_owned()),
    }
}

fn local_of(mdns: &MdnsState, reach: ReachKind) -> (gloss: String)
    ensures
        gloss@ == local_gloss(*mdns, reach),
{
    match (mdns, reach) {
        (
            MdnsState::OnLan(_),
            ReachKind::Internet,
        ) => "automatic; your devices just need the key (mDNS), announced at:".to_owned(),
        (
            MdnsState::OnLan(_),
            ReachKind::DirectOnly,
        ) => "automatic; local mDNS, or direct, no NAT traversal".to_owned(),
        (
            MdnsState::LoopbackOnly,
            _,
        ) => "mDNS on this host only; another host needs a direct address hint".to_owned(),
        (MdnsState::BrowseOnly(cause), _) => {
            let mut gloss = "finding peers, not announcing you (".to_owned();
            gloss.append(cause.as_str());
            gloss.append(")");
            gloss
        },
        (
            MdnsState::Blocked,
            ReachKind::Internet,
        ) => "off; mDNS unavailable here, so reach by the key over the internet".to_owned(),
        (
            MdnsState::Blocked,
            ReachKind::DirectOnly,
        ) => "off; mDNS unavailable here, so hand a peer the address below".to_owned(),
    }
}

fn announced_of(mdns: &MdnsState, reach: ReachKind, gloss_col: usize) -> (lines: String)
    ensures
        lines@ == announced_lines(gloss_col as nat, announced(*mdns, reach)),
{
    let mut out = String::new();
    if let (MdnsState::OnLan(addrs), ReachKind::Internet) = (mdns, reach) {
        let mut i: usize = 0;
        while i < addrs.len()
            invariant
                i <= addrs.len(),
                out@ == announced_lines(gloss_col as nat, addrs@.take(i as int)),
            decreases addrs.len() - i,
        {
            let ghost before = out@;
            text::push_spaces(&mut out, gloss_col);
            out.append(addrs[i].text.as_str());
            out.append("\n");
            assert(addrs@.take(i + 1).drop_last() =~= addrs@.take(i as int));
            assert(out@ =~= before + (text::spaces(gloss_col as nat) + addrs@[i as int].text@
                + "\n"@));
            i = i + 1;
        }
        assert(addrs@.take(i as int) =~= addrs@);
    }
    out
}

/// The `how peers reach you` section.
pub fn reach_section(
    reach: ReachKind,
    mdns: &MdnsState,
    bound: &Reach,
    dialable: &Dialable,
) -> (out: String)
    ensures
        out@ == section(reach, *mdns, *bound, dialable.entries(), dialable.gap()),
{
    let width: usize = match reach {
        ReachKind::Internet => "internet".unicode_len(),
        ReachKind::DirectOnly => "direct".unicode_len(),
    };
    proof {
        reveal_strlit("internet");
        reveal_strlit("direct");
    }
    let mut out = "how peers reach you\n".to_owned();
    let ghost s0 = out@;
    if reach == ReachKind::Internet {
        out.append(
            reach_line(
                width,
                GUTTER,
                "internet",
                "automatic; peers reach you by the key above, even across NATs",
            ).as_str(),
        );
    } else {
        assert(out@ =~= out@ + Seq::<char>::empty());
    }
    if let Some(gloss) = records_of(reach, bound) {
        out.append(reach_line(width, GUTTER, "records", gloss.as_str()).as_str());
    } else {
        assert(out@ =~= out@ + Seq::<char>::empty());
    }
    if let Some(gloss) = relay_of(reach, bound) {
        out.append(reach_line(width, GUTTER, "relay", gloss.as_str()).as_str());
    } else {
        assert(out@ =~= out@ + Seq::<char>::empty());
    }
    let local = local_of(mdns, reach);
    out.append(reach_line(width, GUTTER, "local", local.as_str()).as_str());
    out.append(announced_of(mdns, reach, 2 + width + GUTTER).as_str());
    if reach == ReachKind::DirectOnly {
        out.append(direct_lane(dialable, width, GUTTER).as_str());
    } else {
        assert(out@ =~= out@ + Seq::<char>::empty());
    }
    out
}

/// A bind's addresses stand in rank order, and ranking them loses none and adds none.
pub proof fn ranking_keeps_every_address(entries: Seq<At>)
    ensures
        in_rank_order(ranked(entries)),
        forall|at: At| #[trigger] ranked(entries).contains(at) <==> entries.contains(at),
        ranked(entries).len() == entries.len(),
{
    let a = those(entries, ScopeClass::Internet);
    let b = those(entries, ScopeClass::Network);
    let c = those(entries, ScopeClass::Tunnel);
    let d = those(entries, ScopeClass::ThisMachine);
    lemma_those(entries, ScopeClass::Internet);
    lemma_those(entries, ScopeClass::Network);
    lemma_those(entries, ScopeClass::Tunnel);
    lemma_those(entries, ScopeClass::ThisMachine);
    let all = ranked(entries);
    assert forall|i: int|
        0 <= i < all.len() implies #[trigger] all[i].scope.of_class().rank() == if i < a.len() {
        0int
    } else if i < a.len() + b.len() {
        1
    } else if i < a.len() + b.len() + c.len() {
        2
    } else {
        3
    } by {
        if i < a.len() {
            assert(all[i] == a[i]);
        } else if i < a.len() + b.len() {
            assert(all[i] == b[i - a.len()]);
        } else if i < a.len() + b.len() + c.len() {
            assert(all[i] == c[i - a.len() - b.len()]);
        } else {
            assert(all[i] == d[i - a.len() - b.len() - c.len()]);
        }
    }
    assert forall|at: At| #[trigger] all.contains(at) <==> entries.contains(at) by {
        assert(all.contains(at) <==> a.contains(at) || b.contains(at) || c.contains(at)
            || d.contains(at)) by {
            if a.contains(at) {
                let i = choose|i: int| 0 <= i < a.len() && a[i] == at;
                assert(all[i] == at);
            }
            if b.contains(at) {
                let i = choose|i: int| 0 <= i < b.len() && b[i] == at;
                assert(all[a.len() + i] == at);
            }
            if c.contains(at) {
                let i = choose|i: int| 0 <= i < c.len() && c[i] == at;
                assert(all[a.len() + b.len() + i] == at);
            }
            if d.contains(at) {
                let i = choose|i: int| 0 <= i < d.len() && d[i] == at;
                assert(all[a.len() + b.len() + c.len() + i] == at);
            }
            if all.contains(at) {
                let i = choose|i: int| 0 <= i < all.len() && all[i] == at;
                if i < a.len() {
                    assert(a[i] == at);
                } else if i < a.len() + b.len() {
                    assert(b[i - a.len()] == at);
                } else if i < a.len() + b.len() + c.len() {
                    assert(c[i - a.len() - b.len()] == at);
                } else {
                    assert(d[i - a.len() - b.len() - c.len()] == at);
                }
            }
        }
    }
    lemma_classes_cover(entries);
}

proof fn lemma_those(entries: Seq<At>, class: ScopeClass)
    ensures
        forall|i: int|
            0 <= i < those(entries, class).len() ==> of(#[trigger] those(entries, class)[i], class),
        forall|at: At| #[trigger]
            those(entries, class).contains(at) <==> entries.contains(at) && of(at, class),
{
    broadcast use {vstd::seq_lib::group_filter_ensures, Seq::lemma_filter_contains_rev};

    let p = |at: At| of(at, class);
    assert forall|at: At| #[trigger] those(entries, class).contains(at) <==> entries.contains(at)
        && of(at, class) by {
        if those(entries, class).contains(at) {
            let i = choose|i: int| 0 <= i < those(entries, class).len() && those(entries, class)[i] == at;
            assert(p(entries.filter(p)[i]));
        }
        if entries.contains(at) && of(at, class) {
            let i = choose|i: int| 0 <= i < entries.len() && entries[i] == at;
            assert(entries.filter(p).contains(entries[i]));
        }
    }
}

proof fn lemma_classes_cover(entries: Seq<At>)
    ensures
        those(entries, ScopeClass::Internet).len() + those(entries, ScopeClass::Network).len()
            + those(entries, ScopeClass::Tunnel).len() + those(
            entries,
            ScopeClass::ThisMachine,
        ).len() == entries.len(),
    decreases entries.len(),
{
    reveal(Seq::filter);
    if entries.len() > 0 {
        let rest = entries.drop_last();
        let at = entries.last();
        assert(entries =~= rest.push(at));
        lemma_classes_cover(rest);
        lemma_those_push(rest, at, ScopeClass::Internet);
        lemma_those_push(rest, at, ScopeClass::Network);
        lemma_those_push(rest, at, ScopeClass::Tunnel);
        lemma_those_push(rest, at, ScopeClass::ThisMachine);
    }
}

/// The lane renders one line per class and widest class first: a class has a row exactly where the bind
/// has an address of it, and each row reaches less far than the one above it. So the lane leads with an
/// address that works on this machine only where there is no other.
pub proof fn the_lane_has_one_row_per_class(entries: Seq<At>)
    ensures
        forall|i: int, j: int|
            0 <= i < j < rows(entries).len() ==> (#[trigger] rows(entries)[i]).class.rank() < (
            #[trigger] rows(entries)[j]).class.rank(),
        forall|class: ScopeClass| #[trigger]
            has_row(rows(entries), class) <==> has_address(entries, class),
{
    let all = rows(entries);
    let a = row(entries, ScopeClass::Internet);
    let b = row(entries, ScopeClass::Network);
    let c = row(entries, ScopeClass::Tunnel);
    let d = row(entries, ScopeClass::ThisMachine);
    lemma_row(entries, ScopeClass::Internet);
    lemma_row(entries, ScopeClass::Network);
    lemma_row(entries, ScopeClass::Tunnel);
    lemma_row(entries, ScopeClass::ThisMachine);
    assert forall|class: ScopeClass| #[trigger] has_row(all, class) <==> has_address(
        entries,
        class,
    ) by {
        lemma_row(entries, class);
        let at: int = match class {
            ScopeClass::Internet => 0,
            ScopeClass::Network => a.len() as int,
            ScopeClass::Tunnel => (a.len() + b.len()) as int,
            ScopeClass::ThisMachine => (a.len() + b.len() + c.len()) as int,
        };
        if row(entries, class).len() == 1 {
            assert(all[at] == row(entries, class)[0]);
        }
    }
}

/// The row of a class is there exactly where an address of it is, and carries the class.
proof fn lemma_row(entries: Seq<At>, class: ScopeClass)
    ensures
        row(entries, class).len() <= 1,
        row(entries, class).len() == 1 <==> has_address(entries, class),
        row(entries, class).len() == 1 ==> row(entries, class)[0].class == class,
{
    if exists|i: int| leads(entries, class, i) {
        let i = choose|i: int| leads(entries, class, i);
        assert(of(entries[i], class));
    }
    if has_address(entries, class) {
        let k = choose|k: int| 0 <= k < entries.len() && #[trigger] of(entries[k], class);
        lemma_some_leads(entries, class, k);
    }
}

/// v4 leads its class: where a class has a v4 address, the address it hands over is one.
pub proof fn a_v4_leads_its_class(entries: Seq<At>, class: ScopeClass, i: int, k: int)
    requires
        leads(entries, class, i),
        0 <= k < entries.len(),
        of(entries[k], class),
        !entries[k].socket.v6,
    ensures
        !entries[i].socket.v6,
{
}

/// Whether the two lists differ at most in the links that their tunnels ride.
pub open spec fn same_but_for_links(a: Seq<At>, b: Seq<At>) -> bool {
    &&& a.len() == b.len()
    &&& forall|i: int|
        #![trigger a[i]]
        #![trigger b[i]]
        0 <= i < a.len() ==> a[i].socket.text@ == b[i].socket.text@ && a[i].socket.v6
            == b[i].socket.v6 && a[i].socket.port == b[i].socket.port && a[i].scope.of_class()
            == b[i].scope.of_class()
}

/// No line names the link a tunnel rides: the lane reads the same whatever the links are called.
pub proof fn no_link_reaches_the_lane(
    a: Seq<At>,
    b: Seq<At>,
    missing: Missing,
    width: nat,
    gutter: nat,
)
    requires
        same_but_for_links(a, b),
    ensures
        rows(a) == rows(b),
        lane_text(a, missing, width, gutter) == lane_text(b, missing, width, gutter),
{
    lemma_links_pick_no_row(a, b, ScopeClass::Internet);
    lemma_links_pick_no_row(a, b, ScopeClass::Network);
    lemma_links_pick_no_row(a, b, ScopeClass::Tunnel);
    lemma_links_pick_no_row(a, b, ScopeClass::ThisMachine);
}

proof fn lemma_links_pick_no_row(a: Seq<At>, b: Seq<At>, class: ScopeClass)
    requires
        same_but_for_links(a, b),
    ensures
        row(a, class) == row(b, class),
{
    assert forall|i: int| leads(a, class, i) <==> leads(b, class, i) by {
        if 0 <= i < a.len() {
            assert(of(a[i], class) <==> of(b[i], class));
        }
    }
    if exists|i: int| leads(a, class, i) {
        let i = choose|i: int| leads(a, class, i);
        assert(leads(b, class, i));
        let j = choose|j: int| leads(b, class, j);
        lemma_one_leads(b, class, i, j);
    }
}

/// A drop that every class survived says nothing: the lane reads as it does with nothing missing.
pub proof fn a_survived_drop_says_nothing(
    entries: Seq<At>,
    dropped: Expiring,
    width: nat,
    gutter: nat,
)
    requires
        forall|class: ScopeClass|
            dropped@.contains(class) ==> has_address(entries, class),
    ensures
        lane_text(entries, Missing::Expiring(dropped), width, gutter) == lane_text(
            entries,
            Missing::Nothing,
            width,
            gutter,
        ),
{
    the_lane_has_one_row_per_class(entries);
    assert forall|class: ScopeClass| !gone(dropped@, rows(entries), class) by {}
    assert(emptied_class(Missing::Expiring(dropped), rows(entries)) is None);
}

/// A drop that emptied a class names the highest-ranked class it emptied, whatever else holds of the
/// rows that are left.
pub proof fn a_drop_names_the_highest_class_it_emptied(
    entries: Seq<At>,
    dropped: Expiring,
    class: ScopeClass,
)
    requires
        rows(entries).len() > 0,
        gone(dropped@, rows(entries), class),
        forall|other: ScopeClass|
            gone(dropped@, rows(entries), other) ==> class.rank() <= other.rank(),
    ensures
        lane_gloss(Missing::Expiring(dropped), rows(entries)) == "only expiring addresses reach "@
            + class.word() + "; what is left:"@,
{
    let named = emptied_class(Missing::Expiring(dropped), rows(entries));
    assert(named is Some);
    assert(gone(dropped@, rows(entries), named->0));
    assert(named->0.rank() <= class.rank());
}

/// The label column is as wide as the widest label the section shows.
pub proof fn the_label_column_fits_every_label(reach: ReachKind, bound: Reach)
    ensures
        forall|i: int|
            0 <= i < labels(reach, bound).len() ==> (#[trigger] labels(reach, bound)[i]).len()
                <= label_width(reach),
        exists|i: int|
            0 <= i < labels(reach, bound).len() && (#[trigger] labels(reach, bound)[i]).len()
                == label_width(reach),
{
    reveal_strlit("internet");
    reveal_strlit("records");
    reveal_strlit("relay");
    reveal_strlit("local");
    reveal_strlit("direct");
    match reach {
        ReachKind::Internet => {
            assert(labels(reach, bound)[0].len() == label_width(reach));
        },
        ReachKind::DirectOnly => {
            assert(labels(reach, bound)[1].len() == label_width(reach));
        },
    }
}

/// Every internet bind says where its addresses go; it says which relay it offers exactly where one of
/// the two servers is its own, so the half that is still n0's is named too; a direct-only bind uses
/// neither server and names neither.
pub proof fn the_servers_are_named_together(reach: ReachKind, bound: Reach)
    ensures
        records_gloss(reach, bound) is Some <==> reach == ReachKind::Internet,
        relay_gloss(reach, bound) is Some <==> reach == ReachKind::Internet && !(bound.relay is N0
            && bound.resolver is N0),
{
}

/// The lane fits 80 columns. With the widest legal socket of 47 characters, a row takes at most 74
/// before its line feed, and the gloss line at most 80.
pub proof fn the_lane_fits_eighty_columns(entries: Seq<At>, missing: Missing)
    requires
        forall|i: int|
            0 <= i < entries.len() ==> (#[trigger] entries[i]).socket.text@.len() <= 47,
    ensures
        channel(
            label_width(ReachKind::DirectOnly),
            GUTTER as nat,
            "direct"@,
            lane_gloss(missing, rows(entries)),
        ).len() <= 80 + 1,
        forall|i: int|
            0 <= i < rows(entries).len() ==> row_line(
                2 + label_width(ReachKind::DirectOnly) + GUTTER as nat,
                widest(rows(entries)),
                #[trigger] rows(entries)[i],
            ).len() <= 74 + 1,
{
    let all = rows(entries);
    lemma_row_bounded(entries, ScopeClass::Internet);
    lemma_row_bounded(entries, ScopeClass::Network);
    lemma_row_bounded(entries, ScopeClass::Tunnel);
    lemma_row_bounded(entries, ScopeClass::ThisMachine);
    lemma_widest_bounded(all, 47);
    reveal_strlit("direct");
    reveal_strlit("  ");
    reveal_strlit("\n");
    reveal_strlit("  (");
    reveal_strlit(")\n");
    reveal_strlit("the internet");
    reveal_strlit("this network");
    reveal_strlit("this tunnel");
    reveal_strlit("this machine");
    reveal_strlit("no address to hand over");
    reveal_strlit("could not read this host's addresses; only this one is known:");
    reveal_strlit("could not read this host's addresses; only these are known:");
    reveal_strlit("only expiring addresses reach ");
    reveal_strlit("; what is left:");
    reveal_strlit("hand a peer this address (could not check for expiry):");
    reveal_strlit("hand a peer one of these (could not check for expiry):");
    reveal_strlit("hand a peer this address:");
    reveal_strlit("hand a peer one of these (each address has its own port):");
    reveal_strlit("hand a peer one of these:");
}

proof fn lemma_row_bounded(entries: Seq<At>, class: ScopeClass)
    requires
        forall|i: int|
            0 <= i < entries.len() ==> (#[trigger] entries[i]).socket.text@.len() <= 47,
    ensures
        forall|i: int|
            0 <= i < row(entries, class).len() ==> (#[trigger] row(entries, class)[i]).addr.len()
                <= 47,
{
    if exists|i: int| leads(entries, class, i) {
        let i = choose|i: int| leads(entries, class, i);
        assert(entries[i].socket.text@.len() <= 47);
    }
}

proof fn lemma_widest_bounded(rows: Seq<RowView>, bound: nat)
    requires
        forall|i: int| 0 <= i < rows.len() ==> (#[trigger] rows[i]).addr.len() <= bound,
    ensures
        widest(rows) <= bound,
        forall|i: int| 0 <= i < rows.len() ==> (#[trigger] rows[i]).addr.len() <= widest(rows),
    decreases rows.len(),
{
    if rows.len() > 0 {
        let rest = rows.drop_last();
        assert forall|i: int| 0 <= i < rest.len() implies (#[trigger] rest[i]).addr.len()
            <= bound by {
            assert(rest[i] == rows[i]);
        }
        lemma_widest_bounded(rest, bound);
        assert forall|i: int| 0 <= i < rows.len() implies (#[trigger] rows[i]).addr.len() <= widest(
            rows,
        ) by {
            if i < rest.len() {
                assert(rest[i] == rows[i]);
            }
        }
    }
}

/// A class is ranked and spelled by how far it reaches: the internet before this network, that before a
/// tunnel, and this machine last, each by its own word; and a tunnel is a tunnel whatever link it rides.
pub proof fn a_class_is_told_by_how_far_it_reaches(link: String)
    ensures
        ScopeClass::Internet.rank() < ScopeClass::Network.rank() < ScopeClass::Tunnel.rank()
            < ScopeClass::ThisMachine.rank(),
        ScopeClass::Internet.word() == "the internet"@,
        ScopeClass::Network.word() == "this network"@,
        ScopeClass::Tunnel.word() == "this tunnel"@,
        ScopeClass::ThisMachine.word() == "this machine"@,
        Scope::Internet.of_class() == ScopeClass::Internet,
        Scope::Network.of_class() == ScopeClass::Network,
        (Scope::Tunnel { link }).of_class() == ScopeClass::Tunnel,
        Scope::ThisMachine.of_class() == ScopeClass::ThisMachine,
{
}

/// The row of a class is the address it hands over, as it is: the first v4 of the class where it has one,
/// and else its first.
pub proof fn a_class_hands_over_its_first_v4(entries: Seq<At>, class: ScopeClass, i: int)
    requires
        0 <= i < entries.len(),
        entries[i].scope.of_class() == class,
        !entries[i].socket.v6 || forall|j: int|
            0 <= j < entries.len() && (#[trigger] entries[j]).scope.of_class() == class
                ==> entries[j].socket.v6,
        forall|j: int|
            0 <= j < i && (#[trigger] entries[j]).scope.of_class() == class ==> entries[j].socket.v6
                && !entries[i].socket.v6,
    ensures
        row(entries, class).len() == 1,
        row(entries, class)[0].addr == entries[i].socket.text@,
        row(entries, class)[0].port == entries[i].socket.port,
        row(entries, class)[0].class == class,
        rows(entries).contains(row(entries, class)[0]),
{
    assert forall|j: int| 0 <= j < entries.len() && of(#[trigger] entries[j], class) && entries[i].socket.v6 implies entries[j].socket.v6 by {
        assert(entries[j].scope.of_class() == class);
    }
    assert forall|j: int| 0 <= j < i && of(#[trigger] entries[j], class) implies entries[j].socket.v6
        != entries[i].socket.v6 by {
        assert(entries[j].scope.of_class() == class);
    }
    assert(leads(entries, class, i));
    let k = choose|k: int| leads(entries, class, k);
    lemma_one_leads(entries, class, i, k);
    let a = row(entries, ScopeClass::Internet);
    let b = row(entries, ScopeClass::Network);
    let c = row(entries, ScopeClass::Tunnel);
    let at: int = match class {
        ScopeClass::Internet => 0,
        ScopeClass::Network => a.len() as int,
        ScopeClass::Tunnel => (a.len() + b.len()) as int,
        ScopeClass::ThisMachine => (a.len() + b.len() + c.len()) as int,
    };
    assert(rows(entries)[at] == row(entries, class)[0]);
}

/// Within its class an address keeps its place: of two of one class, the one bound first is handed over
/// first.
pub proof fn ranking_keeps_the_order_of_a_class(a: Seq<At>, b: Seq<At>, at: At, class: ScopeClass)
    ensures
        those(a + b, class) == those(a, class) + those(b, class),
        at.scope.of_class() == class ==> those(seq![at], class) == seq![at],
        at.scope.of_class() != class ==> those(seq![at], class).len() == 0,
    decreases b.len(),
{
    reveal_with_fuel(Seq::filter, 2);
    assert(seq![at].drop_last() =~= Seq::<At>::empty());
    if at.scope.of_class() == class {
        assert(those(seq![at], class) =~= seq![at]);
    }
    if b.len() == 0 {
        assert(a + b =~= a);
        assert(those(a, class) + those(b, class) =~= those(a, class));
    } else {
        assert((a + b).drop_last() =~= a + b.drop_last());
        ranking_keeps_the_order_of_a_class(a, b.drop_last(), at, class);
        assert(those(a + b, class) =~= those(a, class) + those(b, class));
    }
}

/// The lane says one thing of its rows, the loudest that holds: that there is none, that the host could not
/// be read, which class only expiring addresses reach, that nothing could be checked, that the ports differ,
/// or none of these; and it says `this` of one row and `these` of more.
pub proof fn the_lane_says_the_loudest_thing(missing: Missing, rows: Seq<RowView>)
    ensures
        rows.len() == 0 ==> lane_gloss(missing, rows) == "no address to hand over"@,
        rows.len() == 1 && missing is Interfaces ==> lane_gloss(missing, rows)
            == "could not read this host's addresses; only this one is known:"@,
        rows.len() > 1 && missing is Interfaces ==> lane_gloss(missing, rows)
            == "could not read this host's addresses; only these are known:"@,
        rows.len() == 1 && missing is Flags ==> lane_gloss(missing, rows)
            == "hand a peer this address (could not check for expiry):"@,
        rows.len() > 1 && missing is Flags ==> lane_gloss(missing, rows)
            == "hand a peer one of these (could not check for expiry):"@,
        rows.len() == 1 && missing is Nothing ==> lane_gloss(missing, rows)
            == "hand a peer this address:"@,
        rows.len() > 1 && missing is Nothing && (forall|i: int, j: int|
            0 <= i < rows.len() && 0 <= j < rows.len() ==> (#[trigger] rows[i]).port == (
            #[trigger] rows[j]).port) ==> lane_gloss(missing, rows) == "hand a peer one of these:"@,
        missing is Nothing ==> forall|i: int, j: int|
            0 <= i < rows.len() && 0 <= j < rows.len() && (#[trigger] rows[i]).port != (
            #[trigger] rows[j]).port ==> lane_gloss(missing, rows)
                == "hand a peer one of these (each address has its own port):"@,
        rows.len() > 0 ==> (missing matches Missing::Expiring(dropped) ==> forall|class: ScopeClass|
            #[trigger] dropped@.contains(class) && (forall|i: int|
                0 <= i < rows.len() ==> (#[trigger] rows[i]).class != class) && (forall|
                other: ScopeClass,
            | #[trigger]
                dropped@.contains(other) && other.rank() < class.rank() ==> has_row(rows, other))
                ==> lane_gloss(missing, rows) == "only expiring addresses reach "@ + class.word()
                + "; what is left:"@),
{
    if rows.len() > 0 {
        if let Missing::Expiring(dropped) = missing {
            assert forall|class: ScopeClass| #[trigger]
                dropped@.contains(class) && (forall|i: int|
                    0 <= i < rows.len() ==> (#[trigger] rows[i]).class != class) && (forall|
                    other: ScopeClass,
                | #[trigger]
                    dropped@.contains(other) && other.rank() < class.rank() ==> has_row(
                        rows,
                        other,
                    )) implies lane_gloss(missing, rows) == "only expiring addresses reach "@
                + class.word() + "; what is left:"@ by {
                assert(gone(dropped@, rows, class));
                assert(!gone(dropped@, rows, ScopeClass::Internet) || class.rank() <= 0);
                assert(!gone(dropped@, rows, ScopeClass::Network) || class.rank() <= 1);
                assert(!gone(dropped@, rows, ScopeClass::Tunnel) || class.rank() <= 2);
                assert(emptied_class(missing, rows) == Some(class));
            }
        }
    }
}

/// A line of the section has its label at the second column and its gloss past the label column and the
/// gutter, and ends there.
pub proof fn a_channel_has_its_columns(width: nat, gutter: nat, label: Seq<char>, gloss: Seq<char>)
    requires
        label.len() <= width,
    ensures
        ({
            let line = channel(width, gutter, label, gloss);
            let at = 2 + width + gutter as int;
            &&& line.subrange(2int, 2int + label.len()) == label
            &&& forall|i: int| 2 + label.len() <= i < at ==> line[i] == ' '
            &&& line.subrange(at, at + gloss.len()) == gloss
            &&& line.len() == at + gloss.len() + 1
            &&& line.last() == '\n'
        }),
{
    reveal_strlit("  ");
    reveal_strlit("\n");
    text::filling_adds_only_spaces(label, width);
    let line = channel(width, gutter, label, gloss);
    let at = 2 + width + gutter as int;
    assert(line.subrange(2int, 2int + label.len()) =~= label);
    assert(line.subrange(at, at + gloss.len()) =~= gloss);
}

/// A row of the lane has its address at the gloss column and its class in brackets behind the widest
/// address; rows print in order, each on its own line; and the widest is as wide as every one, and as one.
pub proof fn a_row_has_its_columns(
    gloss_col: nat,
    addr_col: nat,
    row: RowView,
    a: Seq<RowView>,
    b: Seq<RowView>,
)
    ensures
        row_lines(gloss_col, addr_col, a + b) == row_lines(gloss_col, addr_col, a) + row_lines(
            gloss_col,
            addr_col,
            b,
        ),
        row_lines(gloss_col, addr_col, seq![row]) == row_line(gloss_col, addr_col, row),
        row.addr.len() <= addr_col ==> ({
            let line = row_line(gloss_col, addr_col, row);
            &&& line.subrange(gloss_col as int, gloss_col as int + row.addr.len()) == row.addr
            &&& line.skip((gloss_col + addr_col) as int) == "  ("@ + row.class.word() + ")\n"@
        }),
        forall|i: int| 0 <= i < a.len() ==> (#[trigger] a[i]).addr.len() <= widest(a),
        a.len() > 0 ==> exists|i: int|
            0 <= i < a.len() && (#[trigger] a[i]).addr.len() == widest(a),
    decreases b.len(),
{
    reveal_with_fuel(row_lines, 2);
    assert(seq![row].drop_last() =~= Seq::<RowView>::empty());
    assert(row_lines(gloss_col, addr_col, seq![row]) =~= row_line(gloss_col, addr_col, row));
    lemma_widest(a);
    if b.len() == 0 {
        assert(a + b =~= a);
        assert(row_lines(gloss_col, addr_col, a) + row_lines(gloss_col, addr_col, b) =~= row_lines(
            gloss_col,
            addr_col,
            a,
        ));
    } else {
        assert((a + b).drop_last() =~= a + b.drop_last());
        a_row_has_its_columns(gloss_col, addr_col, row, a, b.drop_last());
        assert(row_lines(gloss_col, addr_col, a + b) =~= row_lines(gloss_col, addr_col, a)
            + row_lines(gloss_col, addr_col, b));
    }
    if row.addr.len() <= addr_col {
        text::filling_adds_only_spaces(row.addr, addr_col);
        let line = row_line(gloss_col, addr_col, row);
        assert(line.subrange(gloss_col as int, gloss_col as int + row.addr.len()) =~= row.addr);
        assert(line.skip((gloss_col + addr_col) as int) =~= "  ("@ + row.class.word() + ")\n"@);
    }
}

proof fn lemma_widest(rows: Seq<RowView>)
    ensures
        forall|i: int| 0 <= i < rows.len() ==> (#[trigger] rows[i]).addr.len() <= widest(rows),
        rows.len() > 0 ==> exists|i: int|
            0 <= i < rows.len() && (#[trigger] rows[i]).addr.len() == widest(rows),
    decreases rows.len(),
{
    if rows.len() > 0 {
        let rest = rows.drop_last();
        lemma_widest(rest);
        assert(forall|i: int| 0 <= i < rest.len() ==> rest[i] == #[trigger] rows[i]);
        assert(rows[rows.len() - 1] == rows.last());
        if rest.len() > 0 {
            let i = choose|i: int|
                0 <= i < rest.len() && (#[trigger] rest[i]).addr.len() == widest(rest);
            assert(rows[i] == rest[i]);
        }
    }
}

/// An internet bind names the servers it leans on: its own by their URLs, n0's as n0's; and a direct-only
/// bind names none.
pub proof fn a_server_is_named_by_its_url(reach: ReachKind, bound: Reach)
    ensures
        reach == ReachKind::DirectOnly ==> records_gloss(reach, bound) is None && relay_gloss(
            reach,
            bound,
        ) is None,
        reach == ReachKind::Internet ==> (bound.resolver matches Resolver::Custom(url)
            ==> text::begins(records_gloss(reach, bound)->0, url@)),
        reach == ReachKind::Internet && bound.resolver is N0 ==> records_gloss(reach, bound) == Some(
            "n0's public discovery: your addresses, for anyone with your key"@,
        ),
        reach == ReachKind::Internet ==> (bound.relay matches RelayHome::Custom(url) ==> relay_gloss(
            reach,
            bound,
        ) == Some(url@)),
        reach == ReachKind::Internet && bound.relay is N0 && bound.resolver is Custom ==> relay_gloss(
            reach,
            bound,
        ) == Some("n0's public relays"@),
        reach == ReachKind::Internet && bound.relay is N0 && bound.resolver is N0 ==> relay_gloss(
            reach,
            bound,
        ) is None,
{
    if let Resolver::Custom(url) = bound.resolver {
        text::a_prefix_comes_off_as_it_went_on(
            url@,
            ": your addresses, for anyone with your key"@,
            Seq::empty(),
        );
    }
}

/// The `local` line says how far the advertisement went, with the cause where it failed; and the addresses
/// it announces are those it went to, all of them and in order, on an internet bind that others hear, and
/// none elsewhere.
pub proof fn what_is_announced_is_where_it_is_heard(
    mdns: MdnsState,
    reach: ReachKind,
    gloss_col: nat,
    a: Seq<Socket>,
    b: Seq<Socket>,
    socket: Socket,
)
    ensures
        mdns matches MdnsState::OnLan(addrs) ==> (reach == ReachKind::Internet ==> announced(
            mdns,
            reach,
        ) == addrs@),
        !(mdns is OnLan) || reach == ReachKind::DirectOnly ==> announced(mdns, reach).len() == 0,
        mdns is OnLan && reach == ReachKind::Internet ==> local_gloss(mdns, reach)
            == "automatic; your devices just need the key (mDNS), announced at:"@,
        mdns is OnLan && reach == ReachKind::DirectOnly ==> local_gloss(mdns, reach)
            == "automatic; local mDNS, or direct, no NAT traversal"@,
        mdns is LoopbackOnly ==> local_gloss(mdns, reach)
            == "mDNS on this host only; another host needs a direct address hint"@,
        mdns matches MdnsState::BrowseOnly(cause) ==> text::mentions(
            local_gloss(mdns, reach),
            cause@,
        ),
        mdns is Blocked && reach == ReachKind::Internet ==> local_gloss(mdns, reach)
            == "off; mDNS unavailable here, so reach by the key over the internet"@,
        mdns is Blocked && reach == ReachKind::DirectOnly ==> local_gloss(mdns, reach)
            == "off; mDNS unavailable here, so hand a peer the address below"@,
        announced_lines(gloss_col, a + b) == announced_lines(gloss_col, a) + announced_lines(
            gloss_col,
            b,
        ),
        announced_lines(gloss_col, seq![socket]) == text::spaces(gloss_col) + socket.text@ + "\n"@,
        announced_lines(gloss_col, Seq::<Socket>::empty()).len() == 0,
    decreases b.len(),
{
    reveal_with_fuel(announced_lines, 2);
    if let MdnsState::BrowseOnly(cause) = mdns {
        text::lemma_mentions("finding peers, not announcing you ("@, cause@, ")"@);
    }
    assert(seq![socket].drop_last() =~= Seq::<Socket>::empty());
    assert(announced_lines(gloss_col, seq![socket]) =~= text::spaces(gloss_col) + socket.text@
        + "\n"@);
    if b.len() == 0 {
        assert(a + b =~= a);
        assert(announced_lines(gloss_col, a) + announced_lines(gloss_col, b) =~= announced_lines(
            gloss_col,
            a,
        ));
    } else {
        assert((a + b).drop_last() =~= a + b.drop_last());
        what_is_announced_is_where_it_is_heard(mdns, reach, gloss_col, a, b.drop_last(), socket);
        assert(announced_lines(gloss_col, a + b) =~= announced_lines(gloss_col, a)
            + announced_lines(gloss_col, b));
    }
}

/// A direct-only section is its title, the `local` line and the lane of addresses, and nothing of the
/// internet; an internet section is its title, the `internet` line, the records, the relay where one is
/// named, the `local` line and what it announces, and no lane.
pub proof fn a_section_shows_the_channels_of_its_bind(
    mdns: MdnsState,
    bound: Reach,
    entries: Seq<At>,
    missing: Missing,
)
    ensures
        section(ReachKind::DirectOnly, mdns, bound, entries, missing) == "how peers reach you\n"@
            + channel(6, 3, "local"@, local_gloss(mdns, ReachKind::DirectOnly)) + channel(
            6,
            3,
            "direct"@,
            lane_gloss(missing, rows(entries)),
        ) + row_lines(11, widest(rows(entries)), rows(entries)),
        section(ReachKind::Internet, mdns, bound, entries, missing) == "how peers reach you\n"@
            + channel(
            8,
            3,
            "internet"@,
            "automatic; peers reach you by the key above, even across NATs"@,
        ) + channel(8, 3, "records"@, records_gloss(ReachKind::Internet, bound)->0) + (
        if relay_gloss(ReachKind::Internet, bound) is Some {
            channel(8, 3, "relay"@, relay_gloss(ReachKind::Internet, bound)->0)
        } else {
            Seq::empty()
        }) + channel(8, 3, "local"@, local_gloss(mdns, ReachKind::Internet)) + announced_lines(
            13,
            announced(mdns, ReachKind::Internet),
        ),
{
    reveal_strlit("internet");
    reveal_strlit("direct");
    let title = "how peers reach you\n"@;
    let none = Seq::<char>::empty();
    let local = channel(6, 3, "local"@, local_gloss(mdns, ReachKind::DirectOnly));
    let said = channel(6, 3, "direct"@, lane_gloss(missing, rows(entries)));
    let lines = row_lines(11, widest(rows(entries)), rows(entries));
    assert(announced_lines(11, announced(mdns, ReachKind::DirectOnly)) =~= none);
    assert(title + none + none + none =~= title);
    assert(title + local + none =~= title + local);
    assert(title + local + (said + lines) =~= title + local + said + lines);
    let all = section(ReachKind::Internet, mdns, bound, entries, missing);
    assert(all + none =~= all);
    let before = "how peers reach you\n"@ + channel(
        8,
        3,
        "internet"@,
        "automatic; peers reach you by the key above, even across NATs"@,
    ) + channel(8, 3, "records"@, records_gloss(ReachKind::Internet, bound)->0) + (if relay_gloss(
        ReachKind::Internet,
        bound,
    ) is Some {
        channel(8, 3, "relay"@, relay_gloss(ReachKind::Internet, bound)->0)
    } else {
        Seq::empty()
    }) + channel(8, 3, "local"@, local_gloss(mdns, ReachKind::Internet)) + announced_lines(
        13,
        announced(mdns, ReachKind::Internet),
    );
    assert(before + none =~= before);
    assert(all == before + none);
}

} // verus!
