//! Enrolling a device under the signet: whose key an invite signs for, which names it may take, and what
//! the owner is told to do with it.
//!
//! The course of an enrolment is here, from one answer of the outside to the next thing to do. A badge is
//! signed only for a label that is free for its key, and its ledger row lands before the device is named in
//! the address book: a row without a name can still be cut by its key, a name without a row could not.

use vstd::prelude::*;
use vstd::string::StringExecFns;

use crate::badge;
use crate::ledger::Delegation;
use crate::ledger::GrantKind;
use crate::ledger::GrantRecord;
use crate::ledger::GrantRecordView;
use crate::ledger::GrantTarget;
use crate::ledger::GrantTargetView;
use crate::ledger::Holder;
use crate::ledger::KeyText;
use crate::ledger::KeyTextView;
use crate::span::Moment;
use crate::text;

verus! {

broadcast use {vstd::seq::group_seq_axioms, vstd::string::group_string_axioms};

/// Whom an invite admits.
#[derive(Debug)]
pub enum GrantFor {
    /// One device.
    Device(String),
    /// A whole fleet, by its signet.
    Fleet(String),
}

/// Create an invite for one device.
#[derive(Debug)]
pub struct AddCmd {
    /// The device label.
    pub label: String,
    /// The key it admits; a device identity is derived where there is none.
    pub bind: Option<GrantFor>,
    /// How long the badge stays valid, in seconds.
    pub expires: Option<u64>,
}

/// A device of the owner's own, as the address book names it.
#[derive(Debug)]
pub struct Device {
    pub label: String,
    /// Its key.
    pub key: String,
    /// Its key in short.
    pub short: String,
}

/// What the invite of a fleet is answered.
pub open spec fn fleet_deferred_words() -> Seq<char> {
    "invite add failed: a fleet invite needs the enrollment door, not built yet; invite each device with --for <key>"@
}

/// The deferral of a fleet invite: it is reserved grammar, refused until the enrollment door is built.
pub fn fleet_deferred() -> (line: String)
    ensures
        line@ == fleet_deferred_words(),
{
    "invite add failed: a fleet invite needs the enrollment door, not built yet; invite each device with --for <key>".to_owned()
}

/// Whether the devices leave the label free for `node`.
pub open spec fn free_for(devices: Seq<Device>, label: Seq<char>, node: Seq<char>) -> bool {
    forall|i: int|
        0 <= i < devices.len() ==> ((#[trigger] devices[i]).label@ == label ==> devices[i].key@
            == node)
}

/// What a label that another key has is answered.
pub open spec fn shadowed_words(label: Seq<char>, short: Seq<char>, node: Seq<char>) -> Seq<char> {
    "`me/"@ + label + "` already names "@ + short + "; re-using the label for "@ + node
        + " would leave the first badge live with no label that cancels it. Cut it with `invite rm "@
        + label + "`, then free the name with `swoosh contact rm me/"@ + label + "`"@
}

/// Refuse a label already bound to a different key, so that the label always names the badge it cancels.
pub fn refuse_shadowed(devices: &Vec<Device>, label: &str, node: &str) -> (refused: Result<
    (),
    String,
>)
    ensures
        match refused {
            Ok(()) => free_for(devices@, label@, node@),
            Err(line) => exists|i: int|
                0 <= i < devices@.len() && free_for(devices@.take(i), label@, node@) && (
                #[trigger] devices@[i]).label@ == label@ && devices@[i].key@ != node@ && line@
                    == shadowed_words(label@, devices@[i].short@, node@),
        },
{
    let mut i: usize = 0;
    while i < devices.len()
        invariant
            i <= devices.len(),
            free_for(devices@.take(i as int), label@, node@),
        decreases devices.len() - i,
    {
        if text::same(devices[i].label.as_str(), label) && !text::same(
            devices[i].key.as_str(),
            node,
        ) {
            let mut line = "`me/".to_owned();
            line.append(label);
            line.append("` already names ");
            line.append(devices[i].short.as_str());
            line.append("; re-using the label for ");
            line.append(node);
            line.append(
                " would leave the first badge live with no label that cancels it. Cut it with `invite rm ",
            );
            line.append(label);
            line.append("`, then free the name with `swoosh contact rm me/");
            line.append(label);
            line.append("`");
            assert(devices@[i as int].label@ == label@);
            return Err(line);
        }
        proof {
            let next = devices@.take(i + 1);
            assert forall|k: int|
                0 <= k < next.len() && (#[trigger] next[k]).label@ == label@ implies next[k].key@
                == node@ by {
                if k < i {
                    assert(devices@.take(i as int)[k] == next[k]);
                }
            }
        }
        i = i + 1;
    }
    assert(devices@.take(i as int) =~= devices@);
    Ok(())
}

/// What a machine whose key is not its configured signet is answered.
pub open spec fn not_the_signet_words(configured: Seq<char>, own: Seq<char>) -> Seq<char> {
    "this machine trusts signet "@ + configured + ", but its own key is "@ + own
        + ": a badge signed here would root at "@ + own
        + " and be admitted nowhere that signet gates. Run `invite add` on the machine that holds the signet (the one whose `swoosh identity` prints "@
        + configured + ")."@
}

/// The lines of an invite for a key the device made.
pub open spec fn bound_words(
    label: Seq<char>,
    node: Seq<char>,
    signet: Seq<char>,
) -> Seq<Seq<char>> {
    seq![
        "recorded me/"@ + label + " -> "@ + node,
        "signet "@ + signet,
        "hand this invite back to that key: it admits "@ + node + " only."@,
        "compare those keys with the device operator out of band: the token itself is not signed, so it alone does not prove who sent it."@,
    ]
}

/// The lines of an invite that carries a derived identity.
pub open spec fn derived_words(label: Seq<char>, node: Seq<char>) -> Seq<Seq<char>> {
    seq![
        "recorded me/"@ + label + " -> "@ + node + "  [derived]"@,
        "hand this invite to the machine (a SECRET: adopting it becomes this identity and trusts your signet)."@,
    ]
}

/// What an `invite add` does once it is not refused.
#[derive(Debug)]
pub struct Enrolment {
    /// The device it signs for: the one named, or none, where one is derived from the label.
    pub device: Option<String>,
    /// How long the badge and its ledger row stand, in seconds.
    pub ttl: u64,
}

/// One thing an enrolment does.
#[derive(Debug)]
pub enum EnrolAct {
    /// Read this machine's key, made if it has none, and the signet that is configured.
    ReadKeys,
    /// Resolve the named device to its one key.
    Resolve { device: String },
    /// Derive the device of the label.
    Derive { label: String },
    /// Sign a badge for the device.
    Sign { node: KeyText, ttl: u64 },
    /// Append the row to the ledger.
    Append { row: GrantRecord },
    /// Name the device in the address book, and save it.
    NameDevice { label: String, node: KeyText },
    /// Print the invite that carries the badge.
    PrintToken,
    /// Say a line.
    Say(String),
    /// Publish the change of the devices, where this machine may.
    Recut,
}

pub ghost enum EnrolActView {
    ReadKeys,
    Resolve { device: Seq<char> },
    Derive { label: Seq<char> },
    Sign { node: KeyTextView, ttl: u64 },
    Append { row: GrantRecordView },
    NameDevice { label: Seq<char>, node: KeyTextView },
    PrintToken,
    Say(Seq<char>),
    Recut,
}

impl View for EnrolAct {
    type V = EnrolActView;

    open spec fn view(&self) -> EnrolActView {
        match self {
            EnrolAct::ReadKeys => EnrolActView::ReadKeys,
            EnrolAct::Resolve { device } => EnrolActView::Resolve { device: device@ },
            EnrolAct::Derive { label } => EnrolActView::Derive { label: label@ },
            EnrolAct::Sign { node, ttl } => EnrolActView::Sign { node: node@, ttl: *ttl },
            EnrolAct::Append { row } => EnrolActView::Append { row: row@ },
            EnrolAct::NameDevice { label, node } => EnrolActView::NameDevice {
                label: label@,
                node: node@,
            },
            EnrolAct::PrintToken => EnrolActView::PrintToken,
            EnrolAct::Say(line) => EnrolActView::Say(line@),
            EnrolAct::Recut => EnrolActView::Recut,
        }
    }
}

/// The acts, as values.
pub open spec fn act_views(acts: Seq<EnrolAct>) -> Seq<EnrolActView> {
    acts.map_values(|a: EnrolAct| a@)
}

/// An answer of the outside.
#[derive(Debug)]
pub enum EnrolTold {
    /// What the label reads as, or the rule it breaks.
    Begun { label: Result<String, String> },
    /// This machine's key, and the signet that is configured, if one is.
    Keys { own: String, configured: Option<String> },
    /// The device the badge is for, and the devices already named.
    Resolved { node: KeyText, devices: Vec<Device> },
    /// What the signed badge is revoked by, if anything, and when it ends.
    Signed { root_id: Option<String>, expiry: Moment },
    /// The row is in the ledger.
    Appended,
    /// The device is named in the address book.
    Saved,
}

/// How far an enrolment has come.
#[derive(Debug)]
pub enum EnrolStage {
    Start,
    ReadingKeys { label: String },
    Resolving { label: String, own: String, ttl: u64 },
    Signing { label: String, own: String, node: KeyText },
    Appending { label: String, own: String, node: KeyText },
    Saving { label: String, own: String, node: KeyText },
    Over,
}

pub ghost enum EnrolStageView {
    Start,
    ReadingKeys { label: Seq<char> },
    Resolving { label: Seq<char>, own: Seq<char>, ttl: u64 },
    Signing { label: Seq<char>, own: Seq<char>, node: KeyTextView },
    Appending { label: Seq<char>, own: Seq<char>, node: KeyTextView },
    Saving { label: Seq<char>, own: Seq<char>, node: KeyTextView },
    Over,
}

impl View for EnrolStage {
    type V = EnrolStageView;

    open spec fn view(&self) -> EnrolStageView {
        match self {
            EnrolStage::Start => EnrolStageView::Start,
            EnrolStage::ReadingKeys { label } => EnrolStageView::ReadingKeys { label: label@ },
            EnrolStage::Resolving { label, own, ttl } => EnrolStageView::Resolving {
                label: label@,
                own: own@,
                ttl: *ttl,
            },
            EnrolStage::Signing { label, own, node } => EnrolStageView::Signing {
                label: label@,
                own: own@,
                node: node@,
            },
            EnrolStage::Appending { label, own, node } => EnrolStageView::Appending {
                label: label@,
                own: own@,
                node: node@,
            },
            EnrolStage::Saving { label, own, node } => EnrolStageView::Saving {
                label: label@,
                own: own@,
                node: node@,
            },
            EnrolStage::Over => EnrolStageView::Over,
        }
    }
}

impl EnrolStage {
    /// Whether the stage waits for that answer.
    pub open spec fn awaits(self, told: EnrolTold) -> bool {
        match told {
            EnrolTold::Begun { label } => self is Start,
            EnrolTold::Keys { own, configured } => self is ReadingKeys,
            EnrolTold::Resolved { node, devices } => self is Resolving,
            EnrolTold::Signed { root_id, expiry } => self is Signing,
            EnrolTold::Appended => self is Appending,
            EnrolTold::Saved => self is Saving,
        }
    }
}

/// What comes next: the stage and the things to do, or the refusal the enrolment ends in.
pub type EnrolNext = Result<(EnrolStageView, Seq<EnrolActView>), Seq<char>>;

/// How long the badge and its ledger row stand, in seconds.
pub open spec fn ttl_of(expires: Option<u64>) -> u64 {
    match expires {
        Some(secs) => secs,
        None => badge::DEVICE_BADGE_TTL,
    }
}

/// The short key of the first device that has the label and another key than `node`, if there is one.
pub open spec fn shadowed_by(devices: Seq<Device>, label: Seq<char>, node: Seq<char>) -> Option<
    Seq<char>,
>
    decreases devices.len(),
{
    if devices.len() == 0 {
        None
    } else {
        match shadowed_by(devices.drop_last(), label, node) {
            Some(short) => Some(short),
            None => if devices.last().label@ == label && devices.last().key@ != node {
                Some(devices.last().short@)
            } else {
                None
            },
        }
    }
}

/// The ledger row of a device's badge.
pub open spec fn membership_row(
    node: KeyTextView,
    root_id: Seq<char>,
    expiry: Moment,
) -> GrantRecordView {
    GrantRecordView {
        target: GrantTargetView::Membership,
        kind: GrantKind::Device,
        delegation: Delegation::Sealed,
        holder: node.full,
        key: Some(node),
        root_id,
        expiry,
    }
}

impl AddCmd {
    /// What is said under the token.
    pub open spec fn said(self, label: Seq<char>, node: Seq<char>, signet: Seq<char>) -> Seq<
        Seq<char>,
    > {
        if self.bind is Some {
            bound_words(label, node, signet)
        } else {
            derived_words(label, node)
        }
    }
}

/// What comes next, for each stage and each answer it waits for.
pub open spec fn next(cmd: AddCmd, stage: EnrolStageView, told: EnrolTold) -> EnrolNext {
    match (stage, told) {
        (EnrolStageView::Start, EnrolTold::Begun { label }) => match label {
            Err(line) => Err(line@),
            Ok(label) => if cmd.bind matches Some(GrantFor::Fleet(signet)) {
                Err(fleet_deferred_words())
            } else {
                Ok((EnrolStageView::ReadingKeys { label: label@ }, seq![EnrolActView::ReadKeys]))
            },
        },
        (EnrolStageView::ReadingKeys { label }, EnrolTold::Keys { own, configured }) => {
            if cmd.bind matches Some(GrantFor::Fleet(signet)) {
                Err(fleet_deferred_words())
            } else if configured is Some && configured->0@ != own@ {
                Err(not_the_signet_words(configured->0@, own@))
            } else {
                Ok(
                    (
                        EnrolStageView::Resolving { label, own: own@, ttl: ttl_of(cmd.expires) },
                        seq![
                            match cmd.bind {
                                Some(GrantFor::Device(device)) => EnrolActView::Resolve {
                                    device: device@,
                                },
                                _ => EnrolActView::Derive { label },
                            },
                        ],
                    ),
                )
            }
        },
        (EnrolStageView::Resolving { label, own, ttl }, EnrolTold::Resolved { node, devices }) => {
            match shadowed_by(devices@, label, node.full@) {
                Some(short) => Err(shadowed_words(label, short, node.full@)),
                None => Ok(
                    (
                        EnrolStageView::Signing { label, own, node: node@ },
                        seq![EnrolActView::Sign { node: node@, ttl }],
                    ),
                ),
            }
        },
        (EnrolStageView::Signing { label, own, node }, EnrolTold::Signed { root_id, expiry }) => {
            match root_id {
                None => Err("signed membership badge has no authority block to key revocation on"@),
                Some(root_id) => Ok(
                    (
                        EnrolStageView::Appending { label, own, node },
                        seq![EnrolActView::Append { row: membership_row(node, root_id@, expiry) }],
                    ),
                ),
            }
        },
        (EnrolStageView::Appending { label, own, node }, EnrolTold::Appended) => Ok(
            (
                EnrolStageView::Saving { label, own, node },
                seq![EnrolActView::NameDevice { label, node }],
            ),
        ),
        (EnrolStageView::Saving { label, own, node }, EnrolTold::Saved) => Ok(
            (
                EnrolStageView::Over,
                seq![EnrolActView::PrintToken] + cmd.said(label, node.full, own).map_values(
                    |line: Seq<char>| EnrolActView::Say(line),
                ) + seq![EnrolActView::Recut],
            ),
        ),
        _ => Ok((EnrolStageView::Over, seq![])),
    }
}

/// Whether what was decided is what comes next.
pub open spec fn agrees(out: Result<(EnrolStage, Vec<EnrolAct>), String>, next: EnrolNext) -> bool {
    match out {
        Ok((stage, acts)) => next == Ok::<(EnrolStageView, Seq<EnrolActView>), Seq<char>>(
            (stage@, act_views(acts@)),
        ),
        Err(line) => next == Err::<(EnrolStageView, Seq<EnrolActView>), Seq<char>>(line@),
    }
}

fn one(act: EnrolAct) -> (acts: Vec<EnrolAct>)
    ensures
        act_views(acts@) == seq![act@],
{
    let mut acts: Vec<EnrolAct> = Vec::new();
    acts.push(act);
    assert(act_views(acts@) =~= seq![act@]);
    acts
}

fn copied(key: &KeyText) -> (copy: KeyText)
    ensures
        copy@ == key@,
{
    KeyText { full: key.full.clone(), short: key.short.clone() }
}

fn said_under_the_token(lines: &Vec<String>) -> (acts: Vec<EnrolAct>)
    ensures
        act_views(acts@) == seq![EnrolActView::PrintToken] + text::texts(lines@).map_values(
            |line: Seq<char>| EnrolActView::Say(line),
        ) + seq![EnrolActView::Recut],
{
    let mut acts: Vec<EnrolAct> = Vec::new();
    acts.push(EnrolAct::PrintToken);
    let mut i: usize = 0;
    while i < lines.len()
        invariant
            i <= lines.len(),
            acts.len() == i + 1,
            acts@[0]@ == EnrolActView::PrintToken,
            forall|k: int|
                1 <= k <= i ==> (#[trigger] acts@[k])@ == EnrolActView::Say(lines@[k - 1]@),
        decreases lines.len() - i,
    {
        acts.push(EnrolAct::Say(lines[i].clone()));
        i = i + 1;
    }
    acts.push(EnrolAct::Recut);
    assert(act_views(acts@) =~= seq![EnrolActView::PrintToken] + text::texts(lines@).map_values(
        |line: Seq<char>| EnrolActView::Say(line),
    ) + seq![EnrolActView::Recut]);
    acts
}

/// Where the label is free for `node`, nothing shadows it.
proof fn lemma_free(devices: Seq<Device>, label: Seq<char>, node: Seq<char>)
    ensures
        free_for(devices, label, node) <==> shadowed_by(devices, label, node) is None,
    decreases devices.len(),
{
    if devices.len() > 0 {
        let rest = devices.drop_last();
        lemma_free(rest, label, node);
        if free_for(devices, label, node) {
            assert forall|i: int| 0 <= i < rest.len() && (#[trigger] rest[i]).label@
                == label implies rest[i].key@ == node by {
                assert(rest[i] == devices[i]);
            }
            assert(devices[devices.len() - 1].label@ == label ==> devices[devices.len() - 1].key@
                == node);
        } else if free_for(rest, label, node) {
            let i = choose|i: int|
                0 <= i < devices.len() && (#[trigger] devices[i]).label@ == label
                    && devices[i].key@ != node;
            if i < rest.len() {
                assert(rest[i] == devices[i]);
            }
        }
    }
}

/// The first device that shadows the label is the one its refusal names.
proof fn lemma_shadowed(devices: Seq<Device>, label: Seq<char>, node: Seq<char>, line: Seq<char>)
    requires
        exists|i: int|
            0 <= i < devices.len() && free_for(devices.take(i), label, node) && (
            #[trigger] devices[i]).label@ == label && devices[i].key@ != node && line
                == shadowed_words(label, devices[i].short@, node),
    ensures
        shadowed_by(devices, label, node) is Some,
        line == shadowed_words(label, shadowed_by(devices, label, node)->0, node),
{
    let i = choose|i: int|
        0 <= i < devices.len() && free_for(devices.take(i), label, node) && (
        #[trigger] devices[i]).label@ == label && devices[i].key@ != node && line == shadowed_words(
            label,
            devices[i].short@,
            node,
        );
    lemma_free(devices.take(i), label, node);
    assert(devices.take(i + 1).drop_last() =~= devices.take(i));
    assert(shadowed_by(devices.take(i + 1), label, node) == Some(devices[i].short@));
    lemma_shadow_stays(devices, label, node, i + 1);
}

/// What shadows a label among the first devices shadows it among all of them.
proof fn lemma_shadow_stays(devices: Seq<Device>, label: Seq<char>, node: Seq<char>, n: int)
    requires
        0 <= n <= devices.len(),
        shadowed_by(devices.take(n), label, node) is Some,
    ensures
        shadowed_by(devices, label, node) == shadowed_by(devices.take(n), label, node),
    decreases devices.len(),
{
    if n == devices.len() {
        assert(devices.take(n) =~= devices);
    } else {
        assert(devices.drop_last().take(n) =~= devices.take(n));
        lemma_shadow_stays(devices.drop_last(), label, node, n);
    }
}

impl AddCmd {
    /// Decide an `invite add` before anything is signed: a fleet is deferred before this machine's key is
    /// read, and a badge is signed only where that key is the configured signet, if one is configured.
    pub fn run(&self, own: &str, configured: Option<&str>) -> (enrolment: Result<
        Enrolment,
        String,
    >)
        ensures
            match enrolment {
                Ok(enrolment) => {
                    &&& !(self.bind matches Some(GrantFor::Fleet(signet)))
                    &&& configured is Some ==> configured->0@ == own@
                    &&& match self.bind {
                        Some(GrantFor::Device(key)) => enrolment.device is Some
                            && enrolment.device->0@ == key@,
                        _ => enrolment.device is None,
                    }
                    &&& enrolment.ttl == ttl_of(self.expires)
                },
                Err(line) => if self.bind matches Some(GrantFor::Fleet(signet)) {
                    line@ == fleet_deferred_words()
                } else {
                    configured is Some && configured->0@ != own@ && line@ == not_the_signet_words(
                        configured->0@,
                        own@,
                    )
                },
            },
    {
        if let Some(GrantFor::Fleet(_)) = &self.bind {
            return Err(fleet_deferred());
        }
        if let Some(configured) = configured {
            if !text::same(configured, own) {
                let mut line = "this machine trusts signet ".to_owned();
                line.append(configured);
                line.append(", but its own key is ");
                line.append(own);
                line.append(": a badge signed here would root at ");
                line.append(own);
                line.append(
                    " and be admitted nowhere that signet gates. Run `invite add` on the machine that holds the signet (the one whose `swoosh identity` prints ",
                );
                line.append(configured);
                line.append(").");
                return Err(line);
            }
        }
        let ttl: u64 = match self.expires {
            Some(secs) => secs,
            None => badge::DEVICE_BADGE_TTL,
        };
        let device = match &self.bind {
            Some(GrantFor::Device(key)) => Some(key.clone()),
            _ => None,
        };
        Ok(Enrolment { device, ttl })
    }

    /// The ledger row of a signed badge: the membership of one device, which it may not hand on, keyed by
    /// its key and by what the badge is revoked by. A badge without that cannot be cancelled, so it is not recorded.
    pub fn record(&self, node: KeyText, root_id: Option<String>, expiry: Moment) -> (row: Result<
        GrantRecord,
        String,
    >)
        ensures
            match row {
                Ok(row) => {
                    &&& root_id is Some && row.root_id@ == root_id->0@
                    &&& row.target is Membership
                    &&& row.kind == GrantKind::Device
                    &&& row.delegation == Delegation::Sealed
                    &&& row.holder.text@ == node.full@
                    &&& row.holder.key == Some(node)
                    &&& row.expiry == expiry
                },
                Err(line) => root_id is None && line@
                    == "signed membership badge has no authority block to key revocation on"@,
            },
    {
        match root_id {
            Some(root_id) => Ok(
                GrantRecord {
                    target: GrantTarget::Membership,
                    kind: GrantKind::Device,
                    delegation: Delegation::Sealed,
                    holder: Holder { text: node.full.clone(), key: Some(node) },
                    root_id,
                    expiry,
                },
            ),
            None => Err(
                "signed membership badge has no authority block to key revocation on".to_owned(),
            ),
        }
    }

    /// The lines printed under the token. `label` is the device label as it reads.
    pub fn lines(&self, label: &str, node: &str, signet: &str) -> (lines: Vec<String>)
        ensures
            text::texts(lines@) == self.said(label@, node@, signet@),
    {
        let mut lines: Vec<String> = Vec::new();
        let mut first = "recorded me/".to_owned();
        first.append(label);
        first.append(" -> ");
        first.append(node);
        if self.bind.is_none() {
            first.append("  [derived]");
            lines.push(first);
            lines.push(
                "hand this invite to the machine (a SECRET: adopting it becomes this identity and trusts your signet).".to_owned(),
            );
            assert(text::texts(lines@) =~= derived_words(label@, node@));
            return lines;
        }
        lines.push(first);
        let mut second = "signet ".to_owned();
        second.append(signet);
        lines.push(second);
        let mut third = "hand this invite back to that key: it admits ".to_owned();
        third.append(node);
        third.append(" only.");
        lines.push(third);
        lines.push(
            "compare those keys with the device operator out of band: the token itself is not signed, so it alone does not prove who sent it.".to_owned(),
        );
        assert(text::texts(lines@) =~= bound_words(label@, node@, signet@));
        lines
    }

    /// Take one answer of the outside: how far the enrolment has come with it, and what to do next; or the
    /// refusal it ends in.
    pub fn enrol(&self, stage: EnrolStage, told: EnrolTold) -> (step: Result<
        (EnrolStage, Vec<EnrolAct>),
        String,
    >)
        requires
            stage.awaits(told),
        ensures
            agrees(step, next(*self, stage@, told)),
    {
        match (stage, told) {
            (EnrolStage::Start, EnrolTold::Begun { label }) => match label {
                Err(line) => Err(line),
                Ok(label) => {
                    if let Some(GrantFor::Fleet(_)) = &self.bind {
                        return Err(fleet_deferred());
                    }
                    Ok((EnrolStage::ReadingKeys { label }, one(EnrolAct::ReadKeys)))
                },
            },
            (EnrolStage::ReadingKeys { label }, EnrolTold::Keys { own, configured }) => {
                let trusted: Option<&str> = match &configured {
                    Some(configured) => Some(configured.as_str()),
                    None => None,
                };
                match self.run(own.as_str(), trusted) {
                    Err(line) => Err(line),
                    Ok(enrolment) => {
                        let act = match enrolment.device {
                            Some(device) => EnrolAct::Resolve { device },
                            None => EnrolAct::Derive { label: label.clone() },
                        };
                        Ok((EnrolStage::Resolving { label, own, ttl: enrolment.ttl }, one(act)))
                    },
                }
            },
            (EnrolStage::Resolving { label, own, ttl }, EnrolTold::Resolved { node, devices }) => {
                match refuse_shadowed(&devices, label.as_str(), node.full.as_str()) {
                    Err(line) => {
                        proof {
                            lemma_shadowed(devices@, label@, node.full@, line@);
                        }
                        Err(line)
                    },
                    Ok(()) => {
                        proof {
                            lemma_free(devices@, label@, node.full@);
                        }
                        let signs = copied(&node);
                        Ok(
                            (
                                EnrolStage::Signing { label, own, node },
                                one(EnrolAct::Sign { node: signs, ttl }),
                            ),
                        )
                    },
                }
            },
            (EnrolStage::Signing { label, own, node }, EnrolTold::Signed { root_id, expiry }) => {
                let holder = copied(&node);
                match self.record(holder, root_id, expiry) {
                    Err(line) => Err(line),
                    Ok(row) => Ok(
                        (EnrolStage::Appending { label, own, node }, one(EnrolAct::Append { row })),
                    ),
                }
            },
            (EnrolStage::Appending { label, own, node }, EnrolTold::Appended) => {
                let act = EnrolAct::NameDevice { label: label.clone(), node: copied(&node) };
                Ok((EnrolStage::Saving { label, own, node }, one(act)))
            },
            (EnrolStage::Saving { label, own, node }, EnrolTold::Saved) => {
                let lines = self.lines(label.as_str(), node.full.as_str(), own.as_str());
                Ok((EnrolStage::Over, said_under_the_token(&lines)))
            },
            _ => {
                let acts: Vec<EnrolAct> = Vec::new();
                assert(act_views(acts@) =~= seq![]);
                Ok((EnrolStage::Over, acts))
            },
        }
    }
}

/// How far along its course a stage is.
pub open spec fn progress(stage: EnrolStageView) -> int {
    match stage {
        EnrolStageView::Start => 0,
        EnrolStageView::ReadingKeys { label } => 1,
        EnrolStageView::Resolving { label, own, ttl } => 2,
        EnrolStageView::Signing { label, own, node } => 3,
        EnrolStageView::Appending { label, own, node } => 4,
        EnrolStageView::Saving { label, own, node } => 5,
        EnrolStageView::Over => 6,
    }
}

/// An enrolment ends: every answer takes it further along, or ends it.
pub proof fn an_enrolment_only_goes_on(cmd: AddCmd, stage: EnrolStage, told: EnrolTold)
    requires
        stage.awaits(told),
    ensures
        next(cmd, stage@, told) matches Ok(step) ==> progress(step.0) > progress(stage@),
{
}

/// No badge is left that nothing revokes: the device is named only on the answer that its row is in the
/// ledger, the row it is named by is of that very key, and the invite prints only on the answer that the
/// device is named.
pub proof fn the_row_lands_before_the_name(
    cmd: AddCmd,
    stage: EnrolStage,
    told: EnrolTold,
    step: (EnrolStageView, Seq<EnrolActView>),
    i: int,
)
    requires
        stage.awaits(told),
        next(cmd, stage@, told) == Ok::<(EnrolStageView, Seq<EnrolActView>), Seq<char>>(step),
        0 <= i < step.1.len(),
    ensures
        step.1[i] matches EnrolActView::NameDevice { label, node } ==> told is Appended && (
        stage@ matches EnrolStageView::Appending { label: l, own, node: n } && l == label && n
            == node),
        step.1[i] matches EnrolActView::Append { row } ==> (step.0
            matches EnrolStageView::Appending { label, own, node } && row.key == Some(node)
            && row.holder == node.full && row.target is Membership && row.delegation
            == Delegation::Sealed),
        step.0 is Saving ==> told is Appended,
        step.1[i] is PrintToken ==> told is Saved,
{
}

/// A badge is signed only for a label that is free for its key.
pub proof fn a_badge_is_signed_for_a_free_label(
    cmd: AddCmd,
    stage: EnrolStage,
    told: EnrolTold,
    step: (EnrolStageView, Seq<EnrolActView>),
    i: int,
)
    requires
        stage.awaits(told),
        next(cmd, stage@, told) == Ok::<(EnrolStageView, Seq<EnrolActView>), Seq<char>>(step),
        0 <= i < step.1.len(),
        step.1[i] is Sign,
    ensures
        told matches EnrolTold::Resolved { node, devices } && stage@
            matches EnrolStageView::Resolving { label, own, ttl } && free_for(
            devices@,
            label,
            node.full@,
        ) && step.1[i] == (EnrolActView::Sign { node: node@, ttl }),
{
    if let EnrolTold::Resolved { node, devices } = told {
        if let EnrolStageView::Resolving { label, own, ttl } = stage@ {
            lemma_free(devices@, label, node.full@);
        }
    }
}

/// A label cancels one key: where a label may be used, every device already recorded under it has that
/// same key.
pub proof fn a_free_label_names_one_key(devices: Seq<Device>, label: Seq<char>, node: Seq<char>, i: int)
    requires
        free_for(devices, label, node),
        0 <= i < devices.len(),
        devices[i].label@ == label,
    ensures
        devices[i].key@ == node,
{
}

/// An enrolment goes through every step, and each takes on exactly what the one before it came to: it begins
/// with a label that reads and no fleet; goes on where this machine's key is the signet, being the one
/// configured or there being none; asks for the device that was named, or derives one of the label; signs
/// where every device under the label has the very key, for as long as was asked or ninety days; and records
/// what the badge is revoked by.
pub proof fn an_enrolment_goes_through_every_step(cmd: AddCmd, stage: EnrolStage, told: EnrolTold)
    requires
        stage.awaits(told),
    ensures
        told matches EnrolTold::Begun { label } ==> {
            &&& next(cmd, stage@, told) is Ok <==> label is Ok && !(cmd.bind matches Some(
                GrantFor::Fleet(signet),
            ))
            &&& label matches Err(line) ==> next(cmd, stage@, told)->Err_0 == line@
            &&& next(cmd, stage@, told) matches Ok(step) ==> step.0 == (EnrolStageView::ReadingKeys {
                label: label->Ok_0@,
            }) && step.1 == seq![EnrolActView::ReadKeys]
        },
        told matches EnrolTold::Keys { own, configured } ==> {
            &&& next(cmd, stage@, told) is Ok <==> !(cmd.bind matches Some(GrantFor::Fleet(signet))) && (
            configured is None || configured->0@ == own@)
            &&& next(cmd, stage@, told) matches Ok(step) ==> {
                &&& cmd.expires matches Some(secs) ==> step.0 == (EnrolStageView::Resolving {
                    label: stage->ReadingKeys_label@,
                    own: own@,
                    ttl: secs,
                })
                &&& cmd.expires is None ==> step.0 == (EnrolStageView::Resolving {
                    label: stage->ReadingKeys_label@,
                    own: own@,
                    ttl: (90 * 24 * 60 * 60) as u64,
                })
                &&& cmd.bind matches Some(GrantFor::Device(device)) ==> step.1 == seq![
                    EnrolActView::Resolve { device: device@ },
                ]
                &&& cmd.bind is None ==> step.1 == seq![
                    EnrolActView::Derive { label: stage->ReadingKeys_label@ },
                ]
            }
        },
        told matches EnrolTold::Resolved { node, devices } ==> {
            &&& next(cmd, stage@, told) is Ok <==> forall|i: int|
                0 <= i < devices@.len() && (#[trigger] devices@[i]).label@ == stage->Resolving_label@
                    ==> devices@[i].key@ == node.full@
            &&& next(cmd, stage@, told) matches Ok(step) ==> step.0 == (EnrolStageView::Signing {
                label: stage->Resolving_label@,
                own: stage->Resolving_own@,
                node: node@,
            }) && step.1 == seq![EnrolActView::Sign { node: node@, ttl: stage->ttl }]
        },
        told matches EnrolTold::Signed { root_id, expiry } ==> {
            &&& next(cmd, stage@, told) is Ok <==> root_id is Some
            &&& next(cmd, stage@, told) matches Ok(step) ==> step.0 == (EnrolStageView::Appending {
                label: stage->Signing_label@,
                own: stage->Signing_own@,
                node: stage->Signing_node@,
            }) && step.1.len() == 1 && (step.1[0] matches EnrolActView::Append { row } && row.holder
                == stage->Signing_node.full@ && row.key == Some(stage->Signing_node@) && row.root_id
                == root_id->0@ && row.expiry == expiry && row.target is Membership && row.kind
                == GrantKind::Device && row.delegation == Delegation::Sealed)
        },
        told is Appended ==> (next(cmd, stage@, told) matches Ok(step) && step.0 == (
        EnrolStageView::Saving {
            label: stage->Appending_label@,
            own: stage->Appending_own@,
            node: stage->Appending_node@,
        }) && step.1 == seq![
            EnrolActView::NameDevice {
                label: stage->Appending_label@,
                node: stage->Appending_node@,
            },
        ]),
        told is Saved ==> (next(cmd, stage@, told) matches Ok(step) && step.0 is Over && ({
            let lines = cmd.said(
                stage->Saving_label@,
                stage->Saving_node.full@,
                stage->Saving_own@,
            );
            &&& step.1.len() == lines.len() + 2
            &&& step.1[0] is PrintToken
            &&& step.1.last() is Recut
            &&& forall|i: int|
                0 <= i < lines.len() ==> #[trigger] lines[i] == step.1[i + 1]->Say_0 && step.1[i + 1]
                    is Say
        })),
{
    if let EnrolTold::Resolved { node, devices } = told {
        lemma_free(devices@, stage->Resolving_label@, node.full@);
        assert(free_for(devices@, stage->Resolving_label@, node.full@) <==> forall|i: int|
            0 <= i < devices@.len() && (#[trigger] devices@[i]).label@ == stage->Resolving_label@
                ==> devices@[i].key@ == node.full@);
    }
}

/// What an enrolment is decided as is what comes next.
pub proof fn what_is_decided_is_what_comes_next(
    out: Result<(EnrolStage, Vec<EnrolAct>), String>,
    owed: EnrolNext,
)
    requires
        agrees(out, owed),
    ensures
        out is Ok <==> owed is Ok,
        out matches Err(line) ==> owed->Err_0 == line@,
        out matches Ok(step) ==> owed->Ok_0.0 == step.0@ && owed->Ok_0.1.len() == step.1@.len() && (
        forall|i: int|
            0 <= i < step.1@.len() ==> #[trigger] owed->Ok_0.1[i] == step.1@[i]@),
{
}

/// A shadowed label is refused by the first device that has it and another key, which the refusal names.
pub proof fn the_first_shadow_is_the_one_named(
    devices: Seq<Device>,
    label: Seq<char>,
    node: Seq<char>,
    i: int,
)
    requires
        0 <= i < devices.len(),
        devices[i].label@ == label,
        devices[i].key@ != node,
        forall|j: int|
            0 <= j < i && (#[trigger] devices[j]).label@ == label ==> devices[j].key@ == node,
    ensures
        shadowed_by(devices, label, node) == Some(devices[i].short@),
        text::begins(
            shadowed_words(label, devices[i].short@, node),
            "`me/"@ + label + "` already names "@ + devices[i].short@ + "; re-using the label for "@
                + node,
        ),
{
    let before = devices.take(i);
    assert forall|j: int| 0 <= j < before.len() && (#[trigger] before[j]).label@ == label implies before[j].key@
        == node by {
        assert(before[j] == devices[j]);
    }
    assert(free_for(before, label, node));
    lemma_free(before, label, node);
    assert(devices.take(i + 1).drop_last() =~= before);
    assert(shadowed_by(devices.take(i + 1), label, node) == Some(devices[i].short@));
    lemma_shadow_stays(devices, label, node, i + 1);
    let head = "`me/"@ + label + "` already names "@ + devices[i].short@
        + "; re-using the label for "@ + node;
    lemma_parted(
        head,
        " would leave the first badge live with no label that cancels it. Cut it with `invite rm "@,
        label,
        "`, then free the name with `swoosh contact rm me/"@,
        label,
        "`"@,
    );
    text::a_prefix_comes_off_as_it_went_on(
        head,
        " would leave the first badge live with no label that cancels it. Cut it with `invite rm "@
            + label + "`, then free the name with `swoosh contact rm me/"@ + label + "`"@,
        Seq::empty(),
    );
}

proof fn lemma_parted(
    head: Seq<char>,
    a: Seq<char>,
    b: Seq<char>,
    c: Seq<char>,
    d: Seq<char>,
    e: Seq<char>,
)
    ensures
        head + a + b + c + d + e == head + (a + b + c + d + e),
{
    assert(head + a + b =~= head + (a + b));
    assert(head + (a + b) + c =~= head + (a + b + c));
    assert(head + (a + b + c) + d =~= head + (a + b + c + d));
    assert(head + (a + b + c + d) + e =~= head + (a + b + c + d + e));
}

/// What is said under the token names the device by its label and its key, first: an invite for a named key
/// names the signet and the one key it admits, a derived one is marked as derived and as a secret; and a
/// machine that is not its signet is told both keys.
pub proof fn what_is_said_of_an_enrolment_fits_it(
    cmd: AddCmd,
    label: Seq<char>,
    node: Seq<char>,
    signet: Seq<char>,
    configured: Seq<char>,
)
    ensures
        cmd.bind is Some ==> ({
            let lines = cmd.said(label, node, signet);
            &&& lines.len() == 4
            &&& lines[0] == "recorded me/"@ + label + " -> "@ + node
            &&& lines[1] == "signet "@ + signet
            &&& text::mentions(lines[2], "it admits "@ + node + " only."@)
        }),
        cmd.bind is None ==> ({
            let lines = cmd.said(label, node, signet);
            &&& lines.len() == 2
            &&& lines[0] == "recorded me/"@ + label + " -> "@ + node + "  [derived]"@
            &&& text::mentions(lines[1], "a SECRET"@)
        }),
        text::begins(
            not_the_signet_words(configured, signet),
            "this machine trusts signet "@ + configured + ", but its own key is "@ + signet,
        ),
{
    if cmd.bind is Some {
        reveal_strlit("hand this invite back to that key: it admits ");
        reveal_strlit("hand this invite back to that key: ");
        reveal_strlit("it admits ");
        let a = "hand this invite back to that key: "@;
        let b = "it admits "@;
        assert("hand this invite back to that key: it admits "@ =~= a + b);
        assert(a + b + node + " only."@ =~= a + (b + node + " only."@));
        text::lemma_mentions(a, b + node + " only."@, Seq::empty());
    } else {
        reveal_strlit(
            "hand this invite to the machine (a SECRET: adopting it becomes this identity and trusts your signet).",
        );
        reveal_strlit("a SECRET");
        let w = cmd.said(label, node, signet)[1];
        assert(w.subrange(33int, 33int + 8) =~= "a SECRET"@);
    }
    let head = "this machine trusts signet "@ + configured + ", but its own key is "@ + signet;
    lemma_parted(
        head,
        ": a badge signed here would root at "@,
        signet,
        " and be admitted nowhere that signet gates. Run `invite add` on the machine that holds the signet (the one whose `swoosh identity` prints "@,
        configured,
        ")."@,
    );
    text::a_prefix_comes_off_as_it_went_on(
        head,
        ": a badge signed here would root at "@ + signet
            + " and be admitted nowhere that signet gates. Run `invite add` on the machine that holds the signet (the one whose `swoosh identity` prints "@
            + configured + ")."@,
        Seq::empty(),
    );
}

} // verus!
