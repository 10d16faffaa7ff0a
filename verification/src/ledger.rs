//! The ledger of what this node granted: which row stands for each holder, how invites are listed, and
//! which rows a revocation cuts.

use vstd::prelude::*;
use vstd::string::StrSliceExecFns;
use vstd::string::StringExecFns;

use crate::enrol::Device;
use crate::span;
use crate::span::Moment;
use crate::text;

verus! {

broadcast use {vstd::seq::group_seq_axioms, vstd::string::group_string_axioms};

/// What a grant opens.
#[derive(Debug)]
pub enum GrantTarget {
    /// The whole gate: a membership badge.
    Membership,
    /// One service.
    Service(String),
}

/// Whom a grant is bound to.
#[derive(Debug, Clone, Copy, PartialEq, Eq, Structural)]
pub enum GrantKind {
    Device,
    Fleet,
    Bearer,
}

/// Whether a holder may hand a grant on.
#[derive(Debug, Clone, Copy, PartialEq, Eq, Structural)]
pub enum Delegation {
    /// It may not.
    Sealed,
    /// It may.
    Delegable,
}

/// A key, in full and in short.
#[derive(Debug)]
pub struct KeyText {
    pub full: String,
    pub short: String,
}

pub ghost struct KeyTextView {
    pub full: Seq<char>,
    pub short: Seq<char>,
}

impl View for KeyText {
    type V = KeyTextView;

    open spec fn view(&self) -> KeyTextView {
        KeyTextView { full: self.full@, short: self.short@ }
    }
}

/// A recorded holder: its text, and the key the text reads as, if it does.
#[derive(Debug)]
pub struct Holder {
    pub text: String,
    pub key: Option<KeyText>,
}

/// One row of the ledger.
#[derive(Debug)]
pub struct GrantRecord {
    pub target: GrantTarget,
    pub kind: GrantKind,
    pub delegation: Delegation,
    pub holder: Holder,
    /// What the grant is revoked by.
    pub root_id: String,
    pub expiry: Moment,
}

pub ghost enum GrantTargetView {
    Membership,
    Service(Seq<char>),
}

impl View for GrantTarget {
    type V = GrantTargetView;

    open spec fn view(&self) -> GrantTargetView {
        match self {
            GrantTarget::Membership => GrantTargetView::Membership,
            GrantTarget::Service(name) => GrantTargetView::Service(name@),
        }
    }
}

pub ghost struct GrantRecordView {
    pub target: GrantTargetView,
    pub kind: GrantKind,
    pub delegation: Delegation,
    pub holder: Seq<char>,
    pub key: Option<KeyTextView>,
    pub root_id: Seq<char>,
    pub expiry: Moment,
}

impl View for GrantRecord {
    type V = GrantRecordView;

    open spec fn view(&self) -> GrantRecordView {
        GrantRecordView {
            target: self.target@,
            kind: self.kind,
            delegation: self.delegation,
            holder: self.holder.text@,
            key: match self.holder.key {
                Some(key) => Some(key@),
                None => None,
            },
            root_id: self.root_id@,
            expiry: self.expiry,
        }
    }
}

/// The placeholder for the holder of a grant that has none.
pub const ANYONE: &'static str = "-";

/// The holders of the rows, each once, in the order they first appear.
pub open spec fn holders(records: Seq<GrantRecord>) -> Seq<Seq<char>>
    decreases records.len(),
{
    if records.len() == 0 {
        Seq::empty()
    } else {
        let rest = holders(records.drop_last());
        let holder = records.last().holder.text@;
        if rest.contains(holder) {
            rest
        } else {
            rest.push(holder)
        }
    }
}

/// Whether `records[i]` is the row shown for its holder: the latest to expire, and the first of those.
pub open spec fn stands(records: Seq<GrantRecord>, holder: Seq<char>, i: int) -> bool {
    &&& 0 <= i < records.len()
    &&& records[i].holder.text@ == holder
    &&& forall|j: int|
        0 <= j < records.len() && (#[trigger] records[j]).holder.text@ == holder
            ==> records[j].expiry@ <= records[i].expiry@ && (records[j].expiry@
            == records[i].expiry@ ==> i <= j)
}

/// The row shown for `holder`.
pub open spec fn shown(records: Seq<GrantRecord>, holder: Seq<char>) -> GrantRecord {
    records[choose|i: int| stands(records, holder, i)]
}

/// One row per holder: the row that stands for it, in the order the holders first appear.
pub open spec fn live(records: Seq<GrantRecord>) -> Seq<GrantRecord> {
    holders(records).map_values(|holder: Seq<char>| shown(records, holder))
}

proof fn lemma_one_stands(records: Seq<GrantRecord>, holder: Seq<char>, i: int, j: int)
    requires
        stands(records, holder, i),
        stands(records, holder, j),
    ensures
        i == j,
{
}

proof fn lemma_holders(records: Seq<GrantRecord>)
    ensures
        forall|h: Seq<char>| #[trigger]
            holders(records).contains(h) <==> exists|i: int|
                0 <= i < records.len() && (#[trigger] records[i]).holder.text@ == h,
        holders(records).no_duplicates(),
    decreases records.len(),
{
    if records.len() > 0 {
        let rest = records.drop_last();
        lemma_holders(rest);
        let before = holders(rest);
        let last = records.last().holder.text@;
        assert forall|h: Seq<char>| #[trigger] holders(records).contains(h) <==> exists|i: int|
            0 <= i < records.len() && (#[trigger] records[i]).holder.text@ == h by {
            if before.contains(h) {
                let i = choose|i: int| 0 <= i < rest.len() && (#[trigger] rest[i]).holder.text@ == h;
                assert(records[i] == rest[i]);
                let k = choose|k: int| 0 <= k < before.len() && before[k] == h;
                assert(holders(records)[k] == h);
            }
            if h == last {
                assert(records[records.len() - 1].holder.text@ == h);
                if !before.contains(last) {
                    assert(holders(records)[before.len() as int] == h);
                }
            }
            if exists|i: int| 0 <= i < records.len() && (#[trigger] records[i]).holder.text@ == h {
                let i = choose|i: int|
                    0 <= i < records.len() && (#[trigger] records[i]).holder.text@ == h;
                if i < rest.len() {
                    assert(rest[i].holder.text@ == h);
                }
            }
            if holders(records).contains(h) && h != last {
                let k = choose|k: int| 0 <= k < holders(records).len() && holders(records)[k] == h;
                assert(before[k] == h);
            }
        }
    }
}

/// The row shown for a holder with one: it is there, and it stands.
proof fn lemma_shown(records: Seq<GrantRecord>, holder: Seq<char>, k: int)
    requires
        0 <= k < records.len(),
        records[k].holder.text@ == holder,
    ensures
        exists|i: int| stands(records, holder, i),
    decreases records.len(), k,
{
    let rest = records.drop_last();
    let n = records.len() - 1;
    if k < n {
        lemma_shown(rest, holder, k);
        let i = choose|i: int| stands(rest, holder, i);
        if records[n].holder.text@ == holder && records[n].expiry@ > records[i].expiry@ {
            assert forall|j: int|
                0 <= j < records.len() && (#[trigger] records[j]).holder.text@ == holder implies
                records[j].expiry@ <= records[n].expiry@ && (records[j].expiry@
                == records[n].expiry@ ==> n <= j) by {
                if j < n {
                    assert(rest[j] == records[j]);
                }
            }
            assert(stands(records, holder, n as int));
        } else {
            assert forall|j: int|
                0 <= j < records.len() && (#[trigger] records[j]).holder.text@ == holder implies
                records[j].expiry@ <= records[i].expiry@ && (records[j].expiry@
                == records[i].expiry@ ==> i <= j) by {
                if j < n {
                    assert(rest[j] == records[j]);
                }
            }
            assert(stands(records, holder, i));
        }
    } else if exists|j: int| 0 <= j < n && (#[trigger] records[j]).holder.text@ == holder {
        let j = choose|j: int| 0 <= j < n && (#[trigger] records[j]).holder.text@ == holder;
        lemma_shown(records, holder, j);
    } else {
        assert(stands(records, holder, n as int));
    }
}

/// What one more row does to the row shown for its holder, and to the others.
proof fn lemma_shown_push(records: Seq<GrantRecord>, record: GrantRecord, holder: Seq<char>)
    requires
        holders(records.push(record)).contains(holder),
    ensures
        shown(records.push(record), holder) == if record.holder.text@ != holder {
            shown(records, holder)
        } else if !holders(records).contains(holder) || shown(records, holder).expiry@
            < record.expiry@ {
            record
        } else {
            shown(records, holder)
        },
{
    let all = records.push(record);
    let n = records.len() as int;
    lemma_holders(records);
    lemma_holders(all);
    let k = choose|k: int| 0 <= k < all.len() && (#[trigger] all[k]).holder.text@ == holder;
    lemma_shown(all, holder, k);
    let new = choose|i: int| stands(all, holder, i);
    if holders(records).contains(holder) {
        let j = choose|j: int| 0 <= j < records.len() && (#[trigger] records[j]).holder.text@
            == holder;
        lemma_shown(records, holder, j);
        let old = choose|i: int| stands(records, holder, i);
        assert(all[old] == records[old]);
        if record.holder.text@ == holder && records[old].expiry@ < record.expiry@ {
            assert(all[n] == record);
            if new < n {
                assert(records[new] == all[new]);
            }
        } else {
            assert(stands(all, holder, old)) by {
                assert forall|i: int|
                    0 <= i < all.len() && (#[trigger] all[i]).holder.text@ == holder implies
                    all[i].expiry@ <= all[old].expiry@ && (all[i].expiry@ == all[old].expiry@
                    ==> old <= i) by {
                    if i < n {
                        assert(records[i] == all[i]);
                    }
                }
            }
            lemma_one_stands(all, holder, old, new);
        }
    } else {
        assert(all[new].holder.text@ == holder);
        if new < n {
            assert(records[new].holder.text@ == holder);
        }
    }
}

fn position_of(rows: &Vec<GrantRecord>, holder: &str) -> (at: Option<usize>)
    ensures
        match at {
            Some(i) => i < rows@.len() && rows@[i as int].holder.text@ == holder@,
            None => forall|i: int|
                0 <= i < rows@.len() ==> (#[trigger] rows@[i]).holder.text@ != holder@,
        },
{
    let mut i: usize = 0;
    while i < rows.len()
        invariant
            i <= rows.len(),
            forall|j: int| 0 <= j < i ==> (#[trigger] rows@[j]).holder.text@ != holder@,
        decreases rows.len() - i,
    {
        if text::same(rows[i].holder.text.as_str(), holder) {
            return Some(i);
        }
        i = i + 1;
    }
    None
}

/// Collapse the rows to the live one per holder: the latest-expiring row of each, in the order each holder
/// first appears.
pub fn live_per_holder(records: Vec<GrantRecord>) -> (rows: Vec<GrantRecord>)
    ensures
        rows@ == live(records@),
{
    let mut rest = records;
    let ghost all = rest@;
    let ghost mut n: int = 0;
    let mut rows: Vec<GrantRecord> = Vec::new();
    assert(all.take(0) =~= Seq::<GrantRecord>::empty());
    assert(rows@ =~= live(all.take(0)));
    while rest.len() > 0
        invariant
            0 <= n <= all.len(),
            rest@ == all.skip(n),
            rows@ == live(all.take(n)),
        decreases rest.len(),
    {
        let record = rest.remove(0);
        let ghost seen = all.take(n);
        let ghost before = rows@;
        proof {
            assert(all.skip(n).remove(0) =~= all.skip(n + 1));
            assert(all.take(n + 1) =~= seen.push(record));
            assert(seen.push(record).drop_last() =~= seen);
            lemma_holders(seen);
            lemma_rows_are_shown(seen);
        }
        match position_of(&rows, record.holder.text.as_str()) {
            Some(i) => {
                proof {
                    assert(before[i as int].holder.text@ == holders(seen)[i as int]);
                    assert(holders(seen).contains(record.holder.text@)) by {
                        assert(holders(seen)[i as int] == record.holder.text@);
                    }
                }
                if record.expiry.is_after(&rows[i].expiry) {
                    rows.set(i, record);
                }
                proof {
                    assert(holders(seen.push(record)) == holders(seen));
                    assert forall|k: int| 0 <= k < rows@.len() implies #[trigger] rows@[k]
                        == shown(seen.push(record), holders(seen)[k]) by {
                        assert(holders(seen).contains(holders(seen)[k]));
                        lemma_shown_push(seen, record, holders(seen)[k]);
                        assert(before[k] == shown(seen, holders(seen)[k]));
                    }
                    assert(rows@ =~= live(seen.push(record)));
                }
            },
            None => {
                proof {
                    assert(!holders(seen).contains(record.holder.text@)) by {
                        if holders(seen).contains(record.holder.text@) {
                            let k = choose|k: int|
                                0 <= k < holders(seen).len() && holders(seen)[k]
                                    == record.holder.text@;
                            assert(before[k].holder.text@ == holders(seen)[k]);
                        }
                    }
                }
                rows.push(record);
                proof {
                    let now = holders(seen.push(record));
                    assert(now == holders(seen).push(record.holder.text@));
                    assert forall|k: int| 0 <= k < rows@.len() implies #[trigger] rows@[k]
                        == shown(seen.push(record), now[k]) by {
                        assert(now.contains(now[k]));
                        lemma_shown_push(seen, record, now[k]);
                        if k < before.len() {
                            assert(before[k] == shown(seen, holders(seen)[k]));
                            assert(holders(seen).contains(holders(seen)[k]));
                        }
                    }
                    assert(rows@ =~= live(seen.push(record)));
                }
            },
        }
        proof {
            n = n + 1;
        }
    }
    assert(all.take(n) =~= all);
    rows
}

/// Each live row is its holder's.
proof fn lemma_rows_are_shown(records: Seq<GrantRecord>)
    ensures
        forall|k: int|
            0 <= k < live(records).len() ==> (#[trigger] live(records)[k]).holder.text@ == holders(
                records,
            )[k],
{
    lemma_holders(records);
    assert forall|k: int| 0 <= k < live(records).len() implies (#[trigger] live(
        records,
    )[k]).holder.text@ == holders(records)[k] by {
        let h = holders(records)[k];
        assert(holders(records).contains(h));
        let i = choose|i: int| 0 <= i < records.len() && (#[trigger] records[i]).holder.text@ == h;
        lemma_shown(records, h, i);
    }
}

/// One row per holder: no holder has two, every holder of the ledger has one, and it is the one that lives
/// longest. So a renewal adds no row, and a replayed older badge changes none.
pub proof fn one_row_per_holder(records: Seq<GrantRecord>)
    ensures
        forall|a: int, b: int|
            0 <= a < b < live(records).len() ==> (#[trigger] live(records)[a]).holder.text@ != (
            #[trigger] live(records)[b]).holder.text@,
        forall|i: int|
            0 <= i < records.len() ==> exists|k: int|
                0 <= k < live(records).len() && (#[trigger] live(records)[k]).holder.text@ == (
                #[trigger] records[i]).holder.text@ && live(records)[k].expiry@
                    >= records[i].expiry@,
{
    lemma_holders(records);
    lemma_rows_are_shown(records);
    assert forall|i: int| 0 <= i < records.len() implies exists|k: int|
        0 <= k < live(records).len() && (#[trigger] live(records)[k]).holder.text@ == (
        #[trigger] records[i]).holder.text@ && live(records)[k].expiry@ >= records[i].expiry@ by {
        let h = records[i].holder.text@;
        assert(holders(records).contains(h));
        let k = choose|k: int| 0 <= k < holders(records).len() && holders(records)[k] == h;
        lemma_shown(records, h, i);
        assert(live(records)[k].holder.text@ == h);
        assert(live(records)[k] == shown(records, h));
    }
}

/// The collapsed ledger is settled: collapsing it again changes nothing.
pub proof fn collapsing_twice_changes_nothing(records: Seq<GrantRecord>)
    ensures
        live(live(records)) == live(records),
{
    let rows = live(records);
    one_row_per_holder(records);
    lemma_rows_are_shown(records);
    lemma_distinct_holders(rows);
    assert forall|k: int| 0 <= k < rows.len() implies #[trigger] holders(rows)[k] == holders(
        records,
    )[k] by {
        assert(rows[k].holder.text@ == holders(records)[k]);
    }
    assert(holders(rows) =~= holders(records));
    assert forall|k: int| 0 <= k < rows.len() implies #[trigger] live(rows)[k] == rows[k] by {
        let h = holders(rows)[k];
        assert(rows[k].holder.text@ == h);
        assert(stands(rows, h, k));
        lemma_one_stands(rows, h, k, choose|i: int| stands(rows, h, i));
    }
    assert(live(rows) =~= rows);
}

/// Rows with distinct holders name their holders in row order.
proof fn lemma_distinct_holders(rows: Seq<GrantRecord>)
    requires
        forall|a: int, b: int|
            0 <= a < b < rows.len() ==> (#[trigger] rows[a]).holder.text@ != (
            #[trigger] rows[b]).holder.text@,
    ensures
        holders(rows).len() == rows.len(),
        forall|k: int| 0 <= k < rows.len() ==> holders(rows)[k] == (#[trigger] rows[k]).holder.text@,
    decreases rows.len(),
{
    if rows.len() > 0 {
        let rest = rows.drop_last();
        assert forall|a: int, b: int| 0 <= a < b < rest.len() implies (
        #[trigger] rest[a]).holder.text@ != (#[trigger] rest[b]).holder.text@ by {
            assert(rest[a] == rows[a] && rest[b] == rows[b]);
        }
        lemma_distinct_holders(rest);
        lemma_holders(rest);
        if holders(rest).contains(rows.last().holder.text@) {
            let i = choose|i: int|
                0 <= i < rest.len() && (#[trigger] rest[i]).holder.text@ == rows.last().holder.text@;
            assert(rows[i].holder.text@ == rows[rows.len() - 1].holder.text@);
        }
        assert forall|k: int| 0 <= k < rows.len() implies holders(rows)[k] == (
        #[trigger] rows[k]).holder.text@ by {
            if k < rest.len() {
                assert(rest[k] == rows[k]);
            }
        }
    }
}

/// A badge's remaining life, or that it has none.
pub open spec fn remaining_words(expiry: Moment, now: Moment) -> Seq<char> {
    if expiry@ >= now@ {
        span::coarsest(((expiry@ - now@) as nat) / 1_000_000_000)
    } else {
        "expired"@
    }
}

/// A badge's remaining life as a compact span, or `expired`.
pub fn remaining(expiry: Moment, now: Moment) -> (out: String)
    ensures
        out@ == remaining_words(expiry, now),
{
    match expiry.since(&now) {
        Ok(left) => span::humanize(left),
        Err(_) => "expired".to_owned(),
    }
}

/// The labels of the devices with this key, in their order.
pub open spec fn labels_of(devices: Seq<Device>, key: Seq<char>) -> Seq<Seq<char>>
    decreases devices.len(),
{
    if devices.len() == 0 {
        Seq::empty()
    } else {
        let rest = labels_of(devices.drop_last(), key);
        if devices.last().key@ == key {
            rest.push(devices.last().label@)
        } else {
            rest
        }
    }
}

/// The label column: every name the owner's own devices have for the key, or `-`.
pub open spec fn label_words(devices: Seq<Device>, holder: Holder) -> Seq<char> {
    match holder.key {
        None => "-"@,
        Some(key) => {
            let labels = labels_of(devices, key.full@);
            if labels.len() == 0 {
                "-"@
            } else {
                text::joined(labels, ","@)
            }
        },
    }
}

/// The names the owner's own devices have for the holder, joined by commas; `-` where none has one.
pub fn label_for(devices: &Vec<Device>, holder: &Holder) -> (out: String)
    ensures
        out@ == label_words(devices@, *holder),
{
    let key = match &holder.key {
        None => {
            return "-".to_owned();
        },
        Some(key) => key.full.as_str(),
    };
    let mut labels: Vec<String> = Vec::new();
    let mut i: usize = 0;
    assert(text::texts(labels@) =~= labels_of(devices@.take(0), key@));
    while i < devices.len()
        invariant
            i <= devices.len(),
            text::texts(labels@) == labels_of(devices@.take(i as int), key@),
        decreases devices.len() - i,
    {
        assert(devices@.take(i + 1).drop_last() =~= devices@.take(i as int));
        let ghost before = labels@;
        if text::same(devices[i].key.as_str(), key) {
            labels.push(devices[i].label.clone());
            assert(text::texts(labels@) =~= text::texts(before).push(devices@[i as int].label@));
        }
        i = i + 1;
    }
    assert(devices@.take(i as int) =~= devices@);
    if labels.len() == 0 {
        "-".to_owned()
    } else {
        text::join(&labels, ",")
    }
}

/// A holder in short where it reads as a key, else as it is written.
pub open spec fn short_words(holder: Holder) -> Seq<char> {
    match holder.key {
        Some(key) => key.short@,
        None => holder.text@,
    }
}

/// A recorded holder as a short key when it reads as one, else as it is written.
pub fn short_or_raw(holder: &Holder) -> (out: String)
    ensures
        out@ == short_words(*holder),
{
    match &holder.key {
        Some(key) => key.short.clone(),
        None => holder.text.clone(),
    }
}

/// The bound-to column.
pub open spec fn bound_words(kind: GrantKind, holder: Holder) -> Seq<char> {
    match kind {
        GrantKind::Device => short_words(holder),
        GrantKind::Fleet => "fleet:"@ + short_words(holder),
        GrantKind::Bearer => "-"@,
    }
}

/// The key an invite admits, as the second column.
pub fn bound_to(record: &GrantRecord) -> (out: String)
    ensures
        out@ == bound_words(record.kind, record.holder),
{
    match record.kind {
        GrantKind::Device => short_or_raw(&record.holder),
        GrantKind::Fleet => {
            let mut out = "fleet:".to_owned();
            out.append(short_or_raw(&record.holder).as_str());
            out
        },
        GrantKind::Bearer => "-".to_owned(),
    }
}

/// One row of a listing: the label, the key it is bound to, and the life it has left.
#[derive(Debug)]
pub struct Listed {
    pub label: String,
    pub bound: String,
    pub life: String,
}

pub ghost struct ListedView {
    pub label: Seq<char>,
    pub bound: Seq<char>,
    pub life: Seq<char>,
}

impl View for Listed {
    type V = ListedView;

    open spec fn view(&self) -> ListedView {
        ListedView { label: self.label@, bound: self.bound@, life: self.life@ }
    }
}

/// The row a record is listed as.
pub open spec fn listed(record: GrantRecord, devices: Seq<Device>, now: Moment) -> ListedView {
    ListedView {
        label: label_words(devices, record.holder),
        bound: bound_words(record.kind, record.holder),
        life: remaining_words(record.expiry, now),
    }
}

/// The membership rows of the ledger.
pub open spec fn memberships(records: Seq<GrantRecord>) -> Seq<GrantRecord> {
    records.filter(|r: GrantRecord| r.target is Membership)
}

/// The rows of a listing.
pub open spec fn listed_rows(rows: Seq<GrantRecord>, devices: Seq<Device>, now: Moment) -> Seq<
    ListedView,
> {
    rows.map_values(|r: GrantRecord| listed(r, devices, now))
}

/// The widest label, in characters.
pub open spec fn label_width(rows: Seq<ListedView>) -> nat
    decreases rows.len(),
{
    if rows.len() == 0 {
        0
    } else {
        let rest = label_width(rows.drop_last());
        if rows.last().label.len() > rest {
            rows.last().label.len()
        } else {
            rest
        }
    }
}

/// The widest bound-to cell, in characters.
pub open spec fn bound_width(rows: Seq<ListedView>) -> nat
    decreases rows.len(),
{
    if rows.len() == 0 {
        0
    } else {
        let rest = bound_width(rows.drop_last());
        if rows.last().bound.len() > rest {
            rows.last().bound.len()
        } else {
            rest
        }
    }
}

/// A row as it is printed: the first two cells filled to their columns.
pub open spec fn listed_line(rows: Seq<ListedView>, row: ListedView) -> Seq<char> {
    text::padded(row.label, label_width(rows)) + "  "@ + text::padded(row.bound, bound_width(rows))
        + "  "@ + row.life
}

/// The lines of a listing.
pub open spec fn listing(records: Seq<GrantRecord>, devices: Seq<Device>, now: Moment) -> Seq<
    Seq<char>,
> {
    let members = memberships(records);
    if members.len() == 0 {
        seq!["no invites created yet"@]
    } else {
        let rows = listed_rows(live(members), devices, now);
        rows.map_values(|row: ListedView| listed_line(rows, row))
    }
}

fn take_memberships(records: Vec<GrantRecord>) -> (members: Vec<GrantRecord>)
    ensures
        members@ == memberships(records@),
{
    let mut rest = records;
    let ghost all = rest@;
    let ghost mut n: int = 0;
    let mut members: Vec<GrantRecord> = Vec::new();
    proof {
        reveal(Seq::filter);
        assert(all.take(0) =~= Seq::<GrantRecord>::empty());
    }
    while rest.len() > 0
        invariant
            0 <= n <= all.len(),
            rest@ == all.skip(n),
            members@ == memberships(all.take(n)),
        decreases rest.len(),
    {
        let record = rest.remove(0);
        proof {
            reveal(Seq::filter);
            assert(all.skip(n).remove(0) =~= all.skip(n + 1));
            assert(all.take(n + 1).drop_last() =~= all.take(n));
            n = n + 1;
        }
        if let GrantTarget::Membership = record.target {
            members.push(record);
        }
    }
    assert(all.take(n) =~= all);
    members
}

fn list_rows(rows: &Vec<GrantRecord>, devices: &Vec<Device>, now: Moment) -> (out: Vec<Listed>)
    ensures
        out@.map_values(|r: Listed| r@) == listed_rows(rows@, devices@, now),
{
    let mut out: Vec<Listed> = Vec::new();
    let mut i: usize = 0;
    while i < rows.len()
        invariant
            i <= rows.len(),
            out.len() == i,
            forall|k: int|
                0 <= k < i ==> (#[trigger] out@[k])@ == listed(rows@[k], devices@, now),
        decreases rows.len() - i,
    {
        out.push(
            Listed {
                label: label_for(devices, &rows[i].holder),
                bound: bound_to(&rows[i]),
                life: remaining(rows[i].expiry, now),
            },
        );
        i = i + 1;
    }
    assert(out@.map_values(|r: Listed| r@) =~= listed_rows(rows@, devices@, now));
    out
}

/// List the invites you have issued.
#[derive(Debug)]
pub struct LsCmd {}

impl LsCmd {
    /// One line per holder of a membership badge: the names it has, the key it admits, and the life its
    /// live badge has left. An empty ledger says so.
    pub fn run(&self, records: Vec<GrantRecord>, devices: &Vec<Device>, now: Moment) -> (lines: Vec<
        String,
    >)
        ensures
            text::texts(lines@) == listing(records@, devices@, now),
    {
        let ghost given = records@;
        let members = take_memberships(records);
        let mut lines: Vec<String> = Vec::new();
        if members.len() == 0 {
            lines.push("no invites created yet".to_owned());
            assert(text::texts(lines@) =~= listing(given, devices@, now));
            return lines;
        }
        let rows = list_rows(&live_per_holder(members), devices, now);
        let ghost all = rows@.map_values(|r: Listed| r@);
        let mut labels: usize = 0;
        let mut bounds: usize = 0;
        let mut i: usize = 0;
        while i < rows.len()
            invariant
                i <= rows.len(),
                all == rows@.map_values(|r: Listed| r@),
                labels == label_width(all.take(i as int)),
                bounds == bound_width(all.take(i as int)),
            decreases rows.len() - i,
        {
            assert(all.take(i + 1).drop_last() =~= all.take(i as int));
            let label: usize = rows[i].label.as_str().unicode_len();
            if label > labels {
                labels = label;
            }
            let bound: usize = rows[i].bound.as_str().unicode_len();
            if bound > bounds {
                bounds = bound;
            }
            i = i + 1;
        }
        assert(all.take(i as int) =~= all);
        let mut k: usize = 0;
        while k < rows.len()
            invariant
                k <= rows.len(),
                all == rows@.map_values(|r: Listed| r@),
                labels == label_width(all),
                bounds == bound_width(all),
                lines.len() == k,
                forall|j: int|
                    0 <= j < k ==> (#[trigger] lines@[j])@ == listed_line(all, all[j]),
            decreases rows.len() - k,
        {
            let mut line = String::new();
            text::push_padded(&mut line, rows[k].label.as_str(), labels);
            line.append("  ");
            text::push_padded(&mut line, rows[k].bound.as_str(), bounds);
            line.append("  ");
            line.append(rows[k].life.as_str());
            assert(line@ =~= listed_line(all, all[k as int]));
            lines.push(line);
            k = k + 1;
        }
        assert(text::texts(lines@) =~= listing(given, devices@, now));
        lines
    }
}

/// Cancel an invite by revoking its badge.
#[derive(Debug)]
pub struct RmCmd {
    /// The label given to the invite, or the device key it admits.
    pub label: String,
}

/// What the label of an invite reads as.
#[derive(Debug)]
pub enum LabelReading {
    /// A key.
    Key(String),
    /// Neither a key nor a name.
    NoName,
    /// A name under `me/`, and the keys it stands for.
    Named(Vec<String>),
}

/// The device an invite label stands for, or why it stands for none.
pub open spec fn holder_of(label: Seq<char>, reading: LabelReading) -> Result<
    Seq<char>,
    Seq<char>,
> {
    match reading {
        LabelReading::Key(key) => Ok(key@),
        LabelReading::NoName => Err(
            "`"@ + label
                + "` is not an invite label; pass the label you gave `invite add`, or the raw device key"@,
        ),
        LabelReading::Named(keys) => if keys@.len() == 1 {
            Ok(keys@[0]@)
        } else {
            Err("no invite named `"@ + label + "`; list yours with `swoosh invite ls`"@)
        },
    }
}

/// The rows of `records` that `wanted` picks, as what each is revoked by.
pub open spec fn cut_ids(records: Seq<GrantRecord>, wanted: spec_fn(GrantRecord) -> bool) -> Seq<
    Seq<char>,
>
    decreases records.len(),
{
    if records.len() == 0 {
        Seq::empty()
    } else {
        let rest = cut_ids(records.drop_last(), wanted);
        if wanted(records.last()) {
            rest.push(records.last().root_id@)
        } else {
            rest
        }
    }
}

/// Whether `id` is what a row that `wanted` picks is revoked by.
pub open spec fn picks_id(
    records: Seq<GrantRecord>,
    wanted: spec_fn(GrantRecord) -> bool,
    id: Seq<char>,
) -> bool {
    exists|i: int|
        0 <= i < records.len() && wanted(#[trigger] records[i]) && records[i].root_id@ == id
}

/// What is cut is what was picked: every picked row's id, and no id but a picked row's.
pub proof fn what_is_cut_is_what_was_picked(
    records: Seq<GrantRecord>,
    wanted: spec_fn(GrantRecord) -> bool,
)
    ensures
        forall|i: int|
            0 <= i < records.len() && wanted(#[trigger] records[i]) ==> cut_ids(
                records,
                wanted,
            ).contains(records[i].root_id@),
        forall|k: int|
            0 <= k < cut_ids(records, wanted).len() ==> picks_id(
                records,
                wanted,
                #[trigger] cut_ids(records, wanted)[k],
            ),
    decreases records.len(),
{
    if records.len() > 0 {
        let first = records.drop_last();
        let rest = cut_ids(first, wanted);
        let ids = cut_ids(records, wanted);
        what_is_cut_is_what_was_picked(first, wanted);
        assert forall|i: int| 0 <= i < records.len() && wanted(
            #[trigger] records[i],
        ) implies ids.contains(records[i].root_id@) by {
            if i < first.len() {
                assert(first[i] == records[i]);
                let k = choose|k: int| 0 <= k < rest.len() && rest[k] == records[i].root_id@;
                assert(ids[k] == rest[k]);
            } else {
                assert(ids[rest.len() as int] == records[i].root_id@);
            }
        }
        assert forall|k: int| 0 <= k < ids.len() implies picks_id(
            records,
            wanted,
            #[trigger] ids[k],
        ) by {
            if k < rest.len() {
                assert(ids[k] == rest[k]);
                let i = choose|i: int|
                    0 <= i < first.len() && wanted(#[trigger] first[i]) && first[i].root_id@
                        == rest[k];
                assert(records[i] == first[i]);
            } else {
                assert(wanted(records[records.len() - 1]));
            }
        }
    }
}

/// Whether the row is a badge of `holder`.
pub open spec fn is_badge_of(record: GrantRecord, holder: Seq<char>) -> bool {
    record.target is Membership && record.holder.text@ == holder
}

/// What is revoked, and the line that says so.
#[derive(Debug)]
pub struct Cut {
    /// What each revoked row is revoked by.
    pub ids: Vec<String>,
    pub line: String,
}

impl RmCmd {
    /// The device the label stands for: a key as it is, else the one key the name has under `me/`.
    pub fn holder(&self, reading: &LabelReading) -> (holder: Result<String, String>)
        ensures
            match holder {
                Ok(key) => holder_of(self.label@, *reading) == Ok::<Seq<char>, Seq<char>>(key@),
                Err(line) => holder_of(self.label@, *reading) == Err::<Seq<char>, Seq<char>>(line@),
            },
    {
        match reading {
            LabelReading::Key(key) => Ok(key.clone()),
            LabelReading::NoName => {
                let mut line = "`".to_owned();
                line.append(self.label.as_str());
                line.append(
                    "` is not an invite label; pass the label you gave `invite add`, or the raw device key",
                );
                Err(line)
            },
            LabelReading::Named(keys) => {
                if keys.len() == 1 {
                    return Ok(keys[0].clone());
                }
                let mut line = "no invite named `".to_owned();
                line.append(self.label.as_str());
                line.append("`; list yours with `swoosh invite ls`");
                Err(line)
            },
        }
    }

    /// Cut every membership badge recorded for `holder`. `ledger` and `denylist` are where those files
    /// are.
    pub fn run(
        &self,
        records: &Vec<GrantRecord>,
        holder: &str,
        ledger: &str,
        denylist: &str,
    ) -> (cut: Result<Cut, String>)
        ensures
            ({
                let ids = cut_ids(records@, |r: GrantRecord| is_badge_of(r, holder@));
                match cut {
                    Ok(cut) => ids.len() > 0 && text::texts(cut.ids@) == ids && cut.line@
                        == "revoked "@ + text::decimal(ids.len()) + " badge(s) for "@ + self.label@
                        + " ("@ + denylist@ + ")"@,
                    Err(line) => ids.len() == 0 && line@ == "no invite recorded for `"@
                        + self.label@ + "` in the ledger ("@ + ledger@
                        + "); list yours with `swoosh invite ls`, or cut a service grant with `swoosh grant revoke "@
                        + self.label@ + "`"@,
                }
            }),
            cut matches Ok(cut) ==> forall|i: int|
                0 <= i < records@.len() && (#[trigger] records@[i]).target is Membership
                    && records@[i].holder.text@ == holder@ ==> text::texts(cut.ids@).contains(
                    records@[i].root_id@,
                ),
            cut is Err ==> forall|i: int|
                0 <= i < records@.len() && (#[trigger] records@[i]).target is Membership
                    ==> records@[i].holder.text@ != holder@,
    {
        let ghost wanted = |r: GrantRecord| is_badge_of(r, holder@);
        let mut ids: Vec<String> = Vec::new();
        let mut i: usize = 0;
        assert(text::texts(ids@) =~= cut_ids(records@.take(0), wanted));
        while i < records.len()
            invariant
                i <= records.len(),
                wanted == (|r: GrantRecord| is_badge_of(r, holder@)),
                text::texts(ids@) == cut_ids(records@.take(i as int), wanted),
            decreases records.len() - i,
        {
            assert(records@.take(i + 1).drop_last() =~= records@.take(i as int));
            let ghost before = ids@;
            let badge: bool = match records[i].target {
                GrantTarget::Membership => true,
                GrantTarget::Service(_) => false,
            };
            if badge && text::same(records[i].holder.text.as_str(), holder) {
                ids.push(records[i].root_id.clone());
                assert(text::texts(ids@) =~= text::texts(before).push(
                    records@[i as int].root_id@,
                ));
            }
            i = i + 1;
        }
        assert(records@.take(i as int) =~= records@);
        assert(text::texts(ids@).len() == ids@.len());
        proof {
            cancelling_cuts_every_badge_and_nothing_else(records@, holder@);
        }
        if ids.len() == 0 {
            let mut line = "no invite recorded for `".to_owned();
            line.append(self.label.as_str());
            line.append("` in the ledger (");
            line.append(ledger);
            line.append(
                "); list yours with `swoosh invite ls`, or cut a service grant with `swoosh grant revoke ",
            );
            line.append(self.label.as_str());
            line.append("`");
            return Err(line);
        }
        let mut line = "revoked ".to_owned();
        text::push_decimal(&mut line, ids.len() as u128);
        line.append(" badge(s) for ");
        line.append(self.label.as_str());
        line.append(" (");
        line.append(denylist);
        line.append(")");
        Ok(Cut { ids, line })
    }
}

/// Cancelling an invite cuts every badge of its holder and nothing else: a row is cut exactly where it is a
/// membership and its holder is that one; a grant of a service to the same holder stays.
pub proof fn cancelling_cuts_every_badge_and_nothing_else(
    records: Seq<GrantRecord>,
    holder: Seq<char>,
)
    ensures
        ({
            let ids = cut_ids(records, |r: GrantRecord| is_badge_of(r, holder));
            &&& forall|i: int|
                0 <= i < records.len() && (#[trigger] records[i]).target is Membership
                    && records[i].holder.text@ == holder ==> ids.contains(records[i].root_id@)
            &&& forall|k: int|
                0 <= k < ids.len() ==> picks_id(
                    records,
                    |r: GrantRecord| r.target is Membership && r.holder.text@ == holder,
                    #[trigger] ids[k],
                )
            &&& ids.len() == records.filter(
                |r: GrantRecord| r.target is Membership && r.holder.text@ == holder,
            ).len()
            &&& ids.len() == 0 <==> forall|i: int|
                0 <= i < records.len() && (#[trigger] records[i]).target is Membership
                    ==> records[i].holder.text@ != holder
        }),
{
    let picks = |r: GrantRecord| is_badge_of(r, holder);
    let held = |r: GrantRecord| r.target is Membership && r.holder.text@ == holder;
    assert(forall|r: GrantRecord| #[trigger] picks(r) == held(r));
    what_is_cut_is_what_was_picked(records, picks);
    lemma_as_many_picked(records, picks, held);
    let ids = cut_ids(records, picks);
    assert forall|i: int|
        0 <= i < records.len() && (#[trigger] records[i]).target is Membership
            && records[i].holder.text@ == holder implies ids.contains(records[i].root_id@) by {
        assert(picks(records[i]));
    }
    assert forall|k: int| 0 <= k < ids.len() implies picks_id(records, held, #[trigger] ids[k]) by {
        let i = choose|i: int|
            0 <= i < records.len() && picks(#[trigger] records[i]) && records[i].root_id@ == ids[k];
        assert(held(records[i]));
    }
    if ids.len() > 0 {
        assert(picks_id(records, held, ids[0]));
        let i = choose|i: int|
            0 <= i < records.len() && held(#[trigger] records[i]) && records[i].root_id@ == ids[0];
        assert(records[i].target is Membership);
    }
}

proof fn lemma_as_many_picked(
    records: Seq<GrantRecord>,
    picks: spec_fn(GrantRecord) -> bool,
    held: spec_fn(GrantRecord) -> bool,
)
    requires
        forall|r: GrantRecord| #[trigger] picks(r) == held(r),
    ensures
        cut_ids(records, picks).len() == records.filter(held).len(),
    decreases records.len(),
{
    reveal(Seq::filter);
    if records.len() > 0 {
        lemma_as_many_picked(records.drop_last(), picks, held);
        assert(picks(records.last()) == held(records.last()));
    }
}

/// One more row changes the collapsed ledger in one place at most: the row of a new holder is added last, a
/// row that lives longer takes the place of its holder's, and any other changes nothing; and an empty ledger
/// collapses to none.
pub proof fn one_more_row_changes_one_place(records: Seq<GrantRecord>, record: GrantRecord)
    ensures
        live(Seq::<GrantRecord>::empty()).len() == 0,
        (forall|k: int|
            0 <= k < live(records).len() ==> (#[trigger] live(records)[k]).holder.text@
                != record.holder.text@) ==> live(records.push(record)) == live(records).push(record),
        forall|k: int|
            0 <= k < live(records).len() && (#[trigger] live(records)[k]).holder.text@
                == record.holder.text@ ==> live(records.push(record)) == if live(records)[k].expiry@
                < record.expiry@ {
                live(records).update(k, record)
            } else {
                live(records)
            },
{
    let all = records.push(record);
    let before = live(records);
    let after = live(all);
    let held = record.holder.text@;
    assert(all.drop_last() =~= records);
    lemma_holders(records);
    lemma_holders(all);
    lemma_rows_are_shown(records);
    assert forall|k: int| 0 <= k < holders(records).len() implies #[trigger] holders(all)[k]
        == holders(records)[k] by {}
    assert forall|k: int| 0 <= k < before.len() && before[k].holder.text@ != held implies #[trigger] after[k]
        == before[k] by {
        assert(holders(all).contains(holders(all)[k]));
        lemma_shown_push(records, record, holders(all)[k]);
    }
    if forall|k: int| 0 <= k < before.len() ==> (#[trigger] before[k]).holder.text@ != held {
        assert(!holders(records).contains(held)) by {
            if holders(records).contains(held) {
                let k = choose|k: int| 0 <= k < holders(records).len() && holders(records)[k] == held;
                assert(before[k].holder.text@ == held);
            }
        }
        let n = before.len() as int;
        assert(holders(all)[n] == held);
        assert(holders(all).contains(held));
        lemma_shown_push(records, record, held);
        assert(after =~= before.push(record));
    }
    assert forall|k: int| 0 <= k < before.len() && (#[trigger] before[k]).holder.text@ == held implies after
        == if before[k].expiry@ < record.expiry@ {
        before.update(k, record)
    } else {
        before
    } by {
        assert(holders(records)[k] == held);
        assert(holders(records).contains(held));
        assert(holders(all) == holders(records));
        lemma_shown_push(records, record, held);
        one_row_per_holder(records);
        assert forall|j: int| 0 <= j < before.len() && j != k implies (#[trigger] before[j]).holder.text@
            != held by {
            if j < k {
                assert(before[j].holder.text@ != before[k].holder.text@);
            } else {
                assert(before[k].holder.text@ != before[j].holder.text@);
            }
        }
        assert(before[k] == shown(records, held));
        assert(after[k] == shown(all, held));
        if before[k].expiry@ < record.expiry@ {
            assert(after =~= before.update(k, record));
        } else {
            assert(after =~= before);
        }
    }
}

/// Each device and each row is looked at by itself: a device gives its label where it has the key, a row is
/// listed where it is a membership, and both keep their order.
pub proof fn each_device_and_row_is_looked_at_by_itself(
    a: Seq<Device>,
    b: Seq<Device>,
    device: Device,
    key: Seq<char>,
    x: Seq<GrantRecord>,
    y: Seq<GrantRecord>,
    record: GrantRecord,
)
    ensures
        labels_of(a + b, key) == labels_of(a, key) + labels_of(b, key),
        device.key@ == key ==> labels_of(seq![device], key) == seq![device.label@],
        device.key@ != key ==> labels_of(seq![device], key).len() == 0,
        labels_of(Seq::<Device>::empty(), key).len() == 0,
        memberships(x + y) == memberships(x) + memberships(y),
        record.target is Membership ==> memberships(seq![record]) == seq![record],
        !(record.target is Membership) ==> memberships(seq![record]).len() == 0,
        memberships(Seq::<GrantRecord>::empty()).len() == 0,
{
    reveal_with_fuel(labels_of, 2);
    reveal_with_fuel(Seq::filter, 2);
    lemma_labels_part(a, b, key);
    lemma_memberships_part(x, y);
    assert(seq![device].drop_last() =~= Seq::<Device>::empty());
    assert(seq![record].drop_last() =~= Seq::<GrantRecord>::empty());
    if device.key@ == key {
        assert(labels_of(seq![device], key) =~= seq![device.label@]);
    }
    if record.target is Membership {
        assert(memberships(seq![record]) =~= seq![record]);
    }
}

proof fn lemma_labels_part(a: Seq<Device>, b: Seq<Device>, key: Seq<char>)
    ensures
        labels_of(a + b, key) == labels_of(a, key) + labels_of(b, key),
    decreases b.len(),
{
    if b.len() == 0 {
        assert(a + b =~= a);
        assert(labels_of(a, key) + labels_of(b, key) =~= labels_of(a, key));
    } else {
        assert((a + b).drop_last() =~= a + b.drop_last());
        lemma_labels_part(a, b.drop_last(), key);
        assert(labels_of(a + b, key) =~= labels_of(a, key) + labels_of(b, key));
    }
}

proof fn lemma_memberships_part(x: Seq<GrantRecord>, y: Seq<GrantRecord>)
    ensures
        memberships(x + y) == memberships(x) + memberships(y),
    decreases y.len(),
{
    reveal(Seq::filter);
    if y.len() == 0 {
        assert(x + y =~= x);
        assert(memberships(x) + memberships(y) =~= memberships(x));
    } else {
        assert((x + y).drop_last() =~= x + y.drop_last());
        lemma_memberships_part(x, y.drop_last());
        assert(memberships(x + y) =~= memberships(x) + memberships(y));
    }
}

/// A row is listed under every name its key has, or a dash; by its key in short where it reads as one, with
/// a fleet marked and a bearer as a dash; and with the life it has left in whole seconds, or as expired once
/// its end is past.
pub proof fn a_row_is_listed_as_what_it_is(record: GrantRecord, devices: Seq<Device>, now: Moment)
    ensures
        ({
            let row = listed(record, devices, now);
            &&& record.holder.key is None ==> row.label == "-"@
            &&& record.holder.key matches Some(key) ==> if labels_of(devices, key.full@).len() > 0 {
                row.label == text::joined(labels_of(devices, key.full@), ","@)
            } else {
                row.label == "-"@
            }
            &&& record.kind == GrantKind::Bearer ==> row.bound == "-"@
            &&& record.kind == GrantKind::Device ==> (record.holder.key matches Some(key) ==> row.bound
                == key.short@)
            &&& record.kind == GrantKind::Device && record.holder.key is None ==> row.bound
                == record.holder.text@
            &&& record.kind == GrantKind::Fleet ==> (record.holder.key matches Some(key) ==> row.bound
                == "fleet:"@ + key.short@)
            &&& record.kind == GrantKind::Fleet && record.holder.key is None ==> row.bound == "fleet:"@
                + record.holder.text@
            &&& record.expiry@ < now@ ==> row.life == "expired"@
            &&& record.expiry@ >= now@ ==> row.life == span::coarsest(
                ((record.expiry@ - now@) / 1_000_000_000) as nat,
            )
        }),
{
}

/// A listing has a line for each live membership, in order, and each line holds the three cells of its row,
/// with the second cells of all lines in one column and the third in another; without a membership it has
/// the one line that says so.
pub proof fn a_listing_has_a_line_for_each_holder(
    records: Seq<GrantRecord>,
    devices: Seq<Device>,
    now: Moment,
    k: int,
)
    ensures
        memberships(records).len() == 0 ==> listing(records, devices, now) == seq![
            "no invites created yet"@,
        ],
        memberships(records).len() > 0 ==> listing(records, devices, now).len() == live(
            memberships(records),
        ).len() && (0 <= k < live(memberships(records)).len() ==> {
            let rows = listed_rows(live(memberships(records)), devices, now);
            let row = listed(live(memberships(records))[k], devices, now);
            let line = listing(records, devices, now)[k];
            let second: int = label_width(rows) as int + 2;
            let third: int = second + bound_width(rows) + 2;
            &&& line.take(row.label.len() as int) == row.label
            &&& row.label.len() <= label_width(rows)
            &&& line.subrange(second, second + row.bound.len()) == row.bound
            &&& row.bound.len() <= bound_width(rows)
            &&& line.skip(third) == row.life
        }),
        forall|rows: Seq<ListedView>|
            rows.len() > 0 ==> is_a_width(rows, #[trigger] label_width(rows), true) && is_a_width(
                rows,
                bound_width(rows),
                false,
            ),
{
    let members = memberships(records);
    let rows = listed_rows(live(members), devices, now);
    if members.len() > 0 && 0 <= k < live(members).len() {
        let row = rows[k];
        let line = listed_line(rows, row);
        lemma_widths(rows);
        reveal_strlit("  ");
        text::filling_adds_only_spaces(row.label, label_width(rows));
        text::filling_adds_only_spaces(row.bound, bound_width(rows));
        let second = (label_width(rows) + 2) as int;
        let third = second + bound_width(rows) + 2;
        assert(line.take(row.label.len() as int) =~= row.label);
        assert(line.subrange(second, second + row.bound.len()) =~= row.bound);
        assert(line.skip(third) =~= row.life);
    }
    assert forall|rows: Seq<ListedView>| rows.len() > 0 implies is_a_width(
        rows,
        #[trigger] label_width(rows),
        true,
    ) && is_a_width(rows, bound_width(rows), false) by {
        lemma_widths(rows);
    }
}

/// Whether some label, or else some bound-to cell, is as wide as that.
pub open spec fn is_a_width(rows: Seq<ListedView>, width: nat, label: bool) -> bool {
    exists|i: int|
        0 <= i < rows.len() && width == if label {
            (#[trigger] rows[i]).label.len()
        } else {
            rows[i].bound.len()
        }
}

proof fn lemma_widths(rows: Seq<ListedView>)
    ensures
        forall|i: int|
            0 <= i < rows.len() ==> (#[trigger] rows[i]).label.len() <= label_width(rows)
                && rows[i].bound.len() <= bound_width(rows),
        rows.len() > 0 ==> is_a_width(rows, label_width(rows), true),
        rows.len() > 0 ==> is_a_width(rows, bound_width(rows), false),
    decreases rows.len(),
{
    if rows.len() > 0 {
        let rest = rows.drop_last();
        let n = rows.len() - 1;
        lemma_widths(rest);
        assert(forall|i: int| 0 <= i < rest.len() ==> rest[i] == #[trigger] rows[i]);
        assert(rows[n] == rows.last());
        if rest.len() > 0 {
            let i = choose|i: int| 0 <= i < rest.len() && label_width(rest) == (#[trigger] rest[i]).label.len();
            let j = choose|j: int| 0 <= j < rest.len() && bound_width(rest) == (#[trigger] rest[j]).bound.len();
            assert(rows[i] == rest[i]);
            assert(rows[j] == rest[j]);
        }
    }
}

/// The label of an invite stands for one device: a key for itself, and a name for its one key; a name with
/// none or with several, and what is no name, are refused, and the refusal repeats the label.
pub proof fn a_label_stands_for_one_key(label: Seq<char>, reading: LabelReading)
    ensures
        holder_of(label, reading) is Ok <==> reading is Key || (reading matches LabelReading::Named(keys)
            && keys@.len() == 1),
        reading matches LabelReading::Key(key) ==> holder_of(label, reading) == Ok::<
            Seq<char>,
            Seq<char>,
        >(key@),
        reading matches LabelReading::Named(keys) ==> (keys@.len() == 1 ==> holder_of(label, reading)
            == Ok::<Seq<char>, Seq<char>>(keys@[0]@)),
        holder_of(label, reading) matches Err(line) ==> text::mentions(line, label),
        ANYONE@ == "-"@,
{
    text::lemma_mentions(
        "`"@,
        label,
        "` is not an invite label; pass the label you gave `invite add`, or the raw device key"@,
    );
    text::lemma_mentions(
        "no invite named `"@,
        label,
        "`; list yours with `swoosh invite ls`"@,
    );
}

} // verus!
