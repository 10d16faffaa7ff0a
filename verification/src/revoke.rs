//! Revoking a grant: a link is revoked as it is, and a holder by every row the ledger has for it.

use vstd::prelude::*;
use vstd::string::StringExecFns;

use crate::ledger;
use crate::ledger::Cut;
use crate::ledger::GrantRecord;
use crate::text;

verus! {

broadcast use {vstd::seq::group_seq_axioms, vstd::string::group_string_axioms};

/// Revoke a grant so this node refuses it at once.
#[derive(Debug)]
pub struct RevokeCmd {
    /// A link to revoke, or a peer that was granted one.
    pub target: String,
}

/// What shape the target has.
#[derive(Debug)]
pub enum Shape {
    /// It carries a link's prefix.
    Link,
    /// It is a link without its prefix, which is refused with this line.
    BareLink { line: String },
    /// It is neither.
    Plain,
}

/// Where a revocation goes.
#[derive(Debug, Clone, Copy, PartialEq, Eq, Structural)]
pub enum Route {
    /// The target is a link.
    Link,
    /// The target is a holder, looked up in the ledger.
    Holder,
}

/// Why the placeholder is no target.
pub open spec fn placeholder_words() -> Seq<char> {
    "`-` is the placeholder for a bearer grant's holder, not a revoke target: a bearer link has no holder to name. Paste the `swoosh:` link to `swoosh grant revoke <link>`, or run `swoosh grant ls`"@
}

/// Where the target goes, or why it goes nowhere. The placeholder of a bearer grant names no holder, so it
/// never revokes the bearer grants together.
pub open spec fn routed(target: Seq<char>, shape: Shape) -> Result<Route, Seq<char>> {
    match shape {
        Shape::Link => Ok(Route::Link),
        Shape::BareLink { line } => Err(line@),
        Shape::Plain => if target == ledger::ANYONE@ {
            Err(placeholder_words())
        } else {
            Ok(Route::Holder)
        },
    }
}

/// Whether the row is held by one of `wanted`.
pub open spec fn is_held_by(record: GrantRecord, wanted: Seq<Seq<char>>) -> bool {
    wanted.contains(record.holder.text@)
}

impl RevokeCmd {
    /// Where the revocation goes.
    pub fn run(&self, shape: &Shape) -> (route: Result<Route, String>)
        ensures
            match route {
                Ok(route) => routed(self.target@, *shape) == Ok::<Route, Seq<char>>(route),
                Err(line) => routed(self.target@, *shape) == Err::<Route, Seq<char>>(line@),
            },
    {
        match shape {
            Shape::Link => Ok(Route::Link),
            Shape::BareLink { line } => Err(line.clone()),
            Shape::Plain => {
                if text::same(self.target.as_str(), ledger::ANYONE) {
                    return Err(
                        "`-` is the placeholder for a bearer grant's holder, not a revoke target: a bearer link has no holder to name. Paste the `swoosh:` link to `swoosh grant revoke <link>`, or run `swoosh grant ls`".to_owned(),
                    );
                }
                Ok(Route::Holder)
            },
        }
    }

    /// Cut every grant issued to the holder: the rows held by the target as it is typed, or by a key it
    /// resolves to. `ledger` and `denylist` are where those files are.
    pub fn revoke_holder(
        &self,
        records: &Vec<GrantRecord>,
        resolved: &Vec<String>,
        ledger: &str,
        denylist: &str,
    ) -> (cut: Result<Cut, String>)
        ensures
            ({
                let wanted = seq![self.target@] + text::texts(resolved@);
                let ids = ledger::cut_ids(records@, |r: GrantRecord| is_held_by(r, wanted));
                match cut {
                    Ok(cut) => ids.len() > 0 && text::texts(cut.ids@) == ids && cut.line@
                        == "revoked "@ + text::decimal(ids.len()) + " grant(s) to "@ + self.target@
                        + " ("@ + denylist@ + ")"@,
                    Err(line) => ids.len() == 0 && line@ == "no grant issued to `"@ + self.target@
                        + "` is recorded in the ledger ("@ + ledger@
                        + "); paste the `swoosh:` link to revoke one directly, or run `swoosh grant ls` to see who you have granted"@,
                }
            }),
            cut matches Ok(cut) ==> forall|i: int|
                0 <= i < records@.len() && ((#[trigger] records@[i]).holder.text@ == self.target@
                    || text::texts(resolved@).contains(records@[i].holder.text@)) ==> text::texts(
                    cut.ids@,
                ).contains(records@[i].root_id@),
            cut is Err ==> forall|i: int|
                0 <= i < records@.len() ==> (#[trigger] records@[i]).holder.text@ != self.target@
                    && !text::texts(resolved@).contains(records@[i].holder.text@),
    {
        let ghost names = seq![self.target@] + text::texts(resolved@);
        let ghost wanted = |r: GrantRecord| is_held_by(r, names);
        let mut ids: Vec<String> = Vec::new();
        let mut i: usize = 0;
        assert(text::texts(ids@) =~= ledger::cut_ids(records@.take(0), wanted));
        while i < records.len()
            invariant
                i <= records.len(),
                names == seq![self.target@] + text::texts(resolved@),
                wanted == (|r: GrantRecord| is_held_by(r, names)),
                text::texts(ids@) == ledger::cut_ids(records@.take(i as int), wanted),
            decreases records.len() - i,
        {
            assert(records@.take(i + 1).drop_last() =~= records@.take(i as int));
            let ghost before = ids@;
            if self.holds(records[i].holder.text.as_str(), resolved) {
                ids.push(records[i].root_id.clone());
                assert(text::texts(ids@) =~= text::texts(before).push(
                    records@[i as int].root_id@,
                ));
            }
            i = i + 1;
        }
        assert(records@.take(i as int) =~= records@);
        assert(text::texts(ids@).len() == ids@.len());
        proof {
            revoking_a_holder_cuts_every_grant_it_has(
                records@,
                self.target@,
                text::texts(resolved@),
            );
        }
        if ids.len() == 0 {
            let mut line = "no grant issued to `".to_owned();
            line.append(self.target.as_str());
            line.append("` is recorded in the ledger (");
            line.append(ledger);
            line.append(
                "); paste the `swoosh:` link to revoke one directly, or run `swoosh grant ls` to see who you have granted",
            );
            return Err(line);
        }
        let mut line = "revoked ".to_owned();
        text::push_decimal(&mut line, ids.len() as u128);
        line.append(" grant(s) to ");
        line.append(self.target.as_str());
        line.append(" (");
        line.append(denylist);
        line.append(")");
        Ok(Cut { ids, line })
    }

    fn holds(&self, holder: &str, resolved: &Vec<String>) -> (yes: bool)
        ensures
            yes == (seq![self.target@] + text::texts(resolved@)).contains(holder@),
    {
        proof {
            let rest = text::texts(resolved@);
            let names = seq![self.target@] + rest;
            assert(names[0] == self.target@);
            if rest.contains(holder@) {
                let i = choose|i: int| 0 <= i < rest.len() && rest[i] == holder@;
                assert(names[i + 1] == holder@);
            }
            if names.contains(holder@) {
                let i = choose|i: int| 0 <= i < names.len() && names[i] == holder@;
                assert(i == 0 || rest[i - 1] == holder@);
            }
        }
        text::same(self.target.as_str(), holder) || text::holds(resolved, holder)
    }
}

/// Naming a bearer grant's placeholder never revokes anything.
pub proof fn the_placeholder_names_no_holder(shape: Shape)
    requires
        !(shape is Link),
    ensures
        routed(ledger::ANYONE@, shape) is Err,
{
}

/// Revoking a holder cuts every grant it has and no other: a row is cut exactly where its holder is the
/// target as it was typed or one of the keys it resolves to, whatever the row opens, whomever it is bound to
/// and whether or not it may be handed on; and as many are cut as there are such rows.
pub proof fn revoking_a_holder_cuts_every_grant_it_has(
    records: Seq<GrantRecord>,
    target: Seq<char>,
    resolved: Seq<Seq<char>>,
)
    ensures
        ({
            let wanted = seq![target] + resolved;
            let ids = ledger::cut_ids(records, |r: GrantRecord| is_held_by(r, wanted));
            &&& forall|i: int|
                0 <= i < records.len() && ((#[trigger] records[i]).holder.text@ == target
                    || resolved.contains(records[i].holder.text@)) ==> ids.contains(
                    records[i].root_id@,
                )
            &&& forall|k: int|
                0 <= k < ids.len() ==> ledger::picks_id(
                    records,
                    |r: GrantRecord| r.holder.text@ == target || resolved.contains(r.holder.text@),
                    #[trigger] ids[k],
                )
            &&& ids.len() == records.filter(
                |r: GrantRecord| r.holder.text@ == target || resolved.contains(r.holder.text@),
            ).len()
            &&& ids.len() == 0 <==> forall|i: int|
                0 <= i < records.len() ==> (#[trigger] records[i]).holder.text@ != target
                    && !resolved.contains(records[i].holder.text@)
        }),
{
    let wanted = seq![target] + resolved;
    let picks = |r: GrantRecord| is_held_by(r, wanted);
    let held = |r: GrantRecord| r.holder.text@ == target || resolved.contains(r.holder.text@);
    assert forall|r: GrantRecord| #[trigger] picks(r) == held(r) by {
        let text = r.holder.text@;
        assert(wanted[0] == target);
        if resolved.contains(text) {
            let i = choose|i: int| 0 <= i < resolved.len() && resolved[i] == text;
            assert(wanted[i + 1] == text);
        }
        if wanted.contains(text) {
            let i = choose|i: int| 0 <= i < wanted.len() && wanted[i] == text;
            assert(i == 0 || resolved[i - 1] == text);
        }
    }
    ledger::what_is_cut_is_what_was_picked(records, picks);
    lemma_as_many_picked(records, picks, held);
    let ids = ledger::cut_ids(records, picks);
    assert forall|i: int|
        0 <= i < records.len() && ((#[trigger] records[i]).holder.text@ == target
            || resolved.contains(records[i].holder.text@)) implies ids.contains(
        records[i].root_id@,
    ) by {
        assert(held(records[i]));
        assert(picks(records[i]));
    }
    assert forall|k: int| 0 <= k < ids.len() implies ledger::picks_id(
        records,
        held,
        #[trigger] ids[k],
    ) by {
        let i = choose|i: int|
            0 <= i < records.len() && picks(#[trigger] records[i]) && records[i].root_id@ == ids[k];
        assert(held(records[i]));
    }
    if ids.len() == 0 {
        assert forall|i: int| 0 <= i < records.len() implies (#[trigger] records[i]).holder.text@
            != target && !resolved.contains(records[i].holder.text@) by {
            if held(records[i]) {
                assert(picks(records[i]));
                assert(ids.contains(records[i].root_id@));
            }
        }
    } else {
        assert(ledger::picks_id(records, picks, ids[0]));
        let i = choose|i: int|
            0 <= i < records.len() && picks(#[trigger] records[i]) && records[i].root_id@ == ids[0];
        assert(held(records[i]));
    }
}

proof fn lemma_as_many_picked(
    records: Seq<GrantRecord>,
    picks: spec_fn(GrantRecord) -> bool,
    held: spec_fn(GrantRecord) -> bool,
)
    requires
        forall|r: GrantRecord| #[trigger] picks(r) == held(r),
    ensures
        ledger::cut_ids(records, picks).len() == records.filter(held).len(),
    decreases records.len(),
{
    reveal(Seq::filter);
    if records.len() > 0 {
        lemma_as_many_picked(records.drop_last(), picks, held);
        assert(picks(records.last()) == held(records.last()));
    }
}

/// A link is revoked as it is, whatever it reads; a link without its prefix is refused with its own line;
/// anything else is looked up as a holder, but for the placeholder.
pub proof fn a_target_goes_by_its_shape(target: Seq<char>, line: String)
    ensures
        routed(target, Shape::Link) == Ok::<Route, Seq<char>>(Route::Link),
        routed(target, Shape::BareLink { line }) == Err::<Route, Seq<char>>(line@),
        routed(target, Shape::Plain) is Ok <==> target != "-"@,
        target != "-"@ ==> routed(target, Shape::Plain) == Ok::<Route, Seq<char>>(Route::Holder),
{
}

} // verus!
