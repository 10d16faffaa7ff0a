//! Adopting an invite: trusting its signet and storing its badge, and for an invite that carries a seed,
//! becoming its identity.
//!
//! An invite is unauthenticated transport, so everything is asked before anything is written. Nobody can
//! re-issue a key a machine already holds, so a seed never takes its place.

use vstd::prelude::*;
use vstd::string::StringExecFns;

use crate::span::Moment;
use crate::text;

verus! {

broadcast use {vstd::seq::group_seq_axioms, vstd::string::group_string_axioms};

/// Adopt an invite.
#[derive(Debug)]
pub struct AdoptCmd {
    /// Re-root this machine at another signet, or store a badge this invite does not outlive.
    pub force: bool,
}

/// A membership badge, as far as a holder reads it.
#[derive(Debug)]
pub struct Badge {
    /// The badge as it is written.
    pub text: String,
    /// The signet that signed it.
    pub root: String,
    /// When it ends, where that can be read.
    pub expiry: Option<Moment>,
}

/// The stored expiry that `incoming` supersedes: it does where both can be read and it falls strictly
/// later.
pub open spec fn supersedes(stored: Option<Moment>, incoming: Option<Moment>) -> bool {
    stored is Some && incoming is Some && incoming->0@ > stored->0@
}

/// The stored expiry that `incoming` supersedes, when it does.
pub fn superseded(stored: Option<Moment>, incoming: Option<Moment>) -> (was: Option<Moment>)
    ensures
        was == if supersedes(stored, incoming) {
            stored
        } else {
            None
        },
{
    match (stored, incoming) {
        (Some(was), Some(now)) => if now.is_after(&was) {
            Some(was)
        } else {
            None
        },
        _ => None,
    }
}

/// Whether `incoming` renews `stored`: the same signet, a strictly later expiry, and the same device.
/// `bound` is whether the stored badge binds this device at the last instant it was alive, so that a badge
/// long dead still answers for the device it bound.
pub open spec fn is_renewal(stored: Badge, incoming: Badge, bound: bool) -> bool {
    stored.root@ == incoming.root@ && supersedes(stored.expiry, incoming.expiry) && bound
}

/// Whether `incoming` renews the `stored` badge of a device.
pub fn renews(stored: &Badge, incoming: &Badge, bound: bool) -> (yes: bool)
    ensures
        yes == is_renewal(*stored, *incoming, bound),
{
    if !text::same(stored.root.as_str(), incoming.root.as_str()) {
        return false;
    }
    superseded(stored.expiry, incoming.expiry).is_some() && bound
}

/// Why the signet of an invite is refused, if it is: this machine trusts another, and was not told to
/// change.
pub open spec fn signet_refusal(trusted: Option<Seq<char>>, signet: Seq<char>, force: bool) -> Option<
    Seq<char>,
> {
    if !force && trusted is Some && trusted->0 != signet {
        Some(
            "this machine already trusts signet "@ + trusted->0
                + "; adopting this invite would re-root it at "@ + signet
                + ". Re-run with --force if that is intended"@,
        )
    } else {
        None
    }
}

/// Refuse to re-root this machine silently.
pub fn admit_signet(trusted: Option<&str>, signet: &str, force: bool) -> (refused: Result<(), String>)
    ensures
        ({
            let refusal = signet_refusal(
                match trusted {
                    Some(trusted) => Some(trusted@),
                    None => None,
                },
                signet@,
                force,
            );
            match refused {
                Ok(()) => refusal is None,
                Err(line) => refusal == Some(line@),
            }
        }),
{
    if force {
        return Ok(());
    }
    if let Some(trusted) = trusted {
        if !text::same(trusted, signet) {
            let mut line = "this machine already trusts signet ".to_owned();
            line.append(trusted);
            line.append("; adopting this invite would re-root it at ");
            line.append(signet);
            line.append(". Re-run with --force if that is intended");
            return Err(line);
        }
    }
    Ok(())
}

/// What a badge that does not outlive the stored one is answered.
pub open spec fn downgrade_words() -> Seq<char> {
    "this machine already stores a membership badge that this invite does not outlive; adopting it would replace the stored badge with one that is older, bound to another device, rooted at another signet, or carries no readable expiry. To narrow a device's window, cut the old badge first with `swoosh invite rm <label>`, then mint the shorter one: re-issuing short over a live longer badge does not narrow anything, because the longer one stays signed and admitted. Re-run with --force if replacing it is what you meant"@
}

/// Whether the badge of an invite is refused: it would replace a stored badge that it does not renew, and
/// that it is not.
pub open spec fn downgrades(
    stored: Option<Badge>,
    incoming: Badge,
    bound: bool,
    force: bool,
) -> bool {
    !force && stored is Some && stored->0.text@ != incoming.text@ && !is_renewal(
        stored->0,
        incoming,
        bound,
    )
}

/// Refuse to downgrade the stored badge silently, and let a renewal through.
pub fn admit_badge(stored: &Option<Badge>, incoming: &Badge, bound: bool, force: bool) -> (refused:
    Result<(), String>)
    ensures
        match refused {
            Ok(()) => !downgrades(*stored, *incoming, bound, force),
            Err(line) => downgrades(*stored, *incoming, bound, force) && line@ == downgrade_words(),
        },
{
    if force {
        return Ok(());
    }
    match stored {
        None => Ok(()),
        Some(badge) => {
            if text::same(badge.text.as_str(), incoming.text.as_str()) || renews(
                badge,
                incoming,
                bound,
            ) {
                return Ok(());
            }
            Err(
                "this machine already stores a membership badge that this invite does not outlive; adopting it would replace the stored badge with one that is older, bound to another device, rooted at another signet, or carries no readable expiry. To narrow a device's window, cut the old badge first with `swoosh invite rm <label>`, then mint the shorter one: re-issuing short over a live longer badge does not narrow anything, because the longer one stays signed and admitted. Re-run with --force if replacing it is what you meant".to_owned(),
            )
        },
    }
}

/// What an invite of a disabled signet is answered.
pub open spec fn disabled_words(signet: Seq<char>) -> Seq<char> {
    "signet "@ + signet
        + " is disabled at this node, so it will not adopt an invite that key signed"@
}

/// Refuse to trust a signet this node has disabled. Nothing overrides it.
pub fn admit_live_signet(disabled: bool, signet: &str) -> (refused: Result<(), String>)
    ensures
        match refused {
            Ok(()) => !disabled,
            Err(line) => disabled && line@ == disabled_words(signet@),
        },
{
    if disabled {
        let mut line = "signet ".to_owned();
        line.append(signet);
        line.append(" is disabled at this node, so it will not adopt an invite that key signed");
        return Err(line);
    }
    Ok(())
}

/// What a badge that does not bind this machine is answered.
pub open spec fn unbound_words(node: Seq<char>, signet: Seq<char>) -> Seq<char> {
    "the invite's badge does not bind this machine ("@ + node + ") at signet "@ + signet
        + ": it is bound to another key, rooted elsewhere, or expired. Ask the owner to sign a fresh invite for this machine's key: `swoosh invite add <label> --for "@
        + node + "`"@
}

/// Take the outcome of verifying the badge for this machine at its signet.
pub fn verify_badge(binds: bool, node: &str, signet: &str) -> (refused: Result<(), String>)
    ensures
        match refused {
            Ok(()) => binds,
            Err(line) => !binds && line@ == unbound_words(node@, signet@),
        },
{
    if binds {
        return Ok(());
    }
    let mut line = "the invite's badge does not bind this machine (".to_owned();
    line.append(node);
    line.append(") at signet ");
    line.append(signet);
    line.append(
        ": it is bound to another key, rooted elsewhere, or expired. Ask the owner to sign a fresh invite for this machine's key: `swoosh invite add <label> --for ",
    );
    line.append(node);
    line.append("`");
    Err(line)
}

/// What an invite that would make this machine another device is answered.
pub open spec fn held_words(own: Seq<char>, node: Seq<char>) -> Seq<char> {
    "this machine already holds the key "@ + own + ", and nobody can re-issue it; adopting this invite would replace it with "@
        + node + ". Adopt it on a machine that has no key yet"@
}

/// Whether the device `node` would take the place of the key this machine holds.
pub open spec fn displaces(own: Option<Seq<char>>, node: Seq<char>) -> bool {
    own is Some && own->0 != node
}

/// Refuse to write an identity over a different one. Nothing overrides it.
pub fn admit_identity(own: Option<&str>, node: &str) -> (refused: Result<(), String>)
    ensures
        ({
            let own = match own {
                Some(own) => Some(own@),
                None => None,
            };
            match refused {
                Ok(()) => !displaces(own, node@),
                Err(line) => displaces(own, node@) && line@ == held_words(own->0, node@),
            }
        }),
{
    if let Some(own) = own {
        if !text::same(own, node) {
            let mut line = "this machine already holds the key ".to_owned();
            line.append(own);
            line.append(
                ", and nobody can re-issue it; adopting this invite would replace it with ",
            );
            line.append(node);
            line.append(". Adopt it on a machine that has no key yet");
            return Err(line);
        }
    }
    Ok(())
}

/// What is known of an invite and of this machine when it is adopted.
#[derive(Debug)]
pub struct Offer {
    /// The key the invite's seed makes, where it carries one.
    pub derived: Option<String>,
    /// This machine's key, where it has one.
    pub identity: Option<String>,
    /// The signet that signed the badge.
    pub signet: String,
    pub badge: Badge,
    /// Whether the badge binds the device at the signet, now.
    pub binds: bool,
    /// The signet this machine trusts.
    pub trusted: Option<String>,
    /// The badge this machine stores.
    pub stored: Option<Badge>,
    /// Whether the stored badge binds the device at the last instant it was alive.
    pub stored_binds: bool,
    /// Whether the signet is disabled here.
    pub disabled: bool,
}

/// The device an invite is for: the one its seed makes, or this machine as it is.
pub open spec fn device_of(offer: Offer) -> Option<Seq<char>> {
    match (offer.derived, offer.identity) {
        (Some(node), _) => Some(node@),
        (None, Some(node)) => Some(node@),
        (None, None) => None,
    }
}

/// Whether an invite carries a seed that would take the place of the key this machine holds.
pub open spec fn takes_the_place(offer: Offer) -> bool {
    offer.derived is Some && displaces(
        match offer.identity {
            Some(own) => Some(own@),
            None => None,
        },
        offer.derived->0@,
    )
}

/// Why an invite is not adopted, if it is not; the first reason that holds.
pub open spec fn refusal(offer: Offer, force: bool) -> Option<Seq<char>> {
    let trusted = match offer.trusted {
        Some(trusted) => Some(trusted@),
        None => None,
    };
    if device_of(offer) is None {
        Some(
            "this invite is bound to a device key, but this machine has no identity yet; run `swoosh status --key` to make one, then have the owner run `swoosh invite add <label> --for <that key>`"@,
        )
    } else if !offer.binds {
        Some(unbound_words(device_of(offer)->0, offer.signet@))
    } else if signet_refusal(trusted, offer.signet@, force) is Some {
        signet_refusal(trusted, offer.signet@, force)
    } else if downgrades(offer.stored, offer.badge, offer.stored_binds, force) {
        Some(downgrade_words())
    } else if offer.disabled {
        Some(disabled_words(offer.signet@))
    } else if takes_the_place(offer) {
        Some(held_words(offer.identity->0@, offer.derived->0@))
    } else {
        None
    }
}

/// The lines of an adopted invite.
pub open spec fn adopted_words(node: Seq<char>, signet: Seq<char>, derived: bool) -> Seq<Seq<char>> {
    (if derived {
        seq![
            "adopted this machine as "@ + node + "  [mine]"@,
            "trusting signet "@ + signet
                + ": `swoosh serve` now admits its members and delegates."@,
        ]
    } else {
        seq!["this machine is already "@ + node + "; trusting signet "@ + signet]
    }) + seq![
        "compare that signet with the owner out of band before serving: the token is not signed by the signet it names, so it alone does not prove who sent it."@,
        "stored your membership badge: this device now reaches your gated services."@,
    ]
}

/// What an adopted invite writes, and says.
#[derive(Debug)]
pub struct Adopted {
    /// The device this machine is.
    pub node: String,
    /// Whether the seed is written as this machine's identity.
    pub writes_identity: bool,
    /// The signet this machine trusts.
    pub signet: String,
    /// The badge it stores, as it is written.
    pub badge: String,
    pub lines: Vec<String>,
}

/// One write of an adoption.
#[derive(Debug)]
pub enum AdoptWrite {
    /// The seed of this device, as this machine's identity.
    Identity { node: String },
    /// The signet to trust.
    Signet { signet: String },
    /// The badge to present.
    Badge { badge: String },
}

pub ghost enum AdoptWriteView {
    Identity { node: Seq<char> },
    Signet { signet: Seq<char> },
    Badge { badge: Seq<char> },
}

impl View for AdoptWrite {
    type V = AdoptWriteView;

    open spec fn view(&self) -> AdoptWriteView {
        match self {
            AdoptWrite::Identity { node } => AdoptWriteView::Identity { node: node@ },
            AdoptWrite::Signet { signet } => AdoptWriteView::Signet { signet: signet@ },
            AdoptWrite::Badge { badge } => AdoptWriteView::Badge { badge: badge@ },
        }
    }
}

impl Adopted {
    /// What is written, in order: the identity where the invite makes one, the signet, the badge.
    pub open spec fn written(self) -> Seq<AdoptWriteView> {
        (if self.writes_identity {
            seq![AdoptWriteView::Identity { node: self.node@ }]
        } else {
            seq![]
        }) + seq![
            AdoptWriteView::Signet { signet: self.signet@ },
            AdoptWriteView::Badge { badge: self.badge@ },
        ]
    }

    /// What is written, in order.
    pub fn writes(&self) -> (writes: Vec<AdoptWrite>)
        ensures
            writes@.map_values(|w: AdoptWrite| w@) == self.written(),
    {
        let mut writes: Vec<AdoptWrite> = Vec::new();
        if self.writes_identity {
            writes.push(AdoptWrite::Identity { node: self.node.clone() });
        }
        writes.push(AdoptWrite::Signet { signet: self.signet.clone() });
        writes.push(AdoptWrite::Badge { badge: self.badge.clone() });
        assert(writes@.map_values(|w: AdoptWrite| w@) =~= self.written());
        writes
    }
}

impl AdoptCmd {
    /// Decide an adoption: what is written, or why nothing is.
    pub fn run(&self, offer: &Offer) -> (adopted: Result<Adopted, String>)
        ensures
            match adopted {
                Ok(adopted) => {
                    &&& refusal(*offer, self.force) is None
                    &&& device_of(*offer) == Some(adopted.node@)
                    &&& adopted.writes_identity == (offer.derived is Some)
                    &&& adopted.signet@ == offer.signet@
                    &&& adopted.badge@ == offer.badge.text@
                    &&& text::texts(adopted.lines@) == adopted_words(
                        adopted.node@,
                        offer.signet@,
                        offer.derived is Some,
                    )
                },
                Err(line) => refusal(*offer, self.force) == Some(line@),
            },
    {
        let signet = offer.signet.as_str();
        let node = match (&offer.derived, &offer.identity) {
            (Some(node), _) => node.clone(),
            (None, Some(node)) => node.clone(),
            (None, None) => {
                return Err(
                    "this invite is bound to a device key, but this machine has no identity yet; run `swoosh status --key` to make one, then have the owner run `swoosh invite add <label> --for <that key>`".to_owned(),
                );
            },
        };
        if let Err(line) = verify_badge(offer.binds, node.as_str(), signet) {
            return Err(line);
        }
        let trusted: Option<&str> = match &offer.trusted {
            Some(trusted) => Some(trusted.as_str()),
            None => None,
        };
        if let Err(line) = admit_signet(trusted, signet, self.force) {
            return Err(line);
        }
        if let Err(line) = admit_badge(&offer.stored, &offer.badge, offer.stored_binds, self.force) {
            return Err(line);
        }
        if let Err(line) = admit_live_signet(offer.disabled, signet) {
            return Err(line);
        }
        let derived: bool = offer.derived.is_some();
        if derived {
            let own: Option<&str> = match &offer.identity {
                Some(own) => Some(own.as_str()),
                None => None,
            };
            if let Err(line) = admit_identity(own, node.as_str()) {
                return Err(line);
            }
        }
        let mut lines: Vec<String> = Vec::new();
        if derived {
            let mut first = "adopted this machine as ".to_owned();
            first.append(node.as_str());
            first.append("  [mine]");
            lines.push(first);
            let mut second = "trusting signet ".to_owned();
            second.append(signet);
            second.append(": `swoosh serve` now admits its members and delegates.");
            lines.push(second);
        } else {
            let mut first = "this machine is already ".to_owned();
            first.append(node.as_str());
            first.append("; trusting signet ");
            first.append(signet);
            lines.push(first);
        }
        lines.push(
            "compare that signet with the owner out of band before serving: the token is not signed by the signet it names, so it alone does not prove who sent it.".to_owned(),
        );
        lines.push(
            "stored your membership badge: this device now reaches your gated services.".to_owned(),
        );
        assert(text::texts(lines@) =~= adopted_words(node@, offer.signet@, derived));
        Ok(
            Adopted {
                node,
                writes_identity: derived,
                signet: offer.signet.clone(),
                badge: offer.badge.text.clone(),
                lines,
            },
        )
    }
}

/// A replay is never a renewal: no badge supersedes itself, and of two badges at most one supersedes the
/// other. An expiry that cannot be read supersedes nothing and is superseded by nothing.
pub proof fn a_replay_never_supersedes(a: Option<Moment>, b: Option<Moment>)
    ensures
        !supersedes(a, a),
        supersedes(a, b) ==> !supersedes(b, a),
        a is None || b is None ==> !supersedes(a, b),
{
}

/// Renewals chain: what supersedes a badge that superseded another supersedes that one too.
pub proof fn renewals_chain(a: Option<Moment>, b: Option<Moment>, c: Option<Moment>)
    requires
        supersedes(a, b),
        supersedes(b, c),
    ensures
        supersedes(a, c),
{
}

/// Without force, an adoption that goes through never shortens or moves what is stored: the trusted signet
/// stays, and the stored badge is the same or is renewed for this device at the same signet.
pub proof fn an_adoption_never_downgrades(offer: Offer)
    requires
        refusal(offer, false) is None,
    ensures
        offer.trusted is Some ==> offer.trusted->0@ == offer.signet@,
        offer.stored is Some ==> offer.stored->0.text@ == offer.badge.text@ || (
        offer.stored->0.root@ == offer.badge.root@ && offer.stored_binds && offer.badge.expiry->0@
            > offer.stored->0.expiry->0@),
{
}

/// Force reaches neither a disabled signet, nor a badge that does not bind this machine, nor the key this
/// machine holds.
pub proof fn force_does_not_reach_everything(offer: Offer, force: bool)
    requires
        offer.disabled || !offer.binds || takes_the_place(offer),
    ensures
        refusal(offer, force) is Some,
{
}

/// A machine keeps the key it holds: whatever invite it adopts, the device it is then is the one it was.
pub proof fn an_adoption_keeps_the_key(offer: Offer, force: bool)
    requires
        refusal(offer, force) is None,
        offer.identity is Some,
    ensures
        device_of(offer) == Some(offer.identity->0@),
{
}

/// A machine is the device before it trusts the signet, and trusts the signet before it holds its badge: a
/// write that fails leaves no badge without its signet, and neither without the key they are for.
pub proof fn a_badge_is_written_last(adopted: Adopted, i: int)
    requires
        0 <= i < adopted.written().len(),
    ensures
        adopted.written()[i] is Badge <==> i == adopted.written().len() - 1,
        adopted.written()[i] is Signet <==> i == adopted.written().len() - 2,
        adopted.written()[i] is Identity <==> adopted.writes_identity && i == 0,
{
}

/// The quarterly renewal needs no flag: a later badge of the same device at the trusted signet is adopted
/// as it is.
pub proof fn a_renewal_needs_no_force(offer: Offer)
    requires
        device_of(offer) is Some,
        offer.binds,
        !offer.disabled,
        !takes_the_place(offer),
        offer.trusted is Some ==> offer.trusted->0@ == offer.signet@,
        offer.stored is Some,
        is_renewal(offer.stored->0, offer.badge, offer.stored_binds),
    ensures
        refusal(offer, false) is None,
{
}

/// An invite is adopted exactly where nothing stands against it: it is for a device this machine is or
/// becomes, its badge binds that device, its signet is not disabled here, and it takes no key's place; and
/// unless forced, its signet is the trusted one if one is trusted, and its badge is the stored one, or renews
/// it for this device at the same signet with a later end.
pub proof fn an_invite_is_adopted_where_nothing_stands_against_it(offer: Offer, force: bool)
    ensures
        refusal(offer, force) is None <==> {
            &&& offer.derived is Some || offer.identity is Some
            &&& offer.binds
            &&& !offer.disabled
            &&& offer.derived is Some && offer.identity is Some ==> offer.derived->0@
                == offer.identity->0@
            &&& !force && offer.trusted is Some ==> offer.trusted->0@ == offer.signet@
            &&& !force && offer.stored is Some ==> offer.stored->0.text@ == offer.badge.text@ || (
            offer.stored->0.root@ == offer.badge.root@ && offer.stored_binds
                && offer.stored->0.expiry is Some && offer.badge.expiry is Some
                && offer.stored->0.expiry->0@ < offer.badge.expiry->0@)
        },
        offer.derived matches Some(node) ==> device_of(offer) == Some(node@),
        offer.derived is None ==> (offer.identity matches Some(node) ==> device_of(offer) == Some(
            node@,
        )),
        offer.derived is None && offer.identity is None ==> device_of(offer) is None,
{
}

/// A refusal names what it is about: the signet a machine trusts and the one it would trust, the device a
/// badge does not bind, the disabled signet, and the key that would be lost and the one in its place.
pub proof fn a_refusal_names_what_it_is_about(
    trusted: Seq<char>,
    signet: Seq<char>,
    node: Seq<char>,
    own: Seq<char>,
)
    ensures
        trusted != signet ==> (signet_refusal(Some(trusted), signet, false) matches Some(line)
            && text::mentions(line, trusted) && text::mentions(line, signet)),
        signet_refusal(Some(trusted), signet, true) is None,
        signet_refusal(None, signet, false) is None,
        trusted == signet ==> signet_refusal(Some(trusted), signet, false) is None,
        text::mentions(disabled_words(signet), signet),
        text::mentions(unbound_words(node, signet), node),
        text::mentions(unbound_words(node, signet), signet),
        text::mentions(held_words(own, node), own),
        text::mentions(held_words(own, node), node),
{
    let a = "this machine already trusts signet "@;
    let b = "; adopting this invite would re-root it at "@;
    let c = ". Re-run with --force if that is intended"@;
    assert(a + trusted + b + signet + c =~= a + trusted + (b + signet + c));
    text::lemma_mentions(a, trusted, b + signet + c);
    text::lemma_mentions(a + trusted + b, signet, c);
    text::lemma_mentions(
        "signet "@,
        signet,
        " is disabled at this node, so it will not adopt an invite that key signed"@,
    );
    let d = "the invite's badge does not bind this machine ("@;
    let e = ") at signet "@;
    let f
        = ": it is bound to another key, rooted elsewhere, or expired. Ask the owner to sign a fresh invite for this machine's key: `swoosh invite add <label> --for "@;
    let g = "`"@;
    assert(d + node + e + signet + f + node + g =~= d + node + (e + signet + f + node + g));
    text::lemma_mentions(d, node, e + signet + f + node + g);
    assert(d + node + e + signet + f + node + g =~= (d + node + e) + signet + (f + node + g));
    text::lemma_mentions(d + node + e, signet, f + node + g);
    let h = "this machine already holds the key "@;
    let i = ", and nobody can re-issue it; adopting this invite would replace it with "@;
    let j = ". Adopt it on a machine that has no key yet"@;
    assert(h + own + i + node + j =~= h + own + (i + node + j));
    text::lemma_mentions(h, own, i + node + j);
    text::lemma_mentions(h + own + i, node, j);
}

} // verus!
