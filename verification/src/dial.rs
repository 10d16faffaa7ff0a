//! What a command binds its key for: serving under it, or dialing with a credential.

use vstd::prelude::*;

verus! {

broadcast use {vstd::seq::group_seq_axioms, vstd::string::group_string_axioms};

/// A link, and whether it admits whoever holds it.
#[derive(Debug)]
pub struct Slip {
    pub text: String,
    pub anyone: bool,
}

/// The key a command runs under.
#[derive(Debug, Clone, Copy, PartialEq, Eq, Structural)]
pub enum Identity {
    /// This home's key, made if it has none.
    Persisted,
    /// This home's key where it has one.
    PersistedIfPresent,
    /// A key of this run alone.
    Throwaway,
}

/// What a dial presents.
#[derive(Debug)]
pub enum Credential {
    /// This machine's membership badge, or the link given in its place.
    Family { present: Option<String> },
    /// A link that admits whoever holds it, and nothing of this machine's.
    Bearer { link: String },
}

pub ghost enum CredentialView {
    Family { present: Option<Seq<char>> },
    Bearer { link: Seq<char> },
}

impl View for Credential {
    type V = CredentialView;

    open spec fn view(&self) -> CredentialView {
        match self {
            Credential::Family { present } => CredentialView::Family {
                present: match present {
                    Some(link) => Some(link@),
                    None => None,
                },
            },
            Credential::Bearer { link } => CredentialView::Bearer { link: link@ },
        }
    }
}

/// What a command binds its key for.
#[derive(Debug)]
pub enum BindRole {
    /// It reaches a peer, and presents this.
    Dialing(Credential),
    /// It accepts connections, and presents nothing.
    Serving,
}

pub ghost enum BindRoleView {
    Dialing(CredentialView),
    Serving,
}

impl View for BindRole {
    type V = BindRoleView;

    open spec fn view(&self) -> BindRoleView {
        match self {
            BindRole::Dialing(credential) => BindRoleView::Dialing(credential@),
            BindRole::Serving => BindRoleView::Serving,
        }
    }
}

impl BindRoleView {
    /// The key the role runs under.
    pub open spec fn identity(self) -> Identity {
        match self {
            BindRoleView::Serving => Identity::Persisted,
            BindRoleView::Dialing(CredentialView::Family { present }) =>
                Identity::PersistedIfPresent,
            BindRoleView::Dialing(CredentialView::Bearer { link }) => Identity::Throwaway,
        }
    }

    /// Whether the bind writes the key's address record: only a key that accepts connections has one.
    pub open spec fn publishes(self) -> bool {
        self is Serving
    }
}

/// The link a dial presents: the one typed as the peer, else the one given beside it.
pub open spec fn presented(own: Option<Slip>, present: Option<Seq<char>>) -> Option<Seq<char>> {
    match own {
        Some(slip) => Some(slip.text@),
        None => present,
    }
}

/// A dial of the family: its badge, or the link in its place.
pub open spec fn as_family(own: Option<Slip>, present: Option<Seq<char>>) -> BindRoleView {
    BindRoleView::Dialing(CredentialView::Family { present: presented(own, present) })
}

/// A dial by whatever was typed as the peer: a link for anyone is presented alone.
pub open spec fn as_typed(own: Option<Slip>, present: Option<Seq<char>>) -> BindRoleView {
    match own {
        Some(slip) => if slip.anyone {
            BindRoleView::Dialing(CredentialView::Bearer { link: slip.text@ })
        } else {
            as_family(own, present)
        },
        None => as_family(own, present),
    }
}

/// The text of an option, as a value.
pub open spec fn opt(text: Option<String>) -> Option<Seq<char>> {
    match text {
        Some(text) => Some(text@),
        None => None,
    }
}

/// The slip an option refers to.
pub open spec fn opt_slip(own: Option<&Slip>) -> Option<Slip> {
    match own {
        Some(slip) => Some(*slip),
        None => None,
    }
}

impl BindRole {
    /// Dial as one of the family. `own` is the link typed as the peer, if it is one, and `present` the one
    /// given beside it.
    pub fn family(own: Option<&Slip>, present: &Option<String>) -> (role: BindRole)
        ensures
            role@ == as_family(opt_slip(own), opt(*present)),
    {
        let present = match own {
            Some(slip) => Some(slip.text.clone()),
            None => match present {
                Some(link) => Some(link.clone()),
                None => None,
            },
        };
        BindRole::Dialing(Credential::Family { present })
    }

    /// Dial by what was typed as the peer.
    pub fn typed(own: Option<&Slip>, present: &Option<String>) -> (role: BindRole)
        ensures
            role@ == as_typed(opt_slip(own), opt(*present)),
    {
        match own {
            Some(slip) => {
                if slip.anyone {
                    BindRole::Dialing(Credential::Bearer { link: slip.text.clone() })
                } else {
                    BindRole::family(own, present)
                }
            },
            None => BindRole::family(own, present),
        }
    }

    /// The key the role runs under.
    pub fn identity(&self) -> (identity: Identity)
        ensures
            identity == self@.identity(),
    {
        match self {
            BindRole::Serving => Identity::Persisted,
            BindRole::Dialing(Credential::Family { .. }) => Identity::PersistedIfPresent,
            BindRole::Dialing(Credential::Bearer { .. }) => Identity::Throwaway,
        }
    }

    /// Whether the bind writes the key's address record.
    pub fn publishes(&self) -> (yes: bool)
        ensures
            yes == self@.publishes(),
    {
        match self {
            BindRole::Serving => true,
            BindRole::Dialing(_) => false,
        }
    }
}

/// Whether a link was given beside a peer that is itself one: the two would conflict.
pub fn redundant_present(own: Option<&Slip>, present: &Option<String>) -> (yes: bool)
    ensures
        yes == (own is Some && present is Some),
{
    own.is_some() && present.is_some()
}

/// A dial never writes an address record, whatever it presents, and a link for anyone is dialed under a
/// key of its own: the far end never learns this home's key from it.
pub proof fn a_dial_leaves_no_record(own: Option<Slip>, present: Option<Seq<char>>)
    ensures
        !as_family(own, present).publishes(),
        !as_typed(own, present).publishes(),
        as_family(own, present).identity() == Identity::PersistedIfPresent,
        (as_typed(own, present).identity() == Identity::Throwaway) <==> (own is Some
            && own->0.anyone),
{
}

/// A link typed as the peer is the one presented, whatever is given beside it; without one, the link beside
/// it, and without that, the badge alone. A link for anyone, where a dial goes by what was typed, is
/// presented alone; any other is presented as one of the family does.
pub proof fn the_typed_link_is_the_one_presented(slip: Slip, present: Option<Seq<char>>)
    ensures
        as_family(Some(slip), present) == BindRoleView::Dialing(
            CredentialView::Family { present: Some(slip.text@) },
        ),
        as_family(None, present) == BindRoleView::Dialing(CredentialView::Family { present }),
        slip.anyone ==> as_typed(Some(slip), present) == BindRoleView::Dialing(
            CredentialView::Bearer { link: slip.text@ },
        ),
        !slip.anyone ==> as_typed(Some(slip), present) == BindRoleView::Dialing(
            CredentialView::Family { present: Some(slip.text@) },
        ),
        as_typed(None, present) == BindRoleView::Dialing(CredentialView::Family { present }),
        BindRoleView::Serving.publishes(),
        BindRoleView::Serving.identity() == Identity::Persisted,
{
}

/// A text that may be left out is left out exactly where it is not there.
pub proof fn a_text_is_there_or_not(text: String, own: Slip)
    ensures
        opt(Some(text)) == Some(text@),
        opt(None::<String>) is None,
        opt_slip(Some(&own)) == Some(own),
        opt_slip(None::<&Slip>) is None,
{
}

} // verus!
