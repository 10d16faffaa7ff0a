//! Whether a change of the devices is published: only the machine that holds the signet cuts a roster.

use vstd::prelude::*;

use crate::text;

verus! {

broadcast use {vstd::seq::group_seq_axioms, vstd::string::group_string_axioms};

/// Whether the machine `own` holds the signet: no other signet is configured on it.
pub open spec fn holds_signet(own: Seq<char>, configured: Option<Seq<char>>) -> bool {
    match configured {
        Some(signet) => signet == own,
        None => true,
    }
}

/// Whether a roster is cut: the book has a version, this home has a key, and that key holds the signet.
pub open spec fn cuts(
    versioned: bool,
    own: Option<Seq<char>>,
    configured: Option<Seq<char>>,
) -> bool {
    versioned && own is Some && holds_signet(own->0, configured)
}

/// Whether the roster is cut anew after the devices changed. A book without a version has nothing worth
/// publishing, a home without a key is nobody's fleet, and a member device never cuts.
pub fn after_membership_change(versioned: bool, own: Option<&str>, configured: Option<&str>) -> (yes:
    bool)
    ensures
        yes == cuts(
            versioned,
            match own {
                Some(own) => Some(own@),
                None => None,
            },
            match configured {
                Some(signet) => Some(signet@),
                None => None,
            },
        ),
{
    match (own, configured) {
        (Some(own), Some(signet)) => versioned && text::same(signet, own),
        (Some(_), None) => versioned,
        (None, _) => false,
    }
}

/// A member device writes no roster: a machine that trusts a signet other than its own key cuts nothing.
pub proof fn a_member_device_cuts_nothing(versioned: bool, own: Option<Seq<char>>, signet: Seq<char>)
    requires
        own is Some ==> own->0 != signet,
    ensures
        !cuts(versioned, own, Some(signet)),
{
}

/// A roster is cut in exactly one case: the book has a version, and this home's key is the signet, being the
/// one configured or there being none.
pub proof fn the_signets_own_machine_cuts(
    versioned: bool,
    own: Option<Seq<char>>,
    configured: Option<Seq<char>>,
)
    ensures
        cuts(versioned, own, configured) <==> versioned && own is Some && (configured is None
            || configured == own),
        holds_signet(own->0, own) || own is None,
{
}

} // verus!
