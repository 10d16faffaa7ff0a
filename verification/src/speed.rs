//! How a refused throughput run is told.

use vstd::prelude::*;
use vstd::string::StringExecFns;

verus! {

broadcast use {vstd::seq::group_seq_axioms, vstd::string::group_string_axioms};

/// Why a peer that took the dial refused the run.
#[derive(Debug, Clone, Copy, PartialEq, Eq, Structural)]
pub enum MethodRefusal {
    /// The service does not speak this method.
    WrongMethod,
    /// A bound stopped the run.
    RateLimited,
    /// Another run is under way.
    Busy,
}

/// The line of a refusal: its code picks the phrase, and never the detail.
pub open spec fn refusal_words(
    label: Seq<char>,
    refusal: MethodRefusal,
    detail: Seq<char>,
) -> Seq<char> {
    label + (match refusal {
        MethodRefusal::WrongMethod => " does not serve `speed`: "@,
        MethodRefusal::RateLimited => " is rate limited: "@,
        MethodRefusal::Busy => " is busy: "@,
    }) + detail
}

/// The line of a refused run.
pub fn refusal_line(label: &str, refusal: MethodRefusal, detail: &str) -> (line: String)
    ensures
        line@ == refusal_words(label@, refusal, detail@),
{
    let mut line = label.to_owned();
    match refusal {
        MethodRefusal::WrongMethod => line.append(" does not serve `speed`: "),
        MethodRefusal::RateLimited => line.append(" is rate limited: "),
        MethodRefusal::Busy => line.append(" is busy: "),
    }
    line.append(detail);
    line
}

/// A refusal begins with who refused, ends with what they said of it, and says which of the three it was.
pub proof fn a_refusal_says_who_and_why(
    label: Seq<char>,
    refusal: MethodRefusal,
    detail: Seq<char>,
)
    ensures
        refusal_words(label, refusal, detail).take(label.len() as int) == label,
        refusal_words(label, refusal, detail).skip(
            refusal_words(label, refusal, detail).len() - detail.len(),
        ) == detail,
        refusal == MethodRefusal::WrongMethod <==> refusal_words(label, refusal, detail) == label
            + " does not serve `speed`: "@ + detail,
        refusal == MethodRefusal::RateLimited <==> refusal_words(label, refusal, detail) == label
            + " is rate limited: "@ + detail,
        refusal == MethodRefusal::Busy <==> refusal_words(label, refusal, detail) == label
            + " is busy: "@ + detail,
{
    reveal_strlit(" does not serve `speed`: ");
    reveal_strlit(" is rate limited: ");
    reveal_strlit(" is busy: ");
    let words = refusal_words(label, refusal, detail);
    assert(words.take(label.len() as int) =~= label);
    assert(words.skip(words.len() - detail.len()) =~= detail);
    assert((label + " does not serve `speed`: "@ + detail).len() == label.len() + detail.len() + 25);
    assert((label + " is rate limited: "@ + detail).len() == label.len() + detail.len() + 18);
    assert((label + " is busy: "@ + detail).len() == label.len() + detail.len() + 10);
}

} // verus!
