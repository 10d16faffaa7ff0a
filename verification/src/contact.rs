//! The address book: which names may be typed into it, and what a removal says.

use vstd::prelude::*;
use vstd::string::StringExecFns;

use crate::invite;
use crate::text;

verus! {

broadcast use {vstd::seq::group_seq_axioms, vstd::string::group_string_axioms};

/// A name in the address book: a person, or one of a person's devices.
#[derive(Debug)]
pub struct ContactRef {
    pub petname: String,
    pub device: Option<String>,
}

impl ContactRef {
    /// The name as it is written.
    pub open spec fn words(self) -> Seq<char> {
        match self.device {
            Some(device) => self.petname@ + "/"@ + device@,
            None => self.petname@,
        }
    }

    /// The name as it is written: `alice`, or `alice/macbook`.
    pub fn text(&self) -> (out: String)
        ensures
            out@ == self.words(),
    {
        let mut out = self.petname.clone();
        if let Some(device) = &self.device {
            out.append("/");
            out.append(device.as_str());
        }
        out
    }
}

/// What a name under `me/` is answered.
pub open spec fn me_words() -> Seq<char> {
    "`me/` lists your devices, and your root decides it. Add one with `swoosh invite <name> <key>`; remove one with `swoosh revoke me/<name>`."@
}

/// Refuse a name under `me/`, before anything is written: those are decided by their root.
pub fn refuse_me(name: &ContactRef) -> (refused: Result<(), String>)
    ensures
        match refused {
            Ok(()) => name.petname@ != invite::ME@,
            Err(line) => name.petname@ == invite::ME@ && line@ == me_words(),
        },
{
    if text::same(name.petname.as_str(), invite::ME) {
        return Err(
            "`me/` lists your devices, and your root decides it. Add one with `swoosh invite <name> <key>`; remove one with `swoosh revoke me/<name>`.".to_owned(),
        );
    }
    Ok(())
}

/// Manage local petnames.
#[derive(Debug)]
pub enum ContactCmd {
    /// Save a peer's key under a name.
    Add { name: ContactRef, key: String },
    /// Record a person's signet.
    Signet { petname: String, key: String },
    /// List the contacts, or one contact's devices.
    Ls { person: Option<String> },
    /// Remove a contact, or one of its devices.
    Rm { name: ContactRef },
}

impl ContactCmd {
    /// The name the command edits, where it edits one that a person types.
    pub open spec fn edits(self) -> Option<ContactRef> {
        match self {
            ContactCmd::Add { name, key } => Some(name),
            ContactCmd::Rm { name } => Some(name),
            _ => None,
        }
    }

    /// Whether the command may run: an edit under `me/` is refused.
    pub fn run(&self) -> (refused: Result<(), String>)
        ensures
            match refused {
                Ok(()) => self.edits() is Some ==> self.edits()->0.petname@ != invite::ME@,
                Err(line) => self.edits() is Some && self.edits()->0.petname@ == invite::ME@
                    && line@ == me_words(),
            },
    {
        match self {
            ContactCmd::Add { name, .. } => refuse_me(name),
            ContactCmd::Rm { name } => refuse_me(name),
            ContactCmd::Signet { .. } => Ok(()),
            ContactCmd::Ls { .. } => Ok(()),
        }
    }
}

/// Whether a removal found what it was to remove.
#[derive(Debug, Clone, Copy, PartialEq, Eq, Structural)]
pub enum Removed {
    Removed,
    Absent,
}

/// What a removal says, and whether the book is saved.
pub fn removed_line(name: &ContactRef, removed: Removed) -> (said: (String, bool))
    ensures
        said.1 == (removed == Removed::Removed),
        said.0@ == match removed {
            Removed::Removed => "removed "@ + name.words(),
            Removed::Absent => "no such contact "@ + name.words() + "; nothing to remove"@,
        },
{
    match removed {
        Removed::Removed => {
            let mut line = "removed ".to_owned();
            line.append(name.text().as_str());
            (line, true)
        },
        Removed::Absent => {
            let mut line = "no such contact ".to_owned();
            line.append(name.text().as_str());
            line.append("; nothing to remove");
            (line, false)
        },
    }
}

/// A name is written as its person, and where it is of a device, with the device after one stroke: the
/// person and the device read back from it.
pub proof fn a_name_reads_back(name: ContactRef)
    ensures
        name.device is None ==> name.words() == name.petname@,
        name.device matches Some(device) ==> name.words() == name.petname@ + seq!['/'] + device@ && (
        !name.petname@.contains('/') ==> text::split_first(name.words(), '/') == Some(
            (name.petname@, device@),
        )),
{
    reveal_strlit("/");
    assert("/"@ =~= seq!['/']);
    if let Some(device) = name.device {
        if !name.petname@.contains('/') {
            text::a_cut_undoes_a_join(name.petname@, '/', device@);
        }
    }
}

/// The two commands that write a typed name into the book or out of it edit that name, and the others edit
/// none; and the one person no name may be typed of is `me`.
pub proof fn a_typed_name_is_the_one_edited(name: ContactRef, key: String, person: Option<String>)
    ensures
        (ContactCmd::Add { name, key }).edits() == Some(name),
        (ContactCmd::Rm { name }).edits() == Some(name),
        (ContactCmd::Signet { petname: name.petname, key }).edits() is None,
        (ContactCmd::Ls { person }).edits() is None,
        invite::ME@ == "me"@,
        text::mentions(me_words(), "swoosh invite <name> <key>"@),
        text::mentions(me_words(), "swoosh revoke me/<name>"@),
{
    reveal_strlit(
        "`me/` lists your devices, and your root decides it. Add one with `swoosh invite <name> <key>`; remove one with `swoosh revoke me/<name>`.",
    );
    reveal_strlit("swoosh invite <name> <key>");
    reveal_strlit("swoosh revoke me/<name>");
    let w = me_words();
    assert(w.subrange(66int, 66int + 26) =~= "swoosh invite <name> <key>"@);
    assert(w.subrange(112int, 112int + 23) =~= "swoosh revoke me/<name>"@);
}

} // verus!
