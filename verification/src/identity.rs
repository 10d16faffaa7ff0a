//! This machine's key: its report, its backup, its restore, and how it is protected.

use vstd::prelude::*;
use vstd::string::StringExecFns;

use crate::badge::Expiry;
use crate::text;

verus! {

broadcast use {vstd::seq::group_seq_axioms, vstd::string::group_string_axioms};

/// How a key file protects the key.
#[derive(Debug, Clone, Copy, PartialEq, Eq, Structural)]
pub enum Method {
    /// The raw seed.
    Plain,
    /// Sealed under a passphrase.
    Passphrase,
}

impl Method {
    pub open spec fn words(self) -> Seq<char> {
        match self {
            Method::Plain => "plain"@,
            Method::Passphrase => "passphrase"@,
        }
    }

    /// The method's name.
    pub fn name(self) -> (name: &'static str)
        ensures
            name@ == self.words(),
    {
        match self {
            Method::Plain => "plain",
            Method::Passphrase => "passphrase",
        }
    }
}

/// What happens to something already in place.
#[derive(Debug, Clone, Copy, PartialEq, Eq, Structural)]
pub enum Existing {
    Refuse,
    Replace,
}

/// Replace what is in place only where that was asked for.
pub fn existing(force: bool) -> (existing: Existing)
    ensures
        existing == Existing::Replace <==> force,
{
    if force {
        Existing::Replace
    } else {
        Existing::Refuse
    }
}

/// The whole report of a machine's key.
pub open spec fn report(
    node: Seq<char>,
    path: Seq<char>,
    method: Method,
    signet: Option<Seq<char>>,
    badge: Option<Expiry>,
) -> Seq<char> {
    node + "\nkey: "@ + path + "\nprotection: "@ + method.words() + "\nsignet: "@ + (match signet {
        Some(signet) => signet,
        None => "none"@,
    }) + "\n"@ + (match badge {
        Some(expiry) => "badge: "@ + expiry.words() + "\n"@,
        None => Seq::empty(),
    })
}

/// The report of a machine's key: the key, where it lives, how it is protected, the signet it trusts, and
/// what the badge it stores has left.
pub fn render(node: &str, path: &str, method: Method, signet: Option<&str>, badge: Option<Expiry>) -> (out:
    String)
    ensures
        out@ == report(
            node@,
            path@,
            method,
            match signet {
                Some(signet) => Some(signet@),
                None => None,
            },
            badge,
        ),
{
    let mut out = node.to_owned();
    out.append("\nkey: ");
    out.append(path);
    out.append("\nprotection: ");
    out.append(method.name());
    out.append("\nsignet: ");
    match signet {
        Some(signet) => out.append(signet),
        None => out.append("none"),
    }
    out.append("\n");
    let ghost head = out@;
    match badge {
        Some(expiry) => {
            let mut line = "badge: ".to_owned();
            line.append(expiry.text().as_str());
            line.append("\n");
            out.append(line.as_str());
        },
        None => {
            assert(out@ =~= head + Seq::<char>::empty());
        },
    }
    out
}

/// Write a sealed backup of this identity.
#[derive(Debug)]
pub struct ExportCmd {
    pub path: String,
    /// Replace a file already there.
    pub force: bool,
}

impl ExportCmd {
    /// What happens to a file already at the path.
    pub fn existing(&self) -> (e: Existing)
        ensures
            e == Existing::Replace <==> self.force,
    {
        existing(self.force)
    }

    /// Where the backup went, and how it comes back.
    pub fn lines(&self) -> (lines: Vec<String>)
        ensures
            text::texts(lines@) == seq![
                "exported to "@ + self.path@,
                "restore with `swoosh identity restore "@ + self.path@ + "`"@,
            ],
    {
        let mut first = "exported to ".to_owned();
        first.append(self.path.as_str());
        let mut second = "restore with `swoosh identity restore ".to_owned();
        second.append(self.path.as_str());
        second.append("`");
        let mut lines: Vec<String> = Vec::new();
        lines.push(first);
        lines.push(second);
        assert(text::texts(lines@) =~= seq![
            "exported to "@ + self.path@,
            "restore with `swoosh identity restore "@ + self.path@ + "`"@,
        ]);
        lines
    }
}

/// What protecting a key came to.
#[derive(Debug)]
pub enum Protected {
    /// The first key was made, and is this node.
    Created(String),
    Rewritten,
    Unchanged,
}

/// Set how this identity is protected.
#[derive(Debug)]
pub struct ProtectCmd {
    pub method: Method,
}

impl ProtectCmd {
    /// What now protects the key; a key made here is named first.
    pub fn lines(&self, protected: &Protected) -> (lines: Vec<String>)
        ensures
            text::texts(lines@) == (match *protected {
                Protected::Created(node) => seq![node@],
                _ => seq![],
            }) + seq!["protection: "@ + self.method.words()],
    {
        let mut lines: Vec<String> = Vec::new();
        if let Protected::Created(node) = protected {
            lines.push(node.clone());
        }
        let mut line = "protection: ".to_owned();
        line.append(self.method.name());
        lines.push(line);
        assert(text::texts(lines@) =~= (match *protected {
            Protected::Created(node) => seq![node@],
            _ => seq![],
        }) + seq!["protection: "@ + self.method.words()]);
        lines
    }
}

/// What a restore did not bring back.
pub open spec fn scope_words(has_revocations: bool) -> Seq<char> {
    if has_revocations {
        "only the key came back; this home's revocations and trust are unchanged"@
    } else {
        "only the key came back; this home has no revocation list, so grants you revoked work again"@
    }
}

/// The one line that says what a restore did not bring back: louder where the home has no revocation list.
pub fn scope_line(has_revocations: bool) -> (line: &'static str)
    ensures
        line@ == scope_words(has_revocations),
{
    if has_revocations {
        "only the key came back; this home's revocations and trust are unchanged"
    } else {
        "only the key came back; this home has no revocation list, so grants you revoked work again"
    }
}

/// `n` in octal, with no leading zero.
pub open spec fn octal(n: nat) -> Seq<char>
    decreases n,
{
    if n < 8 {
        seq![text::digit(n)]
    } else {
        octal(n / 8).push(text::digit(n % 8))
    }
}

/// `n` in octal, filled with zeros on the left to four digits.
pub open spec fn octal4(n: nat) -> Seq<char> {
    Seq::new(
        if octal(n).len() < 4 {
            (4 - octal(n).len()) as nat
        } else {
            0
        },
        |i: int| '0',
    ) + octal(n)
}

fn push_octal(out: &mut String, n: u32)
    ensures
        final(out)@ == old(out)@ + octal(n as nat),
    decreases n,
{
    if n >= 8 {
        push_octal(out, n / 8);
    }
    let d: u8 = (n % 8) as u8;
    out.push((48 + d) as char);
    assert(out@ =~= old(out)@ + octal(n as nat));
}

fn push_octal4(out: &mut String, n: u32)
    ensures
        final(out)@ == old(out)@ + octal4(n as nat),
{
    let mut digits = String::new();
    push_octal(&mut digits, n);
    assert(digits@ =~= octal(n as nat));
    let len: usize = text::chars_of(digits.as_str()).len();
    let mut i: usize = len;
    while i < 4
        invariant
            len <= i,
            len <= 4 ==> i <= 4,
            4 <= len ==> i == len,
            out@ == old(out)@ + Seq::new((i - len) as nat, |k: int| '0'),
        decreases 4 - i,
    {
        out.push('0');
        i = i + 1;
        assert(out@ =~= old(out)@ + Seq::new((i - len) as nat, |k: int| '0'));
    }
    out.append(digits.as_str());
    assert(out@ =~= old(out)@ + octal4(n as nat));
}

/// Restore this home's key from a backup.
#[derive(Debug)]
pub struct RestoreCmd {
    pub path: String,
    /// Replace a different identity already at this home.
    pub force: bool,
}

impl RestoreCmd {
    /// What happens to a different identity already at this home.
    pub fn existing(&self) -> (e: Existing)
        ensures
            e == Existing::Replace <==> self.force,
    {
        existing(self.force)
    }

    /// The note about a backup that others can read, by its mode.
    pub fn loose_note(&self, mode: u32) -> (line: String)
        ensures
            line@ == "note: "@ + self.path@ + " is readable by others (mode "@ + octal4(mode as nat)
                + "); it is sealed, so its passphrase is what protects it"@,
    {
        let mut line = "note: ".to_owned();
        line.append(self.path.as_str());
        line.append(" is readable by others (mode ");
        push_octal4(&mut line, mode);
        line.append("); it is sealed, so its passphrase is what protects it");
        line
    }

    /// The identity that came back, and what did not.
    pub fn lines(&self, node: &str, has_revocations: bool) -> (lines: Vec<String>)
        ensures
            text::texts(lines@) == seq!["restored "@ + node@, scope_words(has_revocations)],
    {
        let mut first = "restored ".to_owned();
        first.append(node);
        let mut lines: Vec<String> = Vec::new();
        lines.push(first);
        lines.push(scope_line(has_revocations).to_owned());
        assert(text::texts(lines@) =~= seq!["restored "@ + node@, scope_words(has_revocations)]);
        lines
    }
}

/// Back up, restore, or protect this machine's key.
#[derive(Debug)]
pub enum IdentityCmd {
    Export(ExportCmd),
    Restore(RestoreCmd),
    Protect(ProtectCmd),
}

impl IdentityCmd {
    /// Whether the command replaces what is in place: a backup or an identity only where that was asked
    /// for; the protection of a key is always rewritten, and the key stays the same.
    pub fn replaces(&self) -> (yes: bool)
        ensures
            yes == match *self {
                IdentityCmd::Export(cmd) => cmd.force,
                IdentityCmd::Restore(cmd) => cmd.force,
                IdentityCmd::Protect(cmd) => true,
            },
    {
        match self {
            IdentityCmd::Export(cmd) => cmd.force,
            IdentityCmd::Restore(cmd) => cmd.force,
            IdentityCmd::Protect(_) => true,
        }
    }
}

/// The report gives each fact on its own line: the key itself first, where it is kept, how it is protected
/// and what it trusts, and the badge exactly where there is one.
pub proof fn the_report_tells_each_fact(
    node: Seq<char>,
    path: Seq<char>,
    method: Method,
    signet: Seq<char>,
    expiry: Expiry,
)
    ensures
        ({
            let known = report(node, path, method, Some(signet), None);
            let rootless = report(node, path, method, None, None);
            let protection = if method is Plain {
                "plain"@
            } else {
                "passphrase"@
            };
            let head = node + "\nkey: "@ + path + "\nprotection: "@ + protection + "\nsignet: "@;
            &&& known == head + signet + "\n"@
            &&& rootless == head + "none"@ + "\n"@
            &&& report(node, path, method, Some(signet), Some(expiry)) == known + ("badge: "@
                + expiry.words() + "\n"@)
            &&& report(node, path, method, None, Some(expiry)) == rootless + ("badge: "@
                + expiry.words() + "\n"@)
        }),
{
    let known = report(node, path, method, Some(signet), None);
    let rootless = report(node, path, method, None, None);
    let protection = if method is Plain {
        "plain"@
    } else {
        "passphrase"@
    };
    let head = node + "\nkey: "@ + path + "\nprotection: "@ + protection + "\nsignet: "@;
    assert(known =~= head + signet + "\n"@);
    assert(rootless =~= head + "none"@ + "\n"@);
}

/// The number a run of octal digits stands for.
pub open spec fn octal_value(digits: Seq<char>) -> int
    decreases digits.len(),
{
    if digits.len() == 0 {
        0
    } else {
        octal_value(digits.drop_last()) * 8 + (digits.last() as int - '0' as int)
    }
}

/// A mode is written in octal, in at least four digits, and reads back as itself.
pub proof fn a_mode_reads_back(n: nat)
    ensures
        octal_value(octal4(n)) == n,
        octal4(n).len() >= 4,
        forall|i: int| 0 <= i < octal4(n).len() ==> '0' <= #[trigger] octal4(n)[i] <= '7',
{
    lemma_octal_reads_back(n);
    let zeros = (if octal(n).len() < 4 {
        (4 - octal(n).len()) as nat
    } else {
        0
    }) as nat;
    lemma_zeros_count_nothing(zeros, octal(n));
    assert forall|i: int| 0 <= i < octal4(n).len() implies '0' <= #[trigger] octal4(n)[i] <= '7' by {
        if i >= zeros {
            assert(octal4(n)[i] == octal(n)[i - zeros]);
        }
    }
}

proof fn lemma_octal_reads_back(n: nat)
    ensures
        octal_value(octal(n)) == n,
        octal(n).len() > 0,
        forall|i: int| 0 <= i < octal(n).len() ==> '0' <= #[trigger] octal(n)[i] <= '7',
    decreases n,
{
    reveal_with_fuel(octal_value, 2);
    if n < 8 {
        assert(octal(n).drop_last() =~= Seq::<char>::empty());
    } else {
        lemma_octal_reads_back(n / 8);
        assert(octal(n).drop_last() =~= octal(n / 8));
        assert forall|i: int| 0 <= i < octal(n).len() implies '0' <= #[trigger] octal(n)[i] <= '7' by {
            if i < octal(n).len() - 1 {
                assert(octal(n)[i] == octal(n / 8)[i]);
            }
        }
    }
}

proof fn lemma_zeros_count_nothing(zeros: nat, digits: Seq<char>)
    ensures
        octal_value(Seq::new(zeros, |i: int| '0') + digits) == octal_value(digits),
    decreases zeros + digits.len(),
{
    let front = Seq::new(zeros, |i: int| '0');
    if digits.len() > 0 {
        lemma_zeros_count_nothing(zeros, digits.drop_last());
        assert((front + digits).drop_last() =~= front + digits.drop_last());
    } else if zeros > 0 {
        let fewer = Seq::new((zeros - 1) as nat, |i: int| '0');
        lemma_zeros_count_nothing((zeros - 1) as nat, digits);
        assert((front + digits).drop_last() =~= fewer + digits);
    } else {
        assert(front + digits =~= digits);
    }
}

/// A restore warns that revoked grants work again where the home has no revocation list, and says something
/// else where it has one.
pub proof fn a_restore_warns_where_revocations_are_missing()
    ensures
        text::mentions(scope_words(false), "grants you revoked work again"@),
        scope_words(true) != scope_words(false),
{
    let no
        = "only the key came back; this home has no revocation list, so grants you revoked work again"@;
    let part = "grants you revoked work again"@;
    let front = "only the key came back; this home has no revocation list, so "@;
    reveal_strlit("only the key came back; this home's revocations and trust are unchanged");
    reveal_strlit(
        "only the key came back; this home has no revocation list, so grants you revoked work again",
    );
    reveal_strlit("grants you revoked work again");
    reveal_strlit("only the key came back; this home has no revocation list, so ");
    assert(no =~= front + part);
    text::lemma_mentions(front, part, Seq::empty());
}

} // verus!
