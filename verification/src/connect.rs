//! Where a reached service's bytes go locally: a port, this process's stdout, or a socket listener.

use vstd::prelude::*;
use vstd::string::StringExecFns;

use crate::dial;
use crate::dial::BindRole;
use crate::dial::Slip;
use crate::text;

verus! {

broadcast use {vstd::seq::group_seq_axioms, vstd::string::group_string_axioms};

/// Where a reached service's bytes go.
#[derive(Debug, PartialEq, Eq)]
pub enum To {
    /// Bind `127.0.0.1` at the port, and forward each connection.
    Port(u16),
    /// Stream the service to this process's stdout.
    Stdout,
    /// Bind a local socket listener at the path: reserved.
    UnixListener(String),
}

pub ghost enum ToView {
    Port(u16),
    Stdout,
    UnixListener(Seq<char>),
}

impl View for To {
    type V = ToView;

    open spec fn view(&self) -> ToView {
        match self {
            To::Port(port) => ToView::Port(*port),
            To::Stdout => ToView::Stdout,
            To::UnixListener(path) => ToView::UnixListener(path@),
        }
    }
}

/// Whether `c` is a decimal digit.
pub open spec fn is_digit(c: char) -> bool {
    '0' <= c && c <= '9'
}

/// The number a run of digits writes.
pub open spec fn number(digits: Seq<char>) -> nat
    decreases digits.len(),
{
    if digits.len() == 0 {
        0
    } else {
        (number(digits.drop_last()) * 10 + (digits.last() as int - 48)) as nat
    }
}

/// A text without one leading `+`.
pub open spec fn unsigned(s: Seq<char>) -> Seq<char> {
    if s.len() > 0 && s[0] == '+' {
        s.drop_first()
    } else {
        s
    }
}

/// The number a text writes in sixteen bits: digits and nothing else, after at most one `+`.
pub open spec fn u16_of(s: Seq<char>) -> Option<u16> {
    let digits = unsigned(s);
    if digits.len() > 0 && (forall|i: int| 0 <= i < digits.len() ==> is_digit(#[trigger] digits[i]))
        && number(digits) <= u16::MAX {
        Some(number(digits) as u16)
    } else {
        None
    }
}

/// The sink a text names: a `unix:` path first, then `-`, then a port that is not 0.
pub open spec fn sink(s: Seq<char>) -> Option<ToView> {
    if text::begins(s, "unix:"@) {
        Some(ToView::UnixListener(text::after(s, "unix:"@)->0))
    } else if s == "-"@ {
        Some(ToView::Stdout)
    } else {
        match u16_of(s) {
            Some(port) => if port != 0 {
                Some(ToView::Port(port))
            } else {
                None
            },
            None => None,
        }
    }
}

/// What a text that names no sink is answered.
pub open spec fn no_sink_words(s: Seq<char>) -> Seq<char> {
    "`"@ + s
        + "` is not a valid --to target. Use a port (1..=65535), `-` for stdout (compose with the shell, e.g. `--to - > out`), or `unix:<path>` for a local socket listener"@
}

proof fn lemma_number_grows(digits: Seq<char>, n: int)
    requires
        0 <= n <= digits.len(),
        forall|i: int| 0 <= i < digits.len() ==> is_digit(#[trigger] digits[i]),
    ensures
        number(digits.take(n)) <= number(digits),
    decreases digits.len(),
{
    if n < digits.len() {
        let rest = digits.drop_last();
        assert forall|i: int| 0 <= i < rest.len() implies is_digit(#[trigger] rest[i]) by {
            assert(rest[i] == digits[i]);
        }
        lemma_number_grows(rest, n);
        assert(rest.take(n) =~= digits.take(n));
        assert(is_digit(digits[digits.len() - 1]));
    } else {
        assert(digits.take(n) =~= digits);
    }
}

fn parse_u16(s: &str) -> (n: Option<u16>)
    ensures
        n == u16_of(s@),
{
    let chars = text::chars_of(s);
    let start: usize = if chars.len() > 0 && chars[0] == '+' {
        1
    } else {
        0
    };
    let ghost digits = unsigned(s@);
    assert(digits =~= s@.skip(start as int));
    if chars.len() == start {
        return None;
    }
    let mut value: u32 = 0;
    let mut i: usize = start;
    assert(digits.take(0) =~= Seq::<char>::empty());
    while i < chars.len()
        invariant
            start <= i <= chars.len(),
            start <= 1,
            chars@ == s@,
            digits == unsigned(s@),
            digits == s@.skip(start as int),
            value <= u16::MAX,
            value == number(digits.take(i - start)),
            forall|k: int| 0 <= k < i - start ==> is_digit(#[trigger] digits[k]),
        decreases chars.len() - i,
    {
        let c: char = chars[i];
        assert(digits[i - start] == c);
        if !('0' <= c && c <= '9') {
            return None;
        }
        let d: u32 = c as u32 - 48;
        value = value * 10 + d;
        proof {
            assert(digits.take(i - start + 1).drop_last() =~= digits.take(i - start));
        }
        if value > 65_535 {
            proof {
                if forall|k: int| 0 <= k < digits.len() ==> is_digit(#[trigger] digits[k]) {
                    lemma_number_grows(digits, i - start + 1);
                }
            }
            return None;
        }
        i = i + 1;
    }
    assert(digits.take(i - start) =~= digits);
    Some(value as u16)
}

impl core::str::FromStr for To {
    type Err = String;

    fn from_str(text: &str) -> (to: Result<To, String>)
        ensures
            match to {
                Ok(to) => sink(text@) == Some(to@),
                Err(line) => sink(text@) is None && line@ == no_sink_words(text@),
            },
    {
        To::parse(text)
    }
}

impl To {
    /// The sink a text names.
    pub fn parse(text: &str) -> (to: Result<To, String>)
        ensures
            match to {
                Ok(to) => sink(text@) == Some(to@),
                Err(line) => sink(text@) is None && line@ == no_sink_words(text@),
            },
    {
        if let Some(path) = text::strip_prefix(text, "unix:") {
            return Ok(To::UnixListener(path.to_owned()));
        }
        if text::same(text, "-") {
            return Ok(To::Stdout);
        }
        if let Some(port) = parse_u16(text) {
            if port != 0 {
                return Ok(To::Port(port));
            }
        }
        let mut line = "`".to_owned();
        line.append(text);
        line.append(
            "` is not a valid --to target. Use a port (1..=65535), `-` for stdout (compose with the shell, e.g. `--to - > out`), or `unix:<path>` for a local socket listener",
        );
        Err(line)
    }
}

/// What a connect says once the way to its sink is open: the forwarded port, nothing for stdout, and a
/// refusal for the listener, which is reserved.
pub open spec fn connected(to: ToView, dial: Seq<char>, service: Seq<char>) -> Result<
    Option<Seq<char>>,
    Seq<char>,
> {
    match to {
        ToView::Port(port) => Ok(
            Some(
                "forwarding 127.0.0.1:"@ + text::decimal(port as nat) + " to "@ + dial + " ("@ + service
                    + ")"@,
            ),
        ),
        ToView::Stdout => Ok(None),
        ToView::UnixListener(path) => Err(
            "--to unix:"@ + path
                + " is reserved, not yet built (bind a port and connect to it, or use `--to -`)"@,
        ),
    }
}

/// Whether what was said is what a connect says.
pub open spec fn says(
    said: Result<Option<String>, String>,
    connected: Result<Option<Seq<char>>, Seq<char>>,
) -> bool {
    match said {
        Ok(line) => connected == Ok::<Option<Seq<char>>, Seq<char>>(dial::opt(line)),
        Err(line) => connected == Err::<Option<Seq<char>>, Seq<char>>(line@),
    }
}

/// Drive the sink: what is said once the way to it is open. `dial` is the peer as it was reached.
pub fn connect(to: &To, dial: &str, service: &str) -> (said: Result<Option<String>, String>)
    ensures
        says(said, connected(to@, dial@, service@)),
{
    match to {
        To::Port(port) => {
            let mut line = "forwarding 127.0.0.1:".to_owned();
            text::push_decimal(&mut line, *port as u128);
            line.append(" to ");
            line.append(dial);
            line.append(" (");
            line.append(service);
            line.append(")");
            Ok(Some(line))
        },
        To::Stdout => Ok(None),
        To::UnixListener(path) => {
            let mut line = "--to unix:".to_owned();
            line.append(path.as_str());
            line.append(
                " is reserved, not yet built (bind a port and connect to it, or use `--to -`)",
            );
            Err(line)
        },
    }
}

/// Reach a peer's served service: stdout, or a sink of your own.
#[derive(Debug)]
pub struct ReachCmd {
    pub peer: String,
    pub service: String,
    pub to: To,
    /// A link to present in place of the badge.
    pub present: Option<String>,
}

impl ReachCmd {
    /// A reach dials by what was typed as the peer.
    pub fn bind_role(&self, own: Option<&Slip>) -> (role: BindRole)
        ensures
            role@ == dial::as_typed(dial::opt_slip(own), dial::opt(self.present)),
    {
        BindRole::typed(own, &self.present)
    }

    /// Drive the sink, once the peer was reached as `dial`.
    pub fn run(&self, dial: &str) -> (said: Result<Option<String>, String>)
        ensures
            says(said, connected(self.to@, dial@, self.service@)),
    {
        connect(&self.to, dial, self.service.as_str())
    }
}

/// Bind a peer's served service to a local sink.
#[derive(Debug)]
pub struct ForwardCmd {
    pub peer: String,
    pub to: To,
    pub service: String,
    /// A link to present in place of the badge.
    pub present: Option<String>,
}

impl ForwardCmd {
    /// A forward dials as one of the family.
    pub fn bind_role(&self, own: Option<&Slip>) -> (role: BindRole)
        ensures
            role@ == dial::as_family(dial::opt_slip(own), dial::opt(self.present)),
    {
        BindRole::family(own, &self.present)
    }

    /// Drive the sink, once the peer was reached as `dial`.
    pub fn run(&self, dial: &str) -> (said: Result<Option<String>, String>)
        ensures
            says(said, connected(self.to@, dial@, self.service@)),
    {
        connect(&self.to, dial, self.service.as_str())
    }
}

/// The forms are disjoint: a text that names a port is neither `-` nor a `unix:` path, and never port 0.
pub proof fn a_port_is_only_a_port(s: Seq<char>, port: u16)
    requires
        sink(s) == Some(ToView::Port(port)),
    ensures
        port != 0,
        u16_of(s) == Some(port),
        s != "-"@,
        !text::begins(s, "unix:"@),
{
}

/// Every port can be named: its decimal text is its sink.
pub proof fn a_port_reads_back(port: u16)
    requires
        port != 0,
    ensures
        sink(text::decimal(port as nat)) == Some(ToView::Port(port)),
{
    let s = text::decimal(port as nat);
    lemma_decimal_reads_back(port as nat);
    assert(unsigned(s) == s) by {
        assert(is_digit(s[0]));
    }
    reveal_strlit("-");
    reveal_strlit("unix:");
    assert(is_digit(s[0]));
    if text::begins(s, "unix:"@) {
        assert(s.subrange(0, "unix:"@.len() as int)[0] == s[0]);
    }
}

proof fn lemma_decimal_reads_back(n: nat)
    ensures
        text::decimal(n).len() > 0,
        forall|i: int|
            0 <= i < text::decimal(n).len() ==> is_digit(#[trigger] text::decimal(n)[i]),
        number(text::decimal(n)) == n,
    decreases n,
{
    reveal_with_fuel(number, 2);
    if n >= 10 {
        lemma_decimal_reads_back(n / 10);
        let s = text::decimal(n);
        assert(s.drop_last() =~= text::decimal(n / 10));
        assert forall|i: int| 0 <= i < s.len() implies is_digit(#[trigger] s[i]) by {
            if i < s.len() - 1 {
                assert(s[i] == text::decimal(n / 10)[i]);
            }
        }
    } else {
        assert(text::decimal(n).drop_last() =~= Seq::<char>::empty());
    }
}

proof fn lemma_number_is_its_value(digits: Seq<char>)
    requires
        forall|i: int| 0 <= i < digits.len() ==> '0' <= #[trigger] digits[i] <= '9',
    ensures
        number(digits) == text::value(digits),
        text::value(digits) >= 0,
    decreases digits.len(),
{
    if digits.len() > 0 {
        let rest = digits.drop_last();
        assert forall|i: int| 0 <= i < rest.len() implies '0' <= #[trigger] rest[i] <= '9' by {
            assert(rest[i] == digits[i]);
        }
        lemma_number_is_its_value(rest);
        assert(digits[digits.len() - 1] == digits.last());
    }
}

/// A sink reads as it is written: `unix:` before any path is a listener at that path, `-` is stdout, and a
/// run of digits, with a plus or without, is the port it stands for where that is one of the 65535.
pub proof fn a_sink_reads_as_it_is_written(path: Seq<char>, digits: Seq<char>)
    requires
        digits.len() > 0,
        forall|i: int| 0 <= i < digits.len() ==> '0' <= #[trigger] digits[i] <= '9',
    ensures
        sink("unix:"@ + path) == Some(ToView::UnixListener(path)),
        sink("-"@) == Some(ToView::Stdout),
        1 <= text::value(digits) <= 65_535 ==> sink(digits) == Some(
            ToView::Port(text::value(digits) as u16),
        ) && sink(seq!['+'] + digits) == sink(digits),
        !(1 <= text::value(digits) <= 65_535) ==> sink(digits) is None && sink(seq!['+'] + digits)
            is None,
{
    reveal_strlit("unix:");
    reveal_strlit("-");
    text::a_prefix_comes_off_as_it_went_on("unix:"@, path, Seq::empty());
    lemma_number_is_its_value(digits);
    let plus = seq!['+'] + digits;
    assert(digits[0] != 'u' && digits[0] != '-' && digits[0] != '+');
    assert(unsigned(plus) =~= digits);
    assert(unsigned(digits) == digits);
    assert(plus[0] == '+');
    assert(forall|i: int| 0 <= i < digits.len() ==> is_digit(#[trigger] digits[i]));
    if text::begins(digits, "unix:"@) {
        assert(digits.subrange(0, 5)[0] == 'u');
    }
    if text::begins(plus, "unix:"@) {
        assert(plus.subrange(0, 5)[0] == 'u');
    }
    if text::begins("-"@, "unix:"@) {
        assert(false);
    }
}

/// Nothing else names a sink: a text with any other character than a digit, after at most one plus, that is
/// neither `-` nor begins with `unix:`, and the text without a digit, are refused, and the refusal repeats
/// it.
pub proof fn no_other_text_names_a_sink(s: Seq<char>, i: int)
    requires
        !text::begins(s, "unix:"@),
        s != "-"@,
        s.len() == 0 || s == seq!['+'] || (0 <= i < s.len() && !('0' <= s[i] <= '9') && (i > 0 || s[i]
            != '+')),
    ensures
        sink(s) is None,
        text::mentions(no_sink_words(s), "`"@ + s + "`"@),
{
    let digits = unsigned(s);
    if 0 <= i < s.len() && !('0' <= s[i] <= '9') && (i > 0 || s[i] != '+') {
        if s[0] == '+' {
            assert(digits[i - 1] == s[i]);
        } else {
            assert(digits[i] == s[i]);
        }
        assert(u16_of(s) is None);
    }
    let rest =
        "` is not a valid --to target. Use a port (1..=65535), `-` for stdout (compose with the shell, e.g. `--to - > out`), or `unix:<path>` for a local socket listener"@;
    reveal_strlit("`");
    reveal_strlit(
        "` is not a valid --to target. Use a port (1..=65535), `-` for stdout (compose with the shell, e.g. `--to - > out`), or `unix:<path>` for a local socket listener",
    );
    assert(rest =~= "`"@ + rest.skip(1));
    assert(no_sink_words(s) =~= ("`"@ + s + "`"@) + rest.skip(1));
    text::lemma_mentions(Seq::empty(), "`"@ + s + "`"@, rest.skip(1));
}

/// A connect says where it went: a forward its port, its peer and its service, a stream nothing, and a
/// listener is refused under its own path.
pub proof fn a_connect_says_where_it_went(to: ToView, dial: Seq<char>, service: Seq<char>)
    ensures
        to matches ToView::Port(port) ==> (connected(to, dial, service) matches Ok(Some(line))
            && text::begins(line, "forwarding 127.0.0.1:"@ + text::decimal(port as nat))
            && text::mentions(line, " to "@ + dial + " ("@ + service + ")"@)),
        to is Stdout ==> connected(to, dial, service) == Ok::<Option<Seq<char>>, Seq<char>>(None),
        to matches ToView::UnixListener(path) ==> (connected(to, dial, service) matches Err(line)
            && text::begins(line, "--to unix:"@ + path)),
{
    match to {
        ToView::Port(port) => {
            let head = "forwarding 127.0.0.1:"@ + text::decimal(port as nat);
            let tail = " to "@ + dial + " ("@ + service + ")"@;
            lemma_parted(head, " to "@, dial, " ("@, service, ")"@);
            text::lemma_mentions(head, tail, Seq::empty());
            text::a_prefix_comes_off_as_it_went_on(head, tail, Seq::empty());
        },
        ToView::Stdout => {},
        ToView::UnixListener(path) => {
            text::a_prefix_comes_off_as_it_went_on(
                "--to unix:"@ + path,
                " is reserved, not yet built (bind a port and connect to it, or use `--to -`)"@,
                Seq::empty(),
            );
        },
    }
}

proof fn lemma_parted(
    head: Seq<char>,
    a: Seq<char>,
    b: Seq<char>,
    c: Seq<char>,
    d: Seq<char>,
    e: Seq<char>,
)
    ensures
        head + a + b + c + d + e == head + (a + b + c + d + e),
{
    assert(head + a + b =~= head + (a + b));
    assert(head + (a + b) + c =~= head + (a + b + c));
    assert(head + (a + b + c) + d =~= head + (a + b + c + d));
    assert(head + (a + b + c + d) + e =~= head + (a + b + c + d + e));
}

/// What is said is what is owed: a line exactly where one is, and a refusal exactly where one is.
pub proof fn what_is_said_is_what_is_owed(
    said: Result<Option<String>, String>,
    owed: Result<Option<Seq<char>>, Seq<char>>,
)
    requires
        says(said, owed),
    ensures
        said is Ok <==> owed is Ok,
        said matches Ok(Some(line)) ==> owed == Ok::<Option<Seq<char>>, Seq<char>>(Some(line@)),
        said matches Ok(None) ==> owed == Ok::<Option<Seq<char>>, Seq<char>>(None),
        said matches Err(line) ==> owed == Err::<Option<Seq<char>>, Seq<char>>(line@),
{
}

} // verus!
