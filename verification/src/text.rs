//! Text: the small vocabulary every rendered line is stated in.
//!
//! A text is the sequence of its characters. Rendering appends to a `String`, and each function here
//! says which characters it appended; reading looks a text over from the front.

use vstd::prelude::*;
use vstd::string::StrSliceExecFns;
use vstd::string::StringExecFns;

verus! {

broadcast use {vstd::seq::group_seq_axioms, vstd::string::group_string_axioms};

/// `String::push`: the character goes on the end, and nothing else changes.
pub assume_specification[ String::push ](s: &mut String, c: char)
    ensures
        final(s)@ == old(s)@.push(c),
;

/// A run of `n` spaces.
pub open spec fn spaces(n: nat) -> Seq<char> {
    Seq::new(n, |i: int| ' ')
}

/// `s` filled with spaces on the right to `n` characters; a longer text stays as it is.
pub open spec fn padded(s: Seq<char>, n: nat) -> Seq<char> {
    s + spaces(if n > s.len() { (n - s.len()) as nat } else { 0 })
}

/// The decimal digit of `d`, for `d < 10`.
pub open spec fn digit(d: nat) -> char {
    (48 + d) as char
}

/// `n` in decimal, with no leading zero.
pub open spec fn decimal(n: nat) -> Seq<char>
    decreases n,
{
    if n < 10 {
        seq![digit(n)]
    } else {
        decimal(n / 10).push(digit(n % 10))
    }
}

/// Whether `s` starts with `prefix`.
pub open spec fn begins(s: Seq<char>, prefix: Seq<char>) -> bool {
    &&& prefix.len() <= s.len()
    &&& s.subrange(0, prefix.len() as int) == prefix
}

/// Whether `c` stands in `s` first at `i`.
pub open spec fn first_at(s: Seq<char>, c: char, i: int) -> bool {
    &&& 0 <= i < s.len()
    &&& s[i] == c
    &&& forall|j: int| 0 <= j < i ==> s[j] != c
}

/// `s` cut at the first `c`: what stands before it and what stands after it; nothing without a `c`.
pub open spec fn split_first(s: Seq<char>, c: char) -> Option<(Seq<char>, Seq<char>)> {
    if s.contains(c) {
        let i = choose|i: int| first_at(s, c, i);
        Some((s.subrange(0, i), s.subrange(i + 1, s.len() as int)))
    } else {
        None
    }
}

/// `s` without `prefix` at its front; nothing where `s` does not start with it.
pub open spec fn after(s: Seq<char>, prefix: Seq<char>) -> Option<Seq<char>> {
    if begins(s, prefix) {
        Some(s.subrange(prefix.len() as int, s.len() as int))
    } else {
        None
    }
}

/// `s` without the `c` it ends in; `s` itself where it does not end in one.
pub open spec fn without_last(s: Seq<char>, c: char) -> Seq<char> {
    if s.len() > 0 && s.last() == c {
        s.drop_last()
    } else {
        s
    }
}

/// How many times `c` stands in `s`.
pub open spec fn count(s: Seq<char>, c: char) -> nat
    decreases s.len(),
{
    if s.len() == 0 {
        0
    } else {
        count(s.drop_last(), c) + if s.last() == c {
            1nat
        } else {
            0
        }
    }
}

/// Every text of `parts`, one after another.
pub open spec fn concat(parts: Seq<Seq<char>>) -> Seq<char>
    decreases parts.len(),
{
    if parts.len() == 0 {
        Seq::empty()
    } else {
        concat(parts.drop_last()) + parts.last()
    }
}

/// The texts of `parts` with `sep` between each two.
pub open spec fn joined(parts: Seq<Seq<char>>, sep: Seq<char>) -> Seq<char>
    decreases parts.len(),
{
    if parts.len() == 0 {
        Seq::empty()
    } else if parts.len() == 1 {
        parts[0]
    } else {
        joined(parts.drop_last(), sep) + sep + parts.last()
    }
}

/// The texts of `v`, as sequences of characters.
pub open spec fn texts(v: Seq<String>) -> Seq<Seq<char>> {
    v.map_values(|s: String| s@)
}

/// A text cut at a character is what stood before it, the character and what stood after it; the character
/// does not stand before the cut, and a text without it is not cut.
pub proof fn a_cut_loses_nothing(s: Seq<char>, c: char)
    ensures
        split_first(s, c) is Some <==> s.contains(c),
        split_first(s, c) matches Some((before, rest)) ==> s == before + seq![c] + rest
            && !before.contains(c),
{
    if s.contains(c) {
        let k = choose|k: int| 0 <= k < s.len() && s[k] == c;
        lemma_first_stands(s, c, k);
        let i = choose|i: int| first_at(s, c, i);
        let (before, rest) = split_first(s, c)->0;
        assert(s =~= before + seq![c] + rest);
        assert forall|j: int| 0 <= j < before.len() implies before[j] != c by {
            assert(before[j] == s[j]);
        }
    }
}

/// What is put together around a character is cut there again, where the front holds no such character.
pub proof fn a_cut_undoes_a_join(before: Seq<char>, c: char, rest: Seq<char>)
    requires
        !before.contains(c),
    ensures
        split_first(before + seq![c] + rest, c) == Some((before, rest)),
{
    let s = before + seq![c] + rest;
    let n = before.len() as int;
    assert(s[n] == c);
    assert(s.contains(c));
    assert forall|j: int| 0 <= j < n implies s[j] != c by {
        assert(s[j] == before[j]);
        assert(before.contains(before[j]));
    }
    assert(first_at(s, c, n));
    let i = choose|i: int| first_at(s, c, i);
    assert(i == n);
    assert(s.subrange(0, n) =~= before);
    assert(s.subrange(n + 1, s.len() as int) =~= rest);
}

proof fn lemma_first_stands(s: Seq<char>, c: char, k: int)
    requires
        0 <= k < s.len(),
        s[k] == c,
    ensures
        exists|i: int| first_at(s, c, i),
    decreases k,
{
    if !first_at(s, c, k) {
        let j = choose|j: int| 0 <= j < k && s[j] == c;
        lemma_first_stands(s, c, j);
    }
}

/// A prefix that was put in front is found and taken off again, and what is taken off was in front.
pub proof fn a_prefix_comes_off_as_it_went_on(prefix: Seq<char>, rest: Seq<char>, s: Seq<char>)
    ensures
        begins(prefix + rest, prefix),
        after(prefix + rest, prefix) == Some(rest),
        begins(s, prefix) <==> after(s, prefix) is Some,
        after(s, prefix) matches Some(tail) ==> s == prefix + tail,
{
    let whole = prefix + rest;
    assert(whole.subrange(0, prefix.len() as int) =~= prefix);
    assert(whole.subrange(prefix.len() as int, whole.len() as int) =~= rest);
    if begins(s, prefix) {
        assert(s =~= prefix + s.subrange(prefix.len() as int, s.len() as int));
    }
}

/// One last character comes off, and only that one and only at the end.
pub proof fn one_last_character_comes_off(s: Seq<char>, c: char)
    ensures
        without_last(s.push(c), c) == s,
        s.len() == 0 || s.last() != c ==> without_last(s, c) == s,
{
    assert(s.push(c).drop_last() =~= s);
}

/// Counting adds up: a character alone counts once, another not at all, and two texts in a row count as
/// much as each by itself.
pub proof fn counts_add_up(a: Seq<char>, b: Seq<char>, c: char, d: char)
    ensures
        count(seq![c], c) == 1,
        c != d ==> count(seq![d], c) == 0,
        count(a + b, c) == count(a, c) + count(b, c),
    decreases b.len(),
{
    reveal_with_fuel(count, 2);
    assert(seq![c].drop_last() =~= Seq::<char>::empty());
    assert(seq![d].drop_last() =~= Seq::<char>::empty());
    if b.len() == 0 {
        assert(a + b =~= a);
    } else {
        assert((a + b).drop_last() =~= a + b.drop_last());
        counts_add_up(a, b.drop_last(), c, d);
    }
}

/// Texts in a row are their first ones in a row and then the rest, wherever they are parted, and one alone
/// is itself.
pub proof fn a_row_of_texts_parts_anywhere(a: Seq<Seq<char>>, b: Seq<Seq<char>>, one: Seq<char>)
    ensures
        concat(Seq::<Seq<char>>::empty()) == Seq::<char>::empty(),
        concat(seq![one]) == one,
        concat(a + b) == concat(a) + concat(b),
    decreases b.len(),
{
    reveal_with_fuel(concat, 2);
    assert(seq![one].drop_last() =~= Seq::<Seq<char>>::empty());
    assert(concat(seq![one]) =~= one);
    if b.len() == 0 {
        assert(a + b =~= a);
        assert(concat(a) + concat(b) =~= concat(a));
    } else {
        assert((a + b).drop_last() =~= a + b.drop_last());
        a_row_of_texts_parts_anywhere(a, b.drop_last(), one);
        assert(concat(a + b) =~= concat(a) + concat(b));
    }
}

/// A joined list can be parted anywhere: it is its first texts joined, the separator, and the rest joined.
/// One text alone is itself, without a separator, and none is nothing.
pub proof fn a_joined_list_parts_anywhere(
    a: Seq<Seq<char>>,
    b: Seq<Seq<char>>,
    one: Seq<char>,
    sep: Seq<char>,
)
    ensures
        joined(Seq::<Seq<char>>::empty(), sep) == Seq::<char>::empty(),
        joined(seq![one], sep) == one,
        a.len() > 0 && b.len() > 0 ==> joined(a + b, sep) == joined(a, sep) + sep + joined(b, sep),
    decreases b.len(),
{
    if a.len() > 0 && b.len() > 0 {
        assert((a + b).drop_last() =~= a + b.drop_last());
        if b.len() == 1 {
            assert(a + b.drop_last() =~= a);
        } else {
            a_joined_list_parts_anywhere(a, b.drop_last(), one, sep);
            assert(joined(a + b, sep) =~= joined(a, sep) + sep + joined(b, sep));
        }
    }
}

/// A filled text keeps the text at its front, adds only spaces, and is as wide as asked or as the text.
pub proof fn filling_adds_only_spaces(s: Seq<char>, n: nat)
    ensures
        padded(s, n).len() == if n > s.len() {
            n
        } else {
            s.len()
        },
        padded(s, n).take(s.len() as int) == s,
        forall|i: int| s.len() <= i < padded(s, n).len() ==> padded(s, n)[i] == ' ',
{
    assert(padded(s, n).take(s.len() as int) =~= s);
}

/// Whether `part` stands in `whole`.
pub open spec fn mentions(whole: Seq<char>, part: Seq<char>) -> bool {
    exists|i: int|
        0 <= i <= whole.len() - part.len() && #[trigger] whole.subrange(i, i + part.len()) == part
}

/// What stands between two texts is mentioned by all three together.
pub proof fn lemma_mentions(a: Seq<char>, part: Seq<char>, b: Seq<char>)
    ensures
        mentions(a + part + b, part),
        mentions(a + part, part),
        mentions(part + b, part),
{
    let n = a.len() as int;
    assert((a + part + b).subrange(n, n + part.len()) =~= part);
    assert((a + part).subrange(n, n + part.len()) =~= part);
    assert((part + b).subrange(0int, 0int + part.len()) =~= part);
}

/// Two texts with others around them are mentioned by all of them together.
pub proof fn lemma_mentions_two(
    a: Seq<char>,
    first: Seq<char>,
    b: Seq<char>,
    second: Seq<char>,
    c: Seq<char>,
)
    ensures
        mentions(a + first + b + second + c, first),
        mentions(a + first + b + second + c, second),
        mentions(a + first + b + second, first),
        mentions(a + first + b + second, second),
{
    assert(a + first + b + second + c =~= a + first + (b + second + c));
    assert(a + first + b + second =~= a + first + (b + second));
    lemma_mentions(a, first, b + second + c);
    lemma_mentions(a, first, b + second);
    lemma_mentions(a + first + b, second, c);
}

/// What a text mentions, a longer one that holds it mentions too.
pub proof fn lemma_mentions_on(a: Seq<char>, whole: Seq<char>, b: Seq<char>, part: Seq<char>)
    requires
        mentions(whole, part),
    ensures
        mentions(a + whole + b, part),
        mentions(a + whole, part),
        mentions(whole + b, part),
{
    let i = choose|i: int|
        0 <= i <= whole.len() - part.len() && #[trigger] whole.subrange(i, i + part.len()) == part;
    let n = a.len() + i;
    assert((a + whole + b).subrange(n, n + part.len()) =~= whole.subrange(i, i + part.len()));
    assert((a + whole).subrange(n, n + part.len()) =~= whole.subrange(i, i + part.len()));
    assert((whole + b).subrange(i, i + part.len()) =~= whole.subrange(i, i + part.len()));
}

/// A list of texts holds each of them, in its place.
pub proof fn a_list_holds_each_text(v: Seq<String>)
    ensures
        texts(v).len() == v.len(),
        forall|i: int| 0 <= i < v.len() ==> #[trigger] texts(v)[i] == v[i]@,
{
}

/// The number a run of decimal digits stands for.
pub open spec fn value(digits: Seq<char>) -> int
    decreases digits.len(),
{
    if digits.len() == 0 {
        0
    } else {
        value(digits.drop_last()) * 10 + (digits.last() as int - '0' as int)
    }
}

/// A number is written in decimal digits, reads back as itself, and has no leading zero unless it is zero.
pub proof fn a_number_reads_back(n: nat)
    ensures
        value(decimal(n)) == n,
        decimal(n).len() > 0,
        decimal(n)[0] == '0' ==> n == 0 && decimal(n).len() == 1,
        forall|i: int| 0 <= i < decimal(n).len() ==> '0' <= #[trigger] decimal(n)[i] <= '9',
    decreases n,
{
    reveal_with_fuel(value, 2);
    if n < 10 {
        assert(decimal(n).drop_last() =~= Seq::<char>::empty());
    } else {
        a_number_reads_back(n / 10);
        assert(decimal(n).drop_last() =~= decimal(n / 10));
        assert(decimal(n)[0] == decimal(n / 10)[0]);
        assert forall|i: int| 0 <= i < decimal(n).len() implies '0' <= #[trigger] decimal(n)[i]
            <= '9' by {
            if i < decimal(n).len() - 1 {
                assert(decimal(n)[i] == decimal(n / 10)[i]);
            }
        }
    }
}

/// The text occupies at least one byte for each of its characters.
pub proof fn lemma_bytes_cover_characters(s: Seq<char>)
    ensures
        vstd::utf8::encode_utf8(s).len() >= s.len(),
    decreases s.len(),
{
    if s.len() > 0 {
        lemma_bytes_cover_characters(s.drop_first());
        assert(vstd::utf8::encode_scalar(s[0] as u32).len() >= 1);
    }
}

/// Append `n` spaces.
pub fn push_spaces(out: &mut String, n: usize)
    ensures
        final(out)@ == old(out)@ + spaces(n as nat),
{
    let mut i: usize = 0;
    while i < n
        invariant
            i <= n,
            out@ == old(out)@ + spaces(i as nat),
        decreases n - i,
    {
        out.push(' ');
        i = i + 1;
        assert(out@ =~= old(out)@ + spaces(i as nat));
    }
}

/// Append `s` filled with spaces on the right to `n` characters.
pub fn push_padded(out: &mut String, s: &str, n: usize)
    ensures
        final(out)@ == old(out)@ + padded(s@, n as nat),
{
    out.append(s);
    let len: usize = s.unicode_len();
    if n > len {
        push_spaces(out, n - len);
    }
    assert(out@ =~= old(out)@ + padded(s@, n as nat));
}

/// Append `n` in decimal.
pub fn push_decimal(out: &mut String, n: u128)
    ensures
        final(out)@ == old(out)@ + decimal(n as nat),
    decreases n,
{
    if n >= 10 {
        push_decimal(out, n / 10);
    }
    let d: u8 = (n % 10) as u8;
    out.push((48 + d) as char);
    assert(out@ =~= old(out)@ + decimal(n as nat));
}

/// `n` in decimal.
pub fn decimal_text(n: u128) -> (text: String)
    ensures
        text@ == decimal(n as nat),
{
    let mut out = String::new();
    push_decimal(&mut out, n);
    assert(out@ =~= decimal(n as nat));
    out
}

/// The characters of `s`, in order.
pub fn chars_of(s: &str) -> (chars: Vec<char>)
    ensures
        chars@ == s@,
{
    let mut chars: Vec<char> = Vec::new();
    for c in it: s.chars()
        invariant
            chars@ == s@.take(it.index() as int),
            it.seq() == s@,
    {
        chars.push(c);
        assert(chars@ =~= s@.take(it.index() as int + 1));
    }
    assert(s@.take(s@.len() as int) =~= s@);
    chars
}

/// Whether the two texts are the same.
pub fn same(a: &str, b: &str) -> (yes: bool)
    ensures
        yes == (a@ == b@),
{
    let x = chars_of(a);
    let y = chars_of(b);
    same_chars(&x, &y)
}

/// Whether the two runs of characters are the same.
pub fn same_chars(x: &Vec<char>, y: &Vec<char>) -> (yes: bool)
    ensures
        yes == (x@ == y@),
{
    if x.len() != y.len() {
        return false;
    }
    let mut i: usize = 0;
    while i < x.len()
        invariant
            i <= x.len(),
            x.len() == y.len(),
            forall|j: int| 0 <= j < i ==> x@[j] == y@[j],
        decreases x.len() - i,
    {
        if x[i] != y[i] {
            return false;
        }
        i = i + 1;
    }
    assert(x@ =~= y@);
    true
}

/// Whether `s` starts with `prefix`.
pub fn starts_with(s: &str, prefix: &str) -> (yes: bool)
    ensures
        yes == begins(s@, prefix@),
{
    let n: usize = prefix.unicode_len();
    if s.unicode_len() < n {
        return false;
    }
    same(s.substring_char(0, n), prefix)
}

/// Where `c` first stands in `s`, counted in characters.
pub fn find_char(s: &str, c: char) -> (at: Option<usize>)
    ensures
        match at {
            Some(i) => first_at(s@, c, i as int),
            None => !s@.contains(c),
        },
{
    let chars = chars_of(s);
    let mut i: usize = 0;
    while i < chars.len()
        invariant
            i <= chars.len(),
            chars@ == s@,
            forall|j: int| 0 <= j < i ==> s@[j] != c,
        decreases chars.len() - i,
    {
        if chars[i] == c {
            return Some(i);
        }
        i = i + 1;
    }
    None
}

/// How many times `c` stands in `s`.
pub fn count_char(s: &str, c: char) -> (n: usize)
    ensures
        n == count(s@, c),
        n <= s@.len(),
{
    let chars = chars_of(s);
    let mut n: usize = 0;
    let mut i: usize = 0;
    while i < chars.len()
        invariant
            n <= i <= chars.len(),
            chars@ == s@,
            n == count(s@.take(i as int), c),
        decreases chars.len() - i,
    {
        assert(s@.take(i + 1).drop_last() =~= s@.take(i as int));
        if chars[i] == c {
            n = n + 1;
        }
        i = i + 1;
    }
    assert(s@.take(i as int) =~= s@);
    n
}

/// `s` cut at the first `c`.
pub fn split_once(s: &str, c: char) -> (halves: Option<(String, String)>)
    ensures
        match halves {
            Some((before, after)) => split_first(s@, c) == Some((before@, after@)),
            None => split_first(s@, c) is None,
        },
{
    match find_char(s, c) {
        Some(i) => {
            let n: usize = s.unicode_len();
            proof {
                assert(s@.contains(c)) by {
                    assert(s@[i as int] == c);
                }
                let j = choose|j: int| first_at(s@, c, j);
                assert(first_at(s@, c, i as int));
                assert(i == j);
            }
            Some((s.substring_char(0, i).to_owned(), s.substring_char(i + 1, n).to_owned()))
        },
        None => None,
    }
}

/// `s` without `prefix` at its front.
pub fn strip_prefix<'a>(s: &'a str, prefix: &str) -> (rest: Option<&'a str>)
    ensures
        match rest {
            Some(text) => after(s@, prefix@) == Some(text@),
            None => after(s@, prefix@) is None,
        },
{
    if starts_with(s, prefix) {
        Some(s.substring_char(prefix.unicode_len(), s.unicode_len()))
    } else {
        None
    }
}

/// `s` without the `c` it ends in, if it ends in one.
pub fn strip_last(s: &str, c: char) -> (rest: &str)
    ensures
        rest@ == without_last(s@, c),
{
    let n: usize = s.unicode_len();
    if n > 0 && s.get_char(n - 1) == c {
        s.substring_char(0, n - 1)
    } else {
        s
    }
}

/// The texts of `v` with `sep` between each two.
pub fn join(v: &Vec<String>, sep: &str) -> (out: String)
    ensures
        out@ == joined(texts(v@), sep@),
{
    let mut out = String::new();
    let ghost all = texts(v@);
    let mut i: usize = 0;
    while i < v.len()
        invariant
            i <= v.len(),
            all == texts(v@),
            out@ == joined(all.take(i as int), sep@),
        decreases v.len() - i,
    {
        assert(all.take(i + 1).drop_last() =~= all.take(i as int));
        assert(all.take(i + 1).last() == v@[i as int]@);
        if i > 0 {
            out.append(sep);
        }
        out.append(v[i].as_str());
        assert(out@ =~= joined(all.take(i + 1), sep@));
        i = i + 1;
    }
    assert(all.take(i as int) =~= all);
    out
}

/// Whether `s` is one of the texts of `v`.
pub fn holds(v: &Vec<String>, s: &str) -> (yes: bool)
    ensures
        yes == texts(v@).contains(s@),
{
    let ghost all = texts(v@);
    let mut i: usize = 0;
    while i < v.len()
        invariant
            i <= v.len(),
            all == texts(v@),
            forall|j: int| 0 <= j < i ==> #[trigger] all[j] != s@,
        decreases v.len() - i,
    {
        assert(all[i as int] == v@[i as int]@);
        if same(v[i].as_str(), s) {
            return true;
        }
        i = i + 1;
    }
    false
}

/// A copy of the texts of `v`.
pub fn copy_texts(v: &Vec<String>) -> (copy: Vec<String>)
    ensures
        texts(copy@) == texts(v@),
{
    let mut copy: Vec<String> = Vec::new();
    let mut i: usize = 0;
    while i < v.len()
        invariant
            i <= v.len(),
            copy.len() == i,
            forall|j: int| 0 <= j < i ==> (#[trigger] copy@[j])@ == v@[j]@,
        decreases v.len() - i,
    {
        copy.push(v[i].clone());
        i = i + 1;
    }
    assert(texts(copy@) =~= texts(v@));
    copy
}

} // verus!
