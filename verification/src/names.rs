//! The names under which a backup session stores its artifacts.
//!
//! A session is known by its timestamp. The envelope is stored as
//! `<timestamp>.enc`, the chunks of a split envelope as `<timestamp>.enc.001`,
//! `<timestamp>.enc.002` and so on, and their manifest as
//! `<timestamp>.enc.manifest`.

use crate::text::{chars_of, ends_with, has_suffix, matches_at};
use vstd::prelude::*;

verus! {

/// The decimal digit for a value below ten.
pub open spec fn digit_char(d: int) -> char {
    if d == 0 {
        '0'
    } else if d == 1 {
        '1'
    } else if d == 2 {
        '2'
    } else if d == 3 {
        '3'
    } else if d == 4 {
        '4'
    } else if d == 5 {
        '5'
    } else if d == 6 {
        '6'
    } else if d == 7 {
        '7'
    } else if d == 8 {
        '8'
    } else {
        '9'
    }
}

/// The value of a decimal digit; zero for any other character.
pub open spec fn digit_value(c: char) -> int {
    if c == '1' {
        1
    } else if c == '2' {
        2
    } else if c == '3' {
        3
    } else if c == '4' {
        4
    } else if c == '5' {
        5
    } else if c == '6' {
        6
    } else if c == '7' {
        7
    } else if c == '8' {
        8
    } else if c == '9' {
        9
    } else {
        0
    }
}

/// A number in decimal, without leading zeros.
pub open spec fn decimal_text(n: nat) -> Seq<char>
    decreases n,
{
    if n < 10 {
        seq![digit_char(n as int)]
    } else {
        decimal_text(n / 10).push(digit_char((n % 10) as int))
    }
}

/// The number that a decimal text stands for.
pub open spec fn decimal_value(text: Seq<char>) -> nat
    decreases text.len(),
{
    if text.len() == 0 {
        0
    } else {
        (decimal_value(text.drop_last()) * 10 + digit_value(text.last())) as nat
    }
}

/// A chunk's ordinal as it stands in its name: in decimal, filled with zeros
/// on the left to three digits, longer where the number needs more.
pub open spec fn ordinal_text(n: nat) -> Seq<char> {
    if n < 10 {
        seq!['0', '0'] + decimal_text(n)
    } else if n < 100 {
        seq!['0'] + decimal_text(n)
    } else {
        decimal_text(n)
    }
}

/// The name of the envelope of the session `timestamp`.
pub open spec fn envelope_name_text(timestamp: Seq<char>) -> Seq<char> {
    timestamp + ".enc"@
}

/// The name of the chunk with the given ordinal, counted from one.
pub open spec fn chunk_name_text(timestamp: Seq<char>, ordinal: nat) -> Seq<char> {
    timestamp + ".enc."@ + ordinal_text(ordinal)
}

/// The name of the manifest of the session `timestamp`.
pub open spec fn manifest_name_text(timestamp: Seq<char>) -> Seq<char> {
    timestamp + ".enc.manifest"@
}

/// The name of the archive of the session `timestamp` before it is encrypted.
pub open spec fn archive_name_text(timestamp: Seq<char>) -> Seq<char> {
    timestamp + ".tar.gz"@
}

/// Reading a number's decimal text gives the number back.
pub proof fn lemma_decimal_value(n: nat)
    ensures
        decimal_value(decimal_text(n)) == n,
    decreases n,
{
    if n < 10 {
        let t = decimal_text(n);
        assert(t.drop_last() =~= Seq::<char>::empty());
        assert(decimal_value(t.drop_last()) == 0);
        assert(t.last() == digit_char(n as int));
    } else {
        lemma_decimal_value(n / 10);
        let t = decimal_text(n);
        assert(t.drop_last() =~= decimal_text(n / 10));
        assert(t.last() == digit_char((n % 10) as int));
    }
}

/// Zeros on the left do not change what a decimal text stands for.
pub proof fn lemma_leading_zero(text: Seq<char>)
    ensures
        decimal_value(seq!['0'] + text) == decimal_value(text),
    decreases text.len(),
{
    let padded = seq!['0'] + text;
    if text.len() == 0 {
        assert(padded.drop_last() =~= Seq::<char>::empty());
        assert(decimal_value(padded.drop_last()) == 0);
    } else {
        lemma_leading_zero(text.drop_last());
        assert(padded.drop_last() =~= seq!['0'] + text.drop_last());
        assert(padded.last() == text.last());
    }
}

/// A chunk's ordinal can be read back from its text.
pub proof fn lemma_ordinal_value(n: nat)
    ensures
        decimal_value(ordinal_text(n)) == n,
{
    lemma_decimal_value(n);
    if n < 10 {
        lemma_leading_zero(decimal_text(n));
        lemma_leading_zero(seq!['0'] + decimal_text(n));
        assert(seq!['0', '0'] + decimal_text(n) =~= seq!['0'] + (seq!['0'] + decimal_text(n)));
    } else if n < 100 {
        lemma_leading_zero(decimal_text(n));
    }
}

/// Within one session, chunks with different ordinals have different names.
pub proof fn lemma_chunk_names_distinct(timestamp: Seq<char>, a: nat, b: nat)
    requires
        chunk_name_text(timestamp, a) == chunk_name_text(timestamp, b),
    ensures
        a == b,
{
    let head = timestamp + ".enc."@;
    let na = chunk_name_text(timestamp, a);
    let nb = chunk_name_text(timestamp, b);
    assert(na.subrange(head.len() as int, na.len() as int) =~= ordinal_text(a));
    assert(nb.subrange(head.len() as int, nb.len() as int) =~= ordinal_text(b));
    lemma_ordinal_value(a);
    lemma_ordinal_value(b);
}

/// The decimal digit for a value below ten, as text.
fn digit_str(d: u64) -> (s: &'static str)
    requires
        d < 10,
    ensures
        s@ == seq![digit_char(d as int)],
{
    proof {
        reveal_strlit("0");
        reveal_strlit("1");
        reveal_strlit("2");
        reveal_strlit("3");
        reveal_strlit("4");
        reveal_strlit("5");
        reveal_strlit("6");
        reveal_strlit("7");
        reveal_strlit("8");
        reveal_strlit("9");
    }
    let s = match d {
        0 => "0",
        1 => "1",
        2 => "2",
        3 => "3",
        4 => "4",
        5 => "5",
        6 => "6",
        7 => "7",
        8 => "8",
        _ => "9",
    };
    assert(s@ =~= seq![digit_char(d as int)]);
    s
}

/// Writes a number in decimal.
pub fn decimal_string(n: u64) -> (text: String)
    ensures
        text@ == decimal_text(n as nat),
    decreases n,
{
    if n < 10 {
        String::from_str(digit_str(n))
    } else {
        let mut text = decimal_string(n / 10);
        text.append(digit_str(n % 10));
        assert(text@ =~= decimal_text(n as nat));
        text
    }
}

/// Writes a chunk's ordinal as it stands in the chunk's name.
pub fn ordinal_string(n: u64) -> (text: String)
    ensures
        text@ == ordinal_text(n as nat),
{
    proof {
        reveal_strlit("00");
        reveal_strlit("0");
        reveal_strlit("");
    }
    let pad = if n < 10 {
        "00"
    } else if n < 100 {
        "0"
    } else {
        ""
    };
    let mut text = String::from_str(pad);
    let digits = decimal_string(n);
    text.append(digits.as_str());
    assert(text@ =~= ordinal_text(n as nat));
    text
}

/// The name under which the envelope of the session `timestamp` is stored.
pub fn envelope_name(timestamp: &str) -> (name: String)
    ensures
        name@ == envelope_name_text(timestamp@),
{
    let mut name = String::from_str(timestamp);
    name.append(".enc");
    name
}

/// The name under which the chunk with the given ordinal is stored.
pub fn chunk_name(timestamp: &str, ordinal: u64) -> (name: String)
    ensures
        name@ == chunk_name_text(timestamp@, ordinal as nat),
{
    let mut name = String::from_str(timestamp);
    name.append(".enc.");
    let digits = ordinal_string(ordinal);
    name.append(digits.as_str());
    name
}

/// The name under which the manifest of the session `timestamp` is stored.
pub fn manifest_name(timestamp: &str) -> (name: String)
    ensures
        name@ == manifest_name_text(timestamp@),
{
    let mut name = String::from_str(timestamp);
    name.append(".enc.manifest");
    name
}

/// The name of the archive of the session `timestamp` before it is encrypted.
pub fn archive_name(timestamp: &str) -> (name: String)
    ensures
        name@ == archive_name_text(timestamp@),
{
    let mut name = String::from_str(timestamp);
    name.append(".tar.gz");
    name
}

/// Whether a character is a decimal digit.
pub open spec fn is_digit(c: char) -> bool {
    0x30 <= c as u32 <= 0x39
}

/// The number of decimal digits at the end of a name.
pub open spec fn trailing_digits(name: Seq<char>) -> nat
    decreases name.len(),
{
    if name.len() > 0 && is_digit(name.last()) {
        1 + trailing_digits(name.drop_last())
    } else {
        0
    }
}

/// Whether a name is that of an envelope: it ends with `.enc`.
pub open spec fn is_envelope_name(name: Seq<char>) -> bool {
    has_suffix(name, ".enc"@)
}

/// Whether a name is that of a chunk: it ends with `.enc.` and an ordinal
/// of one or more decimal digits.
pub open spec fn is_chunk_name(name: Seq<char>) -> bool {
    let digits = trailing_digits(name);
    digits >= 1 && has_suffix(name.subrange(0, name.len() - digits), ".enc."@)
}

/// Whether a name is that of a manifest: it ends with `.manifest`.
pub open spec fn is_manifest_name(name: Seq<char>) -> bool {
    has_suffix(name, ".manifest"@)
}

/// A text of digits alone, behind a head that does not end with a digit,
/// is the whole run of digits at the end.
pub proof fn lemma_trailing_digits_of_tail(head: Seq<char>, tail: Seq<char>)
    requires
        head.len() == 0 || !is_digit(head.last()),
        forall|k: int| 0 <= k < tail.len() ==> is_digit(#[trigger] tail[k]),
    ensures
        trailing_digits(head + tail) == tail.len(),
    decreases tail.len(),
{
    let name = head + tail;
    if tail.len() == 0 {
        assert(name =~= head);
    } else {
        assert(name.last() == tail.last());
        assert(name.drop_last() =~= head + tail.drop_last());
        lemma_trailing_digits_of_tail(head, tail.drop_last());
    }
}

/// The decimal text of a number holds digits alone.
pub proof fn lemma_decimal_is_digits(n: nat)
    ensures
        decimal_text(n).len() >= 1,
        forall|k: int| 0 <= k < decimal_text(n).len() ==> is_digit(#[trigger] decimal_text(n)[k]),
    decreases n,
{
    if n >= 10 {
        lemma_decimal_is_digits(n / 10);
    }
}

/// The names that a session gives its artifacts are told apart as what they
/// are: its envelope as an envelope, each chunk as a chunk, its manifest as a
/// manifest.
pub proof fn lemma_session_names_are_recognized(timestamp: Seq<char>, ordinal: nat)
    ensures
        is_envelope_name(envelope_name_text(timestamp)),
        is_chunk_name(chunk_name_text(timestamp, ordinal)),
        is_manifest_name(manifest_name_text(timestamp)),
{
    reveal_strlit(".enc");
    reveal_strlit(".enc.");
    reveal_strlit(".enc.manifest");
    reveal_strlit(".manifest");
    let envelope = envelope_name_text(timestamp);
    assert(envelope.subrange(envelope.len() - 4, envelope.len() as int) =~= ".enc"@);
    let manifest = manifest_name_text(timestamp);
    assert(manifest.subrange(manifest.len() - 9, manifest.len() as int) =~= ".manifest"@);
    let head = timestamp + ".enc."@;
    let tail = ordinal_text(ordinal);
    lemma_decimal_is_digits(ordinal);
    assert forall|k: int| 0 <= k < tail.len() implies is_digit(#[trigger] tail[k]) by {
        let digits = decimal_text(ordinal);
        if ordinal < 10 {
            if k >= 2 {
                assert(tail[k] == digits[k - 2]);
            }
        } else if ordinal < 100 {
            if k >= 1 {
                assert(tail[k] == digits[k - 1]);
            }
        }
    }
    assert(head.last() == '.');
    lemma_trailing_digits_of_tail(head, tail);
    let name = chunk_name_text(timestamp, ordinal);
    assert(name.subrange(0, name.len() - tail.len()) =~= head);
    assert(head.subrange(head.len() - 5, head.len() as int) =~= ".enc."@);
}

/// Whether a name is that of an envelope.
pub fn is_envelope_file(name: &str) -> (found: bool)
    ensures
        found == is_envelope_name(name@),
{
    ends_with(name, ".enc")
}

/// Whether a name is that of a manifest, which stands for a chunked backup.
pub fn is_manifest_file(name: &str) -> (found: bool)
    ensures
        found == is_manifest_name(name@),
{
    ends_with(name, ".manifest")
}

/// Whether a name is that of a chunk.
pub fn is_chunk_file(name: &str) -> (found: bool)
    ensures
        found == is_chunk_name(name@),
{
    let chars = chars_of(name);
    let marker = chars_of(".enc.");
    let mut end: usize = chars.len();
    assert(chars@.subrange(0, end as int) =~= chars@);
    while end > 0 && is_digit_char(chars[end - 1])
        invariant
            end <= chars@.len(),
            trailing_digits(chars@) == (chars@.len() - end) + trailing_digits(
                chars@.subrange(0, end as int),
            ),
        decreases end,
    {
        assert(chars@.subrange(0, end as int).drop_last() =~= chars@.subrange(0, end - 1));
        end -= 1;
    }
    proof {
        reveal_strlit(".enc.");
        let head = chars@.subrange(0, end as int);
        if end > 0 {
            assert(head.last() == chars@[end - 1]);
        }
        assert(trailing_digits(head) == 0);
        if end >= 5 {
            assert(head.subrange(head.len() - 5, head.len() as int) =~= chars@.subrange(
                end - 5,
                end as int,
            ));
        }
    }
    if end == chars.len() || end < 5 {
        return false;
    }
    matches_at(&chars, &marker, end - 5)
}

/// Whether a character is a decimal digit.
pub fn is_digit_char(c: char) -> (found: bool)
    ensures
        found == is_digit(c),
{
    let code: u32 = c as u32;
    0x30 <= code && code <= 0x39
}

} // verus!
