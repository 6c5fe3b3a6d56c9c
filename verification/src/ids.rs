//! Session IDs.

use vstd::prelude::*;

use crate::text;

verus! {

/// The ID of a session: a UUID.
#[derive(Debug, Clone, Copy, PartialEq, Eq, Structural)]
pub struct SessionId {
    pub bits: u128,
}

/// Sixteen to the power of `n`.
pub open spec fn pow16(n: nat) -> nat
    decreases n,
{
    if n == 0 {
        1
    } else {
        16 * pow16((n - 1) as nat)
    }
}

/// The 32 lower-case hexadecimal digits of an ID, most significant first.
pub open spec fn digits_of(bits: u128) -> Seq<char> {
    Seq::new(
        32,
        |k: int| text::hex_digit((bits as nat / pow16((31 - k) as nat) % 16) as int),
    )
}

/// The usual text of an ID: its digits in groups of 8, 4, 4, 4 and 12, with
/// hyphens between them.
pub open spec fn id_text(bits: u128) -> Seq<char> {
    let ds = digits_of(bits);
    ds.subrange(0, 8) + seq!['-'] + ds.subrange(8, 12) + seq!['-'] + ds.subrange(12, 16) + seq!['-']
        + ds.subrange(16, 20) + seq!['-'] + ds.subrange(20, 32)
}

/// Whether a character is a hexadecimal digit, in either case.
pub open spec fn is_hex(c: char) -> bool {
    '0' <= c <= '9' || 'a' <= c <= 'f' || 'A' <= c <= 'F'
}

/// The value of a hexadecimal digit.
pub open spec fn hex_value(c: char) -> nat {
    if '0' <= c <= '9' {
        (c as int - 48) as nat
    } else if 'a' <= c <= 'f' {
        (c as int - 87) as nat
    } else {
        (c as int - 55) as nat
    }
}

/// The value of a sequence of hexadecimal digits, most significant first.
pub open spec fn hex_number(ds: Seq<char>) -> nat
    decreases ds.len(),
{
    if ds.len() == 0 {
        0
    } else {
        16 * hex_number(ds.drop_last()) + hex_value(ds.last())
    }
}

/// The digits of the hyphenated form of a UUID: 36 characters, with hyphens in
/// the four places between the groups.
pub open spec fn hyphenated_digits(t: Seq<char>) -> Option<Seq<char>> {
    if t.len() == 36 && t[8] == '-' && t[13] == '-' && t[18] == '-' && t[23] == '-' {
        Some(
            t.subrange(0, 8) + t.subrange(9, 13) + t.subrange(14, 18) + t.subrange(19, 23)
                + t.subrange(24, 36),
        )
    } else {
        None
    }
}

/// Whether a character is the given lower-case letter or sign, in either case.
pub open spec fn is_either_case(c: char, lower: char) -> bool {
    c == lower || ('a' <= lower <= 'z' && c as int == lower as int - 32)
}

/// Whether a text starts with `urn:uuid:`, in either case.
pub open spec fn starts_as_urn(t: Seq<char>) -> bool {
    let prefix = seq!['u', 'r', 'n', ':', 'u', 'u', 'i', 'd', ':'];
    t.len() >= 9 && forall|i: int| 0 <= i < 9 ==> is_either_case(#[trigger] t[i], prefix[i])
}

/// The digits that a text gives for a UUID: 32 digits; or the hyphenated form,
/// as it is, in braces, or after `urn:uuid:`.
pub open spec fn uuid_digits(t: Seq<char>) -> Option<Seq<char>> {
    if t.len() == 32 {
        Some(t)
    } else if t.len() == 36 {
        hyphenated_digits(t)
    } else if t.len() == 38 && t[0] == '{' && t[37] == '}' {
        hyphenated_digits(t.subrange(1, 37))
    } else if t.len() == 45 && starts_as_urn(t) {
        hyphenated_digits(t.skip(9))
    } else {
        None
    }
}

/// Whether a text consists of hexadecimal digits.
pub open spec fn all_hex(ds: Seq<char>) -> bool {
    forall|i: int| 0 <= i < ds.len() ==> is_hex(#[trigger] ds[i])
}

/// The UUID that a text states, where it states one.
pub open spec fn stated_uuid(t: Seq<char>) -> Option<nat> {
    match uuid_digits(t) {
        Some(ds) => if all_hex(ds) {
            Some(hex_number(ds))
        } else {
            None
        },
        None => None,
    }
}

/// How the error is shown that `uuid::Uuid::parse_str` gives for a text that
/// states no UUID.
pub uninterp spec fn uuid_error(text: Seq<char>) -> Seq<char>;

/// `uuid::Uuid::parse_str` reads the UUID that a text states. Where it states
/// none there is an error, shown in a way that depends on the text alone.
#[verifier::external_body]
fn parse_uuid(text: &str) -> (r: Result<u128, String>)
    ensures
        match r {
            Ok(bits) => stated_uuid(text@) == Some(bits as nat),
            Err(shown) => stated_uuid(text@) is None && shown@ == uuid_error(text@),
        },
{
    match uuid::Uuid::parse_str(text) {
        Ok(id) => Ok(id.as_u128()),
        Err(e) => Err(e.to_string()),
    }
}

/// The `Display` of `uuid::Uuid` writes the usual text of a UUID.
#[verifier::external_body]
fn format_uuid(bits: u128) -> (text: String)
    ensures
        text@ == id_text(bits),
{
    uuid::Uuid::from_u128(bits).to_string()
}

/// What reading an ID gives: the ID, or the error as it is shown.
pub open spec fn read_id(t: Seq<char>) -> Result<u128, Seq<char>> {
    match stated_uuid(t) {
        Some(n) => Ok(n as u128),
        None => Err(uuid_error(t)),
    }
}

/// What a parse result says.
pub open spec fn parse_outcome(r: Result<SessionId, String>) -> Result<u128, Seq<char>> {
    match r {
        Ok(id) => Ok(id.bits),
        Err(shown) => Err(shown@),
    }
}

impl SessionId {
    /// Reads an ID.
    pub fn parse(text: &str) -> (r: Result<SessionId, String>)
        ensures
            parse_outcome(r) == read_id(text@),
    {
        match parse_uuid(text) {
            Ok(bits) => Ok(SessionId { bits }),
            Err(shown) => Err(shown),
        }
    }

    /// The usual text of this ID.
    pub fn text(&self) -> (text: String)
        ensures
            text@ == id_text(self.bits),
    {
        format_uuid(self.bits)
    }
}

proof fn lemma_digit(d: int)
    requires
        0 <= d < 16,
    ensures
        is_hex(text::hex_digit(d)),
        hex_value(text::hex_digit(d)) == d,
        text::hex_digit(d) != '/',
        text::hex_digit(d) != '.',
        (text::hex_digit(d) as u32) < 128,
{
}

proof fn lemma_pow16_positive(n: nat)
    ensures
        pow16(n) > 0,
    decreases n,
{
    if n > 0 {
        lemma_pow16_positive((n - 1) as nat);
    }
}

proof fn lemma_digits_value(bits: u128, k: int)
    requires
        0 <= k <= 32,
    ensures
        hex_number(digits_of(bits).take(k)) == bits as nat / pow16((32 - k) as nat),
    decreases k,
{
    let ds = digits_of(bits);
    if k == 0 {
        reveal_with_fuel(pow16, 33);
        assert(pow16(32) == 0x1_0000_0000_0000_0000_0000_0000_0000_0000nat);
        assert(ds.take(0) =~= Seq::<char>::empty());
        vstd::arithmetic::div_mod::lemma_basic_div(bits as int, pow16(32) as int);
    } else {
        lemma_digits_value(bits, k - 1);
        let p = pow16((32 - k) as nat);
        let a = bits as nat / p;
        lemma_pow16_positive((32 - k) as nat);
        assert(ds.take(k).drop_last() =~= ds.take(k - 1));
        assert(pow16((33 - k) as nat) == 16 * p);
        vstd::arithmetic::div_mod::lemma_div_denominator(bits as int, p as int, 16);
        assert(p * 16 == 16 * p);
        assert(a / 16 == bits as nat / pow16((33 - k) as nat));
        lemma_digit((a % 16) as int);
        assert(ds.take(k).last() == text::hex_digit((a % 16) as int));
    }
}

/// The usual text of an ID has 36 characters, all of them hexadecimal digits
/// or hyphens.
pub proof fn lemma_id_characters(bits: u128)
    ensures
        id_text(bits).len() == 36,
        forall|i: int|
            0 <= i < 36 ==> (#[trigger] id_text(bits)[i]) != '/' && id_text(bits)[i] != '.' && (
            id_text(bits)[i] as u32) < 128,
{
    let ds = digits_of(bits);
    let t = id_text(bits);
    assert forall|i: int| 0 <= i < 32 implies (#[trigger] ds[i]) != '/' && ds[i] != '.' && (
    ds[i] as u32) < 128 by {
        lemma_digit((bits as nat / pow16((31 - i) as nat) % 16) as int);
    }
    assert forall|i: int| 0 <= i < 36 implies (#[trigger] t[i]) != '/' && t[i] != '.' && (
    t[i] as u32) < 128 by {
        if i < 8 {
            assert(t[i] == ds[i]);
        } else if 8 < i < 13 {
            assert(t[i] == ds[i - 1]);
        } else if 13 < i < 18 {
            assert(t[i] == ds[i - 2]);
        } else if 18 < i < 23 {
            assert(t[i] == ds[i - 3]);
        } else if 23 < i {
            assert(t[i] == ds[i - 4]);
        } else {
            assert(t[i] == '-');
        }
    }
}

/// The usual text of an ID states that ID.
pub proof fn law_id_text_reads_back(bits: u128)
    ensures
        stated_uuid(id_text(bits)) == Some(bits as nat),
        read_id(id_text(bits)) == Ok::<u128, Seq<char>>(bits),
{
    let ds = digits_of(bits);
    let t = id_text(bits);
    assert(t.len() == 36);
    assert(uuid_digits(t) == hyphenated_digits(t));
    assert(hyphenated_digits(t)->0 =~= ds);
    assert(all_hex(ds)) by {
        assert forall|i: int| 0 <= i < ds.len() implies is_hex(#[trigger] ds[i]) by {
            lemma_digit((bits as nat / pow16((31 - i) as nat) % 16) as int);
        }
    }
    lemma_digits_value(bits, 32);
    assert(ds.take(32) =~= ds);
    assert(pow16(0) == 1);
    assert(bits as nat / 1 == bits as nat);
}

} // verus!
