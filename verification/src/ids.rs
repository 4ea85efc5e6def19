//! Identifiers: the hyphenated text of a 128-bit UUID and its parsing.
use vstd::prelude::*;
use uuid::Uuid;
use crate::text::from_chars;
use crate::digest::{hex, hex_digit};

verus! {

/// Byte `k` (0 = most significant) of a 128-bit value.
pub open spec fn be_byte(u: u128, k: int) -> u8 {
    ((u >> ((8 * (15 - k)) as u128)) & 0xff) as u8
}

/// The 16 bytes of a UUID, most significant first.
pub open spec fn uuid_bytes(u: u128) -> Seq<u8> {
    Seq::new(16, |k: int| be_byte(u, k))
}

/// The hyphenated lower-case text of a UUID (8-4-4-4-12 hex digits), as
/// `Uuid`'s `Display` writes it.
pub open spec fn uuid_text(u: u128) -> Seq<char> {
    let h = hex(uuid_bytes(u));
    h.subrange(0, 8) + seq!['-'] + h.subrange(8, 12) + seq!['-'] + h.subrange(12, 16) + seq!['-']
        + h.subrange(16, 20) + seq!['-'] + h.subrange(20, 32)
}

/// What `Uuid::parse_str` of the `uuid` crate accepts and yields (simple,
/// hyphenated, braced and URN forms).
pub uninterp spec fn uuid_parse(s: Seq<char>) -> Option<u128>;

/// Calls `Uuid::parse_str` and hands back the parsed UUID as a `u128`, or
/// nothing where the text is refused: the result is named `uuid_parse(s)`.
/// One form is stated: the hyphenated lower-case text of a UUID (what
/// `uuid_text` gives, the crate's `Display`) parses back to that UUID.
#[verifier::external_body]
pub(crate) fn parse_uuid(s: &str) -> (r: Option<u128>)
    ensures
        r == uuid_parse(s@),
        forall|u: u128| s@ == uuid_text(u) ==> r == Some(u),
{
    match Uuid::parse_str(s) {
        Ok(u) => Some(u.as_u128()),
        Err(_) => None,
    }
}

fn be_byte_exec(u: u128, k: u32) -> (b: u8)
    requires
        k < 16,
    ensures
        b == be_byte(u, k as int),
{
    ((u >> (8 * (15 - k))) & 0xff) as u8
}

fn hex_digit_of(n: u8) -> (c: char)
    requires
        n < 16,
    ensures
        c == hex_digit(n),
{
    if n < 10 {
        (48u8 + n) as char
    } else {
        (97u8 + n - 10) as char
    }
}

/// The hyphenated text of a UUID.
pub fn uuid_to_text(u: u128) -> (r: String)
    ensures
        r@ == uuid_text(u),
        r@.len() == 36,
{
    let ghost h = hex(uuid_bytes(u));
    let mut out: Vec<char> = Vec::new();
    let mut k: u32 = 0;
    while k < 16
        invariant
            k <= 16,
            h == hex(uuid_bytes(u)),
            out@ == (if k <= 4 {
                h.subrange(0, 2 * k as int)
            } else if k <= 6 {
                h.subrange(0, 8) + seq!['-'] + h.subrange(8, 2 * k as int)
            } else if k <= 8 {
                h.subrange(0, 8) + seq!['-'] + h.subrange(8, 12) + seq!['-'] + h.subrange(
                    12,
                    2 * k as int,
                )
            } else if k <= 10 {
                h.subrange(0, 8) + seq!['-'] + h.subrange(8, 12) + seq!['-'] + h.subrange(12, 16)
                    + seq!['-'] + h.subrange(16, 2 * k as int)
            } else {
                h.subrange(0, 8) + seq!['-'] + h.subrange(8, 12) + seq!['-'] + h.subrange(12, 16)
                    + seq!['-'] + h.subrange(16, 20) + seq!['-'] + h.subrange(20, 2 * k as int)
            }),
        decreases 16 - k,
    {
        let ghost before = out@;
        if k == 4 || k == 6 || k == 8 || k == 10 {
            out.push('-');
        }
        let ghost mid = out@;
        let b = be_byte_exec(u, k);
        out.push(hex_digit_of(b / 16));
        out.push(hex_digit_of(b % 16));
        proof {
            assert(uuid_bytes(u)[k as int] == b);
            assert(h[2 * k as int] == hex_digit(b / 16));
            assert(h[2 * k as int + 1] == hex_digit(b % 16));
            let kk = k as int;
            if kk < 4 {
                assert(out@ =~= h.subrange(0, 2 * kk + 2));
            } else if kk < 6 {
                assert(out@ =~= h.subrange(0, 8) + seq!['-'] + h.subrange(8, 2 * kk + 2));
            } else if kk < 8 {
                assert(out@ =~= h.subrange(0, 8) + seq!['-'] + h.subrange(8, 12) + seq!['-']
                    + h.subrange(12, 2 * kk + 2));
            } else if kk < 10 {
                assert(out@ =~= h.subrange(0, 8) + seq!['-'] + h.subrange(8, 12) + seq!['-']
                    + h.subrange(12, 16) + seq!['-'] + h.subrange(16, 2 * kk + 2));
            } else {
                assert(out@ =~= h.subrange(0, 8) + seq!['-'] + h.subrange(8, 12) + seq!['-']
                    + h.subrange(12, 16) + seq!['-'] + h.subrange(16, 20) + seq!['-']
                    + h.subrange(20, 2 * kk + 2));
            }
        }
        k = k + 1;
    }
    from_chars(out.as_slice())
}

} // verus!
