//! The canonical text form of UUIDs held as 128-bit numbers.
use vstd::prelude::*;
use crate::text::string_from_chars;

verus! {

/// The lowercase hexadecimal digit for `d` in 0..16.
pub open spec fn hex_digit(d: int) -> char {
    if d < 10 {
        ((d + ('0' as int)) as u32) as char
    } else {
        ((d - 10 + ('a' as int)) as u32) as char
    }
}

/// The `n` lowest hexadecimal digits of `v`, most significant first.
pub open spec fn hex_digits(v: nat, n: nat) -> Seq<char>
    decreases n,
{
    if n == 0 {
        seq![]
    } else {
        hex_digits(v / 16, (n - 1) as nat).push(hex_digit((v % 16) as int))
    }
}

pub proof fn lemma_hex_digits_len(v: nat, n: nat)
    ensures
        hex_digits(v, n).len() == n,
    decreases n,
{
    if n > 0 {
        lemma_hex_digits_len(v / 16, (n - 1) as nat);
    }
}

/// The hyphenated form of a UUID (8-4-4-4-12 lowercase hex digits), as the
/// `uuid` crate displays it.
pub open spec fn uuid_hyphenated(v: u128) -> Seq<char> {
    let h = hex_digits(v as nat, 32);
    h.subrange(0, 8) + seq!['-'] + h.subrange(8, 12) + seq!['-'] + h.subrange(12, 16) + seq!['-']
        + h.subrange(16, 20) + seq!['-'] + h.subrange(20, 32)
}

fn hex_char(d: u128) -> (c: char)
    requires
        d < 16,
    ensures
        c == hex_digit(d as int),
{
    let c: char = match d {
        0 => '0',
        1 => '1',
        2 => '2',
        3 => '3',
        4 => '4',
        5 => '5',
        6 => '6',
        7 => '7',
        8 => '8',
        9 => '9',
        10 => 'a',
        11 => 'b',
        12 => 'c',
        13 => 'd',
        14 => 'e',
        _ => 'f',
    };
    c
}

/// The 32 hexadecimal digits of `v`.
fn hex32(v: u128) -> (r: Vec<char>)
    ensures
        r@ == hex_digits(v as nat, 32),
{
    let mut digits: Vec<char> = Vec::new();
    let mut k: usize = 0;
    let mut rest: u128 = v;
    while k < 32
        invariant
            k <= 32,
            digits@.len() == k,
            hex_digits(v as nat, 32) == hex_digits(rest as nat, (32 - k) as nat) + digits@,
        decreases 32 - k,
    {
        let d = rest % 16;
        let c = hex_char(d);
        proof {
            let m = (32 - k - 1) as nat;
            assert(hex_digits(rest as nat, (m + 1) as nat) == hex_digits((rest / 16) as nat, m).push(
                c,
            ));
            assert(hex_digits((rest / 16) as nat, m).push(c) + digits@ =~= hex_digits(
                (rest / 16) as nat,
                m,
            ) + seq![c].add(digits@));
        }
        digits.insert(0, c);
        rest = rest / 16;
        k = k + 1;
    }
    assert(hex_digits(v as nat, 32) =~= digits@);
    digits
}

/// The hyphenated text of a UUID.
pub fn uuid_text(v: u128) -> (r: String)
    ensures
        r@ == uuid_hyphenated(v),
{
    let h = hex32(v);
    proof {
        lemma_hex_digits_len(v as nat, 32);
    }
    let mut out: Vec<char> = Vec::new();
    let mut i: usize = 0;
    while i < 32
        invariant
            h@.len() == 32,
            i <= 32,
            out@ == {
                let hs = h@;
                if i <= 8 {
                    hs.subrange(0, i as int)
                } else if i <= 12 {
                    hs.subrange(0, 8) + seq!['-'] + hs.subrange(8, i as int)
                } else if i <= 16 {
                    hs.subrange(0, 8) + seq!['-'] + hs.subrange(8, 12) + seq!['-'] + hs.subrange(12, i as int)
                } else if i <= 20 {
                    hs.subrange(0, 8) + seq!['-'] + hs.subrange(8, 12) + seq!['-'] + hs.subrange(12, 16)
                        + seq!['-'] + hs.subrange(16, i as int)
                } else {
                    hs.subrange(0, 8) + seq!['-'] + hs.subrange(8, 12) + seq!['-'] + hs.subrange(12, 16)
                        + seq!['-'] + hs.subrange(16, 20) + seq!['-'] + hs.subrange(20, i as int)
                }
            },
        decreases 32 - i,
    {
        if i == 8 || i == 12 || i == 16 || i == 20 {
            out.push('-');
        }
        out.push(h[i]);
        i = i + 1;
        proof {
            let hs = h@;
            if i <= 8 {
                assert(out@ =~= hs.subrange(0, i as int));
            } else if i <= 12 {
                assert(out@ =~= hs.subrange(0, 8) + seq!['-'] + hs.subrange(8, i as int));
            } else if i <= 16 {
                assert(out@ =~= hs.subrange(0, 8) + seq!['-'] + hs.subrange(8, 12) + seq!['-'] + hs.subrange(12, i as int));
            } else if i <= 20 {
                assert(out@ =~= hs.subrange(0, 8) + seq!['-'] + hs.subrange(8, 12) + seq!['-'] + hs.subrange(12, 16)
                    + seq!['-'] + hs.subrange(16, i as int));
            } else {
                assert(out@ =~= hs.subrange(0, 8) + seq!['-'] + hs.subrange(8, 12) + seq!['-'] + hs.subrange(12, 16)
                    + seq!['-'] + hs.subrange(16, 20) + seq!['-'] + hs.subrange(20, i as int));
            }
        }
    }
    string_from_chars(&out)
}

}

verus! {

/// What `uuid::Uuid::parse_str` gives for a text, as a 128-bit number.
pub uninterp spec fn uuid_parse(s: Seq<char>) -> Option<u128>;

/// `uuid::Uuid::parse_str(s)`, the UUID read as a big-endian 128-bit number:
/// a function of the text; the lowercase hyphenated form of a number reads
/// back as that number.
#[verifier::external_body]
pub(crate) fn parse_uuid(s: &str) -> (r: Option<u128>)
    ensures
        r == uuid_parse(s@),
        forall|v: u128| s@ == uuid_hyphenated(v) ==> r == Some(v),
{
    match uuid::Uuid::parse_str(s) {
        Ok(u) => Some(u.as_u128()),
        Err(_) => None,
    }
}

} // verus!
