use crate::util::chars_string;
use vstd::prelude::*;

verus! {

/// The base64 alphabet, indexed by a six-bit value.
pub open spec fn b64_char(n: int) -> char {
    "ABCDEFGHIJKLMNOPQRSTUVWXYZabcdefghijklmnopqrstuvwxyz0123456789+/"@[n]
}

/// The four alphabet characters encoding one full three-byte group.
pub open spec fn b64_quad(b0: u8, b1: u8, b2: u8) -> Seq<char> {
    seq![
        b64_char(b0 as int / 4),
        b64_char((b0 as int % 4) * 16 + b1 as int / 16),
        b64_char((b1 as int % 16) * 4 + b2 as int / 64),
        b64_char(b2 as int % 64),
    ]
}

/// Standard base64 with `=` padding: three-byte groups map to four alphabet
/// characters; a final group of two bytes to three characters and `=`, of one
/// byte to two characters and `==`.
pub open spec fn spec_b64(bytes: Seq<u8>) -> Seq<char>
    decreases bytes.len(),
{
    if bytes.len() == 0 {
        seq![]
    } else if bytes.len() >= 3 {
        b64_quad(bytes[0], bytes[1], bytes[2]) + spec_b64(bytes.skip(3))
    } else if bytes.len() == 2 {
        seq![
            b64_char(bytes[0] as int / 4),
            b64_char((bytes[0] as int % 4) * 16 + bytes[1] as int / 16),
            b64_char((bytes[1] as int % 16) * 4),
            '=',
        ]
    } else {
        seq![b64_char(bytes[0] as int / 4), b64_char((bytes[0] as int % 4) * 16), '=', '=']
    }
}

fn table_char(n: u8) -> (r: char)
    requires
        n < 64,
    ensures
        r == b64_char(n as int),
{
    let table = "ABCDEFGHIJKLMNOPQRSTUVWXYZabcdefghijklmnopqrstuvwxyz0123456789+/";
    proof {
        reveal_strlit("ABCDEFGHIJKLMNOPQRSTUVWXYZabcdefghijklmnopqrstuvwxyz0123456789+/");
    }
    let len = table.unicode_len();
    assert(n < len);
    table.get_char(n as usize)
}

/// The base64 encoding of `input`, with padding.
pub fn encode(input: &[u8]) -> (r: String)
    ensures
        r@ == spec_b64(input@),
{
    let n = input.len();
    let mut out: Vec<char> = Vec::new();
    let mut i: usize = 0;
    proof {
        assert(input@.skip(0) =~= input@);
    }
    while n - i >= 3
        invariant
            n == input@.len(),
            i <= n,
            i % 3 == 0,
            spec_b64(input@) == out@ + spec_b64(input@.skip(i as int)),
        decreases n - i,
    {
        let b0 = input[i];
        let b1 = input[i + 1];
        let b2 = input[i + 2];
        let ghost prev = input@.skip(i as int);
        out.push(table_char(b0 / 4));
        out.push(table_char((b0 % 4) * 16 + b1 / 16));
        out.push(table_char((b1 % 16) * 4 + b2 / 64));
        out.push(table_char(b2 % 64));
        i = i + 3;
        proof {
            assert(prev[0] == b0 && prev[1] == b1 && prev[2] == b2);
            assert(prev.skip(3) =~= input@.skip(i as int));
            assert(spec_b64(prev) == b64_quad(b0, b1, b2) + spec_b64(input@.skip(i as int)));
        }
    }
    if n - i == 2 {
        let b0 = input[i];
        let b1 = input[i + 1];
        let ghost prev = input@.skip(i as int);
        out.push(table_char(b0 / 4));
        out.push(table_char((b0 % 4) * 16 + b1 / 16));
        out.push(table_char((b1 % 16) * 4));
        out.push('=');
        proof {
            assert(prev[0] == b0 && prev[1] == b1);
            assert(out@ =~= spec_b64(input@));
        }
    } else if n - i == 1 {
        let b0 = input[i];
        let ghost prev = input@.skip(i as int);
        out.push(table_char(b0 / 4));
        out.push(table_char((b0 % 4) * 16));
        out.push('=');
        out.push('=');
        proof {
            assert(prev[0] == b0);
            assert(out@ =~= spec_b64(input@));
        }
    } else {
        proof {
            assert(input@.skip(i as int) =~= Seq::<u8>::empty());
            assert(out@ =~= spec_b64(input@));
        }
    }
    chars_string(&out)
}

} // verus!
