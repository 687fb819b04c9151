//! Base64 with the standard alphabet and `=` padding.

use vstd::prelude::*;

verus! {

/// The character that stands for the six-bit value `v`.
pub open spec fn sextet_char(v: int) -> char {
    if v < 26 {
        (('A' as int + v) as u8) as char
    } else if v < 52 {
        (('a' as int + (v - 26)) as u8) as char
    } else if v < 62 {
        (('0' as int + (v - 52)) as u8) as char
    } else if v == 62 {
        '+'
    } else {
        '/'
    }
}

/// The encoding of `bytes`: four characters for every three bytes, the last
/// group filled up with `=`.
pub open spec fn encode(bytes: Seq<u8>) -> Seq<char>
    decreases bytes.len(),
{
    if bytes.len() == 0 {
        Seq::empty()
    } else if bytes.len() == 1 {
        let b0 = bytes[0] as int;
        seq![sextet_char(b0 / 4), sextet_char(b0 % 4 * 16), '=', '=']
    } else if bytes.len() == 2 {
        let b0 = bytes[0] as int;
        let b1 = bytes[1] as int;
        seq![
            sextet_char(b0 / 4),
            sextet_char(b0 % 4 * 16 + b1 / 16),
            sextet_char(b1 % 16 * 4),
            '=',
        ]
    } else {
        let b0 = bytes[0] as int;
        let b1 = bytes[1] as int;
        let b2 = bytes[2] as int;
        seq![
            sextet_char(b0 / 4),
            sextet_char(b0 % 4 * 16 + b1 / 16),
            sextet_char(b1 % 16 * 4 + b2 / 64),
            sextet_char(b2 % 64),
        ] + encode(bytes.skip(3))
    }
}

fn sextet(v: u8) -> (c: char)
    requires
        v < 64,
    ensures
        c == sextet_char(v as int),
{
    if v < 26 {
        (65 + v) as char
    } else if v < 52 {
        (71 + v) as char
    } else if v < 62 {
        (v - 4) as char
    } else if v == 62 {
        '+'
    } else {
        '/'
    }
}

/// Encodes `bytes`.
pub fn encode_bytes(bytes: &[u8]) -> (out: String)
    ensures
        out@ == encode(bytes@),
{
    let mut out = String::new();
    let mut i: usize = 0;
    assert(bytes@.skip(0) =~= bytes@);
    while bytes.len() - i >= 3
        invariant
            i <= bytes.len(),
            out@ + encode(bytes@.skip(i as int)) == encode(bytes@),
        decreases bytes.len() - i,
    {
        let b0 = bytes[i];
        let b1 = bytes[i + 1];
        let b2 = bytes[i + 2];
        let ghost rest = bytes@.skip(i as int);
        let ghost before = out@;
        assert(rest[0] == b0 && rest[1] == b1 && rest[2] == b2);
        assert(rest.skip(3) =~= bytes@.skip(i + 3));
        out.push(sextet(b0 / 4));
        out.push(sextet(b0 % 4 * 16 + b1 / 16));
        out.push(sextet(b1 % 16 * 4 + b2 / 64));
        out.push(sextet(b2 % 64));
        i = i + 3;
        assert(out@ + encode(bytes@.skip(i as int)) =~= before + encode(rest));
    }
    let ghost rest = bytes@.skip(i as int);
    let ghost before = out@;
    if bytes.len() - i == 1 {
        let b0 = bytes[i];
        assert(rest[0] == b0);
        out.push(sextet(b0 / 4));
        out.push(sextet(b0 % 4 * 16));
        out.push('=');
        out.push('=');
        assert(out@ =~= before + encode(rest));
    } else if bytes.len() - i == 2 {
        let b0 = bytes[i];
        let b1 = bytes[i + 1];
        assert(rest[0] == b0 && rest[1] == b1);
        out.push(sextet(b0 / 4));
        out.push(sextet(b0 % 4 * 16 + b1 / 16));
        out.push(sextet(b1 % 16 * 4));
        out.push('=');
        assert(out@ =~= before + encode(rest));
    } else {
        assert(out@ =~= before + encode(rest));
    }
    out
}

/// Encodes the UTF-8 bytes of `text`.
pub fn encode_str(text: &str) -> (out: String)
    ensures
        out@ == encode(vstd::utf8::encode_utf8(text@)),
{
    encode_bytes(text.as_bytes())
}

} // verus!
