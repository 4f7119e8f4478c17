//! Verified base64 coding (standard alphabet with `=` padding).
//!
//! The wire format of binary engine.io packets carries their bytes in
//! base64.  Encoding always emits padded groups of four characters; decoding
//! also accepts an unpadded final group of two or three characters.

use crate::text::push_char;
use vstd::prelude::*;

verus! {

/// The alphabet character for a six-bit value.
pub open spec fn b64_char(v: u8) -> char {
    if v < 26 {
        (('A' as int) + v) as char
    } else if v < 52 {
        (('a' as int) + (v - 26)) as char
    } else if v < 62 {
        (('0' as int) + (v - 52)) as char
    } else if v == 62 {
        '+'
    } else {
        '/'
    }
}

/// The six-bit value of an alphabet character, or -1 for any character
/// outside the alphabet (the padding character `=` included).
pub open spec fn b64_value(c: char) -> int {
    let u = c as int;
    if 'A' as int <= u && u <= 'Z' as int {
        u - 'A' as int
    } else if 'a' as int <= u && u <= 'z' as int {
        u - 'a' as int + 26
    } else if '0' as int <= u && u <= '9' as int {
        u - '0' as int + 52
    } else if c == '+' {
        62
    } else if c == '/' {
        63
    } else {
        -1
    }
}

pub open spec fn is_b64(c: char) -> bool {
    b64_value(c) >= 0
}

/// The base64 rendering of a byte sequence, grouped from the front in
/// threes; a final group of one or two bytes is padded with `=`.
pub open spec fn b64_encode(bytes: Seq<u8>) -> Seq<char>
    decreases bytes.len(),
{
    if bytes.len() == 0 {
        Seq::<char>::empty()
    } else if bytes.len() == 1 {
        let v1 = bytes[0];
        seq![b64_char(v1 >> 2), b64_char((v1 & 3) << 4), '=', '=']
    } else if bytes.len() == 2 {
        let v1 = bytes[0];
        let v2 = bytes[1];
        seq![b64_char(v1 >> 2), b64_char(((v1 & 3) << 4) | (v2 >> 4)), b64_char((v2 & 15) << 2), '=']
    } else {
        let v1 = bytes[0];
        let v2 = bytes[1];
        let v3 = bytes[2];
        seq![
            b64_char(v1 >> 2),
            b64_char(((v1 & 3) << 4) | (v2 >> 4)),
            b64_char(((v2 & 15) << 2) | (v3 >> 6)),
            b64_char(v3 & 63),
        ] + b64_encode(bytes.skip(3))
    }
}

/// The first byte encoded by two base64 characters.
pub open spec fn b64_byte1(c1: char, c2: char) -> u8 {
    ((b64_value(c1) as u8) << 2) | ((b64_value(c2) as u8) >> 4)
}

/// The second byte encoded by a group's middle characters.
pub open spec fn b64_byte2(c2: char, c3: char) -> u8 {
    (((b64_value(c2) as u8) & 15) << 4) | ((b64_value(c3) as u8) >> 2)
}

/// The third byte encoded by a group's last characters.
pub open spec fn b64_byte3(c3: char, c4: char) -> u8 {
    (((b64_value(c3) as u8) & 3) << 6) | (b64_value(c4) as u8)
}

/// The bytes denoted by a base64 string, or `None` where the string is not
/// valid base64: a character outside the alphabet, `=` anywhere but at the
/// end, or a lone trailing character.
pub open spec fn b64_decode(s: Seq<char>) -> Option<Seq<u8>>
    decreases s.len(),
{
    if s.len() == 0 {
        Some(Seq::<u8>::empty())
    } else if s.len() == 1 {
        None
    } else if s.len() == 2 {
        if is_b64(s[0]) && is_b64(s[1]) {
            Some(seq![b64_byte1(s[0], s[1])])
        } else {
            None
        }
    } else if s.len() == 3 {
        if is_b64(s[0]) && is_b64(s[1]) && is_b64(s[2]) {
            Some(seq![b64_byte1(s[0], s[1]), b64_byte2(s[1], s[2])])
        } else {
            None
        }
    } else if s.len() == 4 {
        if is_b64(s[0]) && is_b64(s[1]) && is_b64(s[2]) && is_b64(s[3]) {
            Some(seq![b64_byte1(s[0], s[1]), b64_byte2(s[1], s[2]), b64_byte3(s[2], s[3])])
        } else if is_b64(s[0]) && is_b64(s[1]) && is_b64(s[2]) && s[3] == '=' {
            Some(seq![b64_byte1(s[0], s[1]), b64_byte2(s[1], s[2])])
        } else if is_b64(s[0]) && is_b64(s[1]) && s[2] == '=' && s[3] == '=' {
            Some(seq![b64_byte1(s[0], s[1])])
        } else {
            None
        }
    } else {
        if is_b64(s[0]) && is_b64(s[1]) && is_b64(s[2]) && is_b64(s[3]) {
            match b64_decode(s.skip(4)) {
                Some(rest) => Some(
                    seq![b64_byte1(s[0], s[1]), b64_byte2(s[1], s[2]), b64_byte3(s[2], s[3])]
                        + rest,
                ),
                None => None,
            }
        } else {
            None
        }
    }
}

/// The number of characters base64 uses for `n` bytes.
pub open spec fn b64_len(n: nat) -> nat {
    4 * ((n + 2) / 3)
}

pub proof fn lemma_b64_encode_len(bytes: Seq<u8>)
    ensures
        b64_encode(bytes).len() == b64_len(bytes.len()),
    decreases bytes.len(),
{
    if bytes.len() >= 3 {
        lemma_b64_encode_len(bytes.skip(3));
    }
}

/// Bit-level inverses: the four six-bit characters of a group determine the
/// three bytes that produced them.
proof fn lemma_b64_bits(v1: u8, v2: u8, v3: u8)
    ensures
        v1 >> 2 < 64,
        (v1 & 3) << 4 < 64,
        ((v1 & 3) << 4) | (v2 >> 4) < 64,
        (v2 & 15) << 2 < 64,
        ((v2 & 15) << 2) | (v3 >> 6) < 64,
        v3 & 63 < 64,
        ((v1 >> 2) << 2) | (((v1 & 3) << 4) >> 4) == v1,
        ((v1 >> 2) << 2) | ((((v1 & 3) << 4) | (v2 >> 4)) >> 4) == v1,
        (((((v1 & 3) << 4) | (v2 >> 4)) & 15) << 4) | (((v2 & 15) << 2) >> 2) == v2,
        (((((v1 & 3) << 4) | (v2 >> 4)) & 15) << 4) | ((((v2 & 15) << 2) | (v3 >> 6)) >> 2) == v2,
        (((((v2 & 15) << 2) | (v3 >> 6)) & 3) << 6) | (v3 & 63) == v3,
{
    assert(v1 >> 2 < 64 && (v1 & 3) << 4 < 64 && ((v1 & 3) << 4) | (v2 >> 4) < 64 && (v2 & 15) << 2
        < 64 && ((v2 & 15) << 2) | (v3 >> 6) < 64 && v3 & 63 < 64) by (bit_vector);
    assert(((v1 >> 2) << 2) | (((v1 & 3) << 4) >> 4) == v1) by (bit_vector);
    assert(((v1 >> 2) << 2) | ((((v1 & 3) << 4) | (v2 >> 4)) >> 4) == v1) by (bit_vector);
    assert((((((v1 & 3) << 4) | (v2 >> 4)) & 15) << 4) | (((v2 & 15) << 2) >> 2) == v2)
        by (bit_vector);
    assert((((((v1 & 3) << 4) | (v2 >> 4)) & 15) << 4) | ((((v2 & 15) << 2) | (v3 >> 6)) >> 2)
        == v2) by (bit_vector);
    assert((((((v2 & 15) << 2) | (v3 >> 6)) & 3) << 6) | (v3 & 63) == v3) by (bit_vector);
}

/// Decoding inverts encoding on every byte sequence.
pub proof fn lemma_b64_decode_encode(bytes: Seq<u8>)
    ensures
        b64_decode(b64_encode(bytes)) == Some(bytes),
    decreases bytes.len(),
{
    if bytes.len() == 0 {
        assert(b64_decode(b64_encode(bytes)) == Some(bytes));
    } else if bytes.len() == 1 {
        lemma_b64_bits(bytes[0], 0, 0);
        assert(b64_decode(b64_encode(bytes)).unwrap() =~= bytes);
    } else if bytes.len() == 2 {
        lemma_b64_bits(bytes[0], bytes[1], 0);
        assert(b64_decode(b64_encode(bytes)).unwrap() =~= bytes);
    } else {
        let s = b64_encode(bytes);
        let rest = bytes.skip(3);
        lemma_b64_bits(bytes[0], bytes[1], bytes[2]);
        lemma_b64_decode_encode(rest);
        lemma_b64_encode_len(rest);
        if bytes.len() == 3 {
            assert(s.len() == 4);
            assert(b64_decode(s).unwrap() =~= bytes);
        } else {
            assert(s.len() > 4);
            assert(s.skip(4) =~= b64_encode(rest));
            assert(b64_decode(s).unwrap() =~= bytes);
        }
    }
}

/// The alphabet character for a six-bit value.
fn b64_char_exec(v: u8) -> (c: char)
    requires
        v < 64,
    ensures
        c == b64_char(v),
{
    if v < 26 {
        (65 + v) as char
    } else if v < 52 {
        (97 + (v - 26)) as char
    } else if v < 62 {
        (48 + (v - 52)) as char
    } else if v == 62 {
        '+'
    } else {
        '/'
    }
}

/// The six-bit value of an alphabet character, or -1 outside the alphabet.
fn b64_value_exec(c: char) -> (v: i32)
    ensures
        v == b64_value(c),
{
    let u = c as u32;
    if 65 <= u && u <= 90 {
        (u - 65) as i32
    } else if 97 <= u && u <= 122 {
        (u - 97 + 26) as i32
    } else if 48 <= u && u <= 57 {
        (u - 48 + 52) as i32
    } else if c == '+' {
        62
    } else if c == '/' {
        63
    } else {
        -1
    }
}

/// Appends the base64 rendering of `bytes` to `out`.
pub(crate) fn b64_encode_append(bytes: &Vec<u8>, out: &mut String)
    ensures
        final(out)@ == old(out)@ + b64_encode(bytes@),
{
    let n = bytes.len();
    let mut i: usize = 0;
    proof {
        assert(bytes@.skip(0) =~= bytes@);
    }
    while n - i >= 3
        invariant
            i <= n,
            n == bytes@.len(),
            out@ + b64_encode(bytes@.skip(i as int)) == old(out)@ + b64_encode(bytes@),
        decreases n - i,
    {
        let v1 = bytes[i];
        let v2 = bytes[i + 1];
        let v3 = bytes[i + 2];
        proof {
            lemma_b64_bits(v1, v2, v3);
            assert(bytes@.skip(i as int).skip(3) =~= bytes@.skip(i as int + 3));
        }
        let ghost prev = out@;
        push_char(out, b64_char_exec(v1 >> 2));
        push_char(out, b64_char_exec(((v1 & 3) << 4) | (v2 >> 4)));
        push_char(out, b64_char_exec(((v2 & 15) << 2) | (v3 >> 6)));
        push_char(out, b64_char_exec(v3 & 63));
        proof {
            assert(out@ =~= prev + b64_encode(bytes@.skip(i as int)).take(4));
            assert(prev + b64_encode(bytes@.skip(i as int)) =~= out@ + b64_encode(
                bytes@.skip(i as int + 3),
            ));
        }
        i = i + 3;
    }
    let ghost prev = out@;
    if n - i == 1 {
        let v1 = bytes[i];
        proof {
            lemma_b64_bits(v1, 0, 0);
        }
        push_char(out, b64_char_exec(v1 >> 2));
        push_char(out, b64_char_exec((v1 & 3) << 4));
        push_char(out, '=');
        push_char(out, '=');
        proof {
            assert(out@ =~= prev + b64_encode(bytes@.skip(i as int)));
        }
    } else if n - i == 2 {
        let v1 = bytes[i];
        let v2 = bytes[i + 1];
        proof {
            lemma_b64_bits(v1, v2, 0);
        }
        push_char(out, b64_char_exec(v1 >> 2));
        push_char(out, b64_char_exec(((v1 & 3) << 4) | (v2 >> 4)));
        push_char(out, b64_char_exec((v2 & 15) << 2));
        push_char(out, '=');
        proof {
            assert(out@ =~= prev + b64_encode(bytes@.skip(i as int)));
        }
    } else {
        proof {
            assert(bytes@.skip(i as int) =~= Seq::<u8>::empty());
            assert(out@ =~= prev + b64_encode(bytes@.skip(i as int)));
        }
    }
}

/// Decodes base64 text into its bytes; `None` exactly where the text is not
/// valid base64.
pub(crate) fn b64_decode_str(s: &str) -> (r: Option<Vec<u8>>)
    ensures
        match r {
            Some(v) => b64_decode(s@) == Some(v@),
            None => b64_decode(s@) is None,
        },
{
    let n = s.unicode_len();
    let mut out: Vec<u8> = Vec::new();
    let mut i: usize = 0;
    proof {
        assert(s@.skip(0) =~= s@);
    }
    while n - i > 4
        invariant
            i <= n,
            n == s@.len(),
            match b64_decode(s@.skip(i as int)) {
                Some(rest) => b64_decode(s@) == Some(out@ + rest),
                None => b64_decode(s@) is None,
            },
        decreases n - i,
    {
        let c1 = s.get_char(i);
        let c2 = s.get_char(i + 1);
        let c3 = s.get_char(i + 2);
        let c4 = s.get_char(i + 3);
        let v1 = b64_value_exec(c1);
        let v2 = b64_value_exec(c2);
        let v3 = b64_value_exec(c3);
        let v4 = b64_value_exec(c4);
        if v1 < 0 || v2 < 0 || v3 < 0 || v4 < 0 {
            return None;
        }
        proof {
            assert(s@.skip(i as int).skip(4) =~= s@.skip(i as int + 4));
        }
        let ghost prev = out@;
        out.push(((v1 as u8) << 2) | ((v2 as u8) >> 4));
        out.push((((v2 as u8) & 15) << 4) | ((v3 as u8) >> 2));
        out.push((((v3 as u8) & 3) << 6) | (v4 as u8));
        proof {
            assert(out@ =~= prev + seq![b64_byte1(c1, c2), b64_byte2(c2, c3), b64_byte3(c3, c4)]);
            if b64_decode(s@.skip(i as int + 4)) is Some {
                let r2 = b64_decode(s@.skip(i as int + 4)).unwrap();
                assert(out@ + r2 =~= prev + b64_decode(s@.skip(i as int)).unwrap());
            }
        }
        i = i + 4;
    }
    let remaining = n - i;
    let ghost tail = s@.skip(i as int);
    if remaining == 0 {
        proof {
            assert(tail =~= Seq::<char>::empty());
            assert(out@ + Seq::<u8>::empty() =~= out@);
        }
        Some(out)
    } else if remaining == 1 {
        None
    } else {
        let c1 = s.get_char(i);
        let c2 = s.get_char(i + 1);
        let v1 = b64_value_exec(c1);
        let v2 = b64_value_exec(c2);
        if v1 < 0 || v2 < 0 {
            return None;
        }
        let b1 = ((v1 as u8) << 2) | ((v2 as u8) >> 4);
        let ghost prev = out@;
        if remaining == 2 {
            out.push(b1);
            proof {
                assert(out@ =~= prev + b64_decode(tail).unwrap());
            }
            Some(out)
        } else if remaining == 3 {
            let c3 = s.get_char(i + 2);
            let v3 = b64_value_exec(c3);
            if v3 < 0 {
                return None;
            }
            out.push(b1);
            out.push((((v2 as u8) & 15) << 4) | ((v3 as u8) >> 2));
            proof {
                assert(out@ =~= prev + b64_decode(tail).unwrap());
            }
            Some(out)
        } else {
            let c3 = s.get_char(i + 2);
            let c4 = s.get_char(i + 3);
            let v3 = b64_value_exec(c3);
            let v4 = b64_value_exec(c4);
            if v3 >= 0 && v4 >= 0 {
                out.push(b1);
                out.push((((v2 as u8) & 15) << 4) | ((v3 as u8) >> 2));
                out.push((((v3 as u8) & 3) << 6) | (v4 as u8));
                proof {
                    assert(out@ =~= prev + b64_decode(tail).unwrap());
                }
                Some(out)
            } else if v3 >= 0 && c4 == '=' {
                out.push(b1);
                out.push((((v2 as u8) & 15) << 4) | ((v3 as u8) >> 2));
                proof {
                    assert(out@ =~= prev + b64_decode(tail).unwrap());
                }
                Some(out)
            } else if c3 == '=' && c4 == '=' {
                out.push(b1);
                proof {
                    assert(out@ =~= prev + b64_decode(tail).unwrap());
                }
                Some(out)
            } else {
                None
            }
        }
    }
}

} // verus!
