//! Standard base64 with padding: which texts are valid, what they decode to,
//! and how bytes are encoded — the grammar the string classifier checks
//! first.

use vstd::prelude::*;
use vstd::utf8::encode_utf8;

verus! {

/// Alphabet index of a byte under the standard base64 alphabet, `-1` when
/// the byte is not in the alphabet.
pub open spec fn b64_val(b: u8) -> int {
    if 65 <= b <= 90 {
        b - 65
    } else if 97 <= b <= 122 {
        b - 71
    } else if 48 <= b <= 57 {
        b + 4
    } else if b == 43 {
        62
    } else if b == 47 {
        63
    } else {
        -1
    }
}

pub open spec fn is_b64_byte(b: u8) -> bool {
    b64_val(b) >= 0
}

/// Alphabet byte for a six-bit value.
pub open spec fn alpha(v: int) -> u8
    recommends
        0 <= v < 64,
{
    if v < 26 {
        (65 + v) as u8
    } else if v < 52 {
        (71 + v) as u8
    } else if v < 62 {
        (v - 4) as u8
    } else if v == 62 {
        43u8
    } else {
        47u8
    }
}

/// The texts the standard decoder accepts: length a multiple of four,
/// alphabet bytes with canonical trailing `=` padding, and zero trailing
/// bits in the final partial group.
pub open spec fn is_b64(s: Seq<u8>) -> bool {
    let n = s.len() as int;
    &&& n % 4 == 0
    &&& (n > 0 ==> {
        let pad: int = if s[n - 1] == 61 {
            if s[n - 2] == 61 {
                2
            } else {
                1
            }
        } else {
            0
        };
        &&& (forall|i: int| 0 <= i < n - pad ==> is_b64_byte(#[trigger] s[i]))
        &&& (pad == 1 ==> b64_val(s[n - 2]) % 4 == 0)
        &&& (pad == 2 ==> b64_val(s[n - 3]) % 16 == 0)
    })
}

/// First decoded byte of a group: six bits of `a`, top two of `b`.
pub open spec fn q1(a: int, b: int) -> u8 {
    (a * 4 + b / 16) as u8
}

/// Second decoded byte: low four bits of `b`, top four of `c`.
pub open spec fn q2(b: int, c: int) -> u8 {
    ((b % 16) * 16 + c / 4) as u8
}

/// Third decoded byte: low two bits of `c`, six bits of `d`.
pub open spec fn q3(c: int, d: int) -> u8 {
    ((c % 4) * 64 + d) as u8
}

/// The bytes a valid base64 text decodes to.
pub open spec fn b64_bytes(s: Seq<u8>) -> Seq<u8>
    decreases s.len(),
{
    if s.len() < 4 {
        Seq::empty()
    } else if s.len() == 4 {
        let a = b64_val(s[0]);
        let b = b64_val(s[1]);
        let c = b64_val(s[2]);
        let d = b64_val(s[3]);
        if s[3] == 61 && s[2] == 61 {
            seq![q1(a, b)]
        } else if s[3] == 61 {
            seq![q1(a, b), q2(b, c)]
        } else {
            seq![q1(a, b), q2(b, c), q3(c, d)]
        }
    } else {
        let a = b64_val(s[0]);
        let b = b64_val(s[1]);
        let c = b64_val(s[2]);
        let d = b64_val(s[3]);
        seq![q1(a, b), q2(b, c), q3(c, d)].add(b64_bytes(s.skip(4)))
    }
}

/// The canonical base64 text of a byte sequence: full three-byte groups,
/// then a padded final group.
pub open spec fn b64_text(b: Seq<u8>) -> Seq<u8>
    decreases b.len(),
{
    if b.len() == 0 {
        Seq::empty()
    } else if b.len() == 1 {
        let x = b[0] as int;
        seq![alpha(x / 4), alpha((x % 4) * 16), 61u8, 61u8]
    } else if b.len() == 2 {
        let x = b[0] as int;
        let y = b[1] as int;
        seq![alpha(x / 4), alpha((x % 4) * 16 + y / 16), alpha((y % 16) * 4), 61u8]
    } else {
        let x = b[0] as int;
        let y = b[1] as int;
        let z = b[2] as int;
        seq![
            alpha(x / 4),
            alpha((x % 4) * 16 + y / 16),
            alpha((y % 16) * 4 + z / 64),
            alpha(z % 64),
        ].add(b64_text(b.skip(3)))
    }
}

/// The alphabet byte of a six-bit value is in the alphabet, is not the
/// padding byte, and maps back to the same value.
pub proof fn lemma_alpha_val(v: int)
    requires
        0 <= v < 64,
    ensures
        b64_val(alpha(v)) == v,
        alpha(v) != 61u8,
        is_b64_byte(alpha(v)),
{
}

/// Encoding any byte sequence yields a valid base64 text that decodes back
/// to the same bytes.
#[verifier::rlimit(50)]
pub proof fn lemma_b64_roundtrip(b: Seq<u8>)
    ensures
        is_b64(b64_text(b)),
        b64_bytes(b64_text(b)) == b,
        b64_text(b).len() % 4 == 0,
        b.len() > 0 ==> b64_text(b).len() >= 4,
    decreases b.len(),
{
    let s = b64_text(b);
    if b.len() == 0 {
        assert(b64_bytes(s) =~= b);
    } else if b.len() == 1 {
        let x = b[0] as int;
        lemma_alpha_val(x / 4);
        lemma_alpha_val((x % 4) * 16);
        assert(((x % 4) * 16) % 16 == 0 && (x / 4) * 4 + ((x % 4) * 16) / 16 == x && 0 <= (x % 4)
            * 16 < 64) by (nonlinear_arith)
            requires
                0 <= x < 256,
        ;
        assert(b64_bytes(s) =~= b);
    } else if b.len() == 2 {
        let x = b[0] as int;
        let y = b[1] as int;
        lemma_alpha_val(x / 4);
        lemma_alpha_val((x % 4) * 16 + y / 16);
        lemma_alpha_val((y % 16) * 4);
        assert({
            &&& 0 <= (x % 4) * 16 + y / 16 < 64
            &&& 0 <= (y % 16) * 4 < 64
            &&& ((y % 16) * 4) % 4 == 0
            &&& (x / 4) * 4 + ((x % 4) * 16 + y / 16) / 16 == x
            &&& (((x % 4) * 16 + y / 16) % 16) * 16 + ((y % 16) * 4) / 4 == y
        }) by (nonlinear_arith)
            requires
                0 <= x < 256 && 0 <= y < 256,
        ;
        assert(b64_bytes(s) =~= b);
    } else {
        let x = b[0] as int;
        let y = b[1] as int;
        let z = b[2] as int;
        lemma_alpha_val(x / 4);
        lemma_alpha_val((x % 4) * 16 + y / 16);
        lemma_alpha_val((y % 16) * 4 + z / 64);
        lemma_alpha_val(z % 64);
        assert({
            &&& 0 <= (x % 4) * 16 + y / 16 < 64
            &&& 0 <= (y % 16) * 4 + z / 64 < 64
            &&& 0 <= z % 64 < 64
            &&& (x / 4) * 4 + ((x % 4) * 16 + y / 16) / 16 == x
            &&& (((x % 4) * 16 + y / 16) % 16) * 16 + ((y % 16) * 4 + z / 64) / 4 == y
            &&& (((y % 16) * 4 + z / 64) % 4) * 64 + z % 64 == z
        }) by (nonlinear_arith)
            requires
                0 <= x < 256 && 0 <= y < 256 && 0 <= z < 256,
        ;
        lemma_b64_roundtrip(b.skip(3));
        let t = b64_text(b.skip(3));
        assert(s.skip(4) =~= t);
        if b.len() == 3 {
            assert(b.skip(3).len() == 0);
            assert(s.len() == 4);
            assert(is_b64(s));
            assert(b64_bytes(s) =~= b);
        } else {
            assert(b.skip(3).len() > 0);
            assert(t.len() % 4 == 0 && t.len() >= 4);
            assert(s.len() == 4 + t.len());
            let n = s.len() as int;
            let tn = t.len() as int;
            assert(s[n - 1] == t[tn - 1] && s[n - 2] == t[tn - 2] && s[n - 3] == t[tn - 3]);
            let pad: int = if s[n - 1] == 61 {
                if s[n - 2] == 61 {
                    2
                } else {
                    1
                }
            } else {
                0
            };
            assert forall|i: int| 0 <= i < n - pad implies is_b64_byte(#[trigger] s[i]) by {
                if i >= 4 {
                    assert(s[i] == t[i - 4]);
                }
            }
            assert(is_b64(s));
            assert(b64_bytes(s) =~= b);
        }
    }
}

} // verus!

verus! {

/// Relies on base64's standard engine with required canonical padding and
/// trailing-bit rejection: it accepts exactly the texts `is_b64` describes
/// and decodes them to `b64_bytes`.
#[verifier::external_body]
pub(crate) fn b64_decode(s: &str) -> (r: Option<Vec<u8>>)
    ensures
        r is Some <==> is_b64(encode_utf8(s@)),
        match r {
            Some(v) => v@ == b64_bytes(encode_utf8(s@)),
            None => true,
        },
{
    match base64::Engine::decode(&base64::engine::general_purpose::STANDARD, s) {
        Ok(v) => Some(v),
        Err(_) => None,
    }
}

/// Relies on base64's standard engine: encoding emits standard-alphabet
/// text with canonical `=` padding.
#[verifier::external_body]
pub(crate) fn b64_encode(b: &Vec<u8>) -> (r: String)
    ensures
        encode_utf8(r@) == b64_text(b@),
{
    base64::Engine::encode(&base64::engine::general_purpose::STANDARD, b.as_slice())
}

} // verus!
