//! Constant-time comparison and object-id parsing.

use vstd::prelude::*;
use vstd::string::StringSliceAdditionalSpecFns;
use vstd::string::StrSliceExecFns;

use crate::error::{VaultError, VaultErrorKind};
use crate::primitives::{ct_eq_u8, ct_eq_usize, hex_decode, hex_decode_spec, hex_digit_value};

verus! {

broadcast use vstd::string::is_ascii_spec_bytes;

proof fn lemma_and_01(x: u8, y: u8)
    requires
        x == 0 || x == 1,
        y == 0 || y == 1,
    ensures
        x & y == (if x == 1 && y == 1 {
            1u8
        } else {
            0u8
        }),
{
    assert(x & y == (if x == 1 && y == 1 {
        1u8
    } else {
        0u8
    })) by (bit_vector)
        requires
            x == 0 || x == 1,
            y == 0 || y == 1,
    ;
}

/// Constant-time equality of two byte strings.
///
/// The length comparison is not hidden (differing lengths make the inputs
/// structurally invalid); every byte position up to the longer length is
/// compared with subtle's branch-free byte equality and the results are
/// combined without early exit.
pub fn ct_eq(a: &[u8], b: &[u8]) -> (r: bool)
    ensures
        r == (a@ == b@),
{
    let mut res: u8 = ct_eq_usize(a.len(), b.len());
    let max_len = if a.len() > b.len() {
        a.len()
    } else {
        b.len()
    };
    let mut i: usize = 0;
    while i < max_len
        invariant
            i <= max_len,
            max_len == (if a@.len() > b@.len() {
                a@.len()
            } else {
                b@.len()
            }),
            res == (if a@.len() == b@.len() && (forall|k: int| 0 <= k < i ==> a@[k] == b@[k]) {
                1u8
            } else {
                0u8
            }),
        decreases max_len - i,
    {
        let a_byte: u8 = if i < a.len() {
            a[i]
        } else {
            0
        };
        let b_byte: u8 = if i < b.len() {
            b[i]
        } else {
            0
        };
        let e = ct_eq_u8(a_byte, b_byte);
        proof {
            lemma_and_01(res, e);
        }
        res = res & e;
        i = i + 1;
    }
    if res == 1 {
        assert(a@ =~= b@);
    }
    res == 1
}

/// Unicode `White_Space` (what `char::is_whitespace` tests).
pub open spec fn is_unicode_whitespace(c: char) -> bool {
    let v = c as u32;
    (9 <= v <= 13) || v == 32 || v == 0x85 || v == 0xA0 || v == 0x1680 || (0x2000 <= v <= 0x200A)
        || v == 0x2028 || v == 0x2029 || v == 0x202F || v == 0x205F || v == 0x3000
}

/// Leading whitespace removed.
pub open spec fn trim_start_spec(s: Seq<char>) -> Seq<char>
    decreases s.len(),
{
    if s.len() > 0 && is_unicode_whitespace(s[0]) {
        trim_start_spec(s.drop_first())
    } else {
        s
    }
}

/// Trailing whitespace removed.
pub open spec fn trim_end_spec(s: Seq<char>) -> Seq<char>
    decreases s.len(),
{
    if s.len() > 0 && is_unicode_whitespace(s.last()) {
        trim_end_spec(s.drop_last())
    } else {
        s
    }
}

/// Leading and trailing whitespace removed (`str::trim`).
pub open spec fn trim_spec(s: Seq<char>) -> Seq<char> {
    trim_end_spec(trim_start_spec(s))
}

/// One leading `0x` removed, if there is one.
pub open spec fn strip_0x_spec(s: Seq<char>) -> Seq<char> {
    if s.len() >= 2 && s[0] == '0' && s[1] == 'x' {
        s.subrange(2, s.len() as int)
    } else {
        s
    }
}

/// `s.trim()`: the slice without leading and trailing Unicode whitespace.
#[verifier::external_body]
pub(crate) fn str_trim(s: &str) -> (r: &str)
    ensures
        r@ == trim_spec(s@),
{
    s.trim()
}

/// The text without one leading `0x`, if it has one.
fn strip_0x(s: &str) -> (r: &str)
    ensures
        r@ == strip_0x_spec(s@),
{
    let n = s.unicode_len();
    if n >= 2 && s.get_char(0) == '0' && s.get_char(1) == 'x' {
        s.substring_char(2, n)
    } else {
        s
    }
}

/// Characters of a string taken as bytes (meaningful for ASCII).
pub open spec fn ascii_bytes(s: Seq<char>) -> Seq<u8> {
    s.map_values(|c: char| c as u8)
}

/// The object id that `parse_hex_object_id` reads from `s`: after trimming
/// whitespace and one optional `0x` prefix, exactly 32 ASCII hex digits (either
/// case), decoded two digits per byte.
pub open spec fn hex_object_id_spec(s: Seq<char>) -> Option<Seq<u8>> {
    let t = strip_0x_spec(trim_spec(s));
    if t.len() == 32 && vstd::utf8::is_ascii_chars(t) && hex_decode_spec(
        ascii_bytes(t),
    ) is Some {
        hex_decode_spec(ascii_bytes(t))
    } else {
        None
    }
}

/// A nibble's hex digit reads back as that nibble, and is neither
/// whitespace nor `x`.
proof fn lemma_hex_char(d: u8)
    requires
        d < 16,
    ensures
        crate::primitives::hex_digit_value(crate::primitives::hex_char(d) as u8) == Some(d),
        !is_unicode_whitespace(crate::primitives::hex_char(d)),
        crate::primitives::hex_char(d) != 'x',
        (crate::primitives::hex_char(d) as u32) < 128,
{
}

/// What parsing gives back of printing: the lowercase hex of a 16-byte id
/// parses to that id.
pub proof fn lemma_hex_id_roundtrip(id: Seq<u8>)
    requires
        id.len() == 16,
    ensures
        hex_object_id_spec(crate::primitives::hex_encode_spec(id)) == Some(id),
{
    let s = crate::primitives::hex_encode_spec(id);
    assert forall|i: int| 0 <= i < 32 implies {
        &&& crate::primitives::hex_digit_value(#[trigger] s[i] as u8) is Some
        &&& !is_unicode_whitespace(s[i])
        &&& s[i] != 'x'
        &&& (s[i] as u32) < 128
    } by {
        if i % 2 == 0 {
            lemma_hex_char(id[i / 2] / 16);
        } else {
            lemma_hex_char(id[i / 2] % 16);
        }
    }
    assert(trim_start_spec(s) == s);
    assert(trim_end_spec(s) == s);
    assert(strip_0x_spec(s) == s);
    assert(vstd::utf8::is_ascii_chars(s));
    let b = ascii_bytes(s);
    assert forall|i: int| 0 <= i < 16 implies #[trigger] crate::primitives::hex_decode_spec(b)->0[i]
        == id[i] by {
        lemma_hex_char(id[i] / 16);
        lemma_hex_char(id[i] % 16);
        assert(b[2 * i] == s[2 * i] as u8);
        assert(b[2 * i + 1] == s[2 * i + 1] as u8);
        assert((2 * i) / 2 == i && (2 * i) % 2 == 0);
        assert((2 * i + 1) / 2 == i && (2 * i + 1) % 2 == 1);
    }
    assert(crate::primitives::hex_decode_spec(b) is Some);
    assert(crate::primitives::hex_decode_spec(b)->0 =~= id);
}

/// Parse a hex-encoded 16-byte object id; an optional `0x` prefix and
/// surrounding whitespace are accepted. Anything else is `InvalidInput`.
pub fn parse_hex_object_id(s: &str) -> (r: Result<[u8; 16], VaultError>)
    ensures
        r is Ok <==> hex_object_id_spec(s@) is Some,
        r matches Ok(id) ==> hex_object_id_spec(s@) == Some(id@),
        r matches Err(e) ==> e.kind == VaultErrorKind::InvalidInput,
{
    let t = str_trim(s);
    let u = strip_0x(t);
    let ascii = u.is_ascii();
    proof {
        if ascii {
            assert(u.spec_bytes() =~= ascii_bytes(u@));
        }
    }
    let ub = u.as_bytes();
    if !ascii || ub.len() != 32 {
        proof {
            if hex_object_id_spec(s@) is Some {
                let w = u@;
                assert(vstd::utf8::is_ascii_chars(w));
                assert(u.spec_bytes() =~= ascii_bytes(w));
            }
        }
        return Err(VaultError::new(VaultErrorKind::InvalidInput));
    }
    let bytes = match hex_decode(ub) {
        Ok(b) => b,
        Err(_) => {
            return Err(VaultError::new(VaultErrorKind::InvalidInput));
        },
    };
    let mut buf = [0u8; 16];
    let mut i: usize = 0;
    while i < 16
        invariant
            i <= 16,
            bytes@.len() == 16,
            forall|k: int| 0 <= k < i ==> buf@[k] == bytes@[k],
        decreases 16 - i,
    {
        buf[i] = bytes[i];
        i = i + 1;
    }
    assert(buf@ =~= bytes@);
    Ok(buf)
}

/// `std::str::from_utf8(bytes).ok()`: the string the bytes encode when
/// they are valid UTF-8 (vstd's `valid_utf8`), with the characters vstd's
/// `decode_utf8` gives and the input bytes as its bytes.
#[verifier::external_body]
pub(crate) fn utf8_str(bytes: &[u8]) -> (r: Option<&str>)
    ensures
        r is Some <==> vstd::utf8::valid_utf8(bytes@),
        r matches Some(s) ==> s@ == vstd::utf8::decode_utf8(bytes@) && s.spec_bytes() == bytes@,
{
    std::str::from_utf8(bytes).ok()
}

/// Leading NUL characters removed.
pub open spec fn trim_start_nul_spec(s: Seq<char>) -> Seq<char>
    decreases s.len(),
{
    if s.len() > 0 && s[0] == '\0' {
        trim_start_nul_spec(s.drop_first())
    } else {
        s
    }
}

/// Trailing NUL characters removed.
pub open spec fn trim_end_nul_spec(s: Seq<char>) -> Seq<char>
    decreases s.len(),
{
    if s.len() > 0 && s.last() == '\0' {
        trim_end_nul_spec(s.drop_last())
    } else {
        s
    }
}

/// Leading and trailing NUL characters removed (`trim_matches('\0')`).
pub open spec fn trim_nul_spec(s: Seq<char>) -> Seq<char> {
    trim_end_nul_spec(trim_start_nul_spec(s))
}

/// `s.trim_matches('\0')`: the slice without leading and trailing NULs.
#[verifier::external_body]
pub(crate) fn str_trim_nul(s: &str) -> (r: &str)
    ensures
        r@ == trim_nul_spec(s@),
{
    s.trim_matches('\0')
}

} // verus!
