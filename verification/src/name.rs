//! Fixed-length name fields.
//!
//! Names in the container (lump names, map names, texture names) are stored in
//! fixed-width byte fields, end-padded with null bytes. Decoding cuts the
//! field at the first null or control byte and requires the remaining bytes to
//! be valid UTF-8 text; encoding lays a string's UTF-8 bytes back down and
//! pads with nulls.

use vstd::prelude::*;
use vstd::string::StrSliceExecFns;
use vstd::utf8::decode_utf8;
use vstd::utf8::encode_utf8;
use vstd::utf8::encode_utf8_decode_utf8;
use vstd::utf8::encode_utf8_valid_utf8;
use vstd::utf8::valid_utf8;

verus! {

/// A byte that ends a fixed-length name field: null, another ASCII control
/// byte, or delete.
pub open spec fn is_name_end_byte(b: u8) -> bool {
    b < 0x20 || b == 0x7f
}

/// Index of the first name-ending byte, or the field's length if none occurs.
pub open spec fn spec_name_cut(bytes: Seq<u8>) -> int
    decreases bytes.len(),
{
    if bytes.len() == 0 {
        0
    } else if is_name_end_byte(bytes[0]) {
        0
    } else {
        1 + spec_name_cut(bytes.drop_first())
    }
}

/// The text bytes of a name field: everything before the first null or
/// control byte.
pub open spec fn spec_trim_name(bytes: Seq<u8>) -> Seq<u8> {
    bytes.take(spec_name_cut(bytes))
}

/// What decoding a name field yields: the characters of the trimmed bytes,
/// or nothing when those bytes are not valid UTF-8 text.
pub open spec fn spec_buf_to_string(bytes: Seq<u8>) -> Option<Seq<char>> {
    if valid_utf8(spec_trim_name(bytes)) {
        Some(decode_utf8(spec_trim_name(bytes)))
    } else {
        None
    }
}

/// The cut point is the first name-ending byte (or the length, if none).
pub proof fn lemma_name_cut(bytes: Seq<u8>)
    ensures
        0 <= spec_name_cut(bytes) <= bytes.len(),
        forall|i: int| 0 <= i < spec_name_cut(bytes) ==> !is_name_end_byte(bytes[i]),
        spec_name_cut(bytes) < bytes.len() ==> is_name_end_byte(bytes[spec_name_cut(bytes)]),
    decreases bytes.len(),
{
    if bytes.len() == 0 {
    } else if is_name_end_byte(bytes[0]) {
    } else {
        lemma_name_cut(bytes.drop_first());
        assert forall|i: int| 0 <= i < spec_name_cut(bytes) implies !is_name_end_byte(
            bytes[i],
        ) by {
            if i > 0 {
                assert(bytes.drop_first()[i - 1] == bytes[i]);
            }
        }
        if spec_name_cut(bytes) < bytes.len() {
            assert(bytes.drop_first()[spec_name_cut(bytes) - 1] == bytes[spec_name_cut(bytes)]);
        }
    }
}

/// Any index with the cut point's three properties is the cut point.
pub proof fn lemma_name_cut_unique(bytes: Seq<u8>, k: int)
    requires
        0 <= k <= bytes.len(),
        forall|i: int| 0 <= i < k ==> !is_name_end_byte(bytes[i]),
        k < bytes.len() ==> is_name_end_byte(bytes[k]),
    ensures
        spec_name_cut(bytes) == k,
{
    lemma_name_cut(bytes);
    let c = spec_name_cut(bytes);
    if c < k {
        assert(!is_name_end_byte(bytes[c]));
    } else if k < c {
        assert(!is_name_end_byte(bytes[k]));
    }
}

/// Relies on core::str::from_utf8: it returns `Ok` exactly when the input is
/// valid UTF-8, and the resulting string slice holds the characters that the
/// input bytes encode.
#[verifier::external_body]
fn utf8_to_string(bytes: &[u8]) -> (r: Option<String>)
    ensures
        r is Some <==> valid_utf8(bytes@),
        r is Some ==> r->0@ == decode_utf8(bytes@),
{
    match core::str::from_utf8(bytes) {
        Ok(s) => Some(s.to_string()),
        Err(_) => None,
    }
}

/// Decodes a fixed-length name field: the field is cut at the first null or
/// control byte, and the bytes before it must be valid UTF-8 text.
pub fn buf_to_string(input_buf: &[u8]) -> (r: Option<String>)
    ensures
        r is Some <==> spec_buf_to_string(input_buf@) is Some,
        r is Some ==> r->0@ == spec_buf_to_string(input_buf@)->0,
{
    let mut end: usize = 0;
    let len = input_buf.len();
    while end < len && !(input_buf[end] < 0x20 || input_buf[end] == 0x7f)
        invariant
            0 <= end <= len,
            len == input_buf@.len(),
            forall|i: int| 0 <= i < end ==> !is_name_end_byte(input_buf@[i]),
        decreases len - end,
    {
        end = end + 1;
    }
    proof {
        lemma_name_cut_unique(input_buf@, end as int);
        assert(input_buf@.subrange(0, end as int) =~= spec_trim_name(input_buf@));
    }
    let prefix = vstd::slice::slice_subrange(input_buf, 0, end);
    utf8_to_string(prefix)
}

/// The UTF-8 bytes of a name laid into a fixed-width field, end-padded with
/// null bytes.
pub open spec fn spec_encode_name(s: Seq<char>, width: int) -> Seq<u8> {
    encode_utf8(s) + Seq::new((width - encode_utf8(s).len()) as nat, |i: int| 0u8)
}

/// Encodes a name into a fixed-width field: its UTF-8 bytes followed by null
/// padding.
pub fn encode_name(name: &str, width: usize) -> (r: Vec<u8>)
    requires
        encode_utf8(name@).len() <= width,
    ensures
        r@ == spec_encode_name(name@, width as int),
        r@.len() == width,
{
    let bytes = name.as_bytes();
    let mut r: Vec<u8> = Vec::new();
    let n = bytes.len();
    let mut i: usize = 0;
    while i < n
        invariant
            0 <= i <= n,
            n == encode_utf8(name@).len(),
            bytes@ == encode_utf8(name@),
            r@ =~= encode_utf8(name@).take(i as int),
        decreases n - i,
    {
        r.push(bytes[i]);
        i = i + 1;
    }
    while i < width
        invariant
            n <= i <= width,
            n == encode_utf8(name@).len(),
            r@ =~= spec_encode_name(name@, i as int),
        decreases width - i,
    {
        r.push(0u8);
        i = i + 1;
    }
    proof {
        assert(r@ =~= spec_encode_name(name@, width as int));
    }
    r
}

/// Round trip for fixed-length name fields: encoding a name whose UTF-8 bytes
/// fit the field and contain no null or control byte, then decoding the
/// field, yields the name back.
pub proof fn lemma_name_round_trip(s: Seq<char>, width: int)
    requires
        encode_utf8(s).len() <= width,
        forall|i: int| 0 <= i < encode_utf8(s).len() ==> !is_name_end_byte(
            #[trigger] encode_utf8(s)[i],
        ),
    ensures
        spec_buf_to_string(spec_encode_name(s, width)) == Some(s),
{
    let enc = encode_utf8(s);
    let field = spec_encode_name(s, width);
    assert(field.len() == width);
    assert(forall|i: int| 0 <= i < enc.len() ==> field[i] == enc[i]);
    assert(enc.len() < width ==> is_name_end_byte(field[enc.len() as int]));
    lemma_name_cut_unique(field, enc.len() as int);
    assert(spec_trim_name(field) =~= enc);
    encode_utf8_valid_utf8(s);
    encode_utf8_decode_utf8(s);
}

/// Exact equality of two string slices, decided character by character.
pub fn str_eq(a: &str, b: &str) -> (r: bool)
    ensures
        r <==> a@ == b@,
{
    let la = a.unicode_len();
    let lb = b.unicode_len();
    if la != lb {
        proof {
            assert(a@.len() != b@.len());
        }
        return false;
    }
    let mut i: usize = 0;
    while i < la
        invariant
            0 <= i <= la,
            la == a@.len(),
            la == b@.len(),
            forall|j: int| 0 <= j < i ==> a@[j] == b@[j],
        decreases la - i,
    {
        if a.get_char(i) != b.get_char(i) {
            return false;
        }
        i = i + 1;
    }
    proof {
        assert(a@ =~= b@);
    }
    true
}

/// Strict lexicographic order on character sequences, by Unicode scalar
/// value, with a proper prefix ordered before its extensions.
pub open spec fn lex_lt(a: Seq<char>, b: Seq<char>) -> bool
    decreases a.len(),
{
    b.len() > 0 && (a.len() == 0 || (a[0] as u32) < (b[0] as u32) || (a[0] == b[0] && lex_lt(
        a.drop_first(),
        b.drop_first(),
    )))
}

/// Lexicographic order admits no cycle of length two.
pub proof fn lemma_lex_lt_asymmetric(a: Seq<char>, b: Seq<char>)
    requires
        lex_lt(a, b),
    ensures
        !lex_lt(b, a),
    decreases a.len(),
{
    if a.len() > 0 && b.len() > 0 && a[0] == b[0] {
        lemma_lex_lt_asymmetric(a.drop_first(), b.drop_first());
    }
}

/// Lexicographic order chains across a middle element.
pub proof fn lemma_lex_lt_transitive(a: Seq<char>, b: Seq<char>, c: Seq<char>)
    requires
        lex_lt(a, b),
        lex_lt(b, c),
    ensures
        lex_lt(a, c),
    decreases a.len(),
{
    if a.len() > 0 && b.len() > 0 && c.len() > 0 && a[0] == b[0] && b[0] == c[0] {
        lemma_lex_lt_transitive(a.drop_first(), b.drop_first(), c.drop_first());
    }
}

/// Non-strict lexicographic order: `b` is not strictly below `a`.
pub open spec fn lex_le(a: Seq<char>, b: Seq<char>) -> bool {
    !lex_lt(b, a)
}

/// Decides [`lex_lt`] on two string slices.
pub fn str_lt(a: &str, b: &str) -> (r: bool)
    ensures
        r == lex_lt(a@, b@),
{
    let la = a.unicode_len();
    let lb = b.unicode_len();
    let min = if la < lb {
        la
    } else {
        lb
    };
    let mut i: usize = 0;
    proof {
        assert(a@.skip(0) =~= a@);
        assert(b@.skip(0) =~= b@);
    }
    while i < min
        invariant
            0 <= i <= min,
            la == a@.len(),
            lb == b@.len(),
            min == if la < lb {
                la
            } else {
                lb
            },
            lex_lt(a@, b@) == lex_lt(a@.skip(i as int), b@.skip(i as int)),
        decreases min - i,
    {
        let ca = a.get_char(i);
        let cb = b.get_char(i);
        if (ca as u32) < (cb as u32) {
            proof {
                assert(a@.skip(i as int)[0] == ca);
                assert(b@.skip(i as int)[0] == cb);
            }
            return true;
        }
        if (cb as u32) < (ca as u32) {
            proof {
                assert(a@.skip(i as int)[0] == ca);
                assert(b@.skip(i as int)[0] == cb);
                assert(!((ca as u32) < (cb as u32)));
                assert(ca != cb) by {
                    if ca == cb {
                        assert((ca as u32) == (cb as u32));
                    }
                }
            }
            return false;
        }
        proof {
            assert((ca as u32) == (cb as u32));
            assert(ca == cb) by {
                vstd::utf8::char_u32_cast(ca, ca as u32);
                vstd::utf8::char_u32_cast(cb, cb as u32);
            }
            assert(a@.skip(i as int)[0] == ca);
            assert(b@.skip(i as int)[0] == cb);
            assert(a@.skip(i as int).drop_first() =~= a@.skip(i as int + 1));
            assert(b@.skip(i as int).drop_first() =~= b@.skip(i as int + 1));
        }
        i = i + 1;
    }
    proof {
        assert(a@.skip(i as int).len() == la - i);
        assert(b@.skip(i as int).len() == lb - i);
    }
    la < lb
}

} // verus!
