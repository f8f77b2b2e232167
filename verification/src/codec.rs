//! Byte framing of the ledger's records: the fixed-width little-endian layout
//! in which integers take eight bytes and a string is its UTF-8 length (eight
//! bytes) followed by its UTF-8 bytes. Hashes are taken over this layout.

use vstd::prelude::*;
use vstd::bytes::spec_u64_to_le_bytes;
use vstd::bytes::spec_u32_to_le_bytes;
use vstd::utf8::encode_utf8;

verus! {

/// The layout of a string: its UTF-8 length, then its UTF-8 bytes.
pub open spec fn str_bytes(s: Seq<char>) -> Seq<u8> {
    spec_u64_to_le_bytes(encode_utf8(s).len() as u64) + encode_utf8(s)
}

/// Whether the UTF-8 length of a string fits the eight bytes it is written in.
pub open spec fn str_fits(s: Seq<char>) -> bool {
    encode_utf8(s).len() <= u64::MAX
}

/// Regrouping a concatenation of seven parts to the right.
pub proof fn lemma_regroup7(a: Seq<u8>, b: Seq<u8>, c: Seq<u8>, d: Seq<u8>, e: Seq<u8>, f: Seq<u8>, g: Seq<u8>)
    ensures
        a + b + c + d + e + f + g == a + (b + (c + (d + (e + (f + g))))),
{
    assert(a + b + c + d + e + f + g =~= a + (b + (c + (d + (e + (f + g))))));
}

/// Regrouping a concatenation of eight parts to the right.
pub proof fn lemma_regroup8(a: Seq<u8>, b: Seq<u8>, c: Seq<u8>, d: Seq<u8>, e: Seq<u8>, f: Seq<u8>, g: Seq<u8>, h: Seq<u8>)
    ensures
        a + b + c + d + e + f + g + h == a + (b + (c + (d + (e + (f + (g + h)))))),
{
    assert(a + b + c + d + e + f + g + h =~= a + (b + (c + (d + (e + (f + (g + h)))))));
}

/// Regrouping a concatenation of three parts to the right.
pub proof fn lemma_regroup3(a: Seq<u8>, b: Seq<u8>, c: Seq<u8>)
    ensures
        a + b + c == a + (b + c),
{
    assert(a + b + c =~= a + (b + c));
}

/// An integer's eight bytes can be read back off the front of a layout.
pub proof fn lemma_u64_prefix(x: u64, y: u64, rest1: Seq<u8>, rest2: Seq<u8>)
    requires
        spec_u64_to_le_bytes(x) + rest1 == spec_u64_to_le_bytes(y) + rest2,
    ensures
        x == y,
        rest1 == rest2,
{
    vstd::bytes::lemma_auto_spec_u64_to_from_le_bytes();
    let whole = spec_u64_to_le_bytes(x) + rest1;
    assert(spec_u64_to_le_bytes(x) =~= whole.take(8));
    assert(spec_u64_to_le_bytes(y) =~= (spec_u64_to_le_bytes(y) + rest2).take(8));
    assert(rest1 =~= whole.skip(8));
    assert(rest2 =~= (spec_u64_to_le_bytes(y) + rest2).skip(8));
}

/// A string's layout can be read back off the front of a layout.
pub proof fn lemma_str_prefix(a: Seq<char>, b: Seq<char>, rest1: Seq<u8>, rest2: Seq<u8>)
    requires
        str_fits(a),
        str_fits(b),
        str_bytes(a) + rest1 == str_bytes(b) + rest2,
    ensures
        a == b,
        rest1 == rest2,
{
    let ea = encode_utf8(a);
    let eb = encode_utf8(b);
    assert(str_bytes(a) + rest1 =~= spec_u64_to_le_bytes(ea.len() as u64) + (ea + rest1));
    assert(str_bytes(b) + rest2 =~= spec_u64_to_le_bytes(eb.len() as u64) + (eb + rest2));
    lemma_u64_prefix(ea.len() as u64, eb.len() as u64, ea + rest1, eb + rest2);
    assert(ea.len() == eb.len());
    assert(ea =~= (ea + rest1).take(ea.len() as int));
    assert(eb =~= (eb + rest2).take(eb.len() as int));
    assert(rest1 =~= (ea + rest1).skip(ea.len() as int));
    assert(rest2 =~= (eb + rest2).skip(eb.len() as int));
    vstd::utf8::encode_utf8_decode_utf8(a);
    vstd::utf8::encode_utf8_decode_utf8(b);
}

/// Appends every byte of `data`.
pub fn push_bytes(out: &mut Vec<u8>, data: &[u8])
    ensures
        final(out)@ == old(out)@ + data@,
{
    let mut i: usize = 0;
    while i < data.len()
        invariant
            i <= data@.len(),
            out@ == old(out)@ + data@.take(i as int),
        decreases data@.len() - i,
    {
        out.push(data[i]);
        proof {
            assert(data@.take(i + 1) =~= data@.take(i as int).push(data@[i as int]));
        }
        i = i + 1;
    }
    assert(data@.take(data@.len() as int) =~= data@);
}

/// Appends the eight little-endian bytes of `x`.
pub fn push_u64(out: &mut Vec<u8>, x: u64)
    ensures
        final(out)@ == old(out)@ + spec_u64_to_le_bytes(x),
{
    let mut bytes = vstd::bytes::u64_to_le_bytes(x);
    out.append(&mut bytes);
}

/// Appends the four little-endian bytes of `x`.
pub fn push_u32(out: &mut Vec<u8>, x: u32)
    ensures
        final(out)@ == old(out)@ + spec_u32_to_le_bytes(x),
{
    let mut bytes = vstd::bytes::u32_to_le_bytes(x);
    out.append(&mut bytes);
}

/// Appends the layout of a string.
pub fn push_str(out: &mut Vec<u8>, s: &str)
    ensures
        final(out)@ == old(out)@ + str_bytes(s@),
{
    let bytes = s.as_bytes();
    push_u64(out, bytes.len() as u64);
    push_bytes(out, bytes);
    assert(final(out)@ =~= old(out)@ + str_bytes(s@));
}

} // verus!
