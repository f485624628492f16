//! Little-endian integers and length-prefixed UTF-8 text, in the binary
//! layout that instructions and stored records use.

use vstd::bytes::*;
use vstd::prelude::*;
use vstd::slice::*;
use vstd::utf8::*;

verus! {

/// A text is its UTF-8 byte length as four little-endian bytes, then its UTF-8 bytes.
pub open spec fn text_bytes(s: Seq<char>) -> Seq<u8> {
    spec_u32_to_le_bytes(encode_utf8(s).len() as u32) + encode_utf8(s)
}

/// The UTF-8 length of the text fits in the four-byte length prefix.
pub open spec fn text_fits(s: Seq<char>) -> bool {
    encode_utf8(s).len() <= u32::MAX
}

/// `p` occurs in `d` starting at position `pos`.
pub open spec fn prefix_at(p: Seq<u8>, d: Seq<u8>, pos: int) -> bool {
    0 <= pos && pos + p.len() <= d.len() && d.subrange(pos, pos + p.len()) == p
}

pub proof fn lemma_prefix_split(p: Seq<u8>, q: Seq<u8>, d: Seq<u8>, pos: int)
    requires
        prefix_at(p + q, d, pos),
    ensures
        prefix_at(p, d, pos),
        prefix_at(q, d, pos + p.len()),
{
    let whole = d.subrange(pos, pos + p.len() + q.len());
    assert(whole == p + q);
    assert(d.subrange(pos, pos + p.len()) =~= whole.subrange(0, p.len() as int));
    assert(d.subrange(pos + p.len(), pos + p.len() + q.len()) =~= whole.subrange(
        p.len() as int,
        whole.len() as int,
    ));
    assert(whole.subrange(0, p.len() as int) =~= p);
    assert(whole.subrange(p.len() as int, whole.len() as int) =~= q);
}

pub proof fn lemma_prefix_join(p: Seq<u8>, q: Seq<u8>, d: Seq<u8>, pos: int)
    requires
        prefix_at(p, d, pos),
        prefix_at(q, d, pos + p.len()),
    ensures
        prefix_at(p + q, d, pos),
{
    assert(d.subrange(pos, pos + p.len() + q.len()) =~= p + q);
}

/// Two texts that both fit and both occur at one position are the same text.
pub proof fn lemma_text_unique(d: Seq<u8>, pos: int, s1: Seq<char>, s2: Seq<char>)
    requires
        text_fits(s1),
        text_fits(s2),
        prefix_at(text_bytes(s1), d, pos),
        prefix_at(text_bytes(s2), d, pos),
    ensures
        s1 == s2,
{
    lemma_auto_spec_u32_to_from_le_bytes();
    let e1 = encode_utf8(s1);
    let e2 = encode_utf8(s2);
    let l1 = spec_u32_to_le_bytes(e1.len() as u32);
    let l2 = spec_u32_to_le_bytes(e2.len() as u32);
    lemma_prefix_split(l1, e1, d, pos);
    lemma_prefix_split(l2, e2, d, pos);
    assert(l1 == l2);
    assert(e1.len() == e2.len());
    assert(e1 == e2);
    encode_utf8_decode_utf8(s1);
    encode_utf8_decode_utf8(s2);
}

/// Relies on String::from_utf8: it accepts exactly the valid UTF-8 byte
/// sequences, and the string it returns holds the characters they encode.
#[verifier::external_body]
fn string_from_utf8(bytes: Vec<u8>) -> (r: Option<String>)
    ensures
        r is Some <==> valid_utf8(bytes@),
        r is Some ==> r->Some_0@ == decode_utf8(bytes@),
{
    match String::from_utf8(bytes) {
        Ok(s) => Some(s),
        Err(_) => None,
    }
}

/// Reads a text at `pos`; on success returns it with the position just past it.
pub fn read_text(data: &[u8], pos: usize) -> (r: Option<(String, usize)>)
    ensures
        match r {
            Some((s, end)) => text_fits(s@) && end == pos + text_bytes(s@).len() && prefix_at(
                text_bytes(s@),
                data@,
                pos as int,
            ),
            None => forall|s: Seq<char>|
                text_fits(s) ==> !prefix_at(#[trigger] text_bytes(s), data@, pos as int),
        },
{
    proof {
        lemma_auto_spec_u32_to_from_le_bytes();
    }
    let len = data.len();
    if pos > len || len - pos < 4 {
        return None;
    }
    let head = slice_subrange(data, pos, pos + 4);
    let n = u32_from_le_bytes(head);
    let start = pos + 4;
    if len - start < n as usize {
        proof {
            assert forall|s: Seq<char>| text_fits(s) implies !prefix_at(
                #[trigger] text_bytes(s),
                data@,
                pos as int,
            ) by {
                if prefix_at(text_bytes(s), data@, pos as int) {
                    let e = encode_utf8(s);
                    lemma_prefix_split(spec_u32_to_le_bytes(e.len() as u32), e, data@, pos as int);
                    assert(head@ == spec_u32_to_le_bytes(e.len() as u32));
                }
            }
        }
        return None;
    }
    let end = start + n as usize;
    let bytes = slice_to_vec(slice_subrange(data, start, end));
    let ghost b = bytes@;
    match string_from_utf8(bytes) {
        Some(s) => {
            proof {
                decode_utf8_encode_utf8(b);
                assert(spec_u32_to_le_bytes(n) == head@);
                assert(text_bytes(s@) =~= data@.subrange(pos as int, end as int));
            }
            Some((s, end))
        },
        None => {
            proof {
                assert forall|s: Seq<char>| text_fits(s) implies !prefix_at(
                    #[trigger] text_bytes(s),
                    data@,
                    pos as int,
                ) by {
                    if prefix_at(text_bytes(s), data@, pos as int) {
                        let e = encode_utf8(s);
                        lemma_prefix_split(
                            spec_u32_to_le_bytes(e.len() as u32),
                            e,
                            data@,
                            pos as int,
                        );
                        assert(head@ == spec_u32_to_le_bytes(e.len() as u32));
                        assert(e == b);
                        encode_utf8_valid_utf8(s);
                    }
                }
            }
            None
        },
    }
}

/// Reads a little-endian `u64` at `pos`.
pub fn read_u64(data: &[u8], pos: usize) -> (r: Option<u64>)
    ensures
        match r {
            Some(x) => prefix_at(spec_u64_to_le_bytes(x), data@, pos as int),
            None => pos + 8 > data@.len(),
        },
{
    proof {
        lemma_auto_spec_u64_to_from_le_bytes();
    }
    if pos > data.len() || data.len() - pos < 8 {
        return None;
    }
    let x = u64_from_le_bytes(slice_subrange(data, pos, pos + 8));
    Some(x)
}

/// Appends a text that fits.
pub fn push_text(out: &mut Vec<u8>, s: &String)
    requires
        text_fits(s@),
    ensures
        final(out)@ == old(out)@ + text_bytes(s@),
{
    let bytes = s.as_str().as_bytes();
    let n = bytes.len() as u32;
    let head = u32_to_le_bytes(n);
    out.extend_from_slice(head.as_slice());
    out.extend_from_slice(bytes);
    assert(final(out)@ =~= old(out)@ + text_bytes(s@));
}

/// Appends a little-endian `u64`.
pub fn push_u64(out: &mut Vec<u8>, x: u64)
    ensures
        final(out)@ == old(out)@ + spec_u64_to_le_bytes(x),
{
    let bytes = u64_to_le_bytes(x);
    out.extend_from_slice(bytes.as_slice());
    assert(final(out)@ =~= old(out)@ + spec_u64_to_le_bytes(x));
}

/// Overwrites the front of `buf` with `bytes`, keeping its length and the rest of it.
pub fn write_front(buf: &mut Vec<u8>, bytes: &Vec<u8>)
    requires
        bytes@.len() <= old(buf)@.len(),
    ensures
        final(buf)@ == bytes@ + old(buf)@.skip(bytes@.len() as int),
{
    let mut i: usize = 0;
    while i < bytes.len()
        invariant
            i <= bytes@.len() <= buf@.len(),
            buf@.len() == old(buf)@.len(),
            forall|j: int| 0 <= j < i ==> buf@[j] == bytes@[j],
            forall|j: int| bytes@.len() <= j < buf@.len() ==> buf@[j] == old(buf)@[j],
        decreases bytes@.len() - i,
    {
        buf.set(i, bytes[i]);
        i = i + 1;
    }
    assert(buf@ =~= bytes@ + old(buf)@.skip(bytes@.len() as int));
}

} // verus!
