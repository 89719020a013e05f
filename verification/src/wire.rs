//! Byte-level primitives shared by the envelope and ticket codecs: writing and
//! reading little-endian lengths, raw byte runs, length-prefixed blocks and
//! UTF-8 text, each with an exact description of the bytes produced or
//! consumed.
use vstd::prelude::*;

verus! {

use vstd::bytes::{
    spec_u64_to_le_bytes, spec_u64_from_le_bytes, lemma_auto_spec_u64_to_from_le_bytes,
    u64_to_le_bytes, u64_from_le_bytes,
};
use vstd::utf8::{encode_utf8, decode_utf8, valid_utf8};
use vstd::slice::{slice_subrange, slice_to_vec};
use vstd::string::StrSliceExecFns;

/// True when `piece` occurs in `whole` starting at offset `at`.
pub open spec fn piece_at(whole: Seq<u8>, at: int, piece: Seq<u8>) -> bool {
    &&& 0 <= at
    &&& at + piece.len() <= whole.len()
    &&& whole.subrange(at, at + piece.len()) == piece
}

/// The encoding of a length-prefixed block: eight little-endian length bytes,
/// then the block itself.
pub open spec fn spec_block(b: Seq<u8>) -> Seq<u8> {
    spec_u64_to_le_bytes(b.len() as u64) + b
}

/// The encoding of a string: a length-prefixed block holding its UTF-8 bytes.
pub open spec fn spec_string_block(s: Seq<char>) -> Seq<u8> {
    spec_block(encode_utf8(s))
}

/// Relies on std's String::from_utf8: it succeeds exactly on valid UTF-8
/// input and returns the string those bytes encode.
#[verifier::external_body]
fn bytes_to_string(v: Vec<u8>) -> (r: Option<String>)
    ensures
        r is Some <==> valid_utf8(v@),
        r is Some ==> r->0@ == decode_utf8(v@),
{
    match String::from_utf8(v) {
        Ok(s) => Some(s),
        Err(_) => None,
    }
}

/// Appends the eight little-endian bytes of `x`.
pub fn write_u64(out: &mut Vec<u8>, x: u64)
    ensures
        final(out)@ == old(out)@ + spec_u64_to_le_bytes(x),
{
    let bytes = u64_to_le_bytes(x);
    out.extend_from_slice(bytes.as_slice());
}

/// Appends the bytes of `b` as they are.
pub fn write_bytes(out: &mut Vec<u8>, b: &Vec<u8>)
    ensures
        final(out)@ == old(out)@ + b@,
{
    out.extend_from_slice(b.as_slice());
}

/// Appends a length-prefixed block holding the bytes of `b`.
pub fn write_block(out: &mut Vec<u8>, b: &Vec<u8>)
    ensures
        final(out)@ == old(out)@ + spec_block(b@),
        b@.len() <= u64::MAX,
{
    write_u64(out, b.len() as u64);
    write_bytes(out, b);
    proof {
        assert(final(out)@ =~= old(out)@ + spec_block(b@));
    }
}

/// Appends a length-prefixed block holding the UTF-8 bytes of `s`.
pub fn write_string(out: &mut Vec<u8>, s: &String)
    ensures
        final(out)@ == old(out)@ + spec_string_block(s@),
        encode_utf8(s@).len() <= u64::MAX,
{
    let bytes = s.as_str().as_bytes_vec();
    let n = bytes.len();
    proof {
        assert(encode_utf8(s@).len() == n);
    }
    write_block(out, &bytes);
}

/// Reads eight little-endian bytes at `pos` as a `u64`.
pub fn read_u64(buf: &Vec<u8>, pos: usize) -> (r: Option<(u64, usize)>)
    ensures
        match r {
            Some(p) => {
                &&& pos + 8 <= buf@.len()
                &&& p.1 == pos + 8
                &&& piece_at(buf@, pos as int, spec_u64_to_le_bytes(p.0))
            },
            None => pos + 8 > buf@.len(),
        },
{
    if buf.len() >= 8 && pos <= buf.len() - 8 {
        let s = slice_subrange(buf.as_slice(), pos, pos + 8);
        let x = u64_from_le_bytes(s);
        proof {
            lemma_auto_spec_u64_to_from_le_bytes();
        }
        Some((x, pos + 8))
    } else {
        None
    }
}

/// Reads exactly `n` raw bytes at `pos`.
pub fn read_exact(buf: &Vec<u8>, pos: usize, n: usize) -> (r: Option<(Vec<u8>, usize)>)
    ensures
        match r {
            Some(p) => {
                &&& pos + n <= buf@.len()
                &&& p.1 == pos + n
                &&& p.0@ == buf@.subrange(pos as int, pos + n)
            },
            None => pos + n > buf@.len(),
        },
{
    if pos <= buf.len() && n <= buf.len() - pos {
        let s = slice_subrange(buf.as_slice(), pos, pos + n);
        let v = slice_to_vec(s);
        Some((v, pos + n))
    } else {
        None
    }
}

/// A piece made of two runs splits into its runs.
pub proof fn lemma_piece_split(w: Seq<u8>, at: int, a: Seq<u8>, b: Seq<u8>)
    requires
        piece_at(w, at, a + b),
    ensures
        piece_at(w, at, a),
        piece_at(w, at + a.len(), b),
{
    let ab = a + b;
    assert(w.subrange(at, at + a.len()) =~= a) by {
        assert(w.subrange(at, at + ab.len()) == ab);
    };
    assert(w.subrange(at + a.len(), at + a.len() + b.len()) =~= b) by {
        assert forall|i: int| 0 <= i < b.len() implies w.subrange(
            at + a.len(),
            at + a.len() + b.len(),
        )[i] == b[i] by {
            assert(w.subrange(at, at + ab.len())[a.len() + i] == ab[a.len() + i]);
        };
    };
}

/// Two adjacent pieces join into one.
pub proof fn lemma_piece_join(w: Seq<u8>, at: int, a: Seq<u8>, b: Seq<u8>)
    requires
        piece_at(w, at, a),
        piece_at(w, at + a.len(), b),
    ensures
        piece_at(w, at, a + b),
{
    assert(w.subrange(at, at + (a + b).len()) =~= a + b);
}

/// The first byte of a non-empty piece.
pub proof fn lemma_piece_first(w: Seq<u8>, at: int, p: Seq<u8>)
    requires
        piece_at(w, at, p),
        p.len() > 0,
    ensures
        w[at] == p[0],
{
    assert(w.subrange(at, at + p.len())[0] == p[0]);
}

/// Two eight-byte length prefixes at the same offset carry the same value.
pub proof fn lemma_le_at(w: Seq<u8>, at: int, x: u64, y: u64)
    requires
        piece_at(w, at, spec_u64_to_le_bytes(x)),
        piece_at(w, at, spec_u64_to_le_bytes(y)),
    ensures
        x == y,
{
    lemma_auto_spec_u64_to_from_le_bytes();
    assert(spec_u64_to_le_bytes(x) == w.subrange(at, at + 8));
    assert(spec_u64_to_le_bytes(y) == w.subrange(at, at + 8));
    assert(spec_u64_from_le_bytes(spec_u64_to_le_bytes(x)) == spec_u64_from_le_bytes(
        spec_u64_to_le_bytes(y),
    ));
}

/// When a block and a bare length prefix both occur at `at`, the length is
/// the block's and the block's body follows the prefix.
pub proof fn lemma_block_at(whole: Seq<u8>, at: int, b: Seq<u8>, len: u64)
    requires
        b.len() <= u64::MAX,
        piece_at(whole, at, spec_block(b)),
        piece_at(whole, at, spec_u64_to_le_bytes(len)),
    ensures
        len == b.len(),
        at + 8 + b.len() <= whole.len(),
        b == whole.subrange(at + 8, at + 8 + b.len()),
{
    lemma_auto_spec_u64_to_from_le_bytes();
    let block = spec_block(b);
    assert(block.subrange(0, 8) =~= spec_u64_to_le_bytes(b.len() as u64));
    assert(whole.subrange(at, at + 8) =~= block.subrange(0, 8));
    assert(spec_u64_to_le_bytes(len) == spec_u64_to_le_bytes(b.len() as u64));
    assert(spec_u64_from_le_bytes(spec_u64_to_le_bytes(len))
        == spec_u64_from_le_bytes(spec_u64_to_le_bytes(b.len() as u64)));
    assert(b =~= whole.subrange(at + 8, at + 8 + b.len())) by {
        assert(block.subrange(8, block.len() as int) =~= b);
        assert(whole.subrange(at + 8, at + 8 + b.len())
            =~= block.subrange(8, block.len() as int));
    };
}

/// Reads a length-prefixed block at `pos`.
#[verifier::spinoff_prover]
pub fn read_block(buf: &Vec<u8>, pos: usize) -> (r: Option<(Vec<u8>, usize)>)
    ensures
        match r {
            Some(p) => {
                &&& piece_at(buf@, pos as int, spec_block(p.0@))
                &&& p.1 == pos + 8 + p.0@.len()
            },
            None => true,
        },
        forall|b: Seq<u8>|
            b.len() <= u64::MAX && #[trigger] piece_at(buf@, pos as int, spec_block(b)) ==> {
                &&& r is Some
                &&& (r->0).0@ == b
                &&& (r->0).1 == pos + 8 + b.len()
            },
{
    match read_u64(buf, pos) {
        None => {
            proof {
                assert forall|b: Seq<u8>|
                    b.len() <= u64::MAX && #[trigger] piece_at(buf@, pos as int, spec_block(b))
                    implies false by {
                    lemma_auto_spec_u64_to_from_le_bytes();
                    assert(pos + spec_block(b).len() <= buf@.len());
                };
            }
            None
        },
        Some((len, after_len)) => {
            if len <= (buf.len() - after_len) as u64 {
                let n = len as usize;
                match read_exact(buf, after_len, n) {
                    None => None,
                    Some((body, end)) => {
                        proof {
                            assert forall|b: Seq<u8>|
                                b.len() <= u64::MAX && #[trigger] piece_at(buf@, pos as int, spec_block(b))
                                implies (body@ == b && end == pos + 8 + b.len()) by {
                                lemma_block_at(buf@, pos as int, b, len);
                                assert(body@ =~= b);
                            };
                            assert(piece_at(buf@, pos as int, spec_block(body@))) by {
                                lemma_auto_spec_u64_to_from_le_bytes();
                                assert(buf@.subrange(pos as int, pos + 8 + body@.len())
                                    =~= spec_block(body@));
                            };
                        }
                        Some((body, end))
                    },
                }
            } else {
                proof {
                    assert forall|b: Seq<u8>|
                        b.len() <= u64::MAX && #[trigger] piece_at(buf@, pos as int, spec_block(b))
                        implies false by {
                        lemma_block_at(buf@, pos as int, b, len);
                    };
                }
                None
            }
        },
    }
}

/// Reads a length-prefixed UTF-8 string at `pos`.
pub fn read_string(buf: &Vec<u8>, pos: usize) -> (r: Option<(String, usize)>)
    ensures
        match r {
            Some(p) => {
                &&& piece_at(buf@, pos as int, spec_string_block(p.0@))
                &&& p.1 == pos + 8 + encode_utf8(p.0@).len()
            },
            None => true,
        },
        forall|t: Seq<char>|
            encode_utf8(t).len() <= u64::MAX && piece_at(buf@, pos as int, spec_string_block(t))
                ==> {
                &&& r is Some
                &&& (r->0).0@ == t
                &&& (r->0).1 == pos + 8 + encode_utf8(t).len()
            },
{
    broadcast use vstd::utf8::encode_utf8_valid_utf8;
    broadcast use vstd::utf8::encode_utf8_decode_utf8;
    broadcast use vstd::utf8::decode_utf8_encode_utf8;

    match read_block(buf, pos) {
        None => None,
        Some((body, end)) => {
            let ghost body_bytes = body@;
            match bytes_to_string(body) {
                None => {
                    proof {
                        assert forall|t: Seq<char>|
                            encode_utf8(t).len() <= u64::MAX
                                && piece_at(buf@, pos as int, spec_string_block(t))
                            implies false by {
                            assert(body_bytes == encode_utf8(t));
                        };
                    }
                    None
                },
                Some(s) => {
                    proof {
                        assert(encode_utf8(s@) == body_bytes);
                        assert forall|t: Seq<char>|
                            encode_utf8(t).len() <= u64::MAX
                                && piece_at(buf@, pos as int, spec_string_block(t))
                            implies (s@ == t && end == pos + 8 + encode_utf8(t).len()) by {
                            assert(body_bytes == encode_utf8(t));
                        };
                    }
                    Some((s, end))
                },
            }
        },
    }
}

} // verus!
