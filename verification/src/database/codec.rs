//! How message text is written to the store and read back: newlines
//! optionally escaped, UTF-8 bytes, optionally LZ4-compressed.

use vstd::prelude::*;
use vstd::utf8::{decode_utf8, encode_utf8, valid_utf8};
use vstd::string::StrSliceExecFns;
use crate::text::{chars_of, string_of};

verus! {

/// The most bytes that a compressed text may expand to when it is read back
/// (10 MiB).
pub const MAX_DECOMPRESSED: usize = 10485760;

/// `s` with every newline replaced by a backslash and an `n`.
pub open spec fn escaped(s: Seq<char>) -> Seq<char>
    decreases s.len(),
{
    if s.len() == 0 {
        seq![]
    } else if s.last() == '\n' {
        escaped(s.drop_last()) + seq!['\\', 'n']
    } else {
        escaped(s.drop_last()).push(s.last())
    }
}

/// Law: text stored with its newlines escaped holds no newline.
pub proof fn law_escaped_has_no_newline(s: Seq<char>)
    ensures
        !escaped(s).contains('\n'),
    decreases s.len(),
{
    if s.len() > 0 {
        law_escaped_has_no_newline(s.drop_last());
        let e = escaped(s.drop_last());
        if s.last() == '\n' {
            assert forall|i: int| 0 <= i < escaped(s).len() implies escaped(s)[i] != '\n' by {
                if i < e.len() {
                    assert(escaped(s)[i] == e[i]);
                }
            }
        } else {
            assert forall|i: int| 0 <= i < escaped(s).len() implies escaped(s)[i] != '\n' by {
                if i < e.len() {
                    assert(escaped(s)[i] == e[i]);
                }
            }
        }
    }
}

/// The LZ4 block compression of `input` (`lz4_flex::block::compress`).
pub uninterp spec fn lz4_block_compress(input: Seq<u8>) -> Seq<u8>;

/// What `lz4_flex::block::decompress` gives for `input` with an output buffer
/// of `capacity` bytes: the decompressed bytes, or `None` for an error.
pub uninterp spec fn lz4_block_decompress(input: Seq<u8>, capacity: nat) -> Option<Seq<u8>>;

/// Compresses `data` with `lz4_flex::block::compress`. Trusted: the result
/// is a function of the input, and, as the crate documents for its block
/// format, decompressing it into a buffer at least as large as the input
/// gives the input back.
#[verifier::external_body]
fn lz4_compress(data: &[u8]) -> (r: Vec<u8>)
    ensures
        r@ == lz4_block_compress(data@),
        forall|n: nat| n >= data@.len() ==> #[trigger] lz4_block_decompress(r@, n) == Some(data@),
{
    lz4_flex::block::compress(data)
}

/// Decompresses `data` with `lz4_flex::block::decompress` into a buffer of
/// `capacity` bytes; the error is rendered with its `Debug` form. Trusted:
/// success and the bytes are a function of the input and the capacity (the
/// crate's safe, checked decoder returns an error rather than writing past
/// the buffer); the error text is not stated.
#[verifier::external_body]
fn lz4_decompress(data: &[u8], capacity: usize) -> (r: Result<Vec<u8>, String>)
    ensures
        r is Ok <==> lz4_block_decompress(data@, capacity as nat) is Some,
        r matches Ok(v) ==> lz4_block_decompress(data@, capacity as nat) == Some(v@),
{
    match lz4_flex::block::decompress(data, capacity) {
        Ok(v) => Ok(v),
        Err(e) => Err(format!("{:?}", e)),
    }
}

/// Decodes `bytes` as UTF-8 with `String::from_utf8`; the error is rendered
/// with its `Display` form. Trusted: as std documents, it succeeds exactly
/// on valid UTF-8 and then holds the decoded characters; the error text is
/// not stated.
#[verifier::external_body]
fn utf8_decode(bytes: Vec<u8>) -> (r: Result<String, String>)
    ensures
        r is Ok <==> valid_utf8(bytes@),
        r matches Ok(s) ==> s@ == decode_utf8(bytes@),
{
    match String::from_utf8(bytes) {
        Ok(s) => Ok(s),
        Err(e) => Err(e.to_string()),
    }
}

/// What reading back the stored bytes `data` gives: the text, or `None`
/// when they do not decompress (if `compressed`) or are not UTF-8.
pub open spec fn decoded_text(data: Seq<u8>, compressed: bool) -> Option<Seq<char>> {
    let bytes = if compressed {
        lz4_block_decompress(data, MAX_DECOMPRESSED as nat)
    } else {
        Some(data)
    };
    match bytes {
        Some(b) => if valid_utf8(b) {
            Some(decode_utf8(b))
        } else {
            None
        },
        None => None,
    }
}

/// How the error of reading back `data` begins: `"Decompression failed: "`
/// when compressed bytes do not decompress, else `"Invalid UTF-8: "`.
pub open spec fn decode_error_prefix(data: Seq<u8>, compressed: bool) -> Seq<char> {
    if compressed && lz4_block_decompress(data, MAX_DECOMPRESSED as nat) is None {
        "Decompression failed: "@
    } else {
        "Invalid UTF-8: "@
    }
}

/// The bytes that `text` is stored as: its UTF-8 encoding, compressed when
/// `compress` is set.
pub open spec fn encoded_text(text: Seq<char>, compress: bool) -> Seq<u8> {
    if compress {
        lz4_block_compress(encode_utf8(text))
    } else {
        encode_utf8(text)
    }
}

/// `text` with its newlines escaped when `escape_newlines` is set.
pub fn normalize_text(text: &str, escape_newlines: bool) -> (r: String)
    ensures
        r@ == (if escape_newlines {
            escaped(text@)
        } else {
            text@
        }),
{
    if !escape_newlines {
        return text.to_owned();
    }
    let cs = chars_of(text);
    let mut out: Vec<char> = Vec::new();
    let mut i: usize = 0;
    while i < cs.len()
        invariant
            i <= cs@.len(),
            cs@ == text@,
            out@ == escaped(cs@.take(i as int)),
        decreases cs@.len() - i,
    {
        let ghost t = cs@.take(i + 1);
        assert(t.drop_last() =~= cs@.take(i as int));
        assert(t.last() == cs@[i as int]);
        if cs[i] == '\n' {
            out.push('\\');
            out.push('n');
            assert(out@ =~= escaped(cs@.take(i as int)) + seq!['\\', 'n']);
        } else {
            out.push(cs[i]);
        }
        i = i + 1;
    }
    assert(cs@.take(cs@.len() as int) =~= cs@);
    string_of(out.as_slice())
}

/// The bytes that `text` is stored as, and whether they are compressed.
/// Reading them back with [`decode_text`] gives `text` again, provided a
/// compressed text is at most [`MAX_DECOMPRESSED`] bytes long.
pub fn encode_text(text: &str, compress: bool) -> (r: Result<(Vec<u8>, bool), String>)
    ensures
        r matches Ok((bytes, c)) && c == compress && bytes@ == encoded_text(text@, compress),
        (!compress || encode_utf8(text@).len() <= MAX_DECOMPRESSED) ==> (r matches Ok((bytes, c))
            && decoded_text(bytes@, c) == Some(text@)),
{
    let raw = text.as_bytes_vec();
    proof {
        vstd::utf8::encode_utf8_valid_utf8(text@);
        vstd::utf8::encode_utf8_decode_utf8(text@);
    }
    if compress {
        let packed = lz4_compress(raw.as_slice());
        assert(raw@ == encode_utf8(text@));
        Ok((packed, true))
    } else {
        Ok((raw, false))
    }
}

/// Reads back the stored bytes `data`: decompressed when `compressed`, then
/// decoded as UTF-8. An error names the step that failed, followed by the
/// failing call's own message.
pub fn decode_text(data: &[u8], compressed: bool) -> (r: Result<String, String>)
    ensures
        r is Ok <==> decoded_text(data@, compressed) is Some,
        r matches Ok(s) ==> decoded_text(data@, compressed) == Some(s@),
        r matches Err(e) ==> decode_error_prefix(data@, compressed).is_prefix_of(e@),
{
    let bytes = if !compressed {
        let mut v: Vec<u8> = Vec::new();
        let mut i: usize = 0;
        while i < data.len()
            invariant
                i <= data@.len(),
                v@ == data@.take(i as int),
            decreases data@.len() - i,
        {
            v.push(data[i]);
            i = i + 1;
            assert(v@ =~= data@.take(i as int));
        }
        assert(data@.take(data@.len() as int) =~= data@);
        v
    } else {
        match lz4_decompress(data, MAX_DECOMPRESSED) {
            Ok(v) => v,
            Err(e) => {
                let mut m = "Decompression failed: ".to_owned();
                m.append(e.as_str());
                proof {
                    reveal_strlit("Decompression failed: ");
                    assert(m@.subrange(0, 22) =~= "Decompression failed: "@);
                }
                return Err(m);
            },
        }
    };
    match utf8_decode(bytes) {
        Ok(s) => Ok(s),
        Err(e) => {
            let mut m = "Invalid UTF-8: ".to_owned();
            m.append(e.as_str());
            proof {
                reveal_strlit("Invalid UTF-8: ");
                assert(m@.subrange(0, 15) =~= "Invalid UTF-8: "@);
            }
            Err(m)
        },
    }
}

} // verus!
