//! The checksum engine: a streaming SHA-1 pass over a byte source that can
//! tee every chunk (and a terminal empty chunk) to a caller-supplied sink, so
//! that one read verifies and copies at the same time. The digest itself is
//! computed by the sha1 crate; everything around it — the uppercase
//! hexadecimal rendering and the chunked delivery — is verified here.

use crate::text::push_char;
use sha1::Digest;
use vstd::prelude::*;
use vstd::slice::slice_subrange;

verus! {

/// The SHA-1 digest (20 bytes) of a byte sequence, as the sha1 crate computes
/// it. The digest depends on the bytes alone.
pub uninterp spec fn sha1_of(bytes: Seq<u8>) -> Seq<u8>;

/// Relies on sha1::Sha1 through its Digest interface (new, update, finalize):
/// the digest is a function of the bytes fed alone, and is 20 bytes long.
#[verifier::external_body]
fn sha1_digest_bytes(data: &[u8]) -> (r: Vec<u8>)
    ensures
        r@ == sha1_of(data@),
        r@.len() == 20,
{
    let mut hasher = sha1::Sha1::new();
    hasher.update(data);
    hasher.finalize().to_vec()
}

/// The uppercase hexadecimal character for a value below 16.
pub open spec fn hex_char(v: u8) -> char {
    if v < 10 {
        (v + 48) as char
    } else {
        (v + 55) as char
    }
}

fn hex_char_of(v: u8) -> (c: char)
    requires
        v < 16,
    ensures
        c == hex_char(v),
{
    if v < 10 {
        (v + 48) as char
    } else {
        (v + 55) as char
    }
}

/// The uppercase hexadecimal rendering of a byte sequence: two characters for
/// each byte, high digit first.
pub open spec fn hex_upper(bytes: Seq<u8>) -> Seq<char>
    decreases bytes.len(),
{
    if bytes.len() == 0 {
        seq![]
    } else {
        seq![hex_char(bytes[0] / 16), hex_char(bytes[0] % 16)] + hex_upper(bytes.drop_first())
    }
}

/// The hexadecimal digest that the engine produces for a byte source: the
/// SHA-1 digest rendered as 40 uppercase hexadecimal characters.
pub open spec fn sha1_hex(bytes: Seq<u8>) -> Seq<char> {
    hex_upper(sha1_of(bytes))
}

fn to_hex_upper(data: &[u8]) -> (r: String)
    ensures
        r@ == hex_upper(data@),
        r@.len() == 2 * data@.len(),
{
    let mut res = String::new();
    let len = data.len();
    proof {
        assert(data@.skip(0) =~= data@);
    }
    let mut i: usize = 0;
    while i < len
        invariant
            len == data@.len(),
            i <= len,
            hex_upper(data@) == res@ + hex_upper(data@.skip(i as int)),
            res@.len() == 2 * i,
        decreases len - i,
    {
        let b = data[i];
        let ghost rest = data@.skip(i as int);
        let hi = hex_char_of(b / 16);
        let lo = hex_char_of(b % 16);
        push_char(&mut res, hi);
        push_char(&mut res, lo);
        proof {
            assert(rest[0] == data@[i as int]);
            assert(rest.drop_first() =~= data@.skip(i as int + 1));
            assert(hex_upper(data@) =~= res@ + hex_upper(data@.skip(i as int + 1)));
        }
        i = i + 1;
    }
    proof {
        assert(data@.skip(len as int) =~= Seq::<u8>::empty());
        assert(res@ =~= hex_upper(data@));
    }
    res
}

/// The uppercase hexadecimal SHA-1 digest of `data`: 40 characters, a pure
/// function of the bytes.
pub fn calculate_checksum(data: &[u8]) -> (r: String)
    ensures
        r@ == sha1_hex(data@),
        r@.len() == 40,
{
    let digest = sha1_digest_bytes(data);
    to_hex_upper(digest.as_slice())
}

/// Hash determinism: the digest is a function of the bytes read alone — no
/// metadata, no environment — so two passes over equal byte sequences yield
/// the same digest.
pub proof fn lemma_digest_deterministic(a: Seq<u8>, b: Seq<u8>)
    requires
        a == b,
    ensures
        sha1_hex(a) == sha1_hex(b),
{
}

/// A consumer of the chunks that the checksum engine reads. The engine hands
/// every chunk of the source to the sink, then a final empty chunk that
/// signals the end of the stream (so a writing sink can flush). A sink may
/// reject a chunk, which aborts the pass.
pub trait ChunkSink {
    fn accept(&mut self, chunk: &[u8]) -> Result<(), ()>;
}

/// The sink of a caller that only verifies and does not copy.
pub struct NoopSink;

impl ChunkSink for NoopSink {
    fn accept(&mut self, chunk: &[u8]) -> (r: Result<(), ()>)
        ensures
            r is Ok,
    {
        let _ = chunk;
        Ok(())
    }
}

/// Returned when the sink rejected a chunk and the pass was abandoned.
#[derive(Debug)]
pub struct SinkRejected;

/// The fixed chunk size of the engine.
pub const CHUNK_LEN: usize = 8192;

/// Feed `data` to `sink` in chunks of at most [`CHUNK_LEN`] bytes, close the
/// stream with an empty chunk, and return the uppercase hexadecimal SHA-1
/// digest of `data`. Fails only when the sink rejects a chunk.
pub fn calculate_checksum_while<S: ChunkSink>(data: &[u8], sink: &mut S) -> (r: Result<
    String,
    SinkRejected,
>)
    ensures
        match r {
            Ok(h) => h@ == sha1_hex(data@) && h@.len() == 40,
            Err(_) => true,
        },
{
    let len = data.len();
    let mut i: usize = 0;
    while i < len
        invariant
            i <= len,
            len == data@.len(),
        decreases len - i,
    {
        let j = if len - i > CHUNK_LEN {
            i + CHUNK_LEN
        } else {
            len
        };
        let chunk = slice_subrange(data, i, j);
        if sink.accept(chunk).is_err() {
            return Err(SinkRejected);
        }
        i = j;
    }
    let terminal = slice_subrange(data, len, len);
    if sink.accept(terminal).is_err() {
        return Err(SinkRejected);
    }
    Ok(calculate_checksum(data))
}

} // verus!
