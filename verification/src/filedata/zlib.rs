//! Compressing a file with zlib.

use vstd::prelude::*;

verus! {

/// What zlib says of a compression.
#[derive(Debug, Clone, Copy, PartialEq, Eq, Structural)]
pub enum Status {
    Success,
    StreamEnd,
    NeedDict,
    ErrNo,
    StreamError,
    DataError,
    MemError,
    BufError,
    VersionError,
}

/// The space that the compressed form of `source_len` bytes may take: the bytes themselves, one
/// more for none at all and one more for fewer than nine, one bit for each byte, three bytes
/// around the block, and six around the stream.
pub open spec fn bound_spec(source_len: nat) -> nat {
    source_len + (if source_len == 0 {
        1nat
    } else {
        0nat
    }) + (if source_len < 9 {
        1nat
    } else {
        0nat
    }) + (source_len + 7) / 8 + 3 + 6
}

/// `source_len` is small enough for its bound to be the same on every machine.
pub open spec fn has_bound(source_len: nat) -> bool {
    source_len + 7 <= u32::MAX && bound_spec(source_len) <= usize::MAX
}

/// `zlib_rs::compress_bound`: the space that the compressed form of `source_len` bytes may take.
/// It computes in C's unsigned long on the way, so that what it returns for four gigabytes and
/// more is left unsaid: there it differs between machines.
pub assume_specification[ zlib_rs::compress_bound ](source_len: usize) -> (bound: usize)
    ensures
        has_bound(source_len as nat) ==> bound == bound_spec(source_len as nat),
;

/// What `buffer` holds after `input` has been compressed into it with the fastest settings.
pub uninterp spec fn deflated(input: Seq<u8>, buffer: Seq<u8>) -> Seq<u8>;

/// `zlib_rs::compress_slice` with `zlib_rs::DeflateConfig::best_speed`: compresses `input` into
/// `output`, which keeps its length. Where it says `Success`, what the buffer then holds depends on
/// `input` and on what `output` held before, and on nothing else. Else it says `MemError`, where
/// there is no memory to work with, or `BufError`, where `output` is too short: one that is as long
/// as the bound for `input` never is. When there is no memory is left unsaid: that rests with the
/// machine.
#[verifier::external_body]
fn compress_slice(output: Vec<u8>, input: &[u8]) -> (r: (Vec<u8>, Status))
    ensures
        (r.0)@.len() == output@.len(),
        r.1 is Success || r.1 is MemError || r.1 is BufError,
        r.1 is Success ==> (r.0)@ == deflated(input@, output@),
        r.1 is BufError && has_bound(input@.len()) ==> output@.len() < bound_spec(input@.len()),
{
    let mut buffer = output;
    let code = zlib_rs::compress_slice(&mut buffer, input, zlib_rs::DeflateConfig::best_speed()).1;
    let status = match code {
        zlib_rs::ReturnCode::Ok => Status::Success,
        zlib_rs::ReturnCode::StreamEnd => Status::StreamEnd,
        zlib_rs::ReturnCode::NeedDict => Status::NeedDict,
        zlib_rs::ReturnCode::ErrNo => Status::ErrNo,
        zlib_rs::ReturnCode::StreamError => Status::StreamError,
        zlib_rs::ReturnCode::DataError => Status::DataError,
        zlib_rs::ReturnCode::MemError => Status::MemError,
        zlib_rs::ReturnCode::BufError => Status::BufError,
        zlib_rs::ReturnCode::VersionError => Status::VersionError,
    };
    (buffer, status)
}

/// `len` zero bytes.
pub open spec fn zeros(len: nat) -> Seq<u8> {
    Seq::new(len, |i: int| 0u8)
}

/// `buffer` is a zeroed buffer with room for the compressed form of `input`, into which `input`
/// has been compressed.
pub open spec fn is_compressed(buffer: Seq<u8>, input: Seq<u8>) -> bool {
    &&& buffer == deflated(input, zeros(buffer.len()))
    &&& has_bound(input.len()) ==> buffer.len() == bound_spec(input.len())
}

/// `attempt` is a buffer and a status that zlib may give back for `input` and a zeroed buffer.
pub closed spec fn is_attempt(input: Seq<u8>, attempt: (Vec<u8>, Status)) -> bool {
    exists|output: Vec<u8>, slice: &[u8]| #[trigger]
        call_ensures(compress_slice, (output, slice), attempt) && slice@ == input && output@
            == zeros((attempt.0)@.len())
}

/// Compresses `input` into a buffer that has room for it: the whole buffer, and what zlib says,
/// which is `Success` where there is memory to work with.
pub fn compress(input: &[u8]) -> (r: (Vec<u8>, Status))
    ensures
        is_attempt(input@, r),
        has_bound(input@.len()) ==> (r.0)@.len() == bound_spec(input@.len()),
        r.1 is Success ==> is_compressed((r.0)@, input@),
        r.1 is Success || r.1 is MemError || r.1 is BufError,
        has_bound(input@.len()) ==> r.1 !is BufError,
{
    let buffer: Vec<u8> = vec![0u8;zlib_rs::compress_bound(input.len())];
    assert(buffer@ =~= zeros(buffer@.len()));
    let ghost output = buffer;
    let attempt = compress_slice(buffer, input);
    assert(call_ensures(compress_slice, (output, input), attempt));
    attempt
}

/// A file is compressed into a buffer of nothing but zeros, as long as the bound for it.
pub proof fn law_buffer_starts_with_zeros(input: &[u8], r: (Vec<u8>, Status))
    requires
        call_ensures(compress, (input,), r),
        r.1 == Status::Success,
        has_bound(input@.len()),
    ensures
        (r.0)@ == deflated(input@, Seq::new(bound_spec(input@.len()), |i: int| 0u8)),
{
    assert(zeros((r.0)@.len()) =~= Seq::new(bound_spec(input@.len()), |i: int| 0u8));
}

} // verus!
