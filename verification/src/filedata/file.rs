//! Putting a file together from its parts.

use crate::filedata::zlib::{compress, Status};
use std::collections::HashMap;
use vstd::prelude::*;
use vstd::slice::slice_to_vec;

verus! {

broadcast use vstd::std_specs::hash::group_hash_axioms;

/// Files of fewer bytes are not compressed.
pub const COMPRESS_FROM: i64 = 256;

/// The digits of a file's name.
pub const HEX_DIGITS: &'static str = "0123456789abcdef";

/// A whole file.
#[derive(Debug)]
pub struct Filedata {
    /// The digest of the file, in hexadecimal digits.
    pub name: String,
    /// The number of bytes of the file.
    pub original_size: i64,
    /// The bytes of the file, which may be compressed.
    pub data: Vec<u8>,
}

/// The files that are not complete yet, by their number in the file store.
pub struct Context {
    pub filedata_blob: HashMap<u32, Vec<u8>>,
}

/// The hexadecimal digits of `bytes`, two for each byte.
pub open spec fn hex(bytes: Seq<u8>) -> Seq<char> {
    Seq::new(
        2 * bytes.len(),
        |i: int|
            HEX_DIGITS@[if i % 2 == 0 {
                bytes[i / 2] as int / 16
            } else {
                bytes[i / 2] as int % 16
            }],
    )
}

/// The number of bytes that is noted for a file of `len` bytes: 0 where there are too many to note.
pub open spec fn noted_size(len: nat) -> i64 {
    if len <= i64::MAX {
        len as i64
    } else {
        0
    }
}

/// The bytes of a file that have come so far.
pub open spec fn so_far(blobs: Map<u32, Seq<u8>>, id: u32) -> Seq<u8> {
    if blobs.contains_key(id) {
        blobs[id]
    } else {
        Seq::empty()
    }
}

/// The incomplete files after `part` has come for the file `id`.
pub open spec fn with_part(blobs: Map<u32, Seq<u8>>, id: u32, part: Seq<u8>) -> Map<u32, Seq<u8>> {
    blobs.insert(id, so_far(blobs, id) + part)
}

/// The bytes to store for the file `blob`, where `attempt` is the buffer that it was compressed
/// into and what zlib said: the whole buffer where all is well, and else the file as it is.
pub open spec fn chosen(blob: Seq<u8>, attempt: (Vec<u8>, Status)) -> Seq<u8> {
    if attempt.1 is Success {
        (attempt.0)@
    } else {
        blob
    }
}

/// `data` is how the file `blob` is stored: as it is where it is small, and else as chosen after
/// an attempt to compress it.
pub open spec fn stores(data: Seq<u8>, blob: Seq<u8>) -> bool {
    if noted_size(blob.len()) < COMPRESS_FROM {
        data == blob
    } else {
        exists|input: &[u8], attempt: (Vec<u8>, Status)| #[trigger]
            call_ensures(compress, (input,), attempt) && input@ == blob && data == chosen(
                blob,
                attempt,
            )
    }
}

impl View for Context {
    type V = Map<u32, Seq<u8>>;

    open spec fn view(&self) -> Map<u32, Seq<u8>> {
        self.filedata_blob@.map_values(|blob: Vec<u8>| blob@)
    }
}

/// The hexadecimal digits of `bytes`.
pub fn to_hex(bytes: &[u8]) -> (r: String)
    ensures
        r@ == hex(bytes@),
{
    let mut out = String::new();
    proof {
        reveal_strlit("0123456789abcdef");
    }
    assert(hex(bytes@.take(0)) =~= out@);
    for i in 0..bytes.len()
        invariant
            HEX_DIGITS@.len() == 16,
            HEX_DIGITS.is_ascii(),
            out@ == hex(bytes@.take(i as int)),
    {
        let high: usize = (bytes[i] / 16) as usize;
        let low: usize = (bytes[i] % 16) as usize;
        let ghost before = out@;
        out.append(HEX_DIGITS.substring_ascii(high, high + 1));
        out.append(HEX_DIGITS.substring_ascii(low, low + 1));
        proof {
            let now = bytes@.take(i + 1);
            assert(out@ =~= before.push(HEX_DIGITS@[high as int]).push(HEX_DIGITS@[low as int]));
            assert forall|k: int| 0 <= k < out@.len() implies out@[k] == hex(now)[k] by {
                if k < 2 * i {
                    assert(out@[k] == before[k]);
                    assert(bytes@.take(i as int)[k / 2] == now[k / 2]);
                }
            }
            assert(out@ =~= hex(now));
        }
    }
    assert(bytes@.take(bytes@.len() as int) =~= bytes@);
    out
}

/// The bytes to store for the file `blob`, where `attempt` is the buffer that it was compressed
/// into and what zlib said: the whole buffer where all is well, and else the file as it is.
pub fn choose_stored(blob: Vec<u8>, attempt: (Vec<u8>, Status)) -> (r: Vec<u8>)
    ensures
        r@ == chosen(blob@, attempt),
{
    match attempt {
        (buffer, Status::Success) => buffer,
        _ => blob,
    }
}

impl Filedata {
    /// The file `blob`, whose digest is `sha256`, as it is stored.
    pub fn new(sha256: &[u8], blob: Vec<u8>) -> (file: Filedata)
        ensures
            file.name@ == hex(sha256@),
            file.original_size == noted_size(blob@.len()),
            stores(file.data@, blob@),
    {
        let name = to_hex(sha256);
        let len: u64 = blob.len() as u64;
        let original_size: i64 = if len <= i64::MAX as u64 {
            len as i64
        } else {
            0
        };
        let data = if original_size < COMPRESS_FROM {
            blob
        } else {
            let input = blob.as_slice();
            let attempt = compress(input);
            assert(call_ensures(compress, (input,), attempt));
            choose_stored(blob, attempt)
        };
        Filedata { name, original_size, data }
    }
}

impl Context {
    /// A context without files.
    pub fn new() -> (context: Context)
        ensures
            context@ == Map::<u32, Seq<u8>>::empty(),
    {
        let context = Context { filedata_blob: HashMap::new() };
        assert(context@ =~= Map::<u32, Seq<u8>>::empty());
        context
    }

    /// Takes the part `data` of the file `file_store_id`. The flag `close` among `flags` marks the
    /// last part: then the whole file is returned, under the digest `sha256`, and forgotten.
    pub fn filedata_log(
        &mut self,
        file_store_id: u32,
        sha256: &[u8],
        data: &[u8],
        flags: u8,
        close: u8,
    ) -> (r: Option<Filedata>)
        ensures
            flags & close == 0 ==> r is None && final(self)@ == with_part(
                old(self)@,
                file_store_id,
                data@,
            ),
            flags & close != 0 ==> {
                let blob = so_far(old(self)@, file_store_id) + data@;
                &&& final(self)@ == old(self)@.remove(file_store_id)
                &&& r matches Some(file)
                &&& file.name@ == hex(sha256@)
                &&& file.original_size == noted_size(blob.len())
                &&& stores(file.data@, blob)
            },
    {
        let blob = match self.filedata_blob.remove(&file_store_id) {
            Some(mut pending) => {
                let ghost before = pending@;
                pending.extend_from_slice(data);
                assert(pending@ =~= before + data@);
                pending
            },
            None => slice_to_vec(data),
        };
        assert(blob@ =~= so_far(old(self)@, file_store_id) + data@);
        if flags & close != 0 {
            assert(self@ =~= old(self)@.remove(file_store_id));
            Some(Filedata::new(sha256, blob))
        } else {
            self.filedata_blob.insert(file_store_id, blob);
            assert(self@ =~= with_part(old(self)@, file_store_id, data@));
            None
        }
    }
}

/// A file is never stored in part: what is stored is the file as it is, or the buffer that it was
/// compressed into, and a small file is always stored as it is.
pub proof fn law_whole_file_is_stored(data: Seq<u8>, blob: Seq<u8>)
    requires
        stores(data, blob),
    ensures
        data == blob || crate::filedata::zlib::is_compressed(data, blob),
        noted_size(blob.len()) < COMPRESS_FROM ==> data == blob,
{
}

/// One call of the plugin: some bytes of a file, which may be its last.
pub struct Part {
    pub id: u32,
    pub bytes: Seq<u8>,
    pub last: bool,
}

/// The incomplete files after `part` has come: a file that is complete is no longer among them.
pub open spec fn after_part(blobs: Map<u32, Seq<u8>>, part: Part) -> Map<u32, Seq<u8>> {
    if part.last {
        blobs.remove(part.id)
    } else {
        with_part(blobs, part.id, part.bytes)
    }
}

/// The incomplete files after parts have come, each for the file that it names.
pub open spec fn after_parts(blobs: Map<u32, Seq<u8>>, parts: Seq<Part>) -> Map<u32, Seq<u8>>
    decreases parts.len(),
{
    if parts.len() == 0 {
        blobs
    } else {
        after_part(after_parts(blobs, parts.drop_last()), parts.last())
    }
}

/// The parts for the file `id`, joined in order.
pub open spec fn joined(parts: Seq<Part>, id: u32) -> Seq<u8>
    decreases parts.len(),
{
    if parts.len() == 0 {
        Seq::empty()
    } else if parts.last().id == id {
        joined(parts.drop_last(), id) + parts.last().bytes
    } else {
        joined(parts.drop_last(), id)
    }
}

/// A file that is not complete yet is what had come of it before and then its parts in order,
/// however the parts of other files come between them and whichever of those files are completed
/// meanwhile.
pub proof fn law_parts_are_joined_in_order(blobs: Map<u32, Seq<u8>>, parts: Seq<Part>, id: u32)
    requires
        forall|i: int| 0 <= i < parts.len() && (#[trigger] parts[i]).id == id ==> !parts[i].last,
    ensures
        so_far(after_parts(blobs, parts), id) == so_far(blobs, id) + joined(parts, id),
    decreases parts.len(),
{
    if parts.len() == 0 {
        assert(so_far(blobs, id) + joined(parts, id) =~= so_far(blobs, id));
    } else {
        let earlier = parts.drop_last();
        assert forall|i: int|
            0 <= i < earlier.len() && (#[trigger] earlier[i]).id == id implies !earlier[i].last by {
            assert(earlier[i] == parts[i]);
        }
        law_parts_are_joined_in_order(blobs, earlier, id);
        assert(parts.last() == parts[parts.len() - 1]);
        assert(so_far(after_parts(blobs, parts), id) =~= so_far(blobs, id) + joined(parts, id));
    }
}

/// A file that starts afresh and comes in parts is complete with its last part, and is then all
/// its parts in order, whatever comes for other files between them.
pub proof fn law_complete_file_is_its_parts(blobs: Map<u32, Seq<u8>>, parts: Seq<Part>)
    requires
        parts.len() > 0,
        parts.last().last,
        !blobs.contains_key(parts.last().id),
        forall|i: int|
            0 <= i < parts.len() - 1 && (#[trigger] parts[i]).id == parts.last().id
                ==> !parts[i].last,
    ensures
        so_far(after_parts(blobs, parts.drop_last()), parts.last().id) + parts.last().bytes
            == joined(parts, parts.last().id),
        !after_parts(blobs, parts).contains_key(parts.last().id),
{
    let earlier = parts.drop_last();
    let id = parts.last().id;
    assert forall|i: int|
        0 <= i < earlier.len() && (#[trigger] earlier[i]).id == id implies !earlier[i].last by {
        assert(earlier[i] == parts[i]);
    }
    law_parts_are_joined_in_order(blobs, earlier, id);
    assert(so_far(blobs, id) + joined(earlier, id) =~= joined(earlier, id));
}

/// A file that is complete leaves nothing behind, and the others as they were: a later file under
/// the same number starts afresh.
pub proof fn law_complete_file_is_forgotten(blobs: Map<u32, Seq<u8>>, id: u32, other: u32)
    requires
        other != id,
    ensures
        so_far(blobs.remove(id), id) == Seq::<u8>::empty(),
        so_far(blobs.remove(id), other) == so_far(blobs, other),
{
}

/// Files with different digests have different names.
pub proof fn law_names_tell_digests_apart(a: Seq<u8>, b: Seq<u8>)
    requires
        hex(a) == hex(b),
    ensures
        a == b,
{
    reveal_strlit("0123456789abcdef");
    assert(hex(a).len() == 2 * a.len() && hex(b).len() == 2 * b.len());
    assert forall|i: int| 0 <= i < a.len() implies a[i] == b[i] by {
        let (ah, al) = (a[i] as int / 16, a[i] as int % 16);
        let (bh, bl) = (b[i] as int / 16, b[i] as int % 16);
        assert((2 * i) / 2 == i && (2 * i) % 2 == 0);
        assert((2 * i + 1) / 2 == i && (2 * i + 1) % 2 == 1);
        assert(hex(a)[2 * i] == HEX_DIGITS@[ah] && hex(b)[2 * i] == HEX_DIGITS@[bh]);
        assert(hex(a)[2 * i + 1] == HEX_DIGITS@[al] && hex(b)[2 * i + 1] == HEX_DIGITS@[bl]);
        lemma_digits_differ(ah, bh);
        lemma_digits_differ(al, bl);
    }
    assert(a =~= b);
}

/// No two digits look the same.
proof fn lemma_digits_differ(x: int, y: int)
    requires
        0 <= x < 16,
        0 <= y < 16,
        HEX_DIGITS@[x] == HEX_DIGITS@[y],
    ensures
        x == y,
{
    reveal_strlit("0123456789abcdef");
}

/// A hexadecimal digit.
pub open spec fn is_hex_digit(c: char) -> bool {
    '0' <= c <= '9' || 'a' <= c <= 'f'
}

/// What a hexadecimal digit stands for.
pub open spec fn hex_value(c: char) -> int {
    if '0' <= c <= '9' {
        c as int - '0' as int
    } else {
        c as int - 'a' as int + 10
    }
}

/// The name of a file gives its digest back: read two digits at a time, it is the digest byte for
/// byte, in order.
pub proof fn law_name_reads_back_as_digest(sha256: &[u8], name: String)
    requires
        call_ensures(to_hex, (sha256,), name),
    ensures
        name@.len() == 2 * sha256@.len(),
        forall|k: int| 0 <= k < name@.len() ==> is_hex_digit(#[trigger] name@[k]),
        forall|i: int|
            0 <= i < sha256@.len() ==> hex_value(name@[2 * i]) * 16 + hex_value(name@[2 * i + 1])
                == #[trigger] sha256@[i],
{
    assert forall|d: int| 0 <= d < 16 implies is_hex_digit(#[trigger] HEX_DIGITS@[d]) && hex_value(
        HEX_DIGITS@[d],
    ) == d by {
        reveal_strlit("0123456789abcdef");
    }
    assert forall|k: int| 0 <= k < name@.len() implies is_hex_digit(#[trigger] name@[k]) by {
        let byte = sha256@[k / 2] as int;
        assert(name@[k] == HEX_DIGITS@[if k % 2 == 0 {
            byte / 16
        } else {
            byte % 16
        }]);
    }
    assert forall|i: int| 0 <= i < sha256@.len() implies hex_value(name@[2 * i]) * 16 + hex_value(
        name@[2 * i + 1],
    ) == #[trigger] sha256@[i] by {
        let byte = sha256@[i] as int;
        assert((2 * i) / 2 == i && (2 * i) % 2 == 0);
        assert((2 * i + 1) / 2 == i && (2 * i + 1) % 2 == 1);
        assert(name@[2 * i] == HEX_DIGITS@[byte / 16]);
        assert(name@[2 * i + 1] == HEX_DIGITS@[byte % 16]);
    }
}

/// A file is stored under its digest, with the number of its bytes. One of fewer than 256 bytes is
/// stored as it is. A larger one is compressed once: where that succeeds the whole buffer is
/// stored, and else the file as it is. A file with too many bytes to note is stored as it is, with
/// the number 0.
pub proof fn law_file_is_stored_under_its_digest(
    sha256: &[u8],
    blob: Vec<u8>,
    file: Filedata,
    name: String,
)
    requires
        call_ensures(Filedata::new, (sha256, blob), file),
        call_ensures(to_hex, (sha256,), name),
    ensures
        file.name@ == name@,
        blob@.len() <= i64::MAX ==> file.original_size == blob@.len(),
        blob@.len() > i64::MAX ==> file.original_size == 0 && file.data@ == blob@,
        blob@.len() < 256 ==> file.data@ == blob@,
        256 <= blob@.len() <= i64::MAX ==> exists|input: &[u8], attempt: (Vec<u8>, Status)| #[trigger]
            call_ensures(compress, (input,), attempt) && input@ == blob@ && (attempt.1
                == Status::Success ==> file.data@ == (attempt.0)@) && (attempt.1 != Status::Success
                ==> file.data@ == blob@),
{
    if 256 <= blob@.len() <= i64::MAX {
        let (input, attempt) = choose|input: &[u8], attempt: (Vec<u8>, Status)| #[trigger]
            call_ensures(compress, (input,), attempt) && input@ == blob@ && file.data@ == chosen(
                blob@,
                attempt,
            );
        assert(call_ensures(compress, (input,), attempt));
    }
}

/// What is stored after an attempt to compress a file is the buffer where zlib succeeded, and the
/// file in any other case.
pub proof fn law_only_success_stores_the_buffer(
    blob: Vec<u8>,
    attempt: (Vec<u8>, Status),
    r: Vec<u8>,
)
    requires
        call_ensures(choose_stored, (blob, attempt), r),
    ensures
        attempt.1 == Status::Success ==> r@ == (attempt.0)@,
        attempt.1 != Status::Success ==> r@ == blob@,
{
}

/// A part that is not the last is put behind what has come of its file, which it begins where
/// nothing has. No file comes out, and the other files stay as they were.
pub proof fn law_part_is_put_behind_its_file(
    context: &mut Context,
    id: u32,
    sha256: &[u8],
    data: &[u8],
    flags: u8,
    close: u8,
    r: Option<Filedata>,
)
    requires
        call_ensures(Context::filedata_log, (context, id, sha256, data, flags, close), r),
        flags & close == 0,
    ensures
        r is None,
        final(context)@.contains_key(id),
        old(context)@.contains_key(id) ==> final(context)@[id] == old(context)@[id] + data@,
        !old(context)@.contains_key(id) ==> final(context)@[id] == data@,
        final(context)@.remove(id) == old(context)@.remove(id),
{
    assert(final(context)@.remove(id) =~= old(context)@.remove(id));
    assert(Seq::<u8>::empty() + data@ =~= data@);
}

/// With its last part a file comes out whole, as a file of all the bytes that have come is stored,
/// and is forgotten. The other files stay as they were.
pub proof fn law_last_part_brings_the_whole_file(
    context: &mut Context,
    id: u32,
    sha256: &[u8],
    data: &[u8],
    flags: u8,
    close: u8,
    r: Option<Filedata>,
    name: String,
)
    requires
        call_ensures(Context::filedata_log, (context, id, sha256, data, flags, close), r),
        call_ensures(to_hex, (sha256,), name),
        flags & close != 0,
    ensures
        !final(context)@.contains_key(id),
        final(context)@ == old(context)@.remove(id),
        r is Some,
        ({
            let file = r->0;
            let blob = if old(context)@.contains_key(id) {
                old(context)@[id] + data@
            } else {
                data@
            };
            &&& file.name@ == name@
            &&& blob.len() <= i64::MAX ==> file.original_size == blob.len()
            &&& blob.len() > i64::MAX ==> file.original_size == 0 && file.data@ == blob
            &&& blob.len() < 256 ==> file.data@ == blob
            &&& 256 <= blob.len() <= i64::MAX ==> exists|input: &[u8], attempt: (Vec<u8>, Status)|
             #[trigger]
                call_ensures(compress, (input,), attempt) && input@ == blob && (attempt.1
                    == Status::Success ==> file.data@ == (attempt.0)@) && (attempt.1
                    != Status::Success ==> file.data@ == blob)
        }),
{
    let file = r->0;
    let blob = so_far(old(context)@, id) + data@;
    assert(Seq::<u8>::empty() + data@ =~= data@);
    if 256 <= blob.len() <= i64::MAX {
        let (input, attempt) = choose|input: &[u8], attempt: (Vec<u8>, Status)| #[trigger]
            call_ensures(compress, (input,), attempt) && input@ == blob && file.data@ == chosen(
                blob,
                attempt,
            );
        assert(call_ensures(compress, (input,), attempt));
    }
}

/// A file that comes in two parts comes out like one that comes in one: with the same name and size
/// and, where it is small, the same bytes.
pub proof fn law_parts_make_no_difference(
    first: &mut Context,
    second: &mut Context,
    whole: &mut Context,
    id: u32,
    sha256: &[u8],
    a: &[u8],
    b: &[u8],
    ab: &[u8],
    open: u8,
    last: u8,
    close: u8,
    none: Option<Filedata>,
    two: Option<Filedata>,
    one: Option<Filedata>,
)
    requires
        call_ensures(Context::filedata_log, (first, id, sha256, a, open, close), none),
        call_ensures(Context::filedata_log, (second, id, sha256, b, last, close), two),
        call_ensures(Context::filedata_log, (whole, id, sha256, ab, last, close), one),
        open & close == 0,
        last & close != 0,
        ab@ == a@ + b@,
        old(first)@ == old(whole)@,
        old(second)@ == final(first)@,
    ensures
        none is None,
        two matches Some(x) && one matches Some(y) && x.name@ == y.name@ && x.original_size
            == y.original_size && (x.original_size < 256 ==> x.data@ == y.data@),
        final(second)@ == final(whole)@,
{
    let before = so_far(old(whole)@, id);
    assert((before + a@) + b@ =~= before + ab@);
    assert(final(second)@ =~= final(whole)@);
}

} // verus!
