//! The body that the echo program sends, and the chunks it goes out in.
use vstd::prelude::*;
use vstd::slice::{slice_subrange, slice_to_vec};

verus! {

/// The length of the body, in bytes.
pub const BODY_LEN: usize = 1048576;

/// The length of a chunk, in bytes. The last chunk of a body may be shorter.
pub const CHUNK_LEN: usize = 16384;

/// The body: a megabyte in which each byte is 251 more than the one before it,
/// modulo 256, counting from zero.
pub open spec fn body_spec() -> Seq<u8> {
    Seq::new(BODY_LEN as nat, |i: int| ((251 * (i + 1)) % 256) as u8)
}

/// Makes the body.
pub fn body() -> (bytes: Vec<u8>)
    ensures
        bytes@ == body_spec(),
{
    let mut bytes: Vec<u8> = Vec::with_capacity(BODY_LEN);
    let mut n: u8 = 0;
    while bytes.len() < BODY_LEN
        invariant
            bytes@.len() <= BODY_LEN,
            n as int == (251 * bytes@.len()) % 256,
            bytes@ == body_spec().take(bytes@.len() as int),
        decreases BODY_LEN - bytes@.len(),
    {
        let ghost before = bytes@;
        n = n.wrapping_add(251);
        bytes.push(n);
        assert(n as int == (251 * (before.len() + 1)) % 256);
        assert(bytes@ =~= body_spec().take((before.len() + 1) as int));
    }
    assert(bytes@ =~= body_spec());
    bytes
}

/// The length of the chunk that begins at `from`.
pub open spec fn chunk_len(body: Seq<u8>, from: int) -> int {
    if body.len() - from < CHUNK_LEN {
        body.len() - from
    } else {
        CHUNK_LEN as int
    }
}

/// The chunk of `body` that begins at `from`.
pub open spec fn chunk_spec(body: Seq<u8>, from: int) -> Seq<u8> {
    body.subrange(from, from + chunk_len(body, from))
}

/// The length of the chunk of `body` that begins at `from`.
pub(crate) fn chunk_width(body: &Vec<u8>, from: usize) -> (width: usize)
    requires
        from <= body@.len(),
    ensures
        width as int == chunk_len(body@, from as int),
        from + width <= body.len(),
{
    let left: usize = body.len() - from;
    if left < CHUNK_LEN {
        left
    } else {
        CHUNK_LEN
    }
}

/// The chunk of `body` that begins at `from`.
pub fn chunk(body: &Vec<u8>, from: usize) -> (bytes: Vec<u8>)
    requires
        from <= body@.len(),
    ensures
        bytes@ == chunk_spec(body@, from as int),
{
    let width: usize = chunk_width(body, from);
    let end: usize = from + width;
    slice_to_vec(slice_subrange(body.as_slice(), from, end))
}

/// The chunks of `body` from `from` on.
pub open spec fn chunks_from(body: Seq<u8>, from: int) -> Seq<Seq<u8>>
    decreases body.len() - from,
{
    if 0 <= from < body.len() {
        seq![chunk_spec(body, from)] + chunks_from(body, from + chunk_len(body, from))
    } else {
        Seq::empty()
    }
}

/// The chunks of a body, one behind the other, are the body, and none of them is
/// empty or longer than `CHUNK_LEN`.
pub proof fn law_chunks_make_the_body(body: Seq<u8>)
    ensures
        chunks_from(body, 0).flatten() == body,
        forall|i: int|
            0 <= i < chunks_from(body, 0).len() ==> 0 < (
            #[trigger] chunks_from(body, 0)[i]).len() <= CHUNK_LEN,
{
    lemma_chunks_make_the_rest(body, 0);
    assert(body.skip(0) =~= body);
}

proof fn lemma_chunks_make_the_rest(body: Seq<u8>, from: int)
    requires
        0 <= from <= body.len(),
    ensures
        chunks_from(body, from).flatten() == body.skip(from),
        forall|i: int|
            0 <= i < chunks_from(body, from).len() ==> 0 < (
            #[trigger] chunks_from(body, from)[i]).len() <= CHUNK_LEN,
    decreases body.len() - from,
{
    if from < body.len() {
        let next = from + chunk_len(body, from);
        lemma_chunks_make_the_rest(body, next);
        let all = chunks_from(body, from);
        assert(all.drop_first() =~= chunks_from(body, next));
        assert(all.first() == chunk_spec(body, from));
        assert(all.flatten() == all.first() + all.drop_first().flatten());
        assert(all.flatten() =~= body.skip(from));
        assert forall|i: int| 0 <= i < all.len() implies 0 < (#[trigger] all[i]).len()
            <= CHUNK_LEN by {
            if i > 0 {
                assert(all[i] == chunks_from(body, next)[i - 1]);
            }
        }
    } else {
        assert(body.skip(from) =~= Seq::<u8>::empty());
        assert(chunks_from(body, from).flatten() =~= Seq::<u8>::empty());
    }
}

/// The body of the echo program goes out in 64 chunks of `CHUNK_LEN` bytes each.
pub proof fn law_body_is_whole_chunks()
    ensures
        chunks_from(body_spec(), 0).len() == 64,
        forall|i: int|
            0 <= i < 64 ==> (#[trigger] chunks_from(body_spec(), 0)[i]).len() == CHUNK_LEN,
{
    lemma_whole_chunks(body_spec(), 0);
}

proof fn lemma_whole_chunks(body: Seq<u8>, count: nat)
    requires
        body.len() == BODY_LEN,
        count <= 64,
    ensures
        chunks_from(body, count * CHUNK_LEN).len() == 64 - count,
        forall|i: int|
            0 <= i < 64 - count ==> (
            #[trigger] chunks_from(body, count * CHUNK_LEN)[i]).len() == CHUNK_LEN,
    decreases 64 - count,
{
    if count < 64 {
        let from = count * CHUNK_LEN;
        lemma_whole_chunks(body, count + 1);
        assert(from + chunk_len(body, from) == (count + 1) * CHUNK_LEN);
        let later = chunks_from(body, (count + 1) * CHUNK_LEN);
        assert forall|i: int| 0 <= i < 64 - count implies (
        #[trigger] chunks_from(body, from)[i]).len() == CHUNK_LEN by {
            if i > 0 {
                assert(chunks_from(body, from)[i] == later[i - 1]);
            }
        }
    }
}

/// The body is a megabyte: 251 comes first, and each byte is 251 more than the one
/// before it, with 256 taken off where it would be too large for a byte.
pub proof fn law_body_counts_in_steps(i: int)
    requires
        0 <= i < 1048576,
    ensures
        body_spec().len() == 1048576,
        body_spec()[0] == 251,
        i > 0 ==> {
            let sum = body_spec()[i - 1] + 251;
            body_spec()[i] == if sum < 256 {
                sum
            } else {
                sum - 256
            }
        },
{
}

/// A chunk is what stands in the body from its position on, and it is 16384 bytes
/// long; only where the body has fewer bytes left is it shorter, and then it reaches
/// to the end of the body.
pub proof fn law_chunk_is_what_stands_there(body: Seq<u8>, from: int)
    requires
        0 <= from <= body.len(),
    ensures
        chunk_spec(body, from).len() <= 16384,
        from + chunk_spec(body, from).len() <= body.len(),
        chunk_spec(body, from).len() < 16384 ==> from + chunk_spec(body, from).len()
            == body.len(),
        forall|i: int|
            0 <= i < chunk_spec(body, from).len() ==> #[trigger] chunk_spec(body, from)[i]
                == body[from + i],
{
}

}
