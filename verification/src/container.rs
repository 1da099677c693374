//! Container layout after the header: the plaintext is cut into chunks of
//! 64 KiB, and each chunk is stored as its ciphertext followed by its tag.

use vstd::prelude::*;
use crate::aead::{aes256_gcm_open, aes256_gcm_seal};
use crate::header::{chunk_aad, chunk_nonce, CHUNK_SIZE, TAG_LEN};

verus! {

/// The most chunks a container holds: chunk indices fit in 32 bits.
pub const MAX_CHUNKS: u64 = 0x1_0000_0000;

/// The longest plaintext a container holds: 2^32 chunks of 64 KiB.
pub const MAX_PLAINTEXT_LEN: u64 = 0x1_0000_0000_0000;

/// Bytes that one full chunk takes in a container: ciphertext and tag.
pub const SEALED_CHUNK_SIZE: usize = 65552;

/// Number of chunks of a plaintext of `len` bytes: `len / 65536`, rounded up.
pub open spec fn chunk_count(len: nat) -> nat {
    (len + CHUNK_SIZE - 1) as nat / (CHUNK_SIZE as nat)
}

/// Length of chunk `index` of a plaintext of `len` bytes: 64 KiB, but for
/// the last chunk, which holds what is left.
pub open spec fn chunk_len(len: nat, index: nat) -> nat
    recommends
        index < chunk_count(len),
{
    if (index + 1) * CHUNK_SIZE <= len {
        CHUNK_SIZE as nat
    } else {
        (len - index * CHUNK_SIZE) as nat
    }
}

/// Length of the part of a container that follows the header, for a
/// plaintext of `len` bytes: the ciphertext and one tag for each chunk.
pub open spec fn body_len(len: nat) -> nat {
    (len + TAG_LEN * chunk_count(len)) as nat
}

/// Length of a whole container.
pub open spec fn container_len(header_len: nat, ciphertext_len: nat) -> nat {
    header_len + body_len(ciphertext_len)
}

/// Chunk `index` of `plaintext`.
pub open spec fn plaintext_chunk(plaintext: Seq<u8>, index: nat) -> Seq<u8>
    recommends
        index < chunk_count(plaintext.len()),
{
    plaintext.subrange(
        (index * CHUNK_SIZE) as int,
        (index * CHUNK_SIZE + chunk_len(plaintext.len(), index)) as int,
    )
}

/// The stored form of chunk `index` in a container body whose ciphertext
/// is `ciphertext_len` bytes long: ciphertext and tag.
pub open spec fn sealed_piece(body: Seq<u8>, ciphertext_len: nat, index: nat) -> Seq<u8>
    recommends
        index < chunk_count(ciphertext_len),
        body.len() == body_len(ciphertext_len),
{
    body.subrange(
        (index * SEALED_CHUNK_SIZE) as int,
        (index * SEALED_CHUNK_SIZE + chunk_len(ciphertext_len, index) + TAG_LEN) as int,
    )
}

/// A chunk encrypted in its place: the nonce and the associated data carry
/// the chunk index.
pub open spec fn sealed_chunk(
    key: Seq<u8>,
    base_nonce: Seq<u8>,
    header_aad: Seq<u8>,
    index: nat,
    chunk: Seq<u8>,
) -> Seq<u8> {
    aes256_gcm_seal(
        key,
        chunk_nonce(base_nonce, index as u32),
        chunk_aad(header_aad, index as u32),
        chunk,
    )
}

/// A stored chunk decrypted in its place; nothing when authentication fails.
pub open spec fn opened_chunk(
    key: Seq<u8>,
    base_nonce: Seq<u8>,
    header_aad: Seq<u8>,
    index: nat,
    sealed: Seq<u8>,
) -> Option<Seq<u8>> {
    aes256_gcm_open(
        key,
        chunk_nonce(base_nonce, index as u32),
        chunk_aad(header_aad, index as u32),
        sealed,
    )
}

/// The first `count` chunks of `plaintext`, each sealed, in order.
pub open spec fn sealed_prefix(
    key: Seq<u8>,
    base_nonce: Seq<u8>,
    header_aad: Seq<u8>,
    plaintext: Seq<u8>,
    count: nat,
) -> Seq<u8>
    decreases count,
{
    if count == 0 {
        Seq::empty()
    } else {
        sealed_prefix(key, base_nonce, header_aad, plaintext, (count - 1) as nat) + sealed_chunk(
            key,
            base_nonce,
            header_aad,
            (count - 1) as nat,
            plaintext_chunk(plaintext, (count - 1) as nat),
        )
    }
}

/// The body of the container of `plaintext`: all its chunks, sealed.
pub open spec fn sealed_body(
    key: Seq<u8>,
    base_nonce: Seq<u8>,
    header_aad: Seq<u8>,
    plaintext: Seq<u8>,
) -> Seq<u8> {
    sealed_prefix(key, base_nonce, header_aad, plaintext, chunk_count(plaintext.len()))
}

/// The plaintext of the first `count` stored chunks of `body`; nothing
/// when one of them fails authentication.
pub open spec fn opened_prefix(
    key: Seq<u8>,
    base_nonce: Seq<u8>,
    header_aad: Seq<u8>,
    body: Seq<u8>,
    ciphertext_len: nat,
    count: nat,
) -> Option<Seq<u8>>
    decreases count,
{
    if count == 0 {
        Some(Seq::empty())
    } else {
        match opened_prefix(
            key,
            base_nonce,
            header_aad,
            body,
            ciphertext_len,
            (count - 1) as nat,
        ) {
            None => None,
            Some(before) => match opened_chunk(
                key,
                base_nonce,
                header_aad,
                (count - 1) as nat,
                sealed_piece(body, ciphertext_len, (count - 1) as nat),
            ) {
                None => None,
                Some(chunk) => Some(before + chunk),
            },
        }
    }
}

/// The plaintext of a whole container body; nothing when a chunk fails
/// authentication.
pub open spec fn opened_body(
    key: Seq<u8>,
    base_nonce: Seq<u8>,
    header_aad: Seq<u8>,
    body: Seq<u8>,
    ciphertext_len: nat,
) -> Option<Seq<u8>> {
    opened_prefix(key, base_nonce, header_aad, body, ciphertext_len, chunk_count(ciphertext_len))
}

/// Sealing chunk `index` adds a 16-byte tag, and opening the sealed chunk
/// gives the chunk back.
pub open spec fn chunk_inverts(
    key: Seq<u8>,
    base_nonce: Seq<u8>,
    header_aad: Seq<u8>,
    index: nat,
    chunk: Seq<u8>,
) -> bool {
    let sealed = sealed_chunk(key, base_nonce, header_aad, index, chunk);
    &&& sealed.len() == chunk.len() + TAG_LEN
    &&& opened_chunk(key, base_nonce, header_aad, index, sealed) == Some(chunk)
}

/// `chunk_inverts` holds of each of the first `count` chunks of `plaintext`.
pub open spec fn chunks_invert(
    key: Seq<u8>,
    base_nonce: Seq<u8>,
    header_aad: Seq<u8>,
    plaintext: Seq<u8>,
    count: nat,
) -> bool {
    forall|i: nat|
        i < count ==> #[trigger] chunk_inverts(
            key,
            base_nonce,
            header_aad,
            i,
            plaintext_chunk(plaintext, i),
        )
}

/// The number of chunks of a plaintext of `len` bytes.
pub fn count_chunks(len: u64) -> (count: u64)
    ensures
        count == chunk_count(len as nat),
        len <= MAX_PLAINTEXT_LEN <==> count <= MAX_CHUNKS,
{
    if len % 65536 == 0 {
        len / 65536
    } else {
        len / 65536 + 1
    }
}

/// The chunks partition the plaintext: there are no chunks exactly when it
/// is empty, every chunk holds between 1 and 65536 bytes, and the chunks
/// before chunk `index` hold `65536 * index` bytes.
pub proof fn lemma_chunk_bounds(len: nat, index: nat)
    requires
        index < chunk_count(len),
    ensures
        0 < chunk_len(len, index) <= CHUNK_SIZE,
        index * CHUNK_SIZE + chunk_len(len, index) <= len,
        index + 1 < chunk_count(len) ==> chunk_len(len, index) == CHUNK_SIZE,
        index + 1 == chunk_count(len) ==> index * CHUNK_SIZE + chunk_len(len, index) == len,
        chunk_count(len) * CHUNK_SIZE < len + CHUNK_SIZE,
        len <= chunk_count(len) * CHUNK_SIZE,
{
}

/// Each stored chunk lies within the body, and the last one ends it.
pub proof fn lemma_piece_within(len: nat, index: nat)
    requires
        index < chunk_count(len),
    ensures
        index * SEALED_CHUNK_SIZE + chunk_len(len, index) + TAG_LEN <= body_len(len),
        index + 1 == chunk_count(len) ==> index * SEALED_CHUNK_SIZE + chunk_len(len, index)
            + TAG_LEN == body_len(len),
        index + 1 < chunk_count(len) ==> (index + 1) * SEALED_CHUNK_SIZE < body_len(len),
{
}

/// An empty plaintext has no chunks, 65536 bytes make one chunk, one byte
/// more makes two, and the count grows with the length.
pub proof fn lemma_chunk_count(len: nat, longer: nat)
    requires
        len <= longer,
    ensures
        chunk_count(0) == 0,
        chunk_count(65536) == 1,
        chunk_count(65537) == 2,
        len == 0 <==> chunk_count(len) == 0,
        chunk_count(len) <= chunk_count(longer),
        len < longer ==> body_len(len) < body_len(longer),
        body_len(0) == 0,
{
}

/// Plaintext bytes held by the first `count` chunks.
pub open spec fn plain_len_before(len: nat, count: nat) -> nat {
    if count * CHUNK_SIZE <= len {
        (count * CHUNK_SIZE) as nat
    } else {
        len
    }
}

/// Where the chunks sealed in order come to lie: the first `count` sealed
/// chunks take as many bytes as their plaintext and sixteen more for each.
pub proof fn lemma_sealed_prefix_len(
    key: Seq<u8>,
    base_nonce: Seq<u8>,
    header_aad: Seq<u8>,
    plaintext: Seq<u8>,
    count: nat,
)
    requires
        count <= chunk_count(plaintext.len()),
        chunks_invert(key, base_nonce, header_aad, plaintext, count),
    ensures
        sealed_prefix(key, base_nonce, header_aad, plaintext, count).len() == plain_len_before(
            plaintext.len(),
            count,
        ) + TAG_LEN * count,
        count < chunk_count(plaintext.len()) ==> sealed_prefix(
            key,
            base_nonce,
            header_aad,
            plaintext,
            count,
        ).len() == count * SEALED_CHUNK_SIZE,
        count == chunk_count(plaintext.len()) ==> sealed_prefix(
            key,
            base_nonce,
            header_aad,
            plaintext,
            count,
        ).len() == body_len(plaintext.len()),
    decreases count,
{
    if count > 0 {
        let before = (count - 1) as nat;
        lemma_sealed_prefix_len(key, base_nonce, header_aad, plaintext, before);
        lemma_chunk_bounds(plaintext.len(), before);
        assert(chunk_inverts(
            key,
            base_nonce,
            header_aad,
            before,
            plaintext_chunk(plaintext, before),
        ));
    }
}

/// Earlier chunks stay where they are: the first `count` sealed chunks are
/// the start of any longer run of sealed chunks.
pub proof fn lemma_sealed_prefix_extends(
    key: Seq<u8>,
    base_nonce: Seq<u8>,
    header_aad: Seq<u8>,
    plaintext: Seq<u8>,
    count: nat,
    more: nat,
)
    requires
        count <= more,
    ensures
        sealed_prefix(key, base_nonce, header_aad, plaintext, count).is_prefix_of(
            sealed_prefix(key, base_nonce, header_aad, plaintext, more),
        ),
    decreases more,
{
    if count < more {
        lemma_sealed_prefix_extends(
            key,
            base_nonce,
            header_aad,
            plaintext,
            count,
            (more - 1) as nat,
        );
    }
}

/// In the body of a container, the stored form of each chunk is that chunk
/// sealed.
pub proof fn lemma_sealed_piece(
    key: Seq<u8>,
    base_nonce: Seq<u8>,
    header_aad: Seq<u8>,
    plaintext: Seq<u8>,
    index: nat,
)
    requires
        index < chunk_count(plaintext.len()),
        chunks_invert(key, base_nonce, header_aad, plaintext, chunk_count(plaintext.len())),
    ensures
        sealed_piece(
            sealed_body(key, base_nonce, header_aad, plaintext),
            plaintext.len(),
            index,
        ) == sealed_chunk(key, base_nonce, header_aad, index, plaintext_chunk(plaintext, index)),
{
    let len = plaintext.len();
    let body = sealed_body(key, base_nonce, header_aad, plaintext);
    let upto = sealed_prefix(key, base_nonce, header_aad, plaintext, index + 1);
    let before = sealed_prefix(key, base_nonce, header_aad, plaintext, index);
    let chunk = plaintext_chunk(plaintext, index);
    let piece = sealed_chunk(key, base_nonce, header_aad, index, chunk);
    lemma_sealed_prefix_extends(
        key,
        base_nonce,
        header_aad,
        plaintext,
        index + 1,
        chunk_count(len),
    );
    lemma_sealed_prefix_len(key, base_nonce, header_aad, plaintext, index);
    lemma_chunk_bounds(len, index);
    assert(chunk_inverts(key, base_nonce, header_aad, index, chunk));
    assert(upto == before + piece);
    assert(before.len() == index * SEALED_CHUNK_SIZE);
    assert(piece.len() == chunk_len(len, index) + TAG_LEN);
    assert(upto.is_prefix_of(body));
    assert(upto.subrange(before.len() as int, upto.len() as int) =~= piece);
    assert(sealed_piece(body, len, index) =~= upto.subrange(
        before.len() as int,
        upto.len() as int,
    ));
}

/// Opening inverts sealing on whole bodies: where each chunk can be opened
/// after it was sealed, the first `count` chunks of the sealed body open to
/// the plaintext they hold.
pub proof fn lemma_opened_prefix_of_sealed(
    key: Seq<u8>,
    base_nonce: Seq<u8>,
    header_aad: Seq<u8>,
    plaintext: Seq<u8>,
    count: nat,
)
    requires
        count <= chunk_count(plaintext.len()),
        chunks_invert(key, base_nonce, header_aad, plaintext, chunk_count(plaintext.len())),
    ensures
        opened_prefix(
            key,
            base_nonce,
            header_aad,
            sealed_body(key, base_nonce, header_aad, plaintext),
            plaintext.len(),
            count,
        ) == Some(plaintext.subrange(0, plain_len_before(plaintext.len(), count) as int)),
    decreases count,
{
    let len = plaintext.len();
    let body = sealed_body(key, base_nonce, header_aad, plaintext);
    if count == 0 {
        assert(plaintext.subrange(0, 0) =~= Seq::<u8>::empty());
    } else {
        let index = (count - 1) as nat;
        lemma_opened_prefix_of_sealed(key, base_nonce, header_aad, plaintext, index);
        lemma_sealed_piece(key, base_nonce, header_aad, plaintext, index);
        lemma_chunk_bounds(len, index);
        let chunk = plaintext_chunk(plaintext, index);
        assert(chunk_inverts(key, base_nonce, header_aad, index, chunk));
        assert(plaintext.subrange(0, plain_len_before(len, index) as int) + chunk
            =~= plaintext.subrange(0, plain_len_before(len, count) as int));
    }
}

/// Opening inverts sealing: where each chunk can be opened after it was
/// sealed, the sealed body has the length the layout gives it and opens to
/// the plaintext.
pub proof fn lemma_opened_body_of_sealed(
    key: Seq<u8>,
    base_nonce: Seq<u8>,
    header_aad: Seq<u8>,
    plaintext: Seq<u8>,
)
    requires
        chunks_invert(key, base_nonce, header_aad, plaintext, chunk_count(plaintext.len())),
    ensures
        sealed_body(key, base_nonce, header_aad, plaintext).len() == body_len(plaintext.len()),
        opened_body(
            key,
            base_nonce,
            header_aad,
            sealed_body(key, base_nonce, header_aad, plaintext),
            plaintext.len(),
        ) == Some(plaintext),
{
    let len = plaintext.len();
    lemma_sealed_prefix_len(key, base_nonce, header_aad, plaintext, chunk_count(len));
    lemma_opened_prefix_of_sealed(key, base_nonce, header_aad, plaintext, chunk_count(len));
    lemma_chunk_count(len, len);
    if len > 0 {
        lemma_chunk_bounds(len, (chunk_count(len) - 1) as nat);
    }
    assert(plaintext.subrange(0, len as int) =~= plaintext);
}

/// A chunk that fails authentication fails the whole body: once the first
/// `count` chunks do not open, no longer run of chunks does.
pub proof fn lemma_opened_prefix_stays_none(
    key: Seq<u8>,
    base_nonce: Seq<u8>,
    header_aad: Seq<u8>,
    body: Seq<u8>,
    ciphertext_len: nat,
    count: nat,
    more: nat,
)
    requires
        count <= more,
        opened_prefix(key, base_nonce, header_aad, body, ciphertext_len, count) is None,
    ensures
        opened_prefix(key, base_nonce, header_aad, body, ciphertext_len, more) is None,
    decreases more,
{
    if count < more {
        lemma_opened_prefix_stays_none(
            key,
            base_nonce,
            header_aad,
            body,
            ciphertext_len,
            count,
            (more - 1) as nat,
        );
    }
}

} // verus!
