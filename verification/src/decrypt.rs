//! Decrypt pipeline: parse the header, hold the container to the size its
//! header declares, derive the key, and open the chunks in order.

use vstd::prelude::*;
use vstd::slice::{slice_subrange, slice_to_vec};
use vstd::string::StringExecFns;
use crate::aead::{open_detached, KEY_LEN};
use crate::bytes::{append_bytes, from_be_u64};
use crate::container::{
    body_len, chunk_count, chunk_len, container_len, count_chunks, lemma_chunk_bounds,
    lemma_chunk_count,
    lemma_opened_prefix_stays_none, lemma_piece_within, opened_body, opened_chunk,
    opened_prefix, plain_len_before, sealed_piece, MAX_CHUNKS, MAX_PLAINTEXT_LEN,
    SEALED_CHUNK_SIZE,
};
use crate::header::{
    build_chunk_aad, declared_name_len, declared_size, decode_header, decoding,
    derive_chunk_nonce, extract_aad, header_reading, magic_bytes, prefix_error, read_header,
    HeaderError, HeaderFields, AAD_LENGTH, CHUNK_SIZE, NONCE_LEN, SALT_LEN, TAG_LEN,
};
use crate::kdf::{argon2id_hash, derivable, derive_key, KdfParams};
use crate::progress::{ErrorEvent, ErrorKind, Phase, ProgressEvent};
use crate::text::{decimal, push_decimal};

verus! {

/// Options for decryption. The paths are the caller's: this library reads
/// and writes bytes, not files.
pub struct DecryptOptions {
    pub input_path: String,
    pub output_path: String,
    pub passphrase: Vec<u8>,
}

/// Why a decryption failed.
#[derive(Debug)]
pub enum DecryptError {
    WrongPassphrase(String),
    CorruptFile(String),
    Permission(String),
    Internal(String),
}

impl DecryptError {
    /// The kind of the error.
    pub open spec fn kind_of(self) -> ErrorKind {
        match self {
            DecryptError::WrongPassphrase(_) => ErrorKind::WrongPassphrase,
            DecryptError::CorruptFile(_) => ErrorKind::CorruptFile,
            DecryptError::Permission(_) => ErrorKind::Permission,
            DecryptError::Internal(_) => ErrorKind::Internal,
        }
    }

    /// The message that the error carries.
    pub open spec fn detail(self) -> Seq<char> {
        match self {
            DecryptError::WrongPassphrase(m) => m@,
            DecryptError::CorruptFile(m) => m@,
            DecryptError::Permission(m) => m@,
            DecryptError::Internal(m) => m@,
        }
    }

    /// The words that introduce the message of each kind.
    pub open spec fn label(kind: ErrorKind) -> Seq<char> {
        match kind {
            ErrorKind::WrongPassphrase => "Wrong passphrase: "@,
            ErrorKind::CorruptFile => "Corrupt file: "@,
            ErrorKind::Permission => "Permission error: "@,
            ErrorKind::Internal => "Internal error: "@,
        }
    }

    /// The kind of the error, which decides the exit code.
    pub fn kind(&self) -> (kind: ErrorKind)
        ensures
            kind == self.kind_of(),
    {
        match self {
            DecryptError::WrongPassphrase(_) => ErrorKind::WrongPassphrase,
            DecryptError::CorruptFile(_) => ErrorKind::CorruptFile,
            DecryptError::Permission(_) => ErrorKind::Permission,
            DecryptError::Internal(_) => ErrorKind::Internal,
        }
    }

    /// The message that the error carries.
    pub fn message(&self) -> (message: &str)
        ensures
            message@ == self.detail(),
    {
        match self {
            DecryptError::WrongPassphrase(m) => m.as_str(),
            DecryptError::CorruptFile(m) => m.as_str(),
            DecryptError::Permission(m) => m.as_str(),
            DecryptError::Internal(m) => m.as_str(),
        }
    }

    /// The error in one line: the kind in words, then the message.
    pub fn to_string(&self) -> (text: String)
        ensures
            text@ == Self::label(self.kind_of()) + self.detail(),
    {
        let label = match self {
            DecryptError::WrongPassphrase(_) => "Wrong passphrase: ",
            DecryptError::CorruptFile(_) => "Corrupt file: ",
            DecryptError::Permission(_) => "Permission error: ",
            DecryptError::Internal(_) => "Internal error: ",
        };
        String::from_str(label).concat(self.message())
    }

    /// The error event that reports this error.
    pub fn event(&self) -> (event: ErrorEvent)
        ensures
            event.error@ == self.kind_of().name_text(),
            event.message@ == self.detail(),
    {
        ErrorEvent::new(self.kind(), self.message())
    }

    /// The error for a failed file operation: a permission error when the
    /// platform reports a permission denial, an internal error otherwise.
    /// The message is the words for the case, a colon, and the platform's
    /// own description.
    pub fn from_io(
        permission_denied: bool,
        when_denied: &str,
        otherwise: &str,
        detail: &str,
    ) -> (err: DecryptError)
        ensures
            err.kind_of() == (if permission_denied {
                ErrorKind::Permission
            } else {
                ErrorKind::Internal
            }),
            err.detail() == (if permission_denied {
                when_denied@
            } else {
                otherwise@
            }) + ": "@ + detail@,
    {
        if permission_denied {
            DecryptError::Permission(String::from_str(when_denied).concat(": ").concat(detail))
        } else {
            DecryptError::Internal(String::from_str(otherwise).concat(": ").concat(detail))
        }
    }

    /// The words that introduce a header error in a corrupt-file message.
    pub open spec fn header_label(e: HeaderError) -> Seq<char> {
        match e {
            HeaderError::InvalidMagic => "Not a gtkrypt file: "@,
            HeaderError::UnsupportedVersion(_) => "Unsupported version: "@,
            HeaderError::UnsupportedKdf(_) => "Unsupported KDF: "@,
            _ => "Invalid header: "@,
        }
    }

    /// Every header error is a corrupt file.
    pub fn from_header_error(e: &HeaderError) -> (err: DecryptError)
        ensures
            err is CorruptFile,
            err.detail() == Self::header_label(*e) + e.message_text(),
    {
        let label = match e {
            HeaderError::InvalidMagic => "Not a gtkrypt file: ",
            HeaderError::UnsupportedVersion(_) => "Unsupported version: ",
            HeaderError::UnsupportedKdf(_) => "Unsupported KDF: ",
            _ => "Invalid header: ",
        };
        let detail = e.message();
        DecryptError::CorruptFile(String::from_str(label).concat(detail.as_str()))
    }
}

/// The permission bits to restore from a stored mode: none when the mode
/// is absent or zero.
pub open spec fn restored_mode(mode: Option<u32>) -> Option<u32> {
    match mode {
        Some(m) => if m != 0 {
            Some(m & 0o7777)
        } else {
            None
        },
        None => None,
    }
}

/// The costs that a header stores.
pub open spec fn stored_params(h: HeaderFields) -> KdfParams {
    KdfParams {
        time_cost: h.time_cost,
        memory_cost_kib: h.memory_cost_kib,
        parallelism: h.parallelism,
    }
}

/// What is checked of a container before any chunk is opened: the header
/// `h` of `header_len` bytes, the container's length, and whether a key
/// can be derived. Nothing when all is in order.
pub open spec fn precheck(
    h: HeaderFields,
    header_len: nat,
    container_size: nat,
    passphrase_len: nat,
) -> Option<ErrorKind> {
    if chunk_count(h.ciphertext_length as nat) > MAX_CHUNKS {
        Some(ErrorKind::CorruptFile)
    } else if container_size != container_len(header_len, h.ciphertext_length as nat) {
        Some(ErrorKind::CorruptFile)
    } else if !derivable(passphrase_len, h.salt.len(), stored_params(h)) {
        Some(ErrorKind::Internal)
    } else {
        None
    }
}

/// A container whose header parses and whose length is the one its header
/// declares.
pub open spec fn well_formed(container: Seq<u8>) -> bool {
    &&& header_reading(container) matches Ok((h, header_len))
    &&& chunk_count(h.ciphertext_length as nat) <= MAX_CHUNKS
    &&& container.len() == container_len(header_len, h.ciphertext_length as nat)
}

/// What decrypting `container` with `passphrase` gives: the plaintext and
/// the permission bits to restore, or the kind of the failure.
pub open spec fn decrypt_outcome(container: Seq<u8>, passphrase: Seq<u8>) -> Result<
    (Seq<u8>, Option<u32>),
    ErrorKind,
> {
    match header_reading(container) {
        Err(_) => Err(ErrorKind::CorruptFile),
        Ok((h, header_len)) => match precheck(h, header_len, container.len(), passphrase.len()) {
            Some(kind) => Err(kind),
            None => match opened_body(
                argon2id_hash(passphrase, h.salt, h.time_cost, h.memory_cost_kib, h.parallelism),
                h.nonce,
                container.subrange(0, AAD_LENGTH as int),
                container.subrange(header_len as int, container.len() as int),
                h.ciphertext_length as nat,
            ) {
                None => Err(ErrorKind::WrongPassphrase),
                Some(plaintext) => Ok((plaintext, restored_mode(h.mode))),
            },
        },
    }
}

/// The message of the corrupt-file error that the checks before the first
/// chunk give.
pub open spec fn precheck_message(h: HeaderFields, header_len: nat, container_size: nat) -> Seq<
    char,
> {
    if chunk_count(h.ciphertext_length as nat) > MAX_CHUNKS {
        "Ciphertext too large: "@ + decimal(chunk_count(h.ciphertext_length as nat))
            + " chunks exceeds maximum of "@ + decimal(MAX_CHUNKS as nat)
    } else {
        "File size mismatch: expected "@ + decimal(
            container_len(header_len, h.ciphertext_length as nat),
        ) + " bytes, got "@ + decimal(container_size)
    }
}

/// The state of a decryption between two chunks: the key, what the nonces
/// and the associated data are derived from, and how far it has come.
pub struct Decryptor {
    key: [u8; KEY_LEN],
    base_nonce: [u8; NONCE_LEN],
    header_aad: Vec<u8>,
    total: u64,
    chunk_index: u64,
    mode: Option<u32>,
}

impl Decryptor {
    #[verifier::type_invariant]
    spec fn inv(&self) -> bool {
        &&& self.header_aad@.len() == AAD_LENGTH
        &&& self.total <= MAX_PLAINTEXT_LEN
        &&& self.chunk_index <= chunk_count(self.total as nat)
    }

    /// The derived key.
    pub closed spec fn key(&self) -> Seq<u8> {
        self.key@
    }

    /// The base nonce of the container.
    pub closed spec fn base_nonce(&self) -> Seq<u8> {
        self.base_nonce@
    }

    /// The authenticated prefix of the container's header.
    pub closed spec fn header_aad(&self) -> Seq<u8> {
        self.header_aad@
    }

    /// The ciphertext length that the header declares.
    pub closed spec fn total(&self) -> nat {
        self.total as nat
    }

    /// The number of chunks opened so far.
    pub closed spec fn chunks_done(&self) -> nat {
        self.chunk_index as nat
    }

    /// The permission bits to restore on the output.
    pub closed spec fn mode(&self) -> Option<u32> {
        self.mode
    }

    /// Whether every chunk has been opened.
    pub open spec fn finished(&self) -> bool {
        self.chunks_done() >= chunk_count(self.total())
    }

    /// The plaintext bytes produced so far.
    pub open spec fn bytes_done(&self) -> nat {
        plain_len_before(self.total(), self.chunks_done())
    }

    /// The stored length of the next chunk, ciphertext and tag; zero when
    /// no chunk is left.
    pub open spec fn next_sealed_len(&self) -> nat {
        if self.finished() {
            0
        } else {
            chunk_len(self.total(), self.chunks_done()) + TAG_LEN as nat
        }
    }

    /// What `begin` decides on a header, a container size and a
    /// passphrase length: nothing when decryption can start.
    pub open spec fn begin_outcome(
        header_bytes: Seq<u8>,
        container_size: nat,
        passphrase_len: nat,
    ) -> Option<ErrorKind> {
        match decoding(header_bytes) {
            Err(_) => Some(ErrorKind::CorruptFile),
            Ok((h, header_len)) => precheck(h, header_len, container_size, passphrase_len),
        }
    }

    /// The message of the corrupt-file error that `begin` gives.
    pub open spec fn begin_message(header_bytes: Seq<u8>, container_size: nat) -> Seq<char> {
        match decoding(header_bytes) {
            Err(e) => DecryptError::header_label(e) + e.message_text(),
            Ok((h, header_len)) => precheck_message(h, header_len, container_size),
        }
    }

    /// Starts a decryption from the bytes of a header and the size of the
    /// whole container: parses the header, refuses a ciphertext of more
    /// than 2^32 chunks and a container whose size is not the one the
    /// header declares, then derives the key.
    pub fn begin(passphrase: &[u8], header_bytes: &[u8], container_size: u64) -> (res: Result<
        Decryptor,
        DecryptError,
    >)
        ensures
            match res {
                Ok(dec) => {
                    &&& Self::begin_outcome(
                        header_bytes@,
                        container_size as nat,
                        passphrase@.len(),
                    ) is None
                    &&& decoding(header_bytes@) matches Ok((h, header_len))
                    &&& dec.key() == argon2id_hash(
                        passphrase@,
                        h.salt,
                        h.time_cost,
                        h.memory_cost_kib,
                        h.parallelism,
                    )
                    &&& dec.base_nonce() == h.nonce
                    &&& dec.header_aad() == header_bytes@.subrange(0, AAD_LENGTH as int)
                    &&& dec.total() == h.ciphertext_length
                    &&& dec.chunks_done() == 0
                    &&& dec.mode() == restored_mode(h.mode)
                },
                Err(e) => {
                    &&& Self::begin_outcome(
                        header_bytes@,
                        container_size as nat,
                        passphrase@.len(),
                    ) == Some(e.kind_of())
                    &&& e is CorruptFile ==> e.detail() == Self::begin_message(
                        header_bytes@,
                        container_size as nat,
                    )
                    &&& e is Internal ==> "KDF failed: "@.is_prefix_of(e.detail())
                },
            },
    {
        match Self::check(header_bytes, container_size) {
            Ok(()) => {},
            Err(e) => {
                return Err(e);
            },
        }
        let (header, consumed) = match decode_header(header_bytes) {
            Ok(parsed) => parsed,
            Err(e) => {
                return Err(DecryptError::from_header_error(&e));
            },
        };
        let ciphertext_len = header.ciphertext_length;
        let key = match derive_key(passphrase, &header.salt, &header.kdf_params) {
            Ok(key) => key,
            Err(e) => {
                return Err(
                    DecryptError::Internal(String::from_str("KDF failed: ").concat(e.as_str())),
                );
            },
        };
        let mut header_aad: Vec<u8> = Vec::new();
        append_bytes(&mut header_aad, extract_aad(header_bytes));
        let mode = match header.mode {
            Some(m) => if m != 0 {
                Some(m & 0o7777)
            } else {
                None
            },
            None => None,
        };
        Ok(
            Decryptor {
                key,
                base_nonce: header.nonce,
                header_aad,
                total: ciphertext_len,
                chunk_index: 0,
                mode,
            },
        )
    }

    /// Holds a container to its header before any key is derived: parses
    /// the header, refuses a ciphertext of more than 2^32 chunks and a
    /// container whose size is not the one the header declares.
    pub fn check(header_bytes: &[u8], container_size: u64) -> (res: Result<(), DecryptError>)
        ensures
            res is Ok <==> (decoding(header_bytes@) matches Ok((h, header_len)) && chunk_count(
                h.ciphertext_length as nat,
            ) <= MAX_CHUNKS && container_size == container_len(
                header_len,
                h.ciphertext_length as nat,
            )),
            res matches Err(e) ==> e is CorruptFile && e.detail() == Self::begin_message(
                header_bytes@,
                container_size as nat,
            ),
    {
        let (header, consumed) = match decode_header(header_bytes) {
            Ok(parsed) => parsed,
            Err(e) => {
                return Err(DecryptError::from_header_error(&e));
            },
        };
        let ciphertext_len = header.ciphertext_length;
        let chunks = count_chunks(ciphertext_len);
        if chunks > MAX_CHUNKS {
            let mut text = String::from_str("Ciphertext too large: ");
            push_decimal(&mut text, chunks);
            text.append(" chunks exceeds maximum of ");
            push_decimal(&mut text, MAX_CHUNKS);
            return Err(DecryptError::CorruptFile(text));
        }
        let expected: u64 = consumed as u64 + ciphertext_len + 16 * chunks;
        if container_size != expected {
            let mut text = String::from_str("File size mismatch: expected ");
            push_decimal(&mut text, expected);
            text.append(" bytes, got ");
            push_decimal(&mut text, container_size);
            return Err(DecryptError::CorruptFile(text));
        }
        Ok(())
    }

    /// Whether every chunk has been opened.
    pub fn is_done(&self) -> (done: bool)
        ensures
            done == self.finished(),
    {
        proof {
            use_type_invariant(self);
        }
        self.chunk_index >= count_chunks(self.total)
    }

    /// The number of bytes to hand to the next `open_chunk`: the stored
    /// length of the next chunk, or zero when no chunk is left.
    pub fn next_len(&self) -> (len: usize)
        ensures
            len == self.next_sealed_len(),
            len <= SEALED_CHUNK_SIZE,
            len == 0 <==> self.finished(),
    {
        proof {
            use_type_invariant(self);
            if self.chunk_index < chunk_count(self.total as nat) {
                lemma_chunk_bounds(self.total as nat, self.chunk_index as nat);
            }
        }
        if self.chunk_index >= count_chunks(self.total) {
            0
        } else {
            let rest: u64 = self.total - self.chunk_index * 65536;
            if rest >= 65536 {
                SEALED_CHUNK_SIZE
            } else {
                rest as usize + TAG_LEN
            }
        }
    }

    /// The permission bits to restore on the output, if any.
    pub fn restore_mode(&self) -> (mode: Option<u32>)
        ensures
            mode == self.mode(),
    {
        self.mode
    }

    /// The progress event for the chunks opened so far.
    pub fn progress(&self) -> (event: ProgressEvent)
        ensures
            event.phase@ == Phase::Decrypt.name_text(),
            event.bytes_processed == self.bytes_done(),
            event.total_bytes == self.total(),
    {
        proof {
            use_type_invariant(self);
        }
        let done: u64 = if self.chunk_index * 65536 <= self.total {
            self.chunk_index * 65536
        } else {
            self.total
        };
        ProgressEvent::new(Phase::Decrypt, done, self.total)
    }

    /// Opens the next chunk in place. `chunk` holds the stored chunk,
    /// ciphertext and tag; on success it holds the plaintext.
    ///
    /// A chunk of another length than `next_len` is a truncated file; a
    /// chunk that fails authentication is a wrong passphrase. On failure
    /// nothing has changed.
    pub fn open_chunk(&mut self, chunk: &mut Vec<u8>) -> (res: Result<(), DecryptError>)
        ensures
            final(self).key() == old(self).key(),
            final(self).base_nonce() == old(self).base_nonce(),
            final(self).header_aad() == old(self).header_aad(),
            final(self).total() == old(self).total(),
            final(self).mode() == old(self).mode(),
            match res {
                Ok(()) => {
                    &&& !old(self).finished()
                    &&& old(chunk)@.len() == old(self).next_sealed_len()
                    &&& opened_chunk(
                        old(self).key(),
                        old(self).base_nonce(),
                        old(self).header_aad(),
                        old(self).chunks_done(),
                        old(chunk)@,
                    ) == Some(final(chunk)@)
                    &&& final(chunk)@.len() + TAG_LEN == old(chunk)@.len()
                    &&& final(self).chunks_done() == old(self).chunks_done() + 1
                },
                Err(e) => {
                    &&& final(self).chunks_done() == old(self).chunks_done()
                    &&& final(chunk)@ == old(chunk)@
                    &&& e.kind_of() == (if old(self).finished() {
                        ErrorKind::Internal
                    } else if old(chunk)@.len() != old(self).next_sealed_len() {
                        ErrorKind::CorruptFile
                    } else {
                        ErrorKind::WrongPassphrase
                    })
                    &&& e is WrongPassphrase ==> opened_chunk(
                        old(self).key(),
                        old(self).base_nonce(),
                        old(self).header_aad(),
                        old(self).chunks_done(),
                        old(chunk)@,
                    ) is None
                    &&& e is WrongPassphrase ==> e.detail()
                        == "Decryption failed: incorrect passphrase or corrupted data"@
                    &&& e is CorruptFile ==> e.detail() == "File is truncated at chunk "@
                        + decimal(old(self).chunks_done())
                },
            },
    {
        proof {
            use_type_invariant(&*self);
        }
        let expected = self.next_len();
        if expected == 0 {
            return Err(DecryptError::Internal(String::from_str("No chunk is left to decrypt")));
        }
        if chunk.len() != expected {
            let mut text = String::from_str("File is truncated at chunk ");
            push_decimal(&mut text, self.chunk_index);
            return Err(DecryptError::CorruptFile(text));
        }
        proof {
            lemma_chunk_bounds(self.total as nat, self.chunk_index as nat);
        }
        let ciphertext_len = expected - TAG_LEN;
        let mut tag = [0u8; TAG_LEN];
        let mut i: usize = 0;
        while i < TAG_LEN
            invariant
                i <= TAG_LEN,
                ciphertext_len <= CHUNK_SIZE,
                chunk@.len() == ciphertext_len + TAG_LEN,
                forall|j: int| 0 <= j < i ==> tag@[j] == chunk@[ciphertext_len + j],
            decreases TAG_LEN - i,
        {
            tag[i] = chunk[ciphertext_len + i];
            i += 1;
        }
        chunk.truncate(ciphertext_len);
        assert(chunk@ + tag@ =~= old(chunk)@);
        let index = self.chunk_index as u32;
        let nonce = derive_chunk_nonce(&self.base_nonce, index);
        let aad = build_chunk_aad(self.header_aad.as_slice(), index);
        if open_detached(&self.key, &nonce, aad.as_slice(), chunk, &tag) {
            self.chunk_index = self.chunk_index + 1;
            Ok(())
        } else {
            append_bytes(chunk, &tag);
            Err(
                DecryptError::WrongPassphrase(
                    String::from_str("Decryption failed: incorrect passphrase or corrupted data"),
                ),
            )
        }
    }
}

/// What a decryption gives: the plaintext, and the permission bits to
/// restore on the output, if the container stores any.
#[derive(Debug)]
pub struct Decrypted {
    pub plaintext: Vec<u8>,
    pub mode: Option<u32>,
}

/// The message of the corrupt-file error that `decrypt` gives.
pub open spec fn corrupt_message(container: Seq<u8>) -> Seq<char> {
    match header_reading(container) {
        Err(e) => DecryptError::header_label(e) + e.message_text(),
        Ok((h, header_len)) => precheck_message(h, header_len, container.len()),
    }
}

/// Decrypts a container held in memory with the passphrase of `opts`.
///
/// The header is parsed and the container is held to the size its header
/// declares before any chunk is opened; the chunks are then opened in
/// order, and the first that fails authentication fails the decryption.
pub fn decrypt(opts: &DecryptOptions, container: &[u8]) -> (res: Result<Decrypted, DecryptError>)
    ensures
        match res {
            Ok(d) => decrypt_outcome(container@, opts.passphrase@) == Ok::<
                (Seq<u8>, Option<u32>),
                ErrorKind,
            >((d.plaintext@, d.mode)),
            Err(e) => {
                &&& decrypt_outcome(container@, opts.passphrase@) == Err::<
                    (Seq<u8>, Option<u32>),
                    ErrorKind,
                >(e.kind_of())
                &&& e is CorruptFile ==> e.detail() == corrupt_message(container@)
                &&& e is WrongPassphrase ==> e.detail()
                    == "Decryption failed: incorrect passphrase or corrupted data"@
                &&& e is Internal ==> "KDF failed: "@.is_prefix_of(e.detail())
            },
        },
{
    let (header, header_len) = match read_header(container) {
        Ok(parsed) => parsed,
        Err(e) => {
            return Err(DecryptError::from_header_error(&e));
        },
    };
    let header_bytes = slice_subrange(container, 0, header_len);
    proof {
        lemma_header_reading_ok(container@);
        assert(header_bytes@.subrange(0, AAD_LENGTH as int) =~= container@.subrange(
            0,
            AAD_LENGTH as int,
        ));
    }
    let mut dec = match Decryptor::begin(
        opts.passphrase.as_slice(),
        header_bytes,
        container.len() as u64,
    ) {
        Ok(dec) => dec,
        Err(e) => {
            return Err(e);
        },
    };
    let ghost h = header@;
    let ghost key = dec.key();
    let ghost nonce = dec.base_nonce();
    let ghost aad = dec.header_aad();
    let ghost total = dec.total();
    let ghost body = container@.subrange(header_len as int, container@.len() as int);
    let mut plaintext: Vec<u8> = Vec::new();
    let container_size = container.len();
    let mut pos: usize = header_len;
    proof {
        lemma_chunk_count(total, total);
    }
    while !dec.is_done()
        invariant
            header_reading(container@) == Ok::<(HeaderFields, nat), HeaderError>(
                (h, header_len as nat),
            ),
            precheck(h, header_len as nat, container@.len(), opts.passphrase@.len()) is None,
            key == argon2id_hash(
                opts.passphrase@,
                h.salt,
                h.time_cost,
                h.memory_cost_kib,
                h.parallelism,
            ),
            nonce == h.nonce,
            aad == container@.subrange(0, AAD_LENGTH as int),
            total == h.ciphertext_length,
            dec.mode() == restored_mode(h.mode),
            dec.key() == key,
            dec.base_nonce() == nonce,
            dec.header_aad() == aad,
            dec.total() == total,
            dec.chunks_done() <= chunk_count(total),
            container_size == container@.len(),
            header_len <= pos <= container@.len(),
            container@.len() == header_len + body_len(total),
            body == container@.subrange(header_len as int, container@.len() as int),
            !dec.finished() ==> pos == header_len + dec.chunks_done() * SEALED_CHUNK_SIZE,
            opened_prefix(key, nonce, aad, body, total, dec.chunks_done()) == Some(plaintext@),
        decreases chunk_count(total) - dec.chunks_done(),
    {
        let sealed_len = dec.next_len();
        let ghost index = dec.chunks_done();
        proof {
            lemma_chunk_bounds(total, index);
            lemma_piece_within(total, index);
            assert(sealed_len == chunk_len(total, index) + TAG_LEN);
            assert(pos == header_len + index * SEALED_CHUNK_SIZE);
            assert(pos + sealed_len <= header_len + body_len(total));
            assert(pos + sealed_len <= container@.len());
        }
        let mut chunk = slice_to_vec(slice_subrange(container, pos, pos + sealed_len));
        proof {
            assert(chunk@ =~= sealed_piece(body, total, index));
        }
        match dec.open_chunk(&mut chunk) {
            Ok(()) => {
                append_bytes(&mut plaintext, chunk.as_slice());
                pos = pos + sealed_len;
            },
            Err(e) => {
                proof {
                    assert(opened_prefix(key, nonce, aad, body, total, index + 1) is None);
                    lemma_opened_prefix_stays_none(
                        key,
                        nonce,
                        aad,
                        body,
                        total,
                        index + 1,
                        chunk_count(total),
                    );
                }
                return Err(e);
            },
        }
    }
    Ok(Decrypted { plaintext, mode: dec.restore_mode() })
}

/// A stream from which a header is read begins with bytes that parse to
/// that header, and the header's length is the one its prefix declares.
pub proof fn lemma_header_reading_ok(stream: Seq<u8>)
    requires
        header_reading(stream) is Ok,
    ensures
        header_reading(stream)->Ok_0.1 <= stream.len(),
        header_reading(stream)->Ok_0.1 >= 67,
        decoding(stream.subrange(0, header_reading(stream)->Ok_0.1 as int)) == header_reading(
            stream,
        ),
        header_reading(stream)->Ok_0.0.salt.len() == SALT_LEN,
{
    let size = declared_size(stream);
    let head = stream.subrange(0, size);
    assert(head.subrange(49, 51) =~= stream.subrange(49, 51));
    assert(declared_size(head) == size);
}

/// A container that decrypts is well formed.
pub proof fn lemma_decrypted_is_well_formed(container: Seq<u8>, passphrase: Seq<u8>)
    requires
        decrypt_outcome(container, passphrase) is Ok,
    ensures
        well_formed(container),
{
}

/// A wrong passphrase is reported only for an authentication failure: the
/// container is then well formed, a key was derived, and a chunk of the
/// body does not open under it.
pub proof fn lemma_wrong_passphrase_is_authentication_failure(
    container: Seq<u8>,
    passphrase: Seq<u8>,
)
    requires
        decrypt_outcome(container, passphrase) == Err::<(Seq<u8>, Option<u32>), ErrorKind>(
            ErrorKind::WrongPassphrase,
        ),
    ensures
        well_formed(container),
        header_reading(container) matches Ok((h, header_len)) && derivable(
            passphrase.len(),
            h.salt.len(),
            stored_params(h),
        ) && opened_body(
            argon2id_hash(passphrase, h.salt, h.time_cost, h.memory_cost_kib, h.parallelism),
            h.nonce,
            container.subrange(0, AAD_LENGTH as int),
            container.subrange(header_len as int, container.len() as int),
            h.ciphertext_length as nat,
        ) is None,
        container.len() > header_reading(container)->Ok_0.1,
{
    let h = header_reading(container)->Ok_0.0;
    lemma_chunk_count(h.ciphertext_length as nat, h.ciphertext_length as nat);
}

/// Trailing data is rejected: a well-formed container followed by one byte
/// or more is a corrupt file, whatever the passphrase.
pub proof fn lemma_trailing_data_rejected(
    container: Seq<u8>,
    suffix: Seq<u8>,
    passphrase: Seq<u8>,
)
    requires
        well_formed(container),
        suffix.len() > 0,
    ensures
        decrypt_outcome(container + suffix, passphrase) == Err::<
            (Seq<u8>, Option<u32>),
            ErrorKind,
        >(ErrorKind::CorruptFile),
{
    let longer = container + suffix;
    let size = declared_size(container);
    lemma_header_reading_ok(container);
    assert(longer.subrange(49, 51) =~= container.subrange(49, 51));
    assert(declared_size(longer) == size);
    assert(longer.subrange(0, size) =~= container.subrange(0, size));
    assert(header_reading(longer) == header_reading(container));
}

/// Truncation is rejected: a well-formed container cut short by one byte
/// or more, within the header or after it, is a corrupt file, whatever the
/// passphrase.
pub proof fn lemma_truncation_rejected(container: Seq<u8>, keep: nat, passphrase: Seq<u8>)
    requires
        well_formed(container),
        keep < container.len(),
    ensures
        decrypt_outcome(container.subrange(0, keep as int), passphrase) == Err::<
            (Seq<u8>, Option<u32>),
            ErrorKind,
        >(ErrorKind::CorruptFile),
{
    let shorter = container.subrange(0, keep as int);
    let size = declared_size(container);
    lemma_header_reading_ok(container);
    if keep >= 67 {
        assert(shorter.subrange(49, 51) =~= container.subrange(49, 51));
        assert(declared_size(shorter) == size);
        if keep >= size {
            assert(shorter.subrange(0, size) =~= container.subrange(0, size));
            assert(header_reading(shorter) == header_reading(container));
        }
    }
}

/// The length of a container fixes the length of its ciphertext: under a
/// header of a given length, two ciphertext lengths that give containers
/// of the same length are equal. A change of the stored ciphertext length
/// alone is therefore a size mismatch.
pub proof fn lemma_container_len_injective(header_len: nat, a: nat, b: nat)
    requires
        container_len(header_len, a) == container_len(header_len, b),
    ensures
        a == b,
{
    if a < b {
        lemma_chunk_count(a, b);
    } else if b < a {
        lemma_chunk_count(b, a);
    }
}

/// A changed frame byte is rejected: in a well-formed container, another
/// value in one of the magic bytes, in the KDF identifier, in the salt
/// length or in the nonce length, or a version byte that is neither 1 nor
/// 2, makes a corrupt file, whatever the passphrase.
pub proof fn lemma_tampered_frame_rejected(
    container: Seq<u8>,
    offset: int,
    value: u8,
    passphrase: Seq<u8>,
)
    requires
        well_formed(container),
        value != container[offset],
        0 <= offset < 8 || offset == 9 || offset == 19 || offset == 36 || (offset == 8 && value
            != 1 && value != 2),
    ensures
        decrypt_outcome(container.update(offset, value), passphrase) == Err::<
            (Seq<u8>, Option<u32>),
            ErrorKind,
        >(ErrorKind::CorruptFile),
{
    let changed = container.update(offset, value);
    lemma_header_reading_ok(container);
    let size = declared_size(container);
    let head = container.subrange(0, size);
    assert(changed.subrange(49, 51) =~= container.subrange(49, 51));
    let changed_size = declared_size(changed);
    if changed.len() >= changed_size {
        let changed_head = changed.subrange(0, changed_size);
        assert(head.subrange(0, 8) == magic_bytes());
        if offset < 8 {
            assert(changed_head.subrange(0, 8)[offset] != head.subrange(0, 8)[offset]);
        } else {
            assert(changed_head.subrange(0, 8) =~= head.subrange(0, 8));
        }
        assert(prefix_error(changed_head) is Some);
    }
}

/// A changed ciphertext length is rejected: a container that differs from
/// a well-formed one in the last eight bytes of its header alone, and
/// stores another ciphertext length there, is a corrupt file, whatever the
/// passphrase.
pub proof fn lemma_tampered_length_rejected(
    container: Seq<u8>,
    changed: Seq<u8>,
    passphrase: Seq<u8>,
)
    requires
        well_formed(container),
        changed.len() == container.len(),
        forall|i: int|
            0 <= i < container.len() && !(declared_size(container) - 8 <= i < declared_size(
                container,
            )) ==> changed[i] == container[i],
        from_be_u64(
            changed.subrange(declared_size(container) - 8, declared_size(container)),
        ) != from_be_u64(
            container.subrange(declared_size(container) - 8, declared_size(container)),
        ),
    ensures
        decrypt_outcome(changed, passphrase) == Err::<(Seq<u8>, Option<u32>), ErrorKind>(
            ErrorKind::CorruptFile,
        ),
{
    lemma_header_reading_ok(container);
    let size = declared_size(container);
    let head = container.subrange(0, size);
    let changed_head = changed.subrange(0, size);
    let name_end = 51 + declared_name_len(container);
    assert(changed.subrange(49, 51) =~= container.subrange(49, 51));
    assert(declared_size(changed) == size);
    assert(head.subrange(49, 51) =~= container.subrange(49, 51));
    assert(changed_head.subrange(49, 51) =~= container.subrange(49, 51));
    assert(changed_head.subrange(0, 8) =~= head.subrange(0, 8));
    assert(changed_head.subrange(51, name_end) =~= head.subrange(51, name_end));
    assert(changed_head.subrange(size - 8, size) =~= changed.subrange(size - 8, size));
    assert(head.subrange(size - 8, size) =~= container.subrange(size - 8, size));
    assert(decoding(changed_head) is Ok);
    let h = decoding(head)->Ok_0.0;
    let g = decoding(changed_head)->Ok_0.0;
    assert(g.ciphertext_length != h.ciphertext_length);
    if chunk_count(g.ciphertext_length as nat) <= MAX_CHUNKS {
        if container_len(size as nat, g.ciphertext_length as nat) == container_len(
            size as nat,
            h.ciphertext_length as nat,
        ) {
            lemma_container_len_injective(
                size as nat,
                g.ciphertext_length as nat,
                h.ciphertext_length as nat,
            );
        }
    }
}

} // verus!
