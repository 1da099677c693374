//! Encrypt pipeline: draw salt and base nonce, derive the key, write the
//! header, and seal the plaintext chunk by chunk.

use vstd::prelude::*;
use vstd::slice::{slice_subrange, slice_to_vec};
use vstd::string::StringExecFns;
use vstd::utf8::encode_utf8;
use rand::RngCore;
use crate::aead::{seal_detached, KEY_LEN};
use crate::bytes::{append_bytes, lemma_be_lengths};
use crate::container::{
    chunk_count, chunk_inverts, chunk_len, chunks_invert, container_len, count_chunks,
    lemma_chunk_bounds, lemma_chunk_count, lemma_opened_body_of_sealed, lemma_sealed_prefix_len,
    plain_len_before, plaintext_chunk, sealed_body, sealed_chunk, sealed_prefix, MAX_CHUNKS,
    MAX_PLAINTEXT_LEN,
};
use crate::decrypt::{decrypt_outcome, restored_mode};
use crate::header::{
    build_chunk_aad, derive_chunk_nonce, encode_header, header_reading, header_size,
    lemma_decode_encode_normal, lemma_encoding_layout, lemma_normal_form, ContainerHeader,
    HeaderError, HeaderFields, AAD_LENGTH, CHUNK_SIZE, KDF_ID_ARGON2ID, NONCE_LEN, SALT_LEN,
    TAG_LEN, VERSION,
};
use crate::kdf::{argon2id_hash, derivable, derive_key, KdfParams};
use crate::progress::{ErrorEvent, ErrorKind, Phase, ProgressEvent};
use crate::text::{decimal, push_decimal};

verus! {

/// Options for encryption. The paths are the caller's: this library reads
/// and writes bytes, not files.
pub struct EncryptOptions {
    pub input_path: String,
    pub output_path: String,
    pub passphrase: Vec<u8>,
    pub time_cost: u32,
    pub memory_cost_kib: u32,
    pub parallelism: u32,
    pub store_filename: bool,
}

impl EncryptOptions {
    /// The Argon2id costs of these options.
    pub open spec fn costs(self) -> KdfParams {
        KdfParams {
            time_cost: self.time_cost,
            memory_cost_kib: self.memory_cost_kib,
            parallelism: self.parallelism,
        }
    }

    /// The Argon2id costs of these options.
    pub fn kdf_params(&self) -> (params: KdfParams)
        ensures
            params == self.costs(),
    {
        KdfParams {
            time_cost: self.time_cost,
            memory_cost_kib: self.memory_cost_kib,
            parallelism: self.parallelism,
        }
    }
}

/// Why an encryption failed.
#[derive(Debug)]
pub enum EncryptError {
    Permission(String),
    Internal(String),
}

impl EncryptError {
    /// The kind of the error.
    pub open spec fn kind_of(self) -> ErrorKind {
        match self {
            EncryptError::Permission(_) => ErrorKind::Permission,
            EncryptError::Internal(_) => ErrorKind::Internal,
        }
    }

    /// The message that the error carries.
    pub open spec fn detail(self) -> Seq<char> {
        match self {
            EncryptError::Permission(m) => m@,
            EncryptError::Internal(m) => m@,
        }
    }

    /// The words that introduce the message of each kind.
    pub open spec fn label(self) -> Seq<char> {
        match self {
            EncryptError::Permission(_) => "Permission error: "@,
            EncryptError::Internal(_) => "Internal error: "@,
        }
    }

    /// The kind of the error, which decides the exit code.
    pub fn kind(&self) -> (kind: ErrorKind)
        ensures
            kind == self.kind_of(),
    {
        match self {
            EncryptError::Permission(_) => ErrorKind::Permission,
            EncryptError::Internal(_) => ErrorKind::Internal,
        }
    }

    /// The message that the error carries.
    pub fn message(&self) -> (message: &str)
        ensures
            message@ == self.detail(),
    {
        match self {
            EncryptError::Permission(m) => m.as_str(),
            EncryptError::Internal(m) => m.as_str(),
        }
    }

    /// The error in one line: the kind in words, then the message.
    pub fn to_string(&self) -> (text: String)
        ensures
            text@ == self.label() + self.detail(),
    {
        let label = match self {
            EncryptError::Permission(_) => "Permission error: ",
            EncryptError::Internal(_) => "Internal error: ",
        };
        String::from_str(label).concat(self.message())
    }

    /// The error event that reports this error.
    pub fn event(&self) -> (event: ErrorEvent)
        ensures
            event.error@ == self.kind_of().name_text(),
            event.message@ == self.detail(),
    {
        ErrorEvent::new(self.kind(), self.message())
    }

    /// The error for a failed file operation: a permission error when the
    /// platform reports a permission denial, an internal error otherwise.
    /// The message is the words for the case, a colon, and the platform's
    /// own description.
    pub fn from_io(
        permission_denied: bool,
        when_denied: &str,
        otherwise: &str,
        detail: &str,
    ) -> (err: EncryptError)
        ensures
            err.kind_of() == (if permission_denied {
                ErrorKind::Permission
            } else {
                ErrorKind::Internal
            }),
            err.detail() == (if permission_denied {
                when_denied@
            } else {
                otherwise@
            }) + ": "@ + detail@,
    {
        if permission_denied {
            EncryptError::Permission(String::from_str(when_denied).concat(": ").concat(detail))
        } else {
            EncryptError::Internal(String::from_str(otherwise).concat(": ").concat(detail))
        }
    }
}

/// What one read into a chunk buffer gave.
pub enum ReadEvent {
    /// The read returned this many bytes; zero at the end of the input.
    Bytes(usize),
    /// The read was interrupted before it returned anything.
    Interrupted,
    /// The read failed for good.
    Failed,
}

/// What to do next while a chunk buffer is being filled.
#[derive(Debug, Clone, Copy, PartialEq, Eq, Structural)]
pub enum FillAction {
    /// Read again into what is left of the buffer.
    ReadMore,
    /// The buffer is full, or the input has ended: the chunk is complete.
    Finished,
    /// Give up: the read failed.
    Fail,
}

/// The filled length and the action that follow a read.
pub open spec fn fill_step(filled: usize, capacity: usize, event: ReadEvent) -> (
    usize,
    FillAction,
) {
    match event {
        ReadEvent::Bytes(n) => if n == 0 || filled >= capacity {
            (filled, FillAction::Finished)
        } else if n > capacity - filled {
            (filled, FillAction::Fail)
        } else if filled + n == capacity {
            (capacity, FillAction::Finished)
        } else {
            ((filled + n) as usize, FillAction::ReadMore)
        },
        ReadEvent::Interrupted => (filled, FillAction::ReadMore),
        ReadEvent::Failed => (filled, FillAction::Fail),
    }
}

/// Decides how the filling of a chunk buffer goes on after a read: a read
/// of zero bytes ends the input and a full buffer ends the chunk, an
/// interrupted read is tried again, and any other failure is final. A read
/// that claims more bytes than were asked for is a failure too.
pub fn after_read(filled: usize, capacity: usize, event: ReadEvent) -> (next: (usize, FillAction))
    ensures
        next == fill_step(filled, capacity, event),
        next.0 >= filled,
        next.1 != FillAction::Fail ==> next.0 <= capacity || next.0 == filled,
{
    match event {
        ReadEvent::Bytes(n) => {
            if n == 0 || filled >= capacity {
                (filled, FillAction::Finished)
            } else if n > capacity - filled {
                (filled, FillAction::Fail)
            } else if filled + n == capacity {
                (capacity, FillAction::Finished)
            } else {
                (filled + n, FillAction::ReadMore)
            }
        },
        ReadEvent::Interrupted => (filled, FillAction::ReadMore),
        ReadEvent::Failed => (filled, FillAction::Fail),
    }
}

/// The mode bits that a header stores for a file mode: the low twelve bits.
pub open spec fn stored_mode(mode: Option<u32>) -> Option<u32> {
    match mode {
        Some(m) => Some(m & 0o7777),
        None => None,
    }
}

/// The header of the container of a plaintext of `size` bytes: the current
/// version, the costs, salt and base nonce, the file name if it is to be
/// stored, the mode bits, and the size twice.
pub open spec fn planned_header(
    costs: KdfParams,
    store_filename: bool,
    file_name: Option<Seq<char>>,
    mode: Option<u32>,
    size: u64,
    salt: Seq<u8>,
    nonce: Seq<u8>,
) -> HeaderFields {
    HeaderFields {
        version: VERSION,
        kdf_id: KDF_ID_ARGON2ID,
        time_cost: costs.time_cost,
        memory_cost_kib: costs.memory_cost_kib,
        parallelism: costs.parallelism,
        salt,
        nonce,
        filename: if store_filename {
            file_name
        } else {
            None
        },
        mode: stored_mode(mode),
        original_file_size: size,
        ciphertext_length: size,
    }
}

/// The container of `plaintext` under a header and a key: the encoded
/// header, then every chunk sealed under the header's base nonce and
/// authenticated prefix.
pub open spec fn container_of(header: HeaderFields, key: Seq<u8>, plaintext: Seq<u8>) -> Seq<u8> {
    header.encoding() + sealed_body(key, header.nonce, header.aad(), plaintext)
}

/// The view of an optional file name.
pub open spec fn name_view(name: Option<String>) -> Option<Seq<char>> {
    match name {
        Some(n) => Some(n@),
        None => None,
    }
}

/// `RngCore::fill_bytes` of `rand::thread_rng()` on a fresh array of `N`
/// bytes. Nothing is known of the bytes drawn.
#[verifier::external_body]
fn random_bytes<const N: usize>() -> (bytes: [u8; N]) {
    let mut bytes = [0u8; N];
    rand::thread_rng().fill_bytes(&mut bytes);
    bytes
}

/// The key of one encryption, with the salt it was derived from and the
/// base nonce drawn with it.
pub struct FileKey {
    key: [u8; KEY_LEN],
    salt: [u8; SALT_LEN],
    nonce: [u8; NONCE_LEN],
}

impl FileKey {
    /// The derived key.
    pub closed spec fn key(&self) -> Seq<u8> {
        self.key@
    }

    /// The salt that the key was derived from.
    pub closed spec fn salt(&self) -> Seq<u8> {
        self.salt@
    }

    /// The base nonce of the container to be.
    pub closed spec fn nonce(&self) -> Seq<u8> {
        self.nonce@
    }

    /// Derives the key of an encryption from the passphrase and the costs
    /// of `opts` under a given salt. Fails exactly when no key can be
    /// derived from them.
    pub fn derive_with(
        opts: &EncryptOptions,
        salt: [u8; SALT_LEN],
        nonce: [u8; NONCE_LEN],
    ) -> (res: Result<FileKey, EncryptError>)
        ensures
            res is Ok <==> derivable(opts.passphrase@.len(), SALT_LEN as nat, opts.costs()),
            res matches Ok(k) ==> {
                &&& k.key() == argon2id_hash(
                    opts.passphrase@,
                    salt@,
                    opts.time_cost,
                    opts.memory_cost_kib,
                    opts.parallelism,
                )
                &&& k.salt() == salt@
                &&& k.nonce() == nonce@
            },
            res matches Err(e) ==> e is Internal && "KDF failed: "@.is_prefix_of(e.detail()),
    {
        let kdf_params = opts.kdf_params();
        match derive_key(opts.passphrase.as_slice(), &salt, &kdf_params) {
            Ok(key) => Ok(FileKey { key, salt, nonce }),
            Err(e) => Err(
                EncryptError::Internal(String::from_str("KDF failed: ").concat(e.as_str())),
            ),
        }
    }

    /// Draws a random salt and base nonce and derives the key of an
    /// encryption. Fails exactly when no key can be derived from the
    /// passphrase and the costs of `opts`; whatever was drawn, the key is
    /// the one that the salt derives.
    pub fn derive(opts: &EncryptOptions) -> (res: Result<FileKey, EncryptError>)
        ensures
            res is Ok <==> derivable(opts.passphrase@.len(), SALT_LEN as nat, opts.costs()),
            res matches Ok(k) ==> {
                &&& k.key() == argon2id_hash(
                    opts.passphrase@,
                    k.salt(),
                    opts.time_cost,
                    opts.memory_cost_kib,
                    opts.parallelism,
                )
                &&& k.salt().len() == SALT_LEN
                &&& k.nonce().len() == NONCE_LEN
            },
            res matches Err(e) ==> e is Internal && "KDF failed: "@.is_prefix_of(e.detail()),
    {
        let salt: [u8; SALT_LEN] = random_bytes();
        let nonce: [u8; NONCE_LEN] = random_bytes();
        Self::derive_with(opts, salt, nonce)
    }
}

/// The state of an encryption between two chunks: the key, what the nonces
/// and the associated data are derived from, and how far it has come.
pub struct Encryptor {
    key: [u8; KEY_LEN],
    base_nonce: [u8; NONCE_LEN],
    header_aad: Vec<u8>,
    total: u64,
    chunk_index: u64,
}

impl Encryptor {
    #[verifier::type_invariant]
    spec fn inv(&self) -> bool {
        &&& self.header_aad@.len() == AAD_LENGTH
        &&& self.total <= MAX_PLAINTEXT_LEN
        &&& self.chunk_index <= chunk_count(self.total as nat)
    }

    /// The derived key.
    pub closed spec fn key(&self) -> Seq<u8> {
        self.key@
    }

    /// The base nonce of the container.
    pub closed spec fn base_nonce(&self) -> Seq<u8> {
        self.base_nonce@
    }

    /// The authenticated prefix of the container's header.
    pub closed spec fn header_aad(&self) -> Seq<u8> {
        self.header_aad@
    }

    /// The plaintext length that the header declares.
    pub closed spec fn total(&self) -> nat {
        self.total as nat
    }

    /// The number of chunks sealed so far.
    pub closed spec fn chunks_done(&self) -> nat {
        self.chunk_index as nat
    }

    /// Whether every chunk has been sealed.
    pub open spec fn finished(&self) -> bool {
        self.chunks_done() >= chunk_count(self.total())
    }

    /// The plaintext bytes sealed so far.
    pub open spec fn bytes_done(&self) -> nat {
        plain_len_before(self.total(), self.chunks_done())
    }

    /// The length of the next chunk of plaintext; zero when none is left.
    pub open spec fn next_chunk_len(&self) -> nat {
        if self.finished() {
            0
        } else {
            chunk_len(self.total(), self.chunks_done())
        }
    }

    /// The message of the error that `begin` gives.
    pub open spec fn begin_message(input_size: u64) -> Seq<char> {
        "File too large: "@ + decimal(input_size as nat) + " bytes exceeds maximum of "@
            + decimal(MAX_PLAINTEXT_LEN as nat) + " bytes"@
    }

    /// Starts an encryption with a given salt and base nonce: derives the
    /// key, refuses an input of more than 2^32 chunks, and builds the
    /// header. Returns the state and the encoded header.
    pub fn begin_with(
        opts: &EncryptOptions,
        file_name: Option<String>,
        mode: Option<u32>,
        input_size: u64,
        salt: [u8; SALT_LEN],
        nonce: [u8; NONCE_LEN],
    ) -> (res: Result<(Encryptor, Vec<u8>), EncryptError>)
        ensures
            res is Ok <==> derivable(opts.passphrase@.len(), SALT_LEN as nat, opts.costs())
                && input_size <= MAX_PLAINTEXT_LEN,
            res matches Ok((enc, header_bytes)) ==> {
                let header = planned_header(
                    opts.costs(),
                    opts.store_filename,
                    name_view(file_name),
                    mode,
                    input_size,
                    salt@,
                    nonce@,
                );
                &&& header_bytes@ == header.encoding()
                &&& enc.key() == argon2id_hash(
                    opts.passphrase@,
                    salt@,
                    opts.time_cost,
                    opts.memory_cost_kib,
                    opts.parallelism,
                )
                &&& enc.base_nonce() == nonce@
                &&& enc.header_aad() == header.aad()
                &&& enc.total() == input_size
                &&& enc.chunks_done() == 0
            },
            res matches Err(e) ==> {
                &&& e is Internal
                &&& !derivable(opts.passphrase@.len(), SALT_LEN as nat, opts.costs())
                    ==> "KDF failed: "@.is_prefix_of(e.detail())
                &&& derivable(opts.passphrase@.len(), SALT_LEN as nat, opts.costs())
                    ==> e.detail() == Self::begin_message(input_size)
            },
    {
        let key = match FileKey::derive_with(opts, salt, nonce) {
            Ok(key) => key,
            Err(e) => {
                return Err(e);
            },
        };
        Self::start(key, opts, file_name, mode, input_size)
    }

    /// Starts an encryption under a derived key: refuses an input of more
    /// than 2^32 chunks, and builds the header. Returns the state and the
    /// encoded header.
    pub fn start(
        key: FileKey,
        opts: &EncryptOptions,
        file_name: Option<String>,
        mode: Option<u32>,
        input_size: u64,
    ) -> (res: Result<(Encryptor, Vec<u8>), EncryptError>)
        ensures
            res is Ok <==> input_size <= MAX_PLAINTEXT_LEN,
            res matches Ok((enc, header_bytes)) ==> {
                let header = planned_header(
                    opts.costs(),
                    opts.store_filename,
                    name_view(file_name),
                    mode,
                    input_size,
                    key.salt(),
                    key.nonce(),
                );
                &&& header_bytes@ == header.encoding()
                &&& enc.key() == key.key()
                &&& enc.base_nonce() == key.nonce()
                &&& enc.header_aad() == header.aad()
                &&& enc.total() == input_size
                &&& enc.chunks_done() == 0
            },
            res matches Err(e) ==> e is Internal && e.detail() == Self::begin_message(input_size),
    {
        if input_size > MAX_PLAINTEXT_LEN {
            let mut text = String::from_str("File too large: ");
            push_decimal(&mut text, input_size);
            text.append(" bytes exceeds maximum of ");
            push_decimal(&mut text, MAX_PLAINTEXT_LEN);
            text.append(" bytes");
            return Err(EncryptError::Internal(text));
        }
        let stored_name = if opts.store_filename {
            file_name
        } else {
            None
        };
        let stored = match mode {
            Some(m) => Some(m & 0o7777),
            None => None,
        };
        let header = ContainerHeader {
            version: VERSION,
            kdf_id: KDF_ID_ARGON2ID,
            kdf_params: opts.kdf_params(),
            salt: key.salt,
            nonce: key.nonce,
            filename: stored_name,
            mode: stored,
            original_file_size: input_size,
            ciphertext_length: input_size,
        };
        let header_bytes = encode_header(&header);
        let mut header_aad: Vec<u8> = Vec::new();
        append_bytes(&mut header_aad, slice_subrange(header_bytes.as_slice(), 0, AAD_LENGTH));
        proof {
            lemma_encoding_layout(header@);
            assert(header@ == planned_header(
                opts.costs(),
                opts.store_filename,
                name_view(file_name),
                mode,
                input_size,
                key.salt(),
                key.nonce(),
            ));
        }
        Ok(
            (
                Encryptor {
                    key: key.key,
                    base_nonce: key.nonce,
                    header_aad,
                    total: input_size,
                    chunk_index: 0,
                },
                header_bytes,
            ),
        )
    }

    /// Starts an encryption under a fresh random salt and base nonce.
    /// Returns the state and the encoded header.
    ///
    /// Succeeds exactly when a key can be derived and the input has at
    /// most 2^32 chunks. Whatever salt and nonce were drawn, the header is
    /// the planned one and the state holds the key that the header's salt
    /// derives.
    pub fn begin(
        opts: &EncryptOptions,
        file_name: Option<String>,
        mode: Option<u32>,
        input_size: u64,
    ) -> (res: Result<(Encryptor, Vec<u8>), EncryptError>)
        ensures
            res is Ok <==> derivable(opts.passphrase@.len(), SALT_LEN as nat, opts.costs())
                && input_size <= MAX_PLAINTEXT_LEN,
            res matches Ok((enc, header_bytes)) ==> exists|salt: Seq<u8>, nonce: Seq<u8>|
                {
                    let header = #[trigger] planned_header(
                        opts.costs(),
                        opts.store_filename,
                        name_view(file_name),
                        mode,
                        input_size,
                        salt,
                        nonce,
                    );
                    &&& salt.len() == SALT_LEN
                    &&& nonce.len() == NONCE_LEN
                    &&& header_bytes@ == header.encoding()
                    &&& enc.key() == argon2id_hash(
                        opts.passphrase@,
                        salt,
                        opts.time_cost,
                        opts.memory_cost_kib,
                        opts.parallelism,
                    )
                    &&& enc.base_nonce() == nonce
                    &&& enc.header_aad() == header.aad()
                },
            res matches Ok((enc, header_bytes)) ==> enc.total() == input_size
                && enc.chunks_done() == 0,
            res matches Err(e) ==> {
                &&& e is Internal
                &&& !derivable(opts.passphrase@.len(), SALT_LEN as nat, opts.costs())
                    ==> "KDF failed: "@.is_prefix_of(e.detail())
                &&& derivable(opts.passphrase@.len(), SALT_LEN as nat, opts.costs())
                    ==> e.detail() == Self::begin_message(input_size)
            },
    {
        let salt: [u8; SALT_LEN] = random_bytes();
        let nonce: [u8; NONCE_LEN] = random_bytes();
        let res = Self::begin_with(opts, file_name, mode, input_size, salt, nonce);
        proof {
            if res is Ok {
                let header = planned_header(
                    opts.costs(),
                    opts.store_filename,
                    name_view(file_name),
                    mode,
                    input_size,
                    salt@,
                    nonce@,
                );
                assert(salt@.len() == SALT_LEN);
                assert(nonce@.len() == NONCE_LEN);
            }
        }
        res
    }

    /// Whether every chunk has been sealed.
    pub fn is_done(&self) -> (done: bool)
        ensures
            done == self.finished(),
    {
        proof {
            use_type_invariant(self);
        }
        self.chunk_index >= count_chunks(self.total)
    }

    /// The number of plaintext bytes to hand to the next `seal_chunk`:
    /// 65536, or what is left for the last chunk, or zero when none is left.
    pub fn next_len(&self) -> (len: usize)
        ensures
            len == self.next_chunk_len(),
            len <= CHUNK_SIZE,
            len == 0 <==> self.finished(),
    {
        proof {
            use_type_invariant(self);
            if self.chunk_index < chunk_count(self.total as nat) {
                lemma_chunk_bounds(self.total as nat, self.chunk_index as nat);
            }
        }
        if self.chunk_index >= count_chunks(self.total) {
            0
        } else {
            let rest: u64 = self.total - self.chunk_index * 65536;
            if rest >= 65536 {
                CHUNK_SIZE
            } else {
                rest as usize
            }
        }
    }

    /// Ends an encryption: the container is complete exactly when every
    /// chunk of the declared input has been sealed.
    pub fn finish(&self) -> (res: Result<(), EncryptError>)
        ensures
            res is Ok <==> self.finished(),
            res matches Err(e) ==> e is Internal && e.detail()
                == "Input ended before chunk "@ + decimal(self.chunks_done()),
    {
        if self.is_done() {
            Ok(())
        } else {
            let mut text = String::from_str("Input ended before chunk ");
            push_decimal(&mut text, self.chunk_index);
            Err(EncryptError::Internal(text))
        }
    }

    /// The progress event for the chunks sealed so far.
    pub fn progress(&self) -> (event: ProgressEvent)
        ensures
            event.phase@ == Phase::Encrypt.name_text(),
            event.bytes_processed == self.bytes_done(),
            event.total_bytes == self.total(),
    {
        proof {
            use_type_invariant(self);
        }
        let done: u64 = if self.chunk_index * 65536 <= self.total {
            self.chunk_index * 65536
        } else {
            self.total
        };
        ProgressEvent::new(Phase::Encrypt, done, self.total)
    }

    /// Seals the next chunk in place. `chunk` holds the plaintext of the
    /// chunk; on success it holds the ciphertext followed by the tag.
    ///
    /// Succeeds exactly when a chunk is left and `chunk` has the length of
    /// the next chunk. On failure nothing has changed.
    pub fn seal_chunk(&mut self, chunk: &mut Vec<u8>) -> (res: Result<(), EncryptError>)
        ensures
            final(self).key() == old(self).key(),
            final(self).base_nonce() == old(self).base_nonce(),
            final(self).header_aad() == old(self).header_aad(),
            final(self).total() == old(self).total(),
            res is Ok <==> !old(self).finished() && old(chunk)@.len() == old(
                self,
            ).next_chunk_len(),
            res is Ok ==> {
                &&& final(chunk)@ == sealed_chunk(
                    old(self).key(),
                    old(self).base_nonce(),
                    old(self).header_aad(),
                    old(self).chunks_done(),
                    old(chunk)@,
                )
                &&& chunk_inverts(
                    old(self).key(),
                    old(self).base_nonce(),
                    old(self).header_aad(),
                    old(self).chunks_done(),
                    old(chunk)@,
                )
                &&& final(self).chunks_done() == old(self).chunks_done() + 1
            },
            res matches Err(e) ==> {
                &&& final(self).chunks_done() == old(self).chunks_done()
                &&& final(chunk)@ == old(chunk)@
                &&& e is Internal
                &&& e.detail() == "Unexpected chunk length at chunk "@ + decimal(
                    old(self).chunks_done(),
                )
            },
    {
        proof {
            use_type_invariant(&*self);
        }
        let expected = self.next_len();
        if expected == 0 || chunk.len() != expected {
            let mut text = String::from_str("Unexpected chunk length at chunk ");
            push_decimal(&mut text, self.chunk_index);
            return Err(EncryptError::Internal(text));
        }
        let index = self.chunk_index as u32;
        let nonce = derive_chunk_nonce(&self.base_nonce, index);
        let aad = build_chunk_aad(self.header_aad.as_slice(), index);
        let tag = seal_detached(&self.key, &nonce, aad.as_slice(), chunk);
        proof {
            lemma_be_lengths();
        }
        let tag = tag.unwrap();
        append_bytes(chunk, &tag);
        self.chunk_index = self.chunk_index + 1;
        Ok(())
    }
}

/// The key that the header's salt and costs derive from a passphrase.
pub open spec fn header_key(header: HeaderFields, passphrase: Seq<u8>) -> Seq<u8> {
    argon2id_hash(
        passphrase,
        header.salt,
        header.time_cost,
        header.memory_cost_kib,
        header.parallelism,
    )
}

/// Round trip: a container decrypts to the plaintext it was made of, under
/// the passphrase it was made with, and has the length that its header and
/// its plaintext give it.
///
/// This holds of a header of the current version whose fields fit their
/// place in the layout, of a plaintext of at most 2^32 chunks whose length
/// the header declares, and where opening inverts sealing on each chunk,
/// as it does on the chunks that `Encryptor::seal_chunk` has sealed.
pub proof fn lemma_container_roundtrip(
    header: HeaderFields,
    passphrase: Seq<u8>,
    plaintext: Seq<u8>,
)
    requires
        header.representable(),
        header.version == VERSION,
        header.ciphertext_length == plaintext.len(),
        plaintext.len() <= MAX_PLAINTEXT_LEN,
        derivable(
            passphrase.len(),
            SALT_LEN as nat,
            KdfParams {
                time_cost: header.time_cost,
                memory_cost_kib: header.memory_cost_kib,
                parallelism: header.parallelism,
            },
        ),
        chunks_invert(
            header_key(header, passphrase),
            header.nonce,
            header.aad(),
            plaintext,
            chunk_count(plaintext.len()),
        ),
    ensures
        container_of(header, header_key(header, passphrase), plaintext).len() == container_len(
            header_size(VERSION, header.filename_bytes().len()),
            plaintext.len(),
        ),
        decrypt_outcome(
            container_of(header, header_key(header, passphrase), plaintext),
            passphrase,
        ) == Ok::<(Seq<u8>, Option<u32>), ErrorKind>((plaintext, restored_mode(header.mode))),
{
    let key = header_key(header, passphrase);
    let encoded = header.encoding();
    let body = sealed_body(key, header.nonce, header.aad(), plaintext);
    let container = container_of(header, key, plaintext);
    let normal = header.normal_form();
    lemma_normal_form(header);
    lemma_decode_encode_normal(header, body);
    lemma_encoding_layout(header);
    lemma_opened_body_of_sealed(key, header.nonce, header.aad(), plaintext);
    lemma_chunk_count(plaintext.len(), MAX_PLAINTEXT_LEN as nat);
    assert(chunk_count(MAX_PLAINTEXT_LEN as nat) == MAX_CHUNKS);
    assert(container.subrange(0, AAD_LENGTH as int) =~= header.aad());
    assert(container.subrange(encoded.len() as int, container.len() as int) =~= body);
    assert(header_reading(container) == Ok::<(HeaderFields, nat), HeaderError>(
        (normal, encoded.len()),
    ));
    assert(restored_mode(normal.mode) == restored_mode(header.mode));
}

/// Encrypts a plaintext held in memory with a given salt and base nonce.
///
/// `file_name` and `mode` are what the caller knows of the file the
/// plaintext comes from; the name is stored only if the options say so.
/// Succeeds exactly when a key can be derived and the plaintext has at
/// most 2^32 chunks.
pub fn encrypt_with(
    opts: &EncryptOptions,
    file_name: Option<String>,
    mode: Option<u32>,
    input: &[u8],
    salt: [u8; SALT_LEN],
    nonce: [u8; NONCE_LEN],
) -> (res: Result<Vec<u8>, EncryptError>)
    ensures
        res is Ok <==> derivable(opts.passphrase@.len(), SALT_LEN as nat, opts.costs())
            && input@.len() <= MAX_PLAINTEXT_LEN,
        res matches Ok(out) ==> {
            let header = planned_header(
                opts.costs(),
                opts.store_filename,
                name_view(file_name),
                mode,
                input@.len() as u64,
                salt@,
                nonce@,
            );
            let key = header_key(header, opts.passphrase@);
            &&& out@ == container_of(header, key, input@)
            &&& chunks_invert(key, nonce@, header.aad(), input@, chunk_count(input@.len()))
            &&& out@.len() == header.encoding().len() + input@.len() + TAG_LEN * chunk_count(
                input@.len(),
            )
            &&& header.representable() ==> out@.len() == container_len(
                header_size(VERSION, header.filename_bytes().len()),
                input@.len(),
            )
            &&& header.representable() ==> decrypt_outcome(out@, opts.passphrase@) == Ok::<
                (Seq<u8>, Option<u32>),
                ErrorKind,
            >((input@, restored_mode(stored_mode(mode))))
        },
        res matches Err(e) ==> {
            &&& e is Internal
            &&& !derivable(opts.passphrase@.len(), SALT_LEN as nat, opts.costs())
                ==> "KDF failed: "@.is_prefix_of(e.detail())
            &&& derivable(opts.passphrase@.len(), SALT_LEN as nat, opts.costs()) ==> e.detail()
                == Encryptor::begin_message(input@.len() as u64)
        },
{
    let input_len = input.len();
    let ghost header = planned_header(
        opts.costs(),
        opts.store_filename,
        name_view(file_name),
        mode,
        input_len as u64,
        salt@,
        nonce@,
    );
    let ghost key = header_key(header, opts.passphrase@);
    let ghost aad = header.aad();
    let (mut enc, mut out) = match Encryptor::begin_with(
        opts,
        file_name,
        mode,
        input_len as u64,
        salt,
        nonce,
    ) {
        Ok(started) => started,
        Err(e) => {
            return Err(e);
        },
    };
    let ghost total = input_len as nat;
    let mut pos: usize = 0;
    proof {
        assert(out@ + Seq::<u8>::empty() =~= out@);
    }
    while !enc.is_done()
        invariant
            input_len == input@.len(),
            total == input@.len(),
            total <= MAX_PLAINTEXT_LEN,
            enc.key() == key,
            enc.base_nonce() == nonce@,
            enc.header_aad() == aad,
            enc.total() == total,
            enc.chunks_done() <= chunk_count(total),
            pos == plain_len_before(total, enc.chunks_done()),
            out@ == header.encoding() + sealed_prefix(
                key,
                nonce@,
                aad,
                input@,
                enc.chunks_done(),
            ),
            chunks_invert(key, nonce@, aad, input@, enc.chunks_done()),
        decreases chunk_count(total) - enc.chunks_done(),
    {
        let len = enc.next_len();
        let ghost index = enc.chunks_done();
        let ghost before = out@;
        proof {
            lemma_chunk_bounds(total, index);
        }
        let mut chunk = slice_to_vec(slice_subrange(input, pos, pos + len));
        proof {
            assert(chunk@ =~= plaintext_chunk(input@, index));
        }
        match enc.seal_chunk(&mut chunk) {
            Ok(()) => {},
            Err(e) => {
                return Err(e);
            },
        }
        append_bytes(&mut out, chunk.as_slice());
        pos = pos + len;
        proof {
            assert(out@ =~= header.encoding() + sealed_prefix(
                key,
                nonce@,
                aad,
                input@,
                index + 1,
            ));
            assert forall|i: nat| i < index + 1 implies #[trigger] chunk_inverts(
                key,
                nonce@,
                aad,
                i,
                plaintext_chunk(input@, i),
            ) by {
                if i < index {
                    assert(chunk_inverts(key, nonce@, aad, i, plaintext_chunk(input@, i)));
                }
            }
        }
    }
    proof {
        lemma_sealed_prefix_len(key, nonce@, aad, input@, chunk_count(total));
        if header.representable() {
            lemma_container_roundtrip(header, opts.passphrase@, input@);
        }
    }
    Ok(out)
}

/// Encrypts a plaintext held in memory under a fresh random salt and base
/// nonce.
///
/// Succeeds exactly when a key can be derived and the plaintext has at
/// most 2^32 chunks. Whatever salt and nonce were drawn, the container has
/// the length that its header and the plaintext give it, and decrypts to
/// the plaintext under the passphrase of `opts`, as long as the lane count
/// fits one byte and a stored file name fewer than 65536.
pub fn encrypt(
    opts: &EncryptOptions,
    file_name: Option<String>,
    mode: Option<u32>,
    input: &[u8],
) -> (res: Result<Vec<u8>, EncryptError>)
    ensures
        res is Ok <==> derivable(opts.passphrase@.len(), SALT_LEN as nat, opts.costs())
            && input@.len() <= MAX_PLAINTEXT_LEN,
        res matches Ok(out) ==> exists|salt: Seq<u8>, nonce: Seq<u8>|
            {
                let header = #[trigger] planned_header(
                    opts.costs(),
                    opts.store_filename,
                    name_view(file_name),
                    mode,
                    input@.len() as u64,
                    salt,
                    nonce,
                );
                &&& salt.len() == SALT_LEN
                &&& nonce.len() == NONCE_LEN
                &&& out@ == container_of(header, header_key(header, opts.passphrase@), input@)
                &&& out@.len() == header.encoding().len() + input@.len() + TAG_LEN * chunk_count(
                    input@.len(),
                )
            },
        res matches Ok(out) ==> (opts.parallelism < 0x100 && stored_name_len(
            opts.store_filename,
            name_view(file_name),
        ) < 0x1_0000) ==> {
            &&& out@.len() == container_len(
                header_size(
                    VERSION,
                    stored_name_len(opts.store_filename, name_view(file_name)),
                ),
                input@.len(),
            )
            &&& decrypt_outcome(out@, opts.passphrase@) == Ok::<(Seq<u8>, Option<u32>), ErrorKind>(
                (input@, restored_mode(stored_mode(mode))),
            )
        },
        res matches Err(e) ==> {
            &&& e is Internal
            &&& !derivable(opts.passphrase@.len(), SALT_LEN as nat, opts.costs())
                ==> "KDF failed: "@.is_prefix_of(e.detail())
            &&& derivable(opts.passphrase@.len(), SALT_LEN as nat, opts.costs()) ==> e.detail()
                == Encryptor::begin_message(input@.len() as u64)
        },
{
    let salt: [u8; SALT_LEN] = random_bytes();
    let nonce: [u8; NONCE_LEN] = random_bytes();
    let res = encrypt_with(opts, file_name, mode, input, salt, nonce);
    proof {
        if res is Ok {
            let header = planned_header(
                opts.costs(),
                opts.store_filename,
                name_view(file_name),
                mode,
                input@.len() as u64,
                salt@,
                nonce@,
            );
            assert(header.filename_bytes().len() == stored_name_len(
                opts.store_filename,
                name_view(file_name),
            ));
        }
    }
    res
}

/// The number of bytes that the stored file name takes in the header.
pub open spec fn stored_name_len(store_filename: bool, file_name: Option<Seq<char>>) -> nat {
    match file_name {
        Some(name) => if store_filename {
            encode_utf8(name).len()
        } else {
            0
        },
        None => 0,
    }
}

} // verus!
