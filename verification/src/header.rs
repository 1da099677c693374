//! Container header: byte layout, version-gated parsing, the authenticated
//! prefix, and the per-chunk nonce and associated data derived from it.

use vstd::prelude::*;
use vstd::slice::{slice_subrange, slice_to_vec};
use std::io::Read;
use vstd::utf8::{
    decode_utf8, decode_utf8_encode_utf8, encode_utf8, encode_utf8_decode_utf8,
    encode_utf8_valid_utf8, valid_utf8,
};
use crate::bytes::{
    append_bytes, be_u16, be_u32, be_u64, from_be_u16, from_be_u32, from_be_u64,
    lemma_be_lengths, lemma_be_u16_roundtrip, lemma_be_u32_injective, lemma_be_u32_roundtrip,
    lemma_be_u64_roundtrip, lemma_from_be_u16_roundtrip, lemma_from_be_u32_roundtrip,
    lemma_from_be_u64_roundtrip, push_be_u16, push_be_u32, push_be_u64, read_be_u16,
    read_be_u32, read_be_u64,
};
use crate::kdf::KdfParams;
use crate::text::{decimal, push_decimal};
use vstd::string::StringExecFns;

verus! {

/// Magic bytes identifying a container: the ASCII text `GTKRYPT` and a zero byte.
pub const MAGIC: &'static [u8; 8] = &[0x47, 0x54, 0x4b, 0x52, 0x59, 0x50, 0x54, 0x00];

/// Container format version written by the encoder.
pub const VERSION: u8 = 2;

/// KDF identifier for Argon2id.
pub const KDF_ID_ARGON2ID: u8 = 1;

/// Salt length in bytes.
pub const SALT_LEN: usize = 16;

/// Nonce length in bytes for AES-256-GCM.
pub const NONCE_LEN: usize = 12;

/// GCM authentication tag length in bytes.
pub const TAG_LEN: usize = 16;

/// Plaintext bytes per chunk (64 KiB).
pub const CHUNK_SIZE: usize = 65536;

/// Length of the authenticated header prefix: magic through base nonce.
pub const AAD_LENGTH: usize = 49;

/// Header length without a filename, format version 1.
pub const FIXED_HEADER_V1: usize = 67;

/// Header length without a filename, format version 2.
pub const FIXED_HEADER_V2: usize = 71;

/// Parsed container header.
#[derive(Debug, Clone)]
pub struct ContainerHeader {
    pub version: u8,
    pub kdf_id: u8,
    pub kdf_params: KdfParams,
    pub salt: [u8; SALT_LEN],
    pub nonce: [u8; NONCE_LEN],
    pub filename: Option<String>,
    pub mode: Option<u32>,
    pub original_file_size: u64,
    pub ciphertext_length: u64,
}

/// Why a byte string is not a container header.
#[derive(Debug)]
pub enum HeaderError {
    TooShort,
    InvalidMagic,
    UnsupportedVersion(u8),
    UnsupportedKdf(u8),
    InvalidSaltLength(usize),
    InvalidNonceLength(usize),
    InvalidFilename,
}

impl HeaderError {
    /// The text that describes the error.
    pub open spec fn message_text(self) -> Seq<char> {
        match self {
            HeaderError::TooShort => "File is too short to contain a valid header"@,
            HeaderError::InvalidMagic => "Not a gtkrypt file (invalid magic bytes)"@,
            HeaderError::UnsupportedVersion(v) => "Unsupported container version: "@ + decimal(
                v as nat,
            ),
            HeaderError::UnsupportedKdf(id) => "Unsupported KDF identifier: "@ + decimal(
                id as nat,
            ),
            HeaderError::InvalidSaltLength(n) => "Invalid salt length: "@ + decimal(n as nat)
                + " (expected 16)"@,
            HeaderError::InvalidNonceLength(n) => "Invalid nonce length: "@ + decimal(n as nat)
                + " (expected 12)"@,
            HeaderError::InvalidFilename => "Filename is not valid UTF-8"@,
        }
    }

    /// Describes the error in words.
    pub fn message(&self) -> (text: String)
        ensures
            text@ == self.message_text(),
    {
        match self {
            HeaderError::TooShort => String::from_str(
                "File is too short to contain a valid header",
            ),
            HeaderError::InvalidMagic => String::from_str(
                "Not a gtkrypt file (invalid magic bytes)",
            ),
            HeaderError::UnsupportedVersion(v) => {
                let mut text = String::from_str("Unsupported container version: ");
                push_decimal(&mut text, *v as u64);
                text
            },
            HeaderError::UnsupportedKdf(id) => {
                let mut text = String::from_str("Unsupported KDF identifier: ");
                push_decimal(&mut text, *id as u64);
                text
            },
            HeaderError::InvalidSaltLength(n) => {
                let mut text = String::from_str("Invalid salt length: ");
                push_decimal(&mut text, *n as u64);
                text.append(" (expected 16)");
                text
            },
            HeaderError::InvalidNonceLength(n) => {
                let mut text = String::from_str("Invalid nonce length: ");
                push_decimal(&mut text, *n as u64);
                text.append(" (expected 12)");
                text
            },
            HeaderError::InvalidFilename => String::from_str("Filename is not valid UTF-8"),
        }
    }
}

/// The header as mathematical values: what the byte layout carries.
pub struct HeaderFields {
    pub version: u8,
    pub kdf_id: u8,
    pub time_cost: u32,
    pub memory_cost_kib: u32,
    pub parallelism: u32,
    pub salt: Seq<u8>,
    pub nonce: Seq<u8>,
    pub filename: Option<Seq<char>>,
    pub mode: Option<u32>,
    pub original_file_size: u64,
    pub ciphertext_length: u64,
}

impl View for ContainerHeader {
    type V = HeaderFields;

    open spec fn view(&self) -> HeaderFields {
        HeaderFields {
            version: self.version,
            kdf_id: self.kdf_id,
            time_cost: self.kdf_params.time_cost,
            memory_cost_kib: self.kdf_params.memory_cost_kib,
            parallelism: self.kdf_params.parallelism,
            salt: self.salt@,
            nonce: self.nonce@,
            filename: match self.filename {
                Some(name) => Some(name@),
                None => None,
            },
            mode: self.mode,
            original_file_size: self.original_file_size,
            ciphertext_length: self.ciphertext_length,
        }
    }
}

/// The magic bytes as a sequence.
pub open spec fn magic_bytes() -> Seq<u8> {
    seq![0x47u8, 0x54u8, 0x4bu8, 0x52u8, 0x59u8, 0x50u8, 0x54u8, 0x00u8]
}

impl HeaderFields {
    /// The UTF-8 bytes of the stored filename; empty when there is none.
    pub open spec fn filename_bytes(self) -> Seq<u8> {
        match self.filename {
            Some(name) => encode_utf8(name),
            None => Seq::empty(),
        }
    }

    /// The stored mode field of a version 2 header; nothing for earlier versions.
    pub open spec fn mode_bytes(self) -> Seq<u8> {
        if self.version >= 2 {
            be_u32(
                match self.mode {
                    Some(m) => m,
                    None => 0,
                },
            )
        } else {
            Seq::empty()
        }
    }

    /// Bytes 0 to 49 of the encoded header: magic, version, KDF id and
    /// costs, salt and base nonce with their length bytes.
    #[verifier::opaque]
    pub open spec fn aad(self) -> Seq<u8> {
        magic_bytes() + seq![self.version, self.kdf_id] + be_u32(self.time_cost) + be_u32(
            self.memory_cost_kib,
        ) + seq![(self.parallelism % 0x100) as u8, 16u8] + self.salt + seq![12u8] + self.nonce
    }

    /// The full encoded header.
    #[verifier::opaque]
    pub open spec fn encoding(self) -> Seq<u8> {
        self.aad() + be_u16((self.filename_bytes().len() % 0x1_0000) as u16)
            + self.filename_bytes() + self.mode_bytes() + be_u64(self.original_file_size)
            + be_u64(self.ciphertext_length)
    }

    /// Headers whose every field fits its place in the byte layout: a
    /// supported version and KDF, one-byte parallelism, 16 salt and 12
    /// nonce bytes, and a filename of fewer than 65536 bytes.
    pub open spec fn representable(self) -> bool {
        &&& (self.version == 1 || self.version == 2)
        &&& self.kdf_id == KDF_ID_ARGON2ID
        &&& self.parallelism < 0x100
        &&& self.salt.len() == SALT_LEN
        &&& self.nonce.len() == NONCE_LEN
        &&& self.filename_bytes().len() < 0x1_0000
    }

    /// The header that the encoding of this one parses to: an empty
    /// filename is absent, version 1 has no mode, and an absent mode of
    /// version 2 is zero.
    pub open spec fn normal_form(self) -> HeaderFields {
        HeaderFields {
            filename: if self.filename_bytes().len() == 0 {
                None
            } else {
                self.filename
            },
            mode: if self.version == 2 {
                Some(
                    match self.mode {
                        Some(m) => m,
                        None => 0,
                    },
                )
            } else {
                None
            },
            ..self
        }
    }

    /// Headers that the byte layout represents without loss: a supported
    /// version and KDF, one-byte parallelism, 16 salt and 12 nonce bytes, a
    /// filename that is absent or between 1 and 65535 bytes long, and a mode
    /// exactly when the version carries one.
    pub open spec fn canonical(self) -> bool {
        &&& (self.version == 1 || self.version == 2)
        &&& self.kdf_id == KDF_ID_ARGON2ID
        &&& self.parallelism < 0x100
        &&& self.salt.len() == SALT_LEN
        &&& self.nonce.len() == NONCE_LEN
        &&& (self.filename matches Some(name) ==> 0 < encode_utf8(name).len() < 0x1_0000)
        &&& (self.mode is Some <==> self.version == 2)
    }
}

/// Length of an encoded header of the given version whose filename takes
/// `filename_len` bytes.
pub open spec fn header_size(version: u8, filename_len: nat) -> nat {
    if version >= 2 {
        (FIXED_HEADER_V2 + filename_len) as nat
    } else {
        (FIXED_HEADER_V1 + filename_len) as nat
    }
}

/// The first reason, if any, why the fixed 67-byte prefix of `data` is not
/// the start of a header.
pub open spec fn prefix_error(data: Seq<u8>) -> Option<HeaderError> {
    if data.len() < FIXED_HEADER_V1 {
        Some(HeaderError::TooShort)
    } else if data.subrange(0, 8) != magic_bytes() {
        Some(HeaderError::InvalidMagic)
    } else if data[8] != 1 && data[8] != 2 {
        Some(HeaderError::UnsupportedVersion(data[8]))
    } else if data[9] != KDF_ID_ARGON2ID {
        Some(HeaderError::UnsupportedKdf(data[9]))
    } else if data[19] != SALT_LEN {
        Some(HeaderError::InvalidSaltLength(data[19] as usize))
    } else if data[36] != NONCE_LEN {
        Some(HeaderError::InvalidNonceLength(data[36] as usize))
    } else {
        None
    }
}

/// The filename length that bytes 49 and 50 of `data` declare.
pub open spec fn declared_name_len(data: Seq<u8>) -> int
    recommends
        data.len() >= 51,
{
    from_be_u16(data.subrange(49, 51)) as int
}

/// The header length that the fixed prefix of `data` declares: 71 bytes
/// and the filename for version 2, 67 bytes and the filename otherwise.
pub open spec fn declared_size(data: Seq<u8>) -> int
    recommends
        data.len() >= 51,
{
    if data[8] == 2 {
        FIXED_HEADER_V2 + declared_name_len(data)
    } else {
        FIXED_HEADER_V1 + declared_name_len(data)
    }
}

/// The fields that `data` carries at the offsets its prefix declares.
pub open spec fn parsed_fields(data: Seq<u8>) -> HeaderFields
    recommends
        data.len() >= declared_size(data),
{
    let name_end = 51 + declared_name_len(data);
    let total = declared_size(data);
    HeaderFields {
        version: data[8],
        kdf_id: data[9],
        time_cost: from_be_u32(data.subrange(10, 14)),
        memory_cost_kib: from_be_u32(data.subrange(14, 18)),
        parallelism: data[18] as u32,
        salt: data.subrange(20, 36),
        nonce: data.subrange(37, 49),
        filename: if declared_name_len(data) > 0 {
            Some(decode_utf8(data.subrange(51, name_end)))
        } else {
            None
        },
        mode: if data[8] == 2 {
            Some(from_be_u32(data.subrange(name_end, name_end + 4)))
        } else {
            None
        },
        original_file_size: from_be_u64(data.subrange(total - 16, total - 8)),
        ciphertext_length: from_be_u64(data.subrange(total - 8, total)),
    }
}

/// What parsing `data` as a header gives: the fields and the number of
/// bytes they occupy, or the first reason why `data` is not a header.
pub open spec fn decoding(data: Seq<u8>) -> Result<(HeaderFields, nat), HeaderError> {
    if let Some(e) = prefix_error(data) {
        Err(e)
    } else if data.len() < 51 + declared_name_len(data) {
        Err(HeaderError::TooShort)
    } else if declared_name_len(data) > 0 && !valid_utf8(
        data.subrange(51, 51 + declared_name_len(data)),
    ) {
        Err(HeaderError::InvalidFilename)
    } else if data.len() < declared_size(data) {
        Err(HeaderError::TooShort)
    } else {
        Ok((parsed_fields(data), declared_size(data) as nat))
    }
}

/// What reading a header from the front of a byte stream gives. The
/// reader takes the fixed 67 bytes, learns from them how long the header
/// is, takes the rest, and parses what it took: a stream that ends before
/// either part is complete is too short, whatever else is wrong with it.
pub open spec fn header_reading(stream: Seq<u8>) -> Result<(HeaderFields, nat), HeaderError> {
    if stream.len() < FIXED_HEADER_V1 || stream.len() < declared_size(stream) {
        Err(HeaderError::TooShort)
    } else {
        decoding(stream.subrange(0, declared_size(stream)))
    }
}

/// The outcome of `decode_header` as mathematical values.
pub open spec fn decoded_view(res: Result<(ContainerHeader, usize), HeaderError>) -> Result<
    (HeaderFields, nat),
    HeaderError,
> {
    match res {
        Ok((header, consumed)) => Ok((header@, consumed as nat)),
        Err(e) => Err(e),
    }
}

/// The base nonce with the big-endian chunk index XORed into its last four bytes.
pub open spec fn chunk_nonce(base_nonce: Seq<u8>, chunk_index: u32) -> Seq<u8>
    recommends
        base_nonce.len() == NONCE_LEN,
{
    Seq::new(
        base_nonce.len(),
        |i: int| if i < 8 { base_nonce[i] } else { base_nonce[i] ^ be_u32(chunk_index)[i - 8] },
    )
}

/// The header's authenticated prefix followed by the big-endian chunk index.
pub open spec fn chunk_aad(header_aad: Seq<u8>, chunk_index: u32) -> Seq<u8> {
    header_aad + be_u32(chunk_index)
}

/// Encodes a header into its byte layout. Bytes 0 to 49 of the result are
/// the authenticated prefix.
pub fn encode_header(header: &ContainerHeader) -> (bytes: Vec<u8>)
    ensures
        bytes@ == header@.encoding(),
        bytes@.len() >= AAD_LENGTH,
        bytes@.subrange(0, AAD_LENGTH as int) == header@.aad(),
{
    proof {
        reveal(HeaderFields::aad);
        reveal(HeaderFields::encoding);
        lemma_be_lengths();
    }
    let mut buf: Vec<u8> = Vec::new();
    append_bytes(&mut buf, MAGIC);
    assert(MAGIC@ =~= magic_bytes());
    buf.push(header.version);
    buf.push(header.kdf_id);
    push_be_u32(&mut buf, header.kdf_params.time_cost);
    push_be_u32(&mut buf, header.kdf_params.memory_cost_kib);
    buf.push((header.kdf_params.parallelism % 0x100) as u8);
    buf.push(16u8);
    append_bytes(&mut buf, &header.salt);
    buf.push(12u8);
    append_bytes(&mut buf, &header.nonce);
    assert(buf@ =~= header@.aad());
    match &header.filename {
        Some(name) => {
            let name_bytes = name.as_str().as_bytes();
            push_be_u16(&mut buf, (name_bytes.len() % 0x1_0000) as u16);
            append_bytes(&mut buf, name_bytes);
        },
        None => {
            push_be_u16(&mut buf, 0u16);
        },
    }
    assert(buf@ =~= header@.aad() + be_u16((header@.filename_bytes().len() % 0x1_0000) as u16)
        + header@.filename_bytes());
    if header.version >= 2 {
        let mode: u32 = match header.mode {
            Some(m) => m,
            None => 0,
        };
        push_be_u32(&mut buf, mode);
    }
    push_be_u64(&mut buf, header.original_file_size);
    push_be_u64(&mut buf, header.ciphertext_length);
    assert(buf@ =~= header@.encoding());
    assert(buf@.subrange(0, AAD_LENGTH as int) =~= header@.aad());
    buf
}

/// `String::from_utf8` of std: the string whose UTF-8 encoding is `bytes`;
/// nothing exactly when `bytes` is not well-formed UTF-8.
#[verifier::external_body]
fn string_from_utf8(bytes: Vec<u8>) -> (text: Option<String>)
    ensures
        text is Some <==> valid_utf8(bytes@),
        text matches Some(s) ==> encode_utf8(s@) == bytes@,
{
    String::from_utf8(bytes).ok()
}

/// Copies the sixteen salt bytes that start at `at`.
fn read_salt(data: &[u8], at: usize) -> (salt: [u8; SALT_LEN])
    requires
        at + SALT_LEN <= data.len(),
    ensures
        salt@ == data@.subrange(at as int, at + SALT_LEN),
{
    let mut salt = [0u8; SALT_LEN];
    let mut i: usize = 0;
    while i < SALT_LEN
        invariant
            i <= SALT_LEN,
            at + SALT_LEN <= data.len(),
            forall|j: int| 0 <= j < i ==> salt@[j] == data@[at + j],
        decreases SALT_LEN - i,
    {
        salt[i] = data[at + i];
        i += 1;
    }
    assert(salt@ =~= data@.subrange(at as int, at + SALT_LEN));
    salt
}

/// Copies the twelve nonce bytes that start at `at`.
fn read_nonce(data: &[u8], at: usize) -> (nonce: [u8; NONCE_LEN])
    requires
        at + NONCE_LEN <= data.len(),
    ensures
        nonce@ == data@.subrange(at as int, at + NONCE_LEN),
{
    let mut nonce = [0u8; NONCE_LEN];
    let mut i: usize = 0;
    while i < NONCE_LEN
        invariant
            i <= NONCE_LEN,
            at + NONCE_LEN <= data.len(),
            forall|j: int| 0 <= j < i ==> nonce@[j] == data@[at + j],
        decreases NONCE_LEN - i,
    {
        nonce[i] = data[at + i];
        i += 1;
    }
    assert(nonce@ =~= data@.subrange(at as int, at + NONCE_LEN));
    nonce
}

/// Whether `data` begins with the magic bytes.
fn has_magic(data: &[u8]) -> (yes: bool)
    requires
        data.len() >= 8,
    ensures
        yes <==> data@.subrange(0, 8) == magic_bytes(),
{
    let mut i: usize = 0;
    while i < 8
        invariant
            i <= 8,
            data.len() >= 8,
            forall|j: int| 0 <= j < i ==> data@[j] == magic_bytes()[j],
        decreases 8 - i,
    {
        if data[i] != MAGIC[i] {
            assert(data@.subrange(0, 8)[i as int] != magic_bytes()[i as int]);
            return false;
        }
        i += 1;
    }
    assert(data@.subrange(0, 8) =~= magic_bytes());
    true
}

/// Parses a header from the start of `data`. Returns the header and the
/// number of bytes it occupies.
pub fn decode_header(data: &[u8]) -> (res: Result<(ContainerHeader, usize), HeaderError>)
    ensures
        decoded_view(res) == decoding(data@),
        res matches Ok((header, consumed)) ==> consumed <= data.len(),
{
    if data.len() < FIXED_HEADER_V1 {
        return Err(HeaderError::TooShort);
    }
    if !has_magic(data) {
        return Err(HeaderError::InvalidMagic);
    }
    let version = data[8];
    if version != 1 && version != 2 {
        return Err(HeaderError::UnsupportedVersion(version));
    }
    let kdf_id = data[9];
    if kdf_id != KDF_ID_ARGON2ID {
        return Err(HeaderError::UnsupportedKdf(kdf_id));
    }
    let time_cost = read_be_u32(data, 10);
    let memory_cost_kib = read_be_u32(data, 14);
    let parallelism = data[18] as u32;
    let salt_len = data[19] as usize;
    if salt_len != SALT_LEN {
        return Err(HeaderError::InvalidSaltLength(salt_len));
    }
    let salt = read_salt(data, 20);
    let nonce_len = data[36] as usize;
    if nonce_len != NONCE_LEN {
        return Err(HeaderError::InvalidNonceLength(nonce_len));
    }
    let nonce = read_nonce(data, 37);
    let filename_len = read_be_u16(data, 49) as usize;
    let name_end = 51 + filename_len;
    if data.len() < name_end {
        return Err(HeaderError::TooShort);
    }
    let filename = if filename_len > 0 {
        let name_bytes = slice_to_vec(slice_subrange(data, 51, name_end));
        match string_from_utf8(name_bytes) {
            Some(name) => {
                proof {
                    encode_utf8_decode_utf8(name@);
                }
                Some(name)
            },
            None => {
                return Err(HeaderError::InvalidFilename);
            },
        }
    } else {
        None
    };
    if version == 1 {
        if data.len() < name_end + 16 {
            return Err(HeaderError::TooShort);
        }
        let original_file_size = read_be_u64(data, name_end);
        let ciphertext_length = read_be_u64(data, name_end + 8);
        let header = ContainerHeader {
            version,
            kdf_id,
            kdf_params: KdfParams { time_cost, memory_cost_kib, parallelism },
            salt,
            nonce,
            filename,
            mode: None,
            original_file_size,
            ciphertext_length,
        };
        Ok((header, name_end + 16))
    } else {
        if data.len() < name_end + 20 {
            return Err(HeaderError::TooShort);
        }
        let mode = read_be_u32(data, name_end);
        let original_file_size = read_be_u64(data, name_end + 4);
        let ciphertext_length = read_be_u64(data, name_end + 12);
        let header = ContainerHeader {
            version,
            kdf_id,
            kdf_params: KdfParams { time_cost, memory_cost_kib, parallelism },
            salt,
            nonce,
            filename,
            mode: Some(mode),
            original_file_size,
            ciphertext_length,
        };
        Ok((header, name_end + 20))
    }
}

/// The length of the header that starts with `prefix`, as its version byte
/// and filename length declare it.
pub fn declared_header_size(prefix: &[u8]) -> (size: usize)
    requires
        prefix.len() >= FIXED_HEADER_V1,
    ensures
        size == declared_size(prefix@),
        FIXED_HEADER_V1 <= size <= FIXED_HEADER_V2 + 0xFFFF,
{
    let filename_len = read_be_u16(prefix, 49) as usize;
    if prefix[8] == 2 {
        FIXED_HEADER_V2 + filename_len
    } else {
        FIXED_HEADER_V1 + filename_len
    }
}

/// Reads a header from the front of `stream`, as a reader in two steps
/// does. Returns the header and the number of bytes it occupies.
pub fn read_header(stream: &[u8]) -> (res: Result<(ContainerHeader, usize), HeaderError>)
    ensures
        decoded_view(res) == header_reading(stream@),
        res matches Ok((header, consumed)) ==> consumed <= stream.len(),
{
    if stream.len() < FIXED_HEADER_V1 {
        return Err(HeaderError::TooShort);
    }
    let size = declared_header_size(stream);
    if stream.len() < size {
        return Err(HeaderError::TooShort);
    }
    decode_header(slice_subrange(stream, 0, size))
}

/// `Read::read_exact` of std into a fresh buffer of `len` bytes: the bytes
/// read, or nothing when the reader fails or ends early.
#[verifier::external_body]
fn read_exact_bytes<R: Read>(reader: &mut R, len: usize) -> (bytes: Option<Vec<u8>>)
    ensures
        bytes matches Some(b) ==> b@.len() == len,
{
    let mut buf = vec![0u8; len];
    match reader.read_exact(&mut buf) {
        Ok(()) => Some(buf),
        Err(_) => None,
    }
}

/// Reads a header from a reader without reading past it: 67 bytes first,
/// then as many as these declare. Returns the header, the number of bytes
/// it occupies, and those bytes. The reader decides what each read gives;
/// the result is what `header_of_reads` makes of the two reads, and a
/// header that is returned is the one that the returned bytes encode, and
/// they hold nothing else.
pub fn read_header_from_reader<R: Read>(reader: &mut R) -> (res: Result<
    (ContainerHeader, usize, Vec<u8>),
    HeaderError,
>)
    ensures
        exists|first: Option<Seq<u8>>, rest: Option<Seq<u8>>|
            reads_as_asked(first, rest) && #[trigger] header_of_reads(first, rest) == read_view(
                res,
            ),
        res matches Ok((header, consumed, raw)) ==> {
            &&& raw@.len() == consumed
            &&& consumed >= FIXED_HEADER_V1
            &&& decoding(raw@) == Ok::<(HeaderFields, nat), HeaderError>((header@, consumed as nat))
            &&& header_reading(raw@) == decoding(raw@)
            &&& header@.canonical()
            &&& header@.encoding() == raw@
        },
{
    let first = read_exact_bytes(reader, FIXED_HEADER_V1);
    let rest = match &first {
        Some(prefix) => {
            let total_size = declared_header_size(prefix.as_slice());
            if total_size > FIXED_HEADER_V1 {
                read_exact_bytes(reader, total_size - FIXED_HEADER_V1)
            } else {
                None
            }
        },
        None => None,
    };
    let ghost first_read = bytes_view(first);
    let ghost rest_read = bytes_view(rest);
    let res = header_from_reads(first, rest);
    proof {
        assert(reads_as_asked(first_read, rest_read));
        assert(header_of_reads(first_read, rest_read) == read_view(res));
        if res is Ok {
            lemma_header_of_reads_ok(first_read, rest_read);
        }
    }
    res
}

/// What a read gave, as a sequence of bytes.
pub open spec fn bytes_view(read: Option<Vec<u8>>) -> Option<Seq<u8>> {
    match read {
        Some(bytes) => Some(bytes@),
        None => None,
    }
}

/// The outcome of reading a header as mathematical values.
pub open spec fn read_view(res: Result<(ContainerHeader, usize, Vec<u8>), HeaderError>) -> Result<
    (HeaderFields, nat, Seq<u8>),
    HeaderError,
> {
    match res {
        Ok((header, consumed, raw)) => Ok((header@, consumed as nat, raw@)),
        Err(e) => Err(e),
    }
}

/// The reads that a header is read with, when they give anything, give
/// what was asked for: the first gives 67 bytes, and a second one is made
/// only where these declare a longer header, and gives the bytes that are
/// missing.
pub open spec fn reads_as_asked(first: Option<Seq<u8>>, rest: Option<Seq<u8>>) -> bool {
    &&& first matches Some(prefix) ==> prefix.len() == FIXED_HEADER_V1
    &&& rest matches Some(more) ==> {
        &&& first matches Some(prefix)
        &&& declared_size(prefix) > FIXED_HEADER_V1
        &&& more.len() == declared_size(prefix) - FIXED_HEADER_V1
    }
}

/// What reading a header in two steps gives, from what each read gave:
/// nothing from either read where it was needed is too short; otherwise
/// the bytes read are parsed, and are returned with the header.
pub open spec fn header_of_reads(first: Option<Seq<u8>>, rest: Option<Seq<u8>>) -> Result<
    (HeaderFields, nat, Seq<u8>),
    HeaderError,
> {
    match first {
        None => Err(HeaderError::TooShort),
        Some(prefix) => if prefix.len() < FIXED_HEADER_V1 {
            Err(HeaderError::TooShort)
        } else if declared_size(prefix) <= prefix.len() {
            parsed_with_bytes(prefix)
        } else {
            match rest {
                None => Err(HeaderError::TooShort),
                Some(more) => parsed_with_bytes(prefix + more),
            }
        },
    }
}

/// What parsing `raw` gives, with `raw` itself beside the header.
pub open spec fn parsed_with_bytes(raw: Seq<u8>) -> Result<
    (HeaderFields, nat, Seq<u8>),
    HeaderError,
> {
    match decoding(raw) {
        Ok((h, consumed)) => Ok((h, consumed, raw)),
        Err(e) => Err(e),
    }
}

/// Makes a header of what the two reads gave: the fixed 67 bytes, and the
/// bytes that follow them where the header is longer. Returns the header,
/// the number of bytes it occupies, and the bytes read.
pub fn header_from_reads(first: Option<Vec<u8>>, rest: Option<Vec<u8>>) -> (res: Result<
    (ContainerHeader, usize, Vec<u8>),
    HeaderError,
>)
    ensures
        read_view(res) == header_of_reads(bytes_view(first), bytes_view(rest)),
{
    let mut raw = match first {
        Some(prefix) => prefix,
        None => {
            return Err(HeaderError::TooShort);
        },
    };
    if raw.len() < FIXED_HEADER_V1 {
        return Err(HeaderError::TooShort);
    }
    let total_size = declared_header_size(raw.as_slice());
    if total_size > raw.len() {
        match rest {
            Some(more) => {
                append_bytes(&mut raw, more.as_slice());
            },
            None => {
                return Err(HeaderError::TooShort);
            },
        }
    }
    match decode_header(raw.as_slice()) {
        Ok((header, consumed)) => Ok((header, consumed, raw)),
        Err(e) => Err(e),
    }
}

/// Where the reads gave what was asked for and a header came of them, the
/// bytes read are the encoding of that header and nothing else.
pub proof fn lemma_header_of_reads_ok(first: Option<Seq<u8>>, rest: Option<Seq<u8>>)
    requires
        reads_as_asked(first, rest),
        header_of_reads(first, rest) is Ok,
    ensures
        ({
            let (h, consumed, raw) = header_of_reads(first, rest)->Ok_0;
            &&& raw.len() == consumed
            &&& consumed >= FIXED_HEADER_V1
            &&& decoding(raw) == Ok::<(HeaderFields, nat), HeaderError>((h, consumed))
            &&& header_reading(raw) == decoding(raw)
            &&& h.canonical()
            &&& h.encoding() == raw
            &&& first matches Some(prefix) && prefix == raw.subrange(0, FIXED_HEADER_V1 as int)
        }),
{
    let prefix = first->0;
    let raw = header_of_reads(first, rest)->Ok_0.2;
    assert(raw.subrange(49, 51) =~= prefix.subrange(49, 51));
    assert(declared_size(raw) == declared_size(prefix));
    assert(raw.len() == declared_size(raw));
    assert(raw.subrange(0, declared_size(raw)) =~= raw);
    assert(raw.subrange(0, FIXED_HEADER_V1 as int) =~= prefix);
    lemma_encode_decode(raw);
}

/// The authenticated prefix of an encoded header: its first 49 bytes.
pub fn extract_aad(header_bytes: &[u8]) -> (aad: &[u8])
    requires
        header_bytes@.len() >= AAD_LENGTH,
    ensures
        aad@ == header_bytes@.subrange(0, AAD_LENGTH as int),
{
    slice_subrange(header_bytes, 0, AAD_LENGTH)
}

/// Derives the nonce of one chunk: the chunk index, big-endian, XORed into
/// the last four bytes of the base nonce.
pub fn derive_chunk_nonce(base_nonce: &[u8; NONCE_LEN], chunk_index: u32) -> (nonce: [u8;
    NONCE_LEN])
    ensures
        nonce@ == chunk_nonce(base_nonce@, chunk_index),
{
    proof {
        reveal(be_u32);
    }
    let mut nonce = *base_nonce;
    nonce[8] = nonce[8] ^ ((chunk_index / 0x100_0000) as u8);
    nonce[9] = nonce[9] ^ (((chunk_index / 0x1_0000) % 0x100) as u8);
    nonce[10] = nonce[10] ^ (((chunk_index / 0x100) % 0x100) as u8);
    nonce[11] = nonce[11] ^ ((chunk_index % 0x100) as u8);
    assert(nonce@ =~= chunk_nonce(base_nonce@, chunk_index));
    nonce
}

/// Builds the associated data of one chunk: the header's authenticated
/// prefix followed by the big-endian chunk index.
pub fn build_chunk_aad(header_aad: &[u8], chunk_index: u32) -> (aad: Vec<u8>)
    ensures
        aad@ == chunk_aad(header_aad@, chunk_index),
{
    let mut aad: Vec<u8> = Vec::new();
    append_bytes(&mut aad, header_aad);
    push_be_u32(&mut aad, chunk_index);
    aad
}

/// Where each field lies in the encoding of a header with sixteen salt and
/// twelve nonce bytes.
pub proof fn lemma_encoding_layout(h: HeaderFields)
    requires
        h.salt.len() == SALT_LEN,
        h.nonce.len() == NONCE_LEN,
    ensures
        h.aad().len() == AAD_LENGTH,
        h.mode_bytes().len() == (if h.version >= 2 { 4nat } else { 0nat }),
        h.encoding().len() == AAD_LENGTH + 2 + h.filename_bytes().len() + h.mode_bytes().len()
            + 16,
        h.encoding().subrange(0, AAD_LENGTH as int) == h.aad(),
        h.encoding().subrange(0, 8) == magic_bytes(),
        h.encoding()[8] == h.version,
        h.encoding()[9] == h.kdf_id,
        h.encoding().subrange(10, 14) == be_u32(h.time_cost),
        h.encoding().subrange(14, 18) == be_u32(h.memory_cost_kib),
        h.encoding()[18] == (h.parallelism % 0x100) as u8,
        h.encoding()[19] == 16,
        h.encoding().subrange(20, 36) == h.salt,
        h.encoding()[36] == 12,
        h.encoding().subrange(37, 49) == h.nonce,
        h.encoding().subrange(49, 51) == be_u16((h.filename_bytes().len() % 0x1_0000) as u16),
        h.encoding().subrange(51, 51 + h.filename_bytes().len() as int) == h.filename_bytes(),
        h.encoding().subrange(
            51 + h.filename_bytes().len() as int,
            51 + h.filename_bytes().len() as int + h.mode_bytes().len() as int,
        ) == h.mode_bytes(),
        h.encoding().subrange(
            h.encoding().len() - 16,
            h.encoding().len() - 8,
        ) == be_u64(h.original_file_size),
        h.encoding().subrange(h.encoding().len() - 8, h.encoding().len() as int) == be_u64(
            h.ciphertext_length,
        ),
{
    reveal(HeaderFields::aad);
    reveal(HeaderFields::encoding);
    lemma_be_lengths();
    let a = h.aad();
    let e = h.encoding();
    let n = h.filename_bytes().len() as int;
    let m = h.mode_bytes().len() as int;
    assert(a.len() == 49);
    assert(e.len() == 49 + 2 + n + m + 16);
    assert(e.subrange(0, 49) =~= a);
    assert(a.subrange(0, 8) =~= magic_bytes());
    assert(e.subrange(0, 8) =~= a.subrange(0, 8));
    assert(a.subrange(10, 14) =~= be_u32(h.time_cost));
    assert(e.subrange(10, 14) =~= a.subrange(10, 14));
    assert(a.subrange(14, 18) =~= be_u32(h.memory_cost_kib));
    assert(e.subrange(14, 18) =~= a.subrange(14, 18));
    assert(a.subrange(20, 36) =~= h.salt);
    assert(e.subrange(20, 36) =~= a.subrange(20, 36));
    assert(a.subrange(37, 49) =~= h.nonce);
    assert(e.subrange(37, 49) =~= a.subrange(37, 49));
    assert(e[8] == a[8] && e[9] == a[9] && e[18] == a[18] && e[19] == a[19] && e[36] == a[36]);
    assert(e.subrange(49, 51) =~= be_u16((n % 0x1_0000) as u16));
    assert(e.subrange(51, 51 + n) =~= h.filename_bytes());
    assert(e.subrange(51 + n, 51 + n + m) =~= h.mode_bytes());
    assert(e.subrange(e.len() - 16, e.len() - 8) =~= be_u64(h.original_file_size));
    assert(e.subrange(e.len() - 8, e.len() as int) =~= be_u64(h.ciphertext_length));
}

/// Parsing reads nothing beyond the header: bytes that follow an encoded
/// header do not change what is parsed.
pub proof fn lemma_decoding_ignores_tail(data: Seq<u8>, tail: Seq<u8>)
    requires
        decoding(data) is Ok,
    ensures
        decoding(data + tail) == decoding(data),
{
    let d = data + tail;
    let name_end = 51 + declared_name_len(data);
    let total = declared_size(data);
    assert(d.subrange(0, 8) =~= data.subrange(0, 8));
    assert(d.subrange(49, 51) =~= data.subrange(49, 51));
    assert(prefix_error(d) == prefix_error(data));
    assert(declared_name_len(d) == declared_name_len(data));
    assert(declared_size(d) == total);
    assert(d.subrange(51, name_end) =~= data.subrange(51, name_end));
    assert(d.subrange(10, 14) =~= data.subrange(10, 14));
    assert(d.subrange(14, 18) =~= data.subrange(14, 18));
    assert(d.subrange(20, 36) =~= data.subrange(20, 36));
    assert(d.subrange(37, 49) =~= data.subrange(37, 49));
    assert(d.subrange(name_end, name_end + 4) =~= data.subrange(name_end, name_end + 4));
    assert(d.subrange(total - 16, total - 8) =~= data.subrange(total - 16, total - 8));
    assert(d.subrange(total - 8, total) =~= data.subrange(total - 8, total));
    assert(parsed_fields(d) == parsed_fields(data));
}

/// The fields read back from the encoding of a canonical header are the
/// header's own.
proof fn lemma_parsed_fields_of_encoding(h: HeaderFields)
    requires
        h.canonical(),
    ensures
        prefix_error(h.encoding()) is None,
        declared_name_len(h.encoding()) == h.filename_bytes().len(),
        declared_size(h.encoding()) == h.encoding().len(),
        h.encoding().len() == header_size(h.version, h.filename_bytes().len()),
        parsed_fields(h.encoding()) == h,
{
    let e = h.encoding();
    let n = h.filename_bytes().len() as int;
    lemma_encoding_layout(h);
    lemma_be_u16_roundtrip((n % 0x1_0000) as u16);
    assert(declared_name_len(e) == n);
    assert(declared_size(e) == e.len());
    lemma_be_u32_roundtrip(h.time_cost);
    lemma_be_u32_roundtrip(h.memory_cost_kib);
    lemma_be_u64_roundtrip(h.original_file_size);
    lemma_be_u64_roundtrip(h.ciphertext_length);
    let got = parsed_fields(e);
    assert(got.time_cost == h.time_cost);
    assert(got.memory_cost_kib == h.memory_cost_kib);
    assert(got.parallelism == h.parallelism);
    assert(got.salt == h.salt);
    assert(got.nonce == h.nonce);
    assert(got.original_file_size == h.original_file_size);
    assert(got.ciphertext_length == h.ciphertext_length);
    match h.filename {
        Some(name) => {
            encode_utf8_decode_utf8(name);
        },
        None => {},
    }
    assert(got.filename == h.filename);
    if h.version == 2 {
        lemma_be_u32_roundtrip(h.mode->0);
    }
    assert(got.mode == h.mode);
}

/// Decoding inverts encoding: the encoding of a canonical header, followed
/// by any bytes, parses to that header and to the length of its encoding.
pub proof fn lemma_decode_encode(h: HeaderFields, tail: Seq<u8>)
    requires
        h.canonical(),
    ensures
        decoding(h.encoding() + tail) == Ok::<(HeaderFields, nat), HeaderError>(
            (h, h.encoding().len()),
        ),
        h.encoding().len() == header_size(h.version, h.filename_bytes().len()),
{
    let e = h.encoding();
    lemma_parsed_fields_of_encoding(h);
    lemma_encoding_layout(h);
    match h.filename {
        Some(name) => {
            encode_utf8_valid_utf8(name);
        },
        None => {},
    }
    assert(decoding(e) == Ok::<(HeaderFields, nat), HeaderError>((h, e.len())));
    lemma_decoding_ignores_tail(e, tail);
}

/// The header parsed from `data` is canonical, and its stored filename is
/// the declared run of bytes.
proof fn lemma_parsed_fields_canonical(data: Seq<u8>)
    requires
        decoding(data) is Ok,
    ensures
        parsed_fields(data).canonical(),
        parsed_fields(data).filename_bytes() == data.subrange(
            51,
            51 + declared_name_len(data),
        ),
        parsed_fields(data).mode_bytes().len() == declared_size(data) - 67 - declared_name_len(
            data,
        ),
        0 <= declared_name_len(data) < 0x1_0000,
{
    lemma_be_lengths();
    let h = parsed_fields(data);
    let name_len = declared_name_len(data);
    let name_bytes = data.subrange(51, 51 + name_len);
    if name_len > 0 {
        decode_utf8_encode_utf8(name_bytes);
    }
    assert(h.filename_bytes() =~= name_bytes);
}

/// Field by field, the encoding of the header parsed from `data` agrees
/// with `data`.
proof fn lemma_encoding_pieces(data: Seq<u8>)
    requires
        decoding(data) is Ok,
    ensures
        ({
            let e = parsed_fields(data).encoding();
            let name_end = 51 + declared_name_len(data);
            let total = declared_size(data);
            &&& e.len() == total
            &&& e.subrange(0, 8) == data.subrange(0, 8)
            &&& e[8] == data[8]
            &&& e[9] == data[9]
            &&& e.subrange(10, 14) == data.subrange(10, 14)
            &&& e.subrange(14, 18) == data.subrange(14, 18)
            &&& e[18] == data[18]
            &&& e[19] == data[19]
            &&& e.subrange(20, 36) == data.subrange(20, 36)
            &&& e[36] == data[36]
            &&& e.subrange(37, 49) == data.subrange(37, 49)
            &&& e.subrange(49, 51) == data.subrange(49, 51)
            &&& e.subrange(51, name_end) == data.subrange(51, name_end)
            &&& e.subrange(name_end, total - 16) == data.subrange(name_end, total - 16)
            &&& e.subrange(total - 16, total - 8) == data.subrange(total - 16, total - 8)
            &&& e.subrange(total - 8, total) == data.subrange(total - 8, total)
        }),
{
    let h = parsed_fields(data);
    let total = declared_size(data);
    let name_len = declared_name_len(data);
    let name_end = 51 + name_len;
    lemma_parsed_fields_canonical(data);
    lemma_encoding_layout(h);
    let e = h.encoding();
    lemma_from_be_u32_roundtrip(data.subrange(10, 14));
    lemma_from_be_u32_roundtrip(data.subrange(14, 18));
    lemma_from_be_u16_roundtrip(data.subrange(49, 51));
    lemma_from_be_u64_roundtrip(data.subrange(total - 16, total - 8));
    lemma_from_be_u64_roundtrip(data.subrange(total - 8, total));
    if data[8] == 2 {
        lemma_from_be_u32_roundtrip(data.subrange(name_end, name_end + 4));
    } else {
        assert(e.subrange(name_end, total - 16) =~= data.subrange(name_end, total - 16));
    }
}

/// A representable header and its normal form have the same encoding, and
/// the normal form is canonical.
pub proof fn lemma_normal_form(h: HeaderFields)
    requires
        h.representable(),
    ensures
        h.normal_form().canonical(),
        h.normal_form().encoding() == h.encoding(),
        h.normal_form().aad() == h.aad(),
        h.normal_form().filename_bytes() == h.filename_bytes(),
        h.canonical() ==> h.normal_form() == h,
{
    reveal(HeaderFields::aad);
    reveal(HeaderFields::encoding);
    let n = h.normal_form();
    assert(n.filename_bytes() =~= h.filename_bytes());
    assert(n.mode_bytes() =~= h.mode_bytes());
}

/// Decoding the encoding of a representable header, followed by any bytes,
/// gives the header's normal form and the length of the encoding.
pub proof fn lemma_decode_encode_normal(h: HeaderFields, tail: Seq<u8>)
    requires
        h.representable(),
    ensures
        decoding(h.encoding() + tail) == Ok::<(HeaderFields, nat), HeaderError>(
            (h.normal_form(), h.encoding().len()),
        ),
        header_reading(h.encoding() + tail) == decoding(h.encoding() + tail),
        h.encoding().len() == header_size(h.version, h.filename_bytes().len()),
{
    lemma_normal_form(h);
    let n = h.normal_form();
    lemma_decode_encode(n, tail);
    lemma_decode_encode(n, Seq::empty());
    lemma_parsed_fields_of_encoding(n);
    let e = h.encoding();
    let stream = e + tail;
    assert(e + Seq::<u8>::empty() =~= e);
    assert(stream.subrange(49, 51) =~= e.subrange(49, 51));
    assert(declared_size(stream) == e.len());
    assert(stream.subrange(0, e.len() as int) =~= e);
}

/// Encoding inverts decoding: a byte string that parses begins with the
/// encoding of the header it parses to, and that header is canonical.
pub proof fn lemma_encode_decode(data: Seq<u8>)
    requires
        decoding(data) is Ok,
    ensures
        decoding(data)->Ok_0.0.canonical(),
        decoding(data)->Ok_0.1 <= data.len(),
        decoding(data)->Ok_0.0.encoding() == data.subrange(0, decoding(data)->Ok_0.1 as int),
        decoding(data)->Ok_0.0.aad() == data.subrange(0, AAD_LENGTH as int),
        decoding(data)->Ok_0.1 == header_size(
            decoding(data)->Ok_0.0.version,
            decoding(data)->Ok_0.0.filename_bytes().len(),
        ),
{
    let h = parsed_fields(data);
    let total = declared_size(data);
    let name_end = 51 + declared_name_len(data);
    lemma_parsed_fields_canonical(data);
    lemma_encoding_pieces(data);
    let e = h.encoding();
    let p = data.subrange(0, total);
    assert forall|i: int| 0 <= i < e.len() implies e[i] == p[i] by {
        if i < 8 {
            assert(e.subrange(0, 8)[i] == data.subrange(0, 8)[i]);
        } else if i < 10 {
        } else if i < 14 {
            assert(e.subrange(10, 14)[i - 10] == data.subrange(10, 14)[i - 10]);
        } else if i < 18 {
            assert(e.subrange(14, 18)[i - 14] == data.subrange(14, 18)[i - 14]);
        } else if i < 20 {
        } else if i < 36 {
            assert(e.subrange(20, 36)[i - 20] == data.subrange(20, 36)[i - 20]);
        } else if i < 37 {
        } else if i < 49 {
            assert(e.subrange(37, 49)[i - 37] == data.subrange(37, 49)[i - 37]);
        } else if i < 51 {
            assert(e.subrange(49, 51)[i - 49] == data.subrange(49, 51)[i - 49]);
        } else if i < name_end {
            assert(e.subrange(51, name_end)[i - 51] == data.subrange(51, name_end)[i - 51]);
        } else if i < total - 16 {
            assert(e.subrange(name_end, total - 16)[i - name_end] == data.subrange(
                name_end,
                total - 16,
            )[i - name_end]);
        } else if i < total - 8 {
            assert(e.subrange(total - 16, total - 8)[i - (total - 16)] == data.subrange(
                total - 16,
                total - 8,
            )[i - (total - 16)]);
        } else {
            assert(e.subrange(total - 8, total)[i - (total - 8)] == data.subrange(
                total - 8,
                total,
            )[i - (total - 8)]);
        }
    }
    assert(e =~= p);
    lemma_encoding_layout(h);
    assert(h.aad() =~= data.subrange(0, AAD_LENGTH as int)) by {
        assert(e.subrange(0, AAD_LENGTH as int) =~= p.subrange(0, AAD_LENGTH as int));
        assert(p.subrange(0, AAD_LENGTH as int) =~= data.subrange(0, AAD_LENGTH as int));
    }
}

/// XOR with a fixed byte is injective.
proof fn lemma_xor_cancel(a: u8, x: u8, y: u8)
    requires
        a ^ x == a ^ y,
    ensures
        x == y,
{
    assert(a ^ x == a ^ y ==> x == y) by (bit_vector);
}

/// Nonces are unique within a file: distinct chunk indices give distinct
/// chunk nonces under the same base nonce.
pub proof fn lemma_chunk_nonce_injective(base_nonce: Seq<u8>, i: u32, j: u32)
    requires
        base_nonce.len() == NONCE_LEN,
        i != j,
    ensures
        chunk_nonce(base_nonce, i) != chunk_nonce(base_nonce, j),
{
    if chunk_nonce(base_nonce, i) == chunk_nonce(base_nonce, j) {
        lemma_be_lengths();
        let ni = chunk_nonce(base_nonce, i);
        let nj = chunk_nonce(base_nonce, j);
        assert forall|k: int| 0 <= k < 4 implies be_u32(i)[k] == be_u32(j)[k] by {
            assert(ni[8 + k] == nj[8 + k]);
            lemma_xor_cancel(base_nonce[8 + k], be_u32(i)[k], be_u32(j)[k]);
        }
        assert(be_u32(i) =~= be_u32(j));
        lemma_be_u32_injective(i, j);
    }
}

/// The first chunk uses the base nonce itself, and every chunk nonce keeps
/// the first eight bytes of the base nonce.
pub proof fn lemma_chunk_nonce_prefix(base_nonce: Seq<u8>, i: u32)
    requires
        base_nonce.len() == NONCE_LEN,
    ensures
        chunk_nonce(base_nonce, 0) == base_nonce,
        chunk_nonce(base_nonce, i).len() == NONCE_LEN,
        chunk_nonce(base_nonce, i).subrange(0, 8) == base_nonce.subrange(0, 8),
{
    reveal(be_u32);
    assert forall|b: u8| #[trigger] (b ^ 0u8) == b by {
        assert(b ^ 0u8 == b) by (bit_vector);
    }
    assert(chunk_nonce(base_nonce, 0) =~= base_nonce);
    assert(chunk_nonce(base_nonce, i).subrange(0, 8) =~= base_nonce.subrange(0, 8));
}

/// Each chunk is bound to its position: distinct chunk indices give
/// distinct associated data under the same header prefix.
pub proof fn lemma_chunk_aad_injective(header_aad: Seq<u8>, i: u32, j: u32)
    requires
        i != j,
    ensures
        chunk_aad(header_aad, i) != chunk_aad(header_aad, j),
        chunk_aad(header_aad, i).len() == header_aad.len() + 4,
        chunk_aad(header_aad, i).subrange(0, header_aad.len() as int) == header_aad,
{
    lemma_be_lengths();
    let n = header_aad.len() as int;
    assert(chunk_aad(header_aad, i).subrange(0, n) =~= header_aad);
    if chunk_aad(header_aad, i) == chunk_aad(header_aad, j) {
        assert(chunk_aad(header_aad, i).subrange(n, n + 4) =~= be_u32(i));
        assert(chunk_aad(header_aad, j).subrange(n, n + 4) =~= be_u32(j));
        lemma_be_u32_injective(i, j);
    }
}

} // verus!
