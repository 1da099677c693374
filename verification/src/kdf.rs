//! Password-based key derivation: Argon2id, version 1.3, with a 32-byte output.

use vstd::prelude::*;
use vstd::string::StringExecFns;
use argon2::{Algorithm, Argon2, Params, Version};

verus! {

/// Argon2id cost parameters.
#[derive(Debug, Clone, Copy)]
pub struct KdfParams {
    pub time_cost: u32,
    pub memory_cost_kib: u32,
    pub parallelism: u32,
}

impl Default for KdfParams {
    /// The balanced preset: three passes over 64 MiB with four lanes.
    fn default() -> (params: Self)
        ensures
            params.time_cost == 3,
            params.memory_cost_kib == 65536,
            params.parallelism == 4,
    {
        KdfParams { time_cost: 3, memory_cost_kib: 65536, parallelism: 4 }
    }
}

/// Length of a derived key in bytes.
pub const DERIVED_KEY_LEN: usize = 32;

/// The largest number of lanes Argon2 accepts.
pub const MAX_PARALLELISM: u32 = 0xFF_FFFF;

/// The shortest salt Argon2 accepts.
pub const MIN_SALT_LEN: usize = 8;

/// The 32-byte Argon2id (version 1.3) tag of a passphrase and salt under
/// the given costs.
pub uninterp spec fn argon2id_hash(
    passphrase: Seq<u8>,
    salt: Seq<u8>,
    time_cost: u32,
    memory_cost_kib: u32,
    parallelism: u32,
) -> Seq<u8>;

impl KdfParams {
    /// Costs that Argon2 accepts: at least one pass, between 1 and 2^24 - 1
    /// lanes, and at least eight KiB of memory for each lane.
    pub open spec fn valid(self) -> bool {
        &&& self.time_cost >= 1
        &&& 1 <= self.parallelism <= MAX_PARALLELISM
        &&& self.memory_cost_kib >= 8 * self.parallelism
    }

    /// Whether Argon2 accepts these costs.
    pub fn is_valid(&self) -> (ok: bool)
        ensures
            ok == self.valid(),
    {
        self.time_cost >= 1 && 1 <= self.parallelism && self.parallelism <= MAX_PARALLELISM
            && self.memory_cost_kib >= 8 * self.parallelism
    }
}

/// Inputs from which a key can be derived: valid costs, a salt of 8 bytes
/// or more, and neither passphrase nor salt longer than 2^32 - 1 bytes.
pub open spec fn derivable(passphrase_len: nat, salt_len: nat, params: KdfParams) -> bool {
    &&& params.valid()
    &&& passphrase_len <= 0xFFFF_FFFF
    &&& MIN_SALT_LEN <= salt_len <= 0xFFFF_FFFF
}

#[verifier::external_type_specification]
#[verifier::external_body]
pub struct ExArgon2Error(argon2::Error);

/// `Params::new`, `Argon2::new` and `Argon2::hash_password_into` of the
/// `argon2` crate, for Argon2id version 1.3 and a 32-byte output. The
/// crate rejects the inputs exactly when the costs are not valid, the salt
/// is shorter than 8 bytes, or the passphrase or the salt is longer than
/// 2^32 - 1 bytes. The lane count is kept below 2^29 because the crate
/// multiplies it by eight in 32 bits.
#[verifier::external_body]
fn argon2id_raw(
    passphrase: &[u8],
    salt: &[u8],
    time_cost: u32,
    memory_cost_kib: u32,
    parallelism: u32,
) -> (res: Result<[u8; DERIVED_KEY_LEN], argon2::Error>)
    requires
        parallelism < 0x2000_0000,
    ensures
        res is Ok <==> derivable(
            passphrase@.len(),
            salt@.len(),
            KdfParams { time_cost, memory_cost_kib, parallelism },
        ),
        res matches Ok(key) ==> key@ == argon2id_hash(
            passphrase@,
            salt@,
            time_cost,
            memory_cost_kib,
            parallelism,
        ),
{
    let params = Params::new(memory_cost_kib, time_cost, parallelism, Some(DERIVED_KEY_LEN))?;
    let mut key = [0u8; DERIVED_KEY_LEN];
    Argon2::new(Algorithm::Argon2id, Version::V0x13, params).hash_password_into(
        passphrase,
        salt,
        &mut key,
    )?;
    Ok(key)
}

/// The `Display` text of an `argon2::Error`.
#[verifier::external_body]
fn argon2_error_text(e: &argon2::Error) -> (text: String) {
    format!("{}", e)
}

/// Derives a 32-byte key from a passphrase and a salt with Argon2id.
///
/// Fails exactly when the inputs are not `derivable`; the message then
/// names the stage that refused them.
pub fn derive_key(passphrase: &[u8], salt: &[u8], params: &KdfParams) -> (res: Result<
    [u8; DERIVED_KEY_LEN],
    String,
>)
    ensures
        res is Ok <==> derivable(passphrase@.len(), salt@.len(), *params),
        res matches Ok(key) ==> key@ == argon2id_hash(
            passphrase@,
            salt@,
            params.time_cost,
            params.memory_cost_kib,
            params.parallelism,
        ),
        res matches Err(msg) ==> (if params.valid() {
            "Argon2id key derivation failed: "@
        } else {
            "Invalid Argon2 params: "@
        }).is_prefix_of(msg@),
{
    if params.parallelism > MAX_PARALLELISM {
        return Err(String::from_str("Invalid Argon2 params: ").concat("too many threads"));
    }
    match argon2id_raw(
        passphrase,
        salt,
        params.time_cost,
        params.memory_cost_kib,
        params.parallelism,
    ) {
        Ok(key) => Ok(key),
        Err(e) => {
            let detail = argon2_error_text(&e);
            let stage = if params.is_valid() {
                "Argon2id key derivation failed: "
            } else {
                "Invalid Argon2 params: "
            };
            Err(String::from_str(stage).concat(detail.as_str()))
        },
    }
}

} // verus!
