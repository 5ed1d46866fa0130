use vstd::prelude::*;

verus! {

/// The SHA-256 digest of a byte string, named abstractly: the digest is a
/// pure function of the input bytes alone, computed by the host library.
pub uninterp spec fn sha256_of(data: Seq<u8>) -> Seq<u8>;

/// Relies on soroban_sdk::crypto::Crypto::sha256: "Returns the SHA-256 hash
/// of the data", a 32-byte digest that depends on the input bytes alone. A
/// throwaway local environment hosts the call; no snapshot is written, and
/// its metering budget is lifted so the call returns on inputs of any
/// length instead of trapping once the default budget is spent.
#[verifier::external_body]
pub(crate) fn sha256(data: &Vec<u8>) -> (r: Vec<u8>)
    ensures
        r@ == sha256_of(data@),
        r@.len() == 32,
{
    let env = soroban_sdk::Env::new_with_config(soroban_sdk::testutils::EnvTestConfig {
        capture_snapshot_at_drop: false,
    });
    env.budget().reset_unlimited();
    let bytes = soroban_sdk::Bytes::from_slice(&env, data.as_slice());
    let digest: [u8; 32] = env.crypto().sha256(&bytes).to_array();
    digest.to_vec()
}

/// Computes the SHA-256 digest of a byte string: the hash a host passes to
/// `initialize` is the digest of the solution image computed here.
pub fn hash_bytes(data: &Vec<u8>) -> (r: Vec<u8>)
    ensures
        r@ == sha256_of(data@),
        r@.len() == 32,
{
    sha256(data)
}

} // verus!
