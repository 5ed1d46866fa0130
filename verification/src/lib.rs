//! A verified two-phase commit-reveal game.
//!
//! A host publishes the SHA-256 hash of a secret image with `initialize`. A
//! player binds a guess and a secret nonce to their own identity by storing
//! `commitment(caller, guess, secret)` with `commit`, and later reveals the
//! guess and secret with `check`, which verifies the binding and the
//! solution and returns the reward instruction for the host to pay.
//!
//! The binding opens with the caller's serialized identity, which is proved
//! injective, so an observed commitment cannot be replayed by anyone else;
//! a redeemed commitment is marked and never pays twice. Each operation's
//! contract pins the new state and the result down exactly, over an abstract
//! view of the game; the laws module states the properties that follow.

pub mod game;
pub mod hashing;
pub mod identity;
pub mod laws;

pub use game::{commitment, CommitRevealContract, Error, GameView, Reward, RewardView};
pub use game::{inv, spec_check, spec_commit, spec_commitment, spec_initialize};
pub use hashing::{hash_bytes, sha256_of};
pub use identity::{
    bytes_eq, copy_bytes, duplicate_identity, extend_bytes, identity_eq,
    lemma_serialize_injective, serialize_identity, spec_serialize, Identity, IdentityView,
    ACCOUNT_TAG, CONTRACT_TAG,
};
