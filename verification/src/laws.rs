use vstd::prelude::*;

use crate::game::{
    spec_check, spec_commit, spec_commitment, spec_initialize, Error, GameView, RewardView,
};
use crate::hashing::sha256_of;
use crate::identity::{lemma_serialize_injective, spec_serialize, IdentityView};

verus! {

/// Initializing succeeds once and fixes the target: a second call fails with
/// `AlreadyStarted` and leaves the target as the first call set it.
pub proof fn lemma_initialize_once(g: GameView, h1: Seq<u8>, h2: Seq<u8>)
    requires
        !g.started,
    ensures
        ({
            let first = spec_initialize(g, h1);
            let second = spec_initialize(first.0, h2);
            &&& first.1 == Ok::<(), Error>(())
            &&& first.0.target == h1
            &&& second.1 == Err::<(), Error>(Error::AlreadyStarted)
            &&& second.0 == first.0
            &&& second.0.target == h1
        }),
{
}

/// Committing before any initialization fails with `NotStarted` and changes
/// nothing.
pub proof fn lemma_commit_before_initialize(g: GameView, c: IdentityView, v: Seq<u8>)
    requires
        !g.started,
    ensures
        spec_commit(g, c, v).1 == Err::<(), Error>(Error::NotStarted),
        spec_commit(g, c, v).0 == g,
{
}

/// A caller who commits the commitment of a guess and secret under their own
/// identity, and whose guess hashes to the target, is paid the configured
/// reward exactly once: the reveal succeeds, and revealing again fails with
/// `AlreadyRedeemed` without changing the state further.
pub proof fn lemma_commit_reveal_pays(
    g: GameView,
    c: IdentityView,
    guess: Seq<u8>,
    secret: Seq<u8>,
)
    requires
        g.started,
        !g.redeemed.contains(c),
        sha256_of(guess) == g.target,
    ensures
        ({
            let committed = spec_commit(g, c, spec_commitment(c, guess, secret));
            let revealed = spec_check(committed.0, c, guess, secret);
            let again = spec_check(revealed.0, c, guess, secret);
            &&& committed.1 == Ok::<(), Error>(())
            &&& revealed.1 == Ok::<RewardView, Error>(
                RewardView { to: c, amount: g.reward_amount },
            )
            &&& again.1 == Err::<RewardView, Error>(Error::AlreadyRedeemed)
            &&& again.0 == revealed.0
        }),
{
}

/// Revealing a guess and secret whose commitment differs from the stored one
/// fails with `CommitMismatch`, and no reward is sent: the state is
/// unchanged.
pub proof fn lemma_commit_mismatch(g: GameView, c: IdentityView, guess: Seq<u8>, secret: Seq<u8>)
    requires
        g.commits.contains_key(c),
        !g.redeemed.contains(c),
        g.commits[c] != spec_commitment(c, guess, secret),
    ensures
        spec_check(g, c, guess, secret).1 == Err::<RewardView, Error>(Error::CommitMismatch),
        spec_check(g, c, guess, secret).0 == g,
{
}

/// Revealing a matching commitment whose guess does not hash to the target
/// fails with `WrongSolution`, and no reward is sent: the state is
/// unchanged.
pub proof fn lemma_wrong_solution(g: GameView, c: IdentityView, guess: Seq<u8>, secret: Seq<u8>)
    requires
        g.commits.contains_key(c),
        !g.redeemed.contains(c),
        g.commits[c] == spec_commitment(c, guess, secret),
        sha256_of(guess) != g.target,
    ensures
        spec_check(g, c, guess, secret).1 == Err::<RewardView, Error>(Error::WrongSolution),
        spec_check(g, c, guess, secret).0 == g,
{
}

/// Distinct callers bind distinct byte strings: the buffer a reveal hashes
/// opens with the caller's own serialization, so for two distinct callers
/// the buffers differ whatever the guess and secret are.
pub proof fn lemma_binding_preimage_injective(
    a: IdentityView,
    b: IdentityView,
    guess: Seq<u8>,
    secret: Seq<u8>,
)
    requires
        a != b,
    ensures
        spec_serialize(a) + guess + secret != spec_serialize(b) + guess + secret,
{
    lemma_serialize_injective(a, b);
    let sa = spec_serialize(a);
    let sb = spec_serialize(b);
    if sa + guess + secret == sb + guess + secret {
        assert((sa + guess + secret).len() == (sb + guess + secret).len());
        assert(sa.len() == sb.len());
        assert forall|j: int| 0 <= j < sa.len() implies sa[j] == sb[j] by {
            assert((sa + guess + secret)[j] == sa[j]);
            assert((sb + guess + secret)[j] == sb[j]);
        }
        assert(sa =~= sb);
    }
}

/// Once started, a game stays started and its target never changes, and no
/// operation moves either field: commits and reveals leave them alone, and a
/// second initialization is refused without touching them.
pub proof fn lemma_started_and_target_stable(
    g: GameView,
    c: IdentityView,
    h: Seq<u8>,
    v: Seq<u8>,
    guess: Seq<u8>,
    secret: Seq<u8>,
)
    requires
        g.started,
    ensures
        spec_initialize(g, h).0 == g,
        spec_commit(g, c, v).0.started && spec_commit(g, c, v).0.target == g.target,
        spec_check(g, c, guess, secret).0.started && spec_check(g, c, guess, secret).0.target
            == g.target,
{
}

/// A caller's entry belongs to that caller alone: a commit rewrites only the
/// committing caller's entry, and a reveal rewrites none at all.
pub proof fn lemma_commits_are_per_caller(
    g: GameView,
    a: IdentityView,
    b: IdentityView,
    v: Seq<u8>,
    guess: Seq<u8>,
    secret: Seq<u8>,
)
    requires
        a != b,
    ensures
        spec_commit(g, a, v).0.commits.contains_key(b) == g.commits.contains_key(b),
        g.commits.contains_key(b) ==> spec_commit(g, a, v).0.commits[b] == g.commits[b],
        spec_check(g, a, guess, secret).0.commits == g.commits,
{
}

/// Every operation preserves the abstract state invariant, provided the
/// hashes handed in are 32-byte digests.
pub proof fn lemma_operations_preserve_inv(
    g: GameView,
    c: IdentityView,
    h: Seq<u8>,
    v: Seq<u8>,
    guess: Seq<u8>,
    secret: Seq<u8>,
)
    requires
        crate::game::inv(g),
        h.len() == 32,
        v.len() == 32,
    ensures
        crate::game::inv(spec_initialize(g, h).0),
        crate::game::inv(spec_commit(g, c, v).0),
        crate::game::inv(spec_check(g, c, guess, secret).0),
{
}

/// A bystander who never committed cannot redeem an observed reveal: after
/// one caller commits, a distinct caller's own reveal of the same guess and
/// secret fails with `NoCommit`, and the state is unchanged.
pub proof fn lemma_front_run_no_commit(
    g: GameView,
    a: IdentityView,
    b: IdentityView,
    guess: Seq<u8>,
    secret: Seq<u8>,
)
    requires
        a != b,
        !g.commits.contains_key(b),
    ensures
        ({
            let committed = spec_commit(g, a, spec_commitment(a, guess, secret));
            &&& spec_check(committed.0, b, guess, secret).1 == Err::<RewardView, Error>(
                Error::NoCommit,
            )
            &&& spec_check(committed.0, b, guess, secret).0 == committed.0
        }),
{
}

/// A bystander who copies an observed commitment cannot redeem it either:
/// the commitment was bound to the first caller's identity, and the
/// bystander's reveal hashes a buffer bound to their own. The reveal fails
/// with `CommitMismatch` whenever the two bindings hash apart; by
/// `lemma_binding_preimage_injective` the hashed buffers always differ, so
/// only a SHA-256 collision between them could defeat this.
pub proof fn lemma_front_run_copied_commit(
    g: GameView,
    a: IdentityView,
    b: IdentityView,
    guess: Seq<u8>,
    secret: Seq<u8>,
)
    requires
        g.started,
        a != b,
        !g.redeemed.contains(b),
        spec_commitment(b, guess, secret) != spec_commitment(a, guess, secret),
    ensures
        ({
            let copied = spec_commit(g, b, spec_commitment(a, guess, secret));
            &&& spec_check(copied.0, b, guess, secret).1 == Err::<RewardView, Error>(
                Error::CommitMismatch,
            )
            &&& spec_check(copied.0, b, guess, secret).0 == copied.0
        }),
{
    lemma_binding_preimage_injective(a, b, guess, secret);
}

} // verus!
