use vstd::prelude::*;

use crate::hashing::{sha256, sha256_of};
use crate::identity::{
    bytes_eq, copy_bytes, duplicate_identity, extend_bytes, identity_eq, serialize_identity,
    spec_serialize, Identity, IdentityView,
};

verus! {

/// Why a game operation failed.
#[derive(Clone, Copy, Debug, PartialEq, Eq, Structural)]
pub enum Error {
    /// `initialize` was called on an instance that already has a target hash.
    AlreadyStarted,
    /// `commit` was called before `initialize`.
    NotStarted,
    /// `check` was called by a caller with no stored commitment.
    NoCommit,
    /// `check` was called by a caller whose commitment was already redeemed.
    AlreadyRedeemed,
    /// The revealed guess and secret do not hash to the stored commitment.
    CommitMismatch,
    /// The guess does not hash to the target hash.
    WrongSolution,
    /// The reward sink refused the transfer (reported by the host).
    TransferFailure,
}

/// The reward a successful `check` instructs the host to pay.
#[derive(Debug)]
pub struct Reward {
    /// Who is paid.
    pub to: Identity,
    /// How many token units are paid.
    pub amount: u64,
}

/// The mathematical shape of a reward instruction.
#[verifier::ext_equal]
pub struct RewardView {
    pub to: IdentityView,
    pub amount: u64,
}

impl View for Reward {
    type V = RewardView;

    open spec fn view(&self) -> RewardView {
        RewardView { to: self.to@, amount: self.amount }
    }
}

/// The abstract state of one game instance.
#[verifier::ext_equal]
pub struct GameView {
    /// Whether `initialize` has run.
    pub started: bool,
    /// The hash of the solution image, fixed at `initialize`.
    pub target: Seq<u8>,
    /// Each caller's stored commitment hash.
    pub commits: Map<IdentityView, Seq<u8>>,
    /// The callers whose commitment was already redeemed for a reward.
    pub redeemed: Set<IdentityView>,
    /// The token the reward is paid in, fixed at construction.
    pub reward_token: Seq<u8>,
    /// How many token units one reward pays, fixed at construction.
    pub reward_amount: u64,
}

/// The commitment a caller must store to later reveal `guess` and `secret`:
/// the digest of the caller's own serialized identity followed by the guess
/// and the secret. Starting with the identity binds the commitment to the
/// caller, so nobody can replay another caller's commitment.
pub open spec fn spec_commitment(id: IdentityView, guess: Seq<u8>, secret: Seq<u8>) -> Seq<u8> {
    sha256_of(spec_serialize(id) + guess + secret)
}

/// Computes the commitment that binds `caller` to `guess` and `secret`: the
/// SHA-256 digest of the caller's serialized identity followed by the guess
/// and the secret. A player stores this value with `commit` and reveals the
/// guess and secret with `check`.
pub fn commitment(caller: &Identity, guess: &Vec<u8>, secret: &Vec<u8>) -> (r: Vec<u8>)
    ensures
        r@ == spec_commitment(caller@, guess@, secret@),
        r@.len() == 32,
{
    let mut buf = serialize_identity(caller);
    extend_bytes(&mut buf, guess);
    extend_bytes(&mut buf, secret);
    sha256(&buf)
}

/// What `initialize` does to the abstract state: the new state and the result.
pub open spec fn spec_initialize(g: GameView, hash: Seq<u8>) -> (GameView, Result<(), Error>) {
    if g.started {
        (g, Err(Error::AlreadyStarted))
    } else {
        (GameView { started: true, target: hash, ..g }, Ok(()))
    }
}

/// What `commit` does to the abstract state: the new state and the result.
/// A second commit by the same caller overwrites the first, so a caller may
/// change their mind before revealing; whether the commitment was already
/// redeemed is not affected.
pub open spec fn spec_commit(g: GameView, caller: IdentityView, value: Seq<u8>) -> (
    GameView,
    Result<(), Error>,
) {
    if !g.started {
        (g, Err(Error::NotStarted))
    } else {
        (GameView { commits: g.commits.insert(caller, value), ..g }, Ok(()))
    }
}

/// What `check` does to the abstract state: the new state and the result.
/// The caller must have a commitment, not yet redeemed, that equals the
/// commitment of the revealed guess and secret under the caller's own
/// identity; the guess must hash to the target. On success the caller is
/// marked redeemed, so one commitment pays at most once, and the reward
/// instruction is returned for the host to carry out.
pub open spec fn spec_check(
    g: GameView,
    caller: IdentityView,
    guess: Seq<u8>,
    secret: Seq<u8>,
) -> (GameView, Result<RewardView, Error>) {
    if !g.commits.contains_key(caller) {
        (g, Err(Error::NoCommit))
    } else if g.redeemed.contains(caller) {
        (g, Err(Error::AlreadyRedeemed))
    } else if g.commits[caller] != spec_commitment(caller, guess, secret) {
        (g, Err(Error::CommitMismatch))
    } else if sha256_of(guess) != g.target {
        (g, Err(Error::WrongSolution))
    } else {
        (
            GameView { redeemed: g.redeemed.insert(caller), ..g },
            Ok(RewardView { to: caller, amount: g.reward_amount }),
        )
    }
}

/// The abstract state invariant: a game that has not started holds no
/// commitments and every stored commitment is a 32-byte digest of which only
/// redeemed callers are marked.
pub open spec fn inv(g: GameView) -> bool {
    &&& !g.started ==> g.commits == Map::<IdentityView, Seq<u8>>::empty()
    &&& g.started ==> g.target.len() == 32
    &&& forall|c: IdentityView| #[trigger]
        g.commits.contains_key(c) ==> g.commits[c].len() == 32
    &&& forall|c: IdentityView| #[trigger]
        g.redeemed.contains(c) ==> g.commits.contains_key(c)
}

/// One caller's stored commitment.
struct Entry {
    who: Identity,
    value: Vec<u8>,
    redeemed: bool,
}

/// The commitments that a sequence of entries stores, keyed by caller.
spec fn commits_of(s: Seq<Entry>) -> Map<IdentityView, Seq<u8>>
    decreases s.len(),
{
    if s.len() == 0 {
        Map::empty()
    } else {
        commits_of(s.drop_last()).insert(s.last().who@, s.last().value@)
    }
}

/// The callers that a sequence of entries marks as redeemed.
spec fn redeemed_of(s: Seq<Entry>) -> Set<IdentityView>
    decreases s.len(),
{
    if s.len() == 0 {
        Set::empty()
    } else if s.last().redeemed {
        redeemed_of(s.drop_last()).insert(s.last().who@)
    } else {
        redeemed_of(s.drop_last())
    }
}

/// No two entries belong to the same caller.
spec fn distinct_keys(s: Seq<Entry>) -> bool {
    forall|i: int, j: int| 0 <= i < j < s.len() ==> s[i].who@ != s[j].who@
}

proof fn lemma_commits_of_contains(s: Seq<Entry>, c: IdentityView)
    ensures
        commits_of(s).contains_key(c) <==> (exists|i: int|
            0 <= i < s.len() && s[i].who@ == c),
    decreases s.len(),
{
    if s.len() == 0 {
    } else {
        lemma_commits_of_contains(s.drop_last(), c);
        if s.last().who@ == c {
            assert(s[s.len() - 1].who@ == c);
        } else {
            if commits_of(s).contains_key(c) {
                let i = choose|i: int| 0 <= i < s.drop_last().len() && s.drop_last()[i].who@ == c;
                assert(s[i].who@ == c);
            }
            if exists|i: int| 0 <= i < s.len() && s[i].who@ == c {
                let i = choose|i: int| 0 <= i < s.len() && s[i].who@ == c;
                assert(i < s.len() - 1);
                assert(s.drop_last()[i].who@ == c);
            }
        }
    }
}

proof fn lemma_redeemed_of_contains(s: Seq<Entry>, c: IdentityView)
    ensures
        redeemed_of(s).contains(c) <==> (exists|i: int|
            0 <= i < s.len() && s[i].who@ == c && s[i].redeemed),
    decreases s.len(),
{
    if s.len() == 0 {
    } else {
        lemma_redeemed_of_contains(s.drop_last(), c);
        if s.last().who@ == c && s.last().redeemed {
            assert(s[s.len() - 1].who@ == c && s[s.len() - 1].redeemed);
        } else {
            if redeemed_of(s).contains(c) {
                let i = choose|i: int|
                    0 <= i < s.drop_last().len() && s.drop_last()[i].who@ == c
                        && s.drop_last()[i].redeemed;
                assert(s[i].who@ == c && s[i].redeemed);
            }
            if exists|i: int| 0 <= i < s.len() && s[i].who@ == c && s[i].redeemed {
                let i = choose|i: int| 0 <= i < s.len() && s[i].who@ == c && s[i].redeemed;
                assert(i < s.len() - 1);
                assert(s.drop_last()[i].who@ == c && s.drop_last()[i].redeemed);
            }
        }
    }
}

proof fn lemma_commits_of_index(s: Seq<Entry>, i: int)
    requires
        distinct_keys(s),
        0 <= i < s.len(),
    ensures
        commits_of(s).contains_key(s[i].who@),
        commits_of(s)[s[i].who@] == s[i].value@,
    decreases s.len(),
{
    if i == s.len() - 1 {
    } else {
        assert(distinct_keys(s.drop_last()));
        lemma_commits_of_index(s.drop_last(), i);
        assert(s.drop_last()[i] == s[i]);
        assert(s[i].who@ != s.last().who@);
    }
}

proof fn lemma_entries_update(s: Seq<Entry>, i: int, e: Entry)
    requires
        distinct_keys(s),
        0 <= i < s.len(),
        e.who@ == s[i].who@,
    ensures
        commits_of(s.update(i, e)) =~= commits_of(s).insert(e.who@, e.value@),
        redeemed_of(s.update(i, e)) =~= (if e.redeemed {
            redeemed_of(s).insert(e.who@)
        } else {
            redeemed_of(s).remove(e.who@)
        }),
    decreases s.len(),
{
    let t = s.update(i, e);
    if i == s.len() - 1 {
        assert(t.drop_last() =~= s.drop_last());
        assert(t.last() == e);
        lemma_redeemed_of_contains(s.drop_last(), e.who@);
        assert(forall|j: int|
            0 <= j < s.drop_last().len() ==> s.drop_last()[j].who@ != e.who@);
        assert(!redeemed_of(s.drop_last()).contains(e.who@));
    } else {
        assert(t.drop_last() =~= s.drop_last().update(i, e));
        assert(s.drop_last()[i] == s[i]);
        assert(distinct_keys(s.drop_last()));
        lemma_entries_update(s.drop_last(), i, e);
        assert(t.last() == s.last());
        assert(e.who@ != s.last().who@);
    }
}

proof fn lemma_entries_push(s: Seq<Entry>, e: Entry)
    ensures
        commits_of(s.push(e)) =~= commits_of(s).insert(e.who@, e.value@),
        redeemed_of(s.push(e)) =~= (if e.redeemed {
            redeemed_of(s).insert(e.who@)
        } else {
            redeemed_of(s)
        }),
{
    assert(s.push(e).drop_last() =~= s);
    assert(s.push(e).last() == e);
}

/// One commit-reveal game instance: a host publishes the hash of a secret
/// image, players commit to a guess-plus-secret binding, and a player who
/// later reveals a matching guess and secret earns one fixed reward.
pub struct CommitRevealContract {
    started: bool,
    target_hash: Vec<u8>,
    entries: Vec<Entry>,
    reward_token: Vec<u8>,
    reward_amount: u64,
}

impl View for CommitRevealContract {
    type V = GameView;

    closed spec fn view(&self) -> GameView {
        GameView {
            started: self.started,
            target: self.target_hash@,
            commits: commits_of(self.entries@),
            redeemed: redeemed_of(self.entries@),
            reward_token: self.reward_token@,
            reward_amount: self.reward_amount,
        }
    }
}

impl CommitRevealContract {
    /// The representation is well formed: each caller owns at most one entry,
    /// and the abstract invariant holds.
    pub closed spec fn wf(&self) -> bool {
        &&& distinct_keys(self.entries@)
        &&& self.started ==> self.target_hash@.len() == 32
        &&& !self.started ==> self.entries@.len() == 0
        &&& forall|i: int| #![auto]
            0 <= i < self.entries@.len() ==> self.entries@[i].value@.len() == 32
    }

    /// A well-formed game satisfies the abstract invariant.
    pub proof fn lemma_wf_inv(&self)
        requires
            self.wf(),
        ensures
            inv(self@),
    {
        let s = self.entries@;
        if !self.started {
            assert(commits_of(s) =~= Map::<IdentityView, Seq<u8>>::empty());
        }
        assert forall|c: IdentityView| #[trigger]
            commits_of(s).contains_key(c) implies commits_of(s)[c].len() == 32 by {
            lemma_commits_of_contains(s, c);
            let i = choose|i: int| 0 <= i < s.len() && s[i].who@ == c;
            lemma_commits_of_index(s, i);
        }
        assert forall|c: IdentityView| #[trigger]
            redeemed_of(s).contains(c) implies commits_of(s).contains_key(c) by {
            lemma_redeemed_of_contains(s, c);
            lemma_commits_of_contains(s, c);
        }
    }

    /// Creates a fresh, not yet started game that will pay `reward_amount`
    /// units of the token identified by `reward_token`.
    pub fn new(reward_token: Vec<u8>, reward_amount: u64) -> (g: Self)
        ensures
            g.wf(),
            g@ == (GameView {
                started: false,
                target: Seq::<u8>::empty(),
                commits: Map::<IdentityView, Seq<u8>>::empty(),
                redeemed: Set::<IdentityView>::empty(),
                reward_token: reward_token@,
                reward_amount: reward_amount,
            }),
    {
        let g = CommitRevealContract {
            started: false,
            target_hash: Vec::new(),
            entries: Vec::new(),
            reward_token,
            reward_amount,
        };
        proof {
            assert(commits_of(g.entries@) =~= Map::<IdentityView, Seq<u8>>::empty());
            assert(redeemed_of(g.entries@) =~= Set::<IdentityView>::empty());
            assert(g.target_hash@ =~= Seq::<u8>::empty());
        }
        g
    }

    /// Whether `initialize` has run on this instance.
    pub fn started(&self) -> (r: bool)
        ensures
            r == self@.started,
    {
        self.started
    }

    /// The stored target hash; empty until `initialize` has run.
    pub fn target_hash(&self) -> (r: &Vec<u8>)
        ensures
            r@ == self@.target,
    {
        &self.target_hash
    }

    /// The token the reward is paid in.
    pub fn reward_token(&self) -> (r: &Vec<u8>)
        ensures
            r@ == self@.reward_token,
    {
        &self.reward_token
    }

    /// How many token units one reward pays.
    pub fn reward_amount(&self) -> (r: u64)
        ensures
            r == self@.reward_amount,
    {
        self.reward_amount
    }

    /// Stores the 32-byte solution hash and starts the game; fails with
    /// `AlreadyStarted`, changing nothing, if the game already started.
    pub fn initialize(&mut self, hash: Vec<u8>) -> (r: Result<(), Error>)
        requires
            old(self).wf(),
            hash@.len() == 32,
        ensures
            final(self).wf(),
            final(self)@ == spec_initialize(old(self)@, hash@).0,
            r == spec_initialize(old(self)@, hash@).1,
    {
        if self.started {
            return Err(Error::AlreadyStarted);
        }
        self.target_hash = hash;
        self.started = true;
        Ok(())
    }

    /// Finds the entry of `caller`, if there is one.
    fn find(&self, caller: &Identity) -> (r: Option<usize>)
        ensures
            match r {
                Some(i) => i < self.entries@.len() && self.entries@[i as int].who@ == caller@,
                None => forall|j: int|
                    0 <= j < self.entries@.len() ==> self.entries@[j].who@ != caller@,
            },
    {
        let mut i: usize = 0;
        while i < self.entries.len()
            invariant
                i <= self.entries@.len(),
                forall|j: int| 0 <= j < i ==> self.entries@[j].who@ != caller@,
            decreases self.entries@.len() - i,
        {
            if identity_eq(&self.entries[i].who, caller) {
                return Some(i);
            }
            i = i + 1;
        }
        None
    }

    /// Stores `value` as the caller's commitment, overwriting any earlier
    /// one; fails with `NotStarted`, changing nothing, before `initialize`.
    pub fn commit(&mut self, caller: Identity, value: Vec<u8>) -> (r: Result<(), Error>)
        requires
            old(self).wf(),
            value@.len() == 32,
        ensures
            final(self).wf(),
            final(self)@ == spec_commit(old(self)@, caller@, value@).0,
            r == spec_commit(old(self)@, caller@, value@).1,
    {
        if !self.started {
            return Err(Error::NotStarted);
        }
        let found = self.find(&caller);
        match found {
            Some(i) => {
                let was_redeemed = self.entries[i].redeemed;
                let ghost s = self.entries@;
                let e = Entry { who: caller, value, redeemed: was_redeemed };
                proof {
                    lemma_entries_update(s, i as int, e);
                    lemma_redeemed_of_contains(s, e.who@);
                    if e.redeemed {
                        assert(redeemed_of(s).insert(e.who@) =~= redeemed_of(s));
                    } else {
                        assert(redeemed_of(s).remove(e.who@) =~= redeemed_of(s));
                    }
                }
                self.entries[i] = e;
            }
            None => {
                let ghost s = self.entries@;
                let e = Entry { who: caller, value, redeemed: false };
                proof {
                    lemma_entries_push(s, e);
                }
                self.entries.push(e);
            }
        }
        Ok(())
    }

    /// Reveals the caller's guess and secret. Fails with `NoCommit` if the
    /// caller never committed, `AlreadyRedeemed` if the caller was already
    /// paid, `CommitMismatch` if the revealed values do not hash to the
    /// stored commitment under the caller's own identity, and
    /// `WrongSolution` if the guess does not hash to the target; each
    /// failure changes nothing. On success the caller is marked redeemed
    /// and the reward instruction is returned for the host to carry out.
    pub fn check(&mut self, caller: Identity, guess: &Vec<u8>, secret: &Vec<u8>) -> (r: Result<
        Reward,
        Error,
    >)
        requires
            old(self).wf(),
        ensures
            final(self).wf(),
            final(self)@ == spec_check(old(self)@, caller@, guess@, secret@).0,
            match r {
                Ok(rw) => spec_check(old(self)@, caller@, guess@, secret@).1
                    == Ok::<RewardView, Error>(rw@),
                Err(e) => spec_check(old(self)@, caller@, guess@, secret@).1
                    == Err::<RewardView, Error>(e),
            },
    {
        proof {
            lemma_commits_of_contains(self.entries@, caller@);
        }
        let i = match self.find(&caller) {
            None => {
                return Err(Error::NoCommit);
            }
            Some(i) => i,
        };
        proof {
            lemma_commits_of_index(self.entries@, i as int);
            lemma_redeemed_of_contains(self.entries@, caller@);
        }
        if self.entries[i].redeemed {
            return Err(Error::AlreadyRedeemed);
        }
        proof {
            if redeemed_of(self.entries@).contains(caller@) {
                let j = choose|j: int|
                    0 <= j < self.entries@.len() && self.entries@[j].who@ == caller@
                        && self.entries@[j].redeemed;
                assert(self.entries@[j].who@ == self.entries@[i as int].who@);
                assert(j == i as int);
            }
        }
        let actual = commitment(&caller, guess, secret);
        if !bytes_eq(&actual, &self.entries[i].value) {
            return Err(Error::CommitMismatch);
        }
        let sol = sha256(guess);
        if !bytes_eq(&sol, &self.target_hash) {
            return Err(Error::WrongSolution);
        }
        let ghost s = self.entries@;
        let to = duplicate_identity(&caller);
        let value = copy_bytes(&self.entries[i].value);
        let e = Entry { who: caller, value, redeemed: true };
        proof {
            lemma_entries_update(s, i as int, e);
            assert(commits_of(s).insert(e.who@, e.value@) =~= commits_of(s));
        }
        self.entries[i] = e;
        Ok(Reward { to, amount: self.reward_amount })
    }
}

} // verus!
