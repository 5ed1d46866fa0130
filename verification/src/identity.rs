use vstd::prelude::*;

verus! {

/// The caller of a game operation: an account or a contract, carrying the
/// bytes of its platform identifier.
#[derive(Debug, PartialEq, Eq)]
pub enum Identity {
    Account(Vec<u8>),
    Contract(Vec<u8>),
}

/// The mathematical shape of an identity: the variant and the identifier bytes.
pub enum IdentityView {
    Account(Seq<u8>),
    Contract(Seq<u8>),
}

impl View for Identity {
    type V = IdentityView;

    open spec fn view(&self) -> IdentityView {
        match self {
            Identity::Account(p) => IdentityView::Account(p@),
            Identity::Contract(p) => IdentityView::Contract(p@),
        }
    }
}

/// First byte of a serialized account identity.
pub const ACCOUNT_TAG: u8 = 0;

/// First byte of a serialized contract identity.
pub const CONTRACT_TAG: u8 = 1;

/// The canonical byte serialization of an identity: a one-byte variant tag
/// followed by the identifier bytes verbatim.
pub open spec fn spec_serialize(id: IdentityView) -> Seq<u8> {
    match id {
        IdentityView::Account(p) => seq![ACCOUNT_TAG] + p,
        IdentityView::Contract(p) => seq![CONTRACT_TAG] + p,
    }
}

/// Appends the bytes of `src` to `dst`.
pub fn extend_bytes(dst: &mut Vec<u8>, src: &Vec<u8>)
    ensures
        final(dst)@ == old(dst)@ + src@,
{
    let mut i: usize = 0;
    while i < src.len()
        invariant
            i <= src@.len(),
            dst@ == old(dst)@ + src@.subrange(0, i as int),
        decreases src@.len() - i,
    {
        dst.push(src[i]);
        proof {
            assert(src@.subrange(0, i as int).push(src@[i as int])
                =~= src@.subrange(0, i + 1 as int));
        }
        i = i + 1;
    }
    proof {
        assert(src@.subrange(0, src@.len() as int) =~= src@);
    }
}

/// Serializes an identity into its canonical byte form.
pub fn serialize_identity(id: &Identity) -> (r: Vec<u8>)
    ensures
        r@ == spec_serialize(id@),
{
    let mut out: Vec<u8> = Vec::new();
    match id {
        Identity::Account(p) => {
            out.push(ACCOUNT_TAG);
            extend_bytes(&mut out, p);
            proof {
                assert(seq![ACCOUNT_TAG] =~= Seq::<u8>::empty().push(ACCOUNT_TAG));
            }
        }
        Identity::Contract(p) => {
            out.push(CONTRACT_TAG);
            extend_bytes(&mut out, p);
            proof {
                assert(seq![CONTRACT_TAG] =~= Seq::<u8>::empty().push(CONTRACT_TAG));
            }
        }
    }
    out
}

/// Copies a byte string.
pub fn copy_bytes(src: &Vec<u8>) -> (r: Vec<u8>)
    ensures
        r@ == src@,
{
    let mut out: Vec<u8> = Vec::new();
    extend_bytes(&mut out, src);
    proof {
        assert(Seq::<u8>::empty() + src@ =~= src@);
    }
    out
}

/// Copies an identity.
pub fn duplicate_identity(id: &Identity) -> (r: Identity)
    ensures
        r@ == id@,
{
    match id {
        Identity::Account(p) => Identity::Account(copy_bytes(p)),
        Identity::Contract(p) => Identity::Contract(copy_bytes(p)),
    }
}

/// Decides byte-for-byte equality of two byte strings.
pub fn bytes_eq(a: &Vec<u8>, b: &Vec<u8>) -> (r: bool)
    ensures
        r == (a@ == b@),
{
    if a.len() != b.len() {
        return false;
    }
    let mut i: usize = 0;
    while i < a.len()
        invariant
            i <= a@.len(),
            a@.len() == b@.len(),
            forall|j: int| 0 <= j < i ==> a@[j] == b@[j],
        decreases a@.len() - i,
    {
        if a[i] != b[i] {
            return false;
        }
        i = i + 1;
    }
    proof {
        assert(a@ =~= b@);
    }
    true
}

/// Decides whether two identities are the same caller.
pub fn identity_eq(a: &Identity, b: &Identity) -> (r: bool)
    ensures
        r == (a@ == b@),
{
    match (a, b) {
        (Identity::Account(x), Identity::Account(y)) => bytes_eq(x, y),
        (Identity::Contract(x), Identity::Contract(y)) => bytes_eq(x, y),
        _ => false,
    }
}

proof fn lemma_tagged_injective(t: u8, p: Seq<u8>, q: Seq<u8>)
    requires
        p != q,
    ensures
        seq![t] + p != seq![t] + q,
{
    if seq![t] + p == seq![t] + q {
        assert((seq![t] + p).len() == (seq![t] + q).len());
        assert(p.len() == q.len());
        assert forall|j: int| 0 <= j < p.len() implies p[j] == q[j] by {
            assert((seq![t] + p)[j + 1] == p[j]);
            assert((seq![t] + q)[j + 1] == q[j]);
        }
        assert(p =~= q);
    }
}

/// Serialization is injective: distinct identities serialize to distinct
/// byte strings, so no identity can pose as another.
pub proof fn lemma_serialize_injective(a: IdentityView, b: IdentityView)
    requires
        a != b,
    ensures
        spec_serialize(a) != spec_serialize(b),
{
    match (a, b) {
        (IdentityView::Account(p), IdentityView::Account(q)) => {
            lemma_tagged_injective(ACCOUNT_TAG, p, q);
        }
        (IdentityView::Contract(p), IdentityView::Contract(q)) => {
            lemma_tagged_injective(CONTRACT_TAG, p, q);
        }
        (IdentityView::Account(p), IdentityView::Contract(q)) => {
            assert(spec_serialize(a)[0] != spec_serialize(b)[0]);
        }
        (IdentityView::Contract(p), IdentityView::Account(q)) => {
            assert(spec_serialize(a)[0] != spec_serialize(b)[0]);
        }
    }
}

} // verus!
