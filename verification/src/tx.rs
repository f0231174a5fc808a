//! The transaction and identity model: public keys, signatures, the two
//! transaction kinds, and the canonical unsigned form that is signed.

use vstd::prelude::*;

verus! {

/// An identity: the raw bytes of an Ed25519 verifying key.
/// Equality is over the raw bytes; the value is immutable once built.
#[derive(Clone, Debug, PartialEq, Eq, Hash)]
pub struct PublicKey(pub(crate) Vec<u8>);

impl View for PublicKey {
    type V = Seq<u8>;

    closed spec fn view(&self) -> Seq<u8> {
        self.0@
    }
}

impl PublicKey {
    pub fn new(bytes: Vec<u8>) -> (r: Self)
        ensures
            r@ == bytes@,
    {
        PublicKey(bytes)
    }

    pub fn to_bytes(&self) -> (r: Vec<u8>)
        ensures
            r@ == self@,
    {
        clone_bytes(&self.0)
    }

    /// Equality of the raw key bytes.
    pub(crate) fn key_eq(&self, other: &PublicKey) -> (r: bool)
        ensures
            r == (self@ == other@),
    {
        bytes_eq(&self.0, &other.0)
    }

    /// The view is exactly the stored bytes.
    pub(crate) proof fn view_is_bytes(&self)
        ensures
            self@ == self.0@,
    {
    }
}

/// An Ed25519 signature as raw bytes; the empty byte string stands for
/// "no signature yet" in the canonical unsigned form.
#[derive(Clone, Debug, PartialEq, Eq)]
pub struct Signature(pub(crate) Vec<u8>);

impl View for Signature {
    type V = Seq<u8>;

    closed spec fn view(&self) -> Seq<u8> {
        self.0@
    }
}

/// Whether the Ed25519 signature `sig` is accepted for message `msg` under
/// the verifying key encoded by `pk`. Stands for what
/// `ed25519_dalek::VerifyingKey::verify` computes; the result is a function
/// of the three byte strings alone.
pub uninterp spec fn ed25519_accepts(pk: Seq<u8>, msg: Seq<u8>, sig: Seq<u8>) -> bool;

/// A signature check that fails closed: it is met only by a 32-byte key and
/// a 64-byte signature that Ed25519 verification accepts over `msg`.
pub open spec fn sig_check(pk: Seq<u8>, msg: Seq<u8>, sig: Seq<u8>) -> bool {
    &&& pk.len() == 32
    &&& sig.len() == 64
    &&& ed25519_accepts(pk, msg, sig)
}

/// Relies on `ed25519_dalek::VerifyingKey::{from_bytes, verify}`: decodes the
/// 32-byte key, rejecting non-canonical point encodings, and checks the
/// 64-byte signature over `msg`; deterministic in the three byte strings.
#[verifier::external_body]
fn ed25519_verify(pk: &[u8], msg: &[u8], sig: &[u8]) -> (r: bool)
    requires
        pk@.len() == 32,
        sig@.len() == 64,
    ensures
        r == ed25519_accepts(pk@, msg@, sig@),
{
    let pk_bytes: [u8; 32] = match pk.try_into() {
        Ok(b) => b,
        Err(_) => return false,
    };
    let sig_bytes: [u8; 64] = match sig.try_into() {
        Ok(b) => b,
        Err(_) => return false,
    };
    let vk = match ed25519_dalek::VerifyingKey::from_bytes(&pk_bytes) {
        Ok(vk) => vk,
        Err(_) => return false,
    };
    let signature = ed25519_dalek::Signature::from_bytes(&sig_bytes);
    ed25519_dalek::Verifier::verify(&vk, msg, &signature).is_ok()
}

impl Signature {
    pub fn new(bytes: Vec<u8>) -> (r: Self)
        ensures
            r@ == bytes@,
    {
        Signature(bytes)
    }

    pub fn to_bytes(&self) -> (r: Vec<u8>)
        ensures
            r@ == self@,
    {
        clone_bytes(&self.0)
    }

    /// The view is exactly the stored bytes.
    pub(crate) proof fn view_is_bytes(&self)
        ensures
            self@ == self.0@,
    {
    }

    /// Check this signature against a public key and a message. Fails closed:
    /// a key or signature of the wrong length never verifies and never panics.
    pub fn verify(&self, pk: &PublicKey, msg: &[u8]) -> (r: bool)
        ensures
            r == sig_check(pk@, msg@, self@),
    {
        if pk.0.len() != 32 || self.0.len() != 64 {
            return false;
        }
        ed25519_verify(pk.0.as_slice(), msg, self.0.as_slice())
    }
}

/// A request to post `contents` into `channel` as `user`.
#[derive(Clone, Debug, PartialEq, Eq)]
pub struct SendMessage {
    pub user: PublicKey,
    pub contents: String,
    pub channel: String,
    pub signature: Signature,
}

/// A claim of the human-readable name `id` for `user`.
#[derive(Clone, Debug, PartialEq, Eq)]
pub struct Register {
    pub user: PublicKey,
    pub id: String,
    pub signature: Signature,
}

/// A transaction: one of the two request kinds, carrying its signature.
#[derive(Clone, Debug, PartialEq, Eq)]
pub enum Transaction {
    SendMessage(SendMessage),
    Register(Register),
}

/// The mathematical value of a transaction: its fields as plain sequences.
pub enum TxV {
    SendMessage { user: Seq<u8>, contents: Seq<char>, channel: Seq<char>, signature: Seq<u8> },
    Register { user: Seq<u8>, id: Seq<char>, signature: Seq<u8> },
}

impl TxV {
    /// The signer's key bytes.
    pub open spec fn user(self) -> Seq<u8> {
        match self {
            TxV::SendMessage { user, .. } => user,
            TxV::Register { user, .. } => user,
        }
    }

    /// The signature bytes.
    pub open spec fn sig(self) -> Seq<u8> {
        match self {
            TxV::SendMessage { signature, .. } => signature,
            TxV::Register { signature, .. } => signature,
        }
    }

    /// The channel a `SendMessage` posts into; the empty name otherwise.
    pub open spec fn channel(self) -> Seq<char> {
        match self {
            TxV::SendMessage { channel, .. } => channel,
            TxV::Register { .. } => Seq::empty(),
        }
    }

    /// The text a `SendMessage` posts; the empty text otherwise.
    pub open spec fn contents(self) -> Seq<char> {
        match self {
            TxV::SendMessage { contents, .. } => contents,
            TxV::Register { .. } => Seq::empty(),
        }
    }

    /// The display name a `Register` claims; the empty name otherwise.
    pub open spec fn id(self) -> Seq<char> {
        match self {
            TxV::SendMessage { .. } => Seq::empty(),
            TxV::Register { id, .. } => id,
        }
    }

    /// The canonical unsigned form: the same transaction with its signature
    /// field cleared. This is the form that is serialized and signed.
    pub open spec fn canonical(self) -> TxV {
        match self {
            TxV::SendMessage { user, contents, channel, .. } => TxV::SendMessage {
                user,
                contents,
                channel,
                signature: Seq::empty(),
            },
            TxV::Register { user, id, .. } => TxV::Register {
                user,
                id,
                signature: Seq::empty(),
            },
        }
    }
}

impl View for Transaction {
    type V = TxV;

    open spec fn view(&self) -> TxV {
        match self {
            Transaction::SendMessage(m) => TxV::SendMessage {
                user: m.user@,
                contents: m.contents@,
                channel: m.channel@,
                signature: m.signature@,
            },
            Transaction::Register(r) => TxV::Register {
                user: r.user@,
                id: r.id@,
                signature: r.signature@,
            },
        }
    }
}

impl DeepView for Transaction {
    type V = TxV;

    open spec fn deep_view(&self) -> TxV {
        self@
    }
}

impl Transaction {
    /// The transaction's signature, by copy.
    pub fn signature(&self) -> (r: Signature)
        ensures
            r@ == self@.sig(),
    {
        match self {
            Transaction::SendMessage(m) => Signature(clone_bytes(&m.signature.0)),
            Transaction::Register(r) => Signature(clone_bytes(&r.signature.0)),
        }
    }

    /// The signer's public key, by copy.
    pub fn pubkey(&self) -> (r: PublicKey)
        ensures
            r@ == self@.user(),
    {
        match self {
            Transaction::SendMessage(m) => PublicKey(clone_bytes(&m.user.0)),
            Transaction::Register(r) => PublicKey(clone_bytes(&r.user.0)),
        }
    }

    /// The canonical unsigned form of this transaction: the signature field
    /// is cleared, every other field is kept. Both signing and verification
    /// serialize this form.
    pub fn without_signature(&self) -> (r: Transaction)
        ensures
            r@ == self@.canonical(),
    {
        match self {
            Transaction::SendMessage(m) => Transaction::SendMessage(SendMessage {
                user: PublicKey(clone_bytes(&m.user.0)),
                contents: m.contents.clone(),
                channel: m.channel.clone(),
                signature: Signature(Vec::new()),
            }),
            Transaction::Register(r) => Transaction::Register(Register {
                user: PublicKey(clone_bytes(&r.user.0)),
                id: r.id.clone(),
                signature: Signature(Vec::new()),
            }),
        }
    }
}

/// Byte-for-byte copy of a byte vector.
pub(crate) fn clone_bytes(v: &Vec<u8>) -> (r: Vec<u8>)
    ensures
        r@ == v@,
{
    let mut r: Vec<u8> = Vec::new();
    let mut i: usize = 0;
    while i < v.len()
        invariant
            i <= v.len(),
            r@ == v@.subrange(0, i as int),
        decreases v.len() - i,
    {
        r.push(v[i]);
        i = i + 1;
        assert(r@ == v@.subrange(0, i as int));
    }
    assert(v@.subrange(0, v@.len() as int) == v@);
    r
}

/// Byte-for-byte equality of two byte vectors.
pub(crate) fn bytes_eq(a: &Vec<u8>, b: &Vec<u8>) -> (r: bool)
    ensures
        r == (a@ == b@),
{
    if a.len() != b.len() {
        assert(a@ != b@) by {
            assert(a@.len() != b@.len());
        }
        return false;
    }
    let mut i: usize = 0;
    while i < a.len()
        invariant
            i <= a.len(),
            a@.len() == b@.len(),
            forall|j: int| 0 <= j < i ==> a@[j] == b@[j],
        decreases a.len() - i,
    {
        if a[i] != b[i] {
            return false;
        }
        i = i + 1;
    }
    assert(a@ =~= b@);
    true
}

} // verus!
