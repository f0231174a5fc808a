//! The deterministic, length-framed wire encoding of transactions and
//! batches, and signature verification over the canonical encoded form.
//!
//! A transaction is a little-endian `u32` variant tag (`SendMessage` 0,
//! `Register` 1) followed by its fields in declared order; each byte-string
//! or UTF-8 string field is framed by a little-endian `u64` byte length. A
//! batch is a little-endian `u64` count followed by the encoded
//! transactions. A published blob decodes as a batch or, failing that, as a
//! single bare transaction; anything else is not ours and is skipped.

use vstd::prelude::*;
use vstd::string::StrSliceExecFns;
use vstd::utf8::{decode_utf8, encode_utf8, encode_utf8_decode_utf8, encode_utf8_valid_utf8,
    valid_utf8};

use crate::tx::{sig_check, PublicKey, Register, SendMessage, Signature, Transaction, TxV};

verus! {

/// The four little-endian bytes of a `u32`.
pub open spec fn u32_le(x: u32) -> Seq<u8> {
    seq![
        (x & 0xff) as u8,
        ((x >> 8) & 0xff) as u8,
        ((x >> 16) & 0xff) as u8,
        ((x >> 24) & 0xff) as u8,
    ]
}

/// The `u32` read from four little-endian bytes.
pub open spec fn le_u32(s: Seq<u8>) -> u32
    recommends
        s.len() == 4,
{
    (s[0] as u32) | ((s[1] as u32) << 8) | ((s[2] as u32) << 16) | ((s[3] as u32) << 24)
}

/// The eight little-endian bytes of a `u64`.
pub open spec fn u64_le(x: u64) -> Seq<u8> {
    seq![
        (x & 0xff) as u8,
        ((x >> 8) & 0xff) as u8,
        ((x >> 16) & 0xff) as u8,
        ((x >> 24) & 0xff) as u8,
        ((x >> 32) & 0xff) as u8,
        ((x >> 40) & 0xff) as u8,
        ((x >> 48) & 0xff) as u8,
        ((x >> 56) & 0xff) as u8,
    ]
}

/// The `u64` read from eight little-endian bytes.
pub open spec fn le_u64(s: Seq<u8>) -> u64
    recommends
        s.len() == 8,
{
    (s[0] as u64) | ((s[1] as u64) << 8) | ((s[2] as u64) << 16) | ((s[3] as u64) << 24) | ((
    s[4] as u64) << 32) | ((s[5] as u64) << 40) | ((s[6] as u64) << 48) | ((s[7] as u64) << 56)
}

proof fn lemma_le_u32_roundtrip(x: u32)
    ensures
        le_u32(u32_le(x)) == x,
{
    let b0 = (x & 0xff) as u8;
    let b1 = ((x >> 8) & 0xff) as u8;
    let b2 = ((x >> 16) & 0xff) as u8;
    let b3 = ((x >> 24) & 0xff) as u8;
    assert((b0 as u32) | ((b1 as u32) << 8) | ((b2 as u32) << 16) | ((b3 as u32) << 24) == x)
        by (bit_vector)
        requires
            b0 == (x & 0xff) as u8,
            b1 == ((x >> 8) & 0xff) as u8,
            b2 == ((x >> 16) & 0xff) as u8,
            b3 == ((x >> 24) & 0xff) as u8,
    ;
}

proof fn lemma_le_u64_roundtrip(x: u64)
    ensures
        le_u64(u64_le(x)) == x,
{
    let b0 = (x & 0xff) as u8;
    let b1 = ((x >> 8) & 0xff) as u8;
    let b2 = ((x >> 16) & 0xff) as u8;
    let b3 = ((x >> 24) & 0xff) as u8;
    let b4 = ((x >> 32) & 0xff) as u8;
    let b5 = ((x >> 40) & 0xff) as u8;
    let b6 = ((x >> 48) & 0xff) as u8;
    let b7 = ((x >> 56) & 0xff) as u8;
    assert((b0 as u64) | ((b1 as u64) << 8) | ((b2 as u64) << 16) | ((b3 as u64) << 24) | ((
    b4 as u64) << 32) | ((b5 as u64) << 40) | ((b6 as u64) << 48) | ((b7 as u64) << 56) == x)
        by (bit_vector)
        requires
            b0 == (x & 0xff) as u8,
            b1 == ((x >> 8) & 0xff) as u8,
            b2 == ((x >> 16) & 0xff) as u8,
            b3 == ((x >> 24) & 0xff) as u8,
            b4 == ((x >> 32) & 0xff) as u8,
            b5 == ((x >> 40) & 0xff) as u8,
            b6 == ((x >> 48) & 0xff) as u8,
            b7 == ((x >> 56) & 0xff) as u8,
    ;
}

/// A length-framed byte string: its little-endian `u64` length, then the
/// bytes themselves.
pub open spec fn spec_encode_bytes(b: Seq<u8>) -> Seq<u8> {
    u64_le(b.len() as u64) + b
}

/// A length-framed string: its UTF-8 bytes, framed by their byte length.
pub open spec fn spec_encode_str(s: Seq<char>) -> Seq<u8> {
    spec_encode_bytes(encode_utf8(s))
}

/// The wire encoding of one transaction.
pub open spec fn spec_encode_tx(t: TxV) -> Seq<u8> {
    match t {
        TxV::SendMessage { user, contents, channel, signature } => u32_le(0) + spec_encode_bytes(
            user,
        ) + spec_encode_str(contents) + spec_encode_str(channel) + spec_encode_bytes(signature),
        TxV::Register { user, id, signature } => u32_le(1) + spec_encode_bytes(user)
            + spec_encode_str(id) + spec_encode_bytes(signature),
    }
}

/// The concatenated encodings of a sequence of transactions.
pub open spec fn spec_encode_txs(ts: Seq<TxV>) -> Seq<u8>
    decreases ts.len(),
{
    if ts.len() == 0 {
        Seq::empty()
    } else {
        spec_encode_tx(ts[0]) + spec_encode_txs(ts.drop_first())
    }
}

/// The wire encoding of a batch: the count, then the transactions in order.
pub open spec fn spec_encode_batch(ts: Seq<TxV>) -> Seq<u8> {
    u64_le(ts.len() as u64) + spec_encode_txs(ts)
}

/// Parse a little-endian `u32`, returning it and the remaining bytes.
pub open spec fn parse_u32(b: Seq<u8>) -> Option<(u32, Seq<u8>)> {
    if b.len() >= 4 {
        Some((le_u32(b.take(4)), b.skip(4)))
    } else {
        None
    }
}

/// Parse a little-endian `u64`, returning it and the remaining bytes.
pub open spec fn parse_u64(b: Seq<u8>) -> Option<(u64, Seq<u8>)> {
    if b.len() >= 8 {
        Some((le_u64(b.take(8)), b.skip(8)))
    } else {
        None
    }
}

/// Parse a length-framed byte string.
pub open spec fn parse_bytes(b: Seq<u8>) -> Option<(Seq<u8>, Seq<u8>)> {
    match parse_u64(b) {
        Some((n, rest)) => if n <= rest.len() {
            Some((rest.take(n as int), rest.skip(n as int)))
        } else {
            None
        },
        None => None,
    }
}

/// Parse a length-framed string; the framed bytes must be valid UTF-8.
pub open spec fn parse_str(b: Seq<u8>) -> Option<(Seq<char>, Seq<u8>)> {
    match parse_bytes(b) {
        Some((bytes, rest)) => if valid_utf8(bytes) {
            Some((decode_utf8(bytes), rest))
        } else {
            None
        },
        None => None,
    }
}

/// Parse one transaction: the variant tag, then its fields in order.
pub open spec fn parse_tx(b: Seq<u8>) -> Option<(TxV, Seq<u8>)> {
    match parse_u32(b) {
        Some((tag, r0)) => if tag == 0 {
            match parse_bytes(r0) {
                Some((user, r1)) => match parse_str(r1) {
                    Some((contents, r2)) => match parse_str(r2) {
                        Some((channel, r3)) => match parse_bytes(r3) {
                            Some((signature, r4)) => Some(
                                (TxV::SendMessage { user, contents, channel, signature }, r4),
                            ),
                            None => None,
                        },
                        None => None,
                    },
                    None => None,
                },
                None => None,
            }
        } else if tag == 1 {
            match parse_bytes(r0) {
                Some((user, r1)) => match parse_str(r1) {
                    Some((id, r2)) => match parse_bytes(r2) {
                        Some((signature, r3)) => Some((TxV::Register { user, id, signature }, r3)),
                        None => None,
                    },
                    None => None,
                },
                None => None,
            }
        } else {
            None
        },
        None => None,
    }
}

/// Parse exactly `n` transactions in sequence.
pub open spec fn parse_txs(b: Seq<u8>, n: nat) -> Option<(Seq<TxV>, Seq<u8>)>
    decreases n,
{
    if n == 0 {
        Some((Seq::empty(), b))
    } else {
        match parse_tx(b) {
            Some((t, rest)) => match parse_txs(rest, (n - 1) as nat) {
                Some((ts, rest2)) => Some((seq![t] + ts, rest2)),
                None => None,
            },
            None => None,
        }
    }
}

/// Decode a payload as exactly one transaction, consuming every byte.
pub open spec fn spec_decode_tx(b: Seq<u8>) -> Option<TxV> {
    match parse_tx(b) {
        Some((t, rest)) => if rest.len() == 0 {
            Some(t)
        } else {
            None
        },
        None => None,
    }
}

/// Decode a payload as a batch, consuming every byte.
pub open spec fn spec_decode_batch(b: Seq<u8>) -> Option<Seq<TxV>> {
    match parse_u64(b) {
        Some((n, rest)) => match parse_txs(rest, n as nat) {
            Some((ts, rest2)) => if rest2.len() == 0 {
                Some(ts)
            } else {
                None
            },
            None => None,
        },
        None => None,
    }
}

/// Decode a published blob: as a batch, or failing that as a single bare
/// transaction wrapped into a one-element batch. Anything else is foreign
/// data and yields nothing.
pub open spec fn spec_decode_blob(b: Seq<u8>) -> Option<Seq<TxV>> {
    match spec_decode_batch(b) {
        Some(ts) => Some(ts),
        None => match spec_decode_tx(b) {
            Some(t) => Some(seq![t]),
            None => None,
        },
    }
}

/// Whether a transaction carries a valid signature: the embedded key must
/// accept the signature over the encoded canonical (unsigned) form.
pub open spec fn tx_sig_ok(t: TxV) -> bool {
    sig_check(t.user(), spec_encode_tx(t.canonical()), t.sig())
}

fn push_u32_le(out: &mut Vec<u8>, x: u32)
    ensures
        final(out)@ == old(out)@ + u32_le(x),
{
    assert(x & 0xff < 256 && (x >> 8) & 0xff < 256 && (x >> 16) & 0xff < 256 && (x >> 24) & 0xff
        < 256) by (bit_vector);
    out.push((x & 0xff) as u8);
    out.push(((x >> 8) & 0xff) as u8);
    out.push(((x >> 16) & 0xff) as u8);
    out.push(((x >> 24) & 0xff) as u8);
    assert(out@ =~= old(out)@ + u32_le(x));
}

fn push_u64_le(out: &mut Vec<u8>, x: u64)
    ensures
        final(out)@ == old(out)@ + u64_le(x),
{
    assert(x & 0xff < 256 && (x >> 8) & 0xff < 256 && (x >> 16) & 0xff < 256 && (x >> 24) & 0xff
        < 256 && (x >> 32) & 0xff < 256 && (x >> 40) & 0xff < 256 && (x >> 48) & 0xff < 256 && (x
        >> 56) & 0xff < 256) by (bit_vector);
    out.push((x & 0xff) as u8);
    out.push(((x >> 8) & 0xff) as u8);
    out.push(((x >> 16) & 0xff) as u8);
    out.push(((x >> 24) & 0xff) as u8);
    out.push(((x >> 32) & 0xff) as u8);
    out.push(((x >> 40) & 0xff) as u8);
    out.push(((x >> 48) & 0xff) as u8);
    out.push(((x >> 56) & 0xff) as u8);
    assert(out@ =~= old(out)@ + u64_le(x));
}

fn push_bytes(out: &mut Vec<u8>, b: &Vec<u8>)
    ensures
        final(out)@ == old(out)@ + spec_encode_bytes(b@),
{
    push_u64_le(out, b.len() as u64);
    let ghost mid = out@;
    let mut i: usize = 0;
    while i < b.len()
        invariant
            i <= b@.len(),
            out@ == mid + b@.take(i as int),
        decreases b@.len() - i,
    {
        out.push(b[i]);
        proof {
            assert(b@.take(i + 1) =~= b@.take(i as int).push(b@[i as int]));
        }
        i = i + 1;
    }
    proof {
        assert(b@.take(b@.len() as int) =~= b@);
        assert(out@ =~= old(out)@ + spec_encode_bytes(b@));
    }
}

fn push_str(out: &mut Vec<u8>, s: &String)
    ensures
        final(out)@ == old(out)@ + spec_encode_str(s@),
{
    let bytes = s.as_str().as_bytes_vec();
    push_bytes(out, &bytes);
}

fn read_u32_le(b: &Vec<u8>, pos: usize) -> (r: Option<(u32, usize)>)
    requires
        pos <= b@.len(),
    ensures
        match r {
            Some(v) => pos + 4 <= b@.len() && v.1 == pos + 4 && parse_u32(b@.skip(pos as int))
                == Some((v.0, b@.skip(v.1 as int))),
            None => parse_u32(b@.skip(pos as int)) is None,
        },
{
    if b.len() - pos < 4 {
        return None;
    }
    let x = (b[pos] as u32) | ((b[pos + 1] as u32) << 8) | ((b[pos + 2] as u32) << 16) | ((b[pos
        + 3] as u32) << 24);
    proof {
        let s = b@.skip(pos as int);
        assert(s.take(4)[0] == b@[pos as int]);
        assert(s.take(4)[1] == b@[pos as int + 1]);
        assert(s.take(4)[2] == b@[pos as int + 2]);
        assert(s.take(4)[3] == b@[pos as int + 3]);
        assert(s.skip(4) =~= b@.skip(pos as int + 4));
    }
    Some((x, pos + 4))
}

fn read_u64_le(b: &Vec<u8>, pos: usize) -> (r: Option<(u64, usize)>)
    requires
        pos <= b@.len(),
    ensures
        match r {
            Some(v) => pos + 8 <= b@.len() && v.1 == pos + 8 && parse_u64(b@.skip(pos as int))
                == Some((v.0, b@.skip(v.1 as int))),
            None => parse_u64(b@.skip(pos as int)) is None,
        },
{
    if b.len() - pos < 8 {
        return None;
    }
    let x = (b[pos] as u64) | ((b[pos + 1] as u64) << 8) | ((b[pos + 2] as u64) << 16) | ((b[pos
        + 3] as u64) << 24) | ((b[pos + 4] as u64) << 32) | ((b[pos + 5] as u64) << 40) | ((b[pos
        + 6] as u64) << 48) | ((b[pos + 7] as u64) << 56);
    proof {
        let s = b@.skip(pos as int);
        assert(s.take(8)[0] == b@[pos as int]);
        assert(s.take(8)[1] == b@[pos as int + 1]);
        assert(s.take(8)[2] == b@[pos as int + 2]);
        assert(s.take(8)[3] == b@[pos as int + 3]);
        assert(s.take(8)[4] == b@[pos as int + 4]);
        assert(s.take(8)[5] == b@[pos as int + 5]);
        assert(s.take(8)[6] == b@[pos as int + 6]);
        assert(s.take(8)[7] == b@[pos as int + 7]);
        assert(s.skip(8) =~= b@.skip(pos as int + 8));
    }
    Some((x, pos + 8))
}

fn read_bytes(b: &Vec<u8>, pos: usize) -> (r: Option<(Vec<u8>, usize)>)
    requires
        pos <= b@.len(),
    ensures
        match r {
            Some(v) => pos <= v.1 <= b@.len() && parse_bytes(b@.skip(pos as int)) == Some(
                (v.0@, b@.skip(v.1 as int)),
            ),
            None => parse_bytes(b@.skip(pos as int)) is None,
        },
{
    let (n, p1) = match read_u64_le(b, pos) {
        Some(v) => v,
        None => {
            return None;
        },
    };
    let rem = b.len() - p1;
    if n > rem as u64 {
        proof {
            assert(b@.skip(p1 as int).len() == rem);
        }
        return None;
    }
    let n_us = n as usize;
    let end = p1 + n_us;
    let mut v: Vec<u8> = Vec::new();
    let mut j: usize = p1;
    while j < end
        invariant
            p1 <= j <= end,
            end == p1 + n_us,
            end <= b@.len(),
            v@ == b@.subrange(p1 as int, j as int),
        decreases end - j,
    {
        v.push(b[j]);
        proof {
            assert(b@.subrange(p1 as int, j as int + 1) =~= b@.subrange(
                p1 as int,
                j as int,
            ).push(b@[j as int]));
        }
        j = j + 1;
    }
    proof {
        let rest0 = b@.skip(p1 as int);
        assert(v@ =~= rest0.take(n as int));
        assert(rest0.skip(n as int) =~= b@.skip(p1 as int + n as int));
    }
    Some((v, p1 + n_us))
}

/// Relies on `String::from_utf8`: it succeeds exactly on valid UTF-8 input
/// and returns the string whose UTF-8 encoding is that input.
#[verifier::external_body]
fn string_from_utf8(bytes: Vec<u8>) -> (r: Option<String>)
    ensures
        r is Some <==> valid_utf8(bytes@),
        r matches Some(s) ==> encode_utf8(s@) == bytes@,
{
    String::from_utf8(bytes).ok()
}

fn read_str(b: &Vec<u8>, pos: usize) -> (r: Option<(String, usize)>)
    requires
        pos <= b@.len(),
    ensures
        match r {
            Some(v) => pos <= v.1 <= b@.len() && parse_str(b@.skip(pos as int)) == Some(
                (v.0@, b@.skip(v.1 as int)),
            ),
            None => parse_str(b@.skip(pos as int)) is None,
        },
{
    let (bytes, p1) = match read_bytes(b, pos) {
        Some(v) => v,
        None => {
            return None;
        },
    };
    let ghost bytesv = bytes@;
    match string_from_utf8(bytes) {
        Some(s) => {
            proof {
                encode_utf8_decode_utf8(s@);
            }
            Some((s, p1))
        },
        None => None,
    }
}

fn read_tx(b: &Vec<u8>, pos: usize) -> (r: Option<(Transaction, usize)>)
    requires
        pos <= b@.len(),
    ensures
        match r {
            Some(v) => pos <= v.1 <= b@.len() && parse_tx(b@.skip(pos as int)) == Some(
                (v.0@, b@.skip(v.1 as int)),
            ),
            None => parse_tx(b@.skip(pos as int)) is None,
        },
{
    let (tag, p0) = match read_u32_le(b, pos) {
        Some(v) => v,
        None => {
            return None;
        },
    };
    if tag == 0 {
        let (user, p1) = match read_bytes(b, p0) {
            Some(v) => v,
            None => {
                return None;
            },
        };
        let (contents, p2) = match read_str(b, p1) {
            Some(v) => v,
            None => {
                return None;
            },
        };
        let (channel, p3) = match read_str(b, p2) {
            Some(v) => v,
            None => {
                return None;
            },
        };
        let (signature, p4) = match read_bytes(b, p3) {
            Some(v) => v,
            None => {
                return None;
            },
        };
        let t = Transaction::SendMessage(SendMessage {
            user: PublicKey::new(user),
            contents,
            channel,
            signature: Signature::new(signature),
        });
        Some((t, p4))
    } else if tag == 1 {
        let (user, p1) = match read_bytes(b, p0) {
            Some(v) => v,
            None => {
                return None;
            },
        };
        let (id, p2) = match read_str(b, p1) {
            Some(v) => v,
            None => {
                return None;
            },
        };
        let (signature, p3) = match read_bytes(b, p2) {
            Some(v) => v,
            None => {
                return None;
            },
        };
        let t = Transaction::Register(Register {
            user: PublicKey::new(user),
            id,
            signature: Signature::new(signature),
        });
        Some((t, p3))
    } else {
        None
    }
}

impl Transaction {
    /// The wire encoding of this transaction.
    pub fn encode(&self) -> (r: Vec<u8>)
        ensures
            r@ == spec_encode_tx(self@),
    {
        let mut out: Vec<u8> = Vec::new();
        match self {
            Transaction::SendMessage(m) => {
                proof {
                    m.user.view_is_bytes();
                    m.signature.view_is_bytes();
                }
                push_u32_le(&mut out, 0);
                push_bytes(&mut out, &m.user.0);
                push_str(&mut out, &m.contents);
                push_str(&mut out, &m.channel);
                push_bytes(&mut out, &m.signature.0);
            },
            Transaction::Register(reg) => {
                proof {
                    reg.user.view_is_bytes();
                    reg.signature.view_is_bytes();
                }
                push_u32_le(&mut out, 1);
                push_bytes(&mut out, &reg.user.0);
                push_str(&mut out, &reg.id);
                push_bytes(&mut out, &reg.signature.0);
            },
        }
        out
    }

    /// Decode one transaction, requiring the payload be consumed exactly.
    pub fn decode(bytes: &Vec<u8>) -> (r: Option<Transaction>)
        ensures
            match r {
                Some(t) => spec_decode_tx(bytes@) == Some(t@),
                None => spec_decode_tx(bytes@) is None,
            },
    {
        proof {
            assert(bytes@.skip(0) =~= bytes@);
        }
        match read_tx(bytes, 0) {
            Some((t, p)) => if p == bytes.len() {
                proof {
                    assert(bytes@.skip(p as int).len() == 0);
                }
                Some(t)
            } else {
                proof {
                    assert(bytes@.skip(p as int).len() != 0);
                }
                None
            },
            None => None,
        }
    }

    /// Whether this transaction's signature is valid: the embedded key must
    /// accept the signature over the encoded canonical (unsigned) form.
    /// Fails closed on malformed key or signature lengths.
    pub fn verify(&self) -> (r: bool)
        ensures
            r == tx_sig_ok(self@),
    {
        let canonical = self.without_signature();
        let msg = canonical.encode();
        match self {
            Transaction::SendMessage(m) => m.signature.verify(&m.user, msg.as_slice()),
            Transaction::Register(reg) => reg.signature.verify(&reg.user, msg.as_slice()),
        }
    }
}

/// An ordered group of transactions serialized into one published blob.
pub struct Batch(Vec<Transaction>);

impl View for Batch {
    type V = Seq<TxV>;

    closed spec fn view(&self) -> Seq<TxV> {
        self.0.deep_view()
    }
}

impl Batch {
    /// A batch of the given transactions, in order.
    pub fn new(txs: Vec<Transaction>) -> (r: Batch)
        ensures
            r@ == txs.deep_view(),
    {
        Batch(txs)
    }

    /// The transactions of this batch, in order.
    pub fn transactions(&self) -> (r: &Vec<Transaction>)
        ensures
            r.deep_view() == self@,
    {
        &self.0
    }

    /// The transactions of this batch, in order, by move.
    pub fn into_transactions(self) -> (r: Vec<Transaction>)
        ensures
            r.deep_view() == self@,
    {
        self.0
    }

    /// The wire encoding of this batch.
    pub fn encode(&self) -> (r: Vec<u8>)
        ensures
            r@ == spec_encode_batch(self@),
    {
        let mut out: Vec<u8> = Vec::new();
        push_u64_le(&mut out, self.0.len() as u64);
        let mut i: usize = 0;
        while i < self.0.len()
            invariant
                i <= self.0@.len(),
                out@ == u64_le(self.0@.len() as u64) + spec_encode_txs(
                    self.0.deep_view().take(i as int),
                ),
            decreases self.0@.len() - i,
        {
            let mut enc = self.0[i].encode();
            out.append(&mut enc);
            proof {
                let dv = self.0.deep_view();
                assert(dv.take(i + 1) =~= dv.take(i as int).push(dv[i as int]));
                lemma_encode_txs_push(dv.take(i as int), dv[i as int]);
            }
            i = i + 1;
        }
        proof {
            assert(self.0.deep_view().take(self.0@.len() as int) =~= self.0.deep_view());
        }
        out
    }

    /// Decode a payload as a batch, requiring it be consumed exactly.
    pub fn decode(bytes: &Vec<u8>) -> (r: Option<Batch>)
        ensures
            match r {
                Some(batch) => spec_decode_batch(bytes@) == Some(batch@),
                None => spec_decode_batch(bytes@) is None,
            },
    {
        proof {
            assert(bytes@.skip(0) =~= bytes@);
        }
        let (n, start) = match read_u64_le(bytes, 0) {
            Some(v) => v,
            None => {
                return None;
            },
        };
        let mut txs: Vec<Transaction> = Vec::new();
        let mut pos: usize = start;
        let mut count: u64 = 0;
        while count < n
            invariant
                pos <= bytes@.len(),
                count <= n,
                parse_u64(bytes@) == Some((n, bytes@.skip(start as int))),
                match parse_txs(bytes@.skip(pos as int), (n - count) as nat) {
                    Some(v) => parse_txs(bytes@.skip(start as int), n as nat) == Some(
                        (txs.deep_view() + v.0, v.1),
                    ),
                    None => parse_txs(bytes@.skip(start as int), n as nat) is None,
                },
            decreases n - count,
        {
            match read_tx(bytes, pos) {
                Some((t, p2)) => {
                    let ghost tv = t@;
                    let ghost txs_old = txs.deep_view();
                    txs.push(t);
                    proof {
                        assert(txs.deep_view() =~= txs_old.push(tv));
                        let k = (n - count) as nat;
                        match parse_txs(bytes@.skip(p2 as int), (k - 1) as nat) {
                            Some(v) => {
                                assert(parse_txs(bytes@.skip(pos as int), k) == Some(
                                    ((seq![tv] + v.0), v.1),
                                ));
                                assert(txs_old + (seq![tv] + v.0) =~= txs_old.push(tv) + v.0);
                            },
                            None => {},
                        }
                    }
                    pos = p2;
                    count = count + 1;
                },
                None => {
                    proof {
                        assert((n - count) as nat != 0);
                        assert(parse_txs(bytes@.skip(pos as int), (n - count) as nat) is None);
                    }
                    return None;
                },
            }
        }
        proof {
            assert(parse_txs(bytes@.skip(pos as int), (n - count) as nat) == Some(
                (Seq::<TxV>::empty(), bytes@.skip(pos as int)),
            ));
            assert(txs.deep_view() + Seq::<TxV>::empty() =~= txs.deep_view());
        }
        if pos == bytes.len() {
            proof {
                assert(bytes@.skip(pos as int).len() == 0);
            }
            Some(Batch(txs))
        } else {
            proof {
                assert(bytes@.skip(pos as int).len() != 0);
            }
            None
        }
    }

    /// Decode a published blob: as a batch, or failing that as a single
    /// bare transaction wrapped into a one-element batch.
    pub fn from_blob(bytes: &Vec<u8>) -> (r: Option<Batch>)
        ensures
            match r {
                Some(batch) => spec_decode_blob(bytes@) == Some(batch@),
                None => spec_decode_blob(bytes@) is None,
            },
    {
        match Batch::decode(bytes) {
            Some(batch) => Some(batch),
            None => match Transaction::decode(bytes) {
                Some(t) => {
                    let ghost tv = t@;
                    let mut txs: Vec<Transaction> = Vec::new();
                    txs.push(t);
                    proof {
                        assert(txs.deep_view() =~= seq![tv]);
                    }
                    Some(Batch(txs))
                },
                None => None,
            },
        }
    }
}

/// Bounds under which a transaction is encodable: every field fits its
/// 64-bit length frame. Every transaction built from in-memory values
/// satisfies them.
pub open spec fn tx_bounded(t: TxV) -> bool {
    match t {
        TxV::SendMessage { user, contents, channel, signature } => user.len() <= u64::MAX
            && encode_utf8(contents).len() <= u64::MAX && encode_utf8(channel).len() <= u64::MAX
            && signature.len() <= u64::MAX,
        TxV::Register { user, id, signature } => user.len() <= u64::MAX && encode_utf8(id).len()
            <= u64::MAX && signature.len() <= u64::MAX,
    }
}

proof fn lemma_parse_u32_encode(x: u32, rest: Seq<u8>)
    ensures
        parse_u32(u32_le(x) + rest) == Some((x, rest)),
{
    let b = u32_le(x) + rest;
    assert(b.take(4) =~= u32_le(x));
    assert(b.skip(4) =~= rest);
    lemma_le_u32_roundtrip(x);
}

proof fn lemma_parse_u64_encode(x: u64, rest: Seq<u8>)
    ensures
        parse_u64(u64_le(x) + rest) == Some((x, rest)),
{
    let b = u64_le(x) + rest;
    assert(b.take(8) =~= u64_le(x));
    assert(b.skip(8) =~= rest);
    lemma_le_u64_roundtrip(x);
}

proof fn lemma_parse_bytes_encode(v: Seq<u8>, rest: Seq<u8>)
    requires
        v.len() <= u64::MAX,
    ensures
        parse_bytes(spec_encode_bytes(v) + rest) == Some((v, rest)),
{
    let b = spec_encode_bytes(v) + rest;
    assert(b =~= u64_le(v.len() as u64) + (v + rest));
    lemma_parse_u64_encode(v.len() as u64, v + rest);
    assert((v + rest).take(v.len() as int) =~= v);
    assert((v + rest).skip(v.len() as int) =~= rest);
}

proof fn lemma_parse_str_encode(s: Seq<char>, rest: Seq<u8>)
    requires
        encode_utf8(s).len() <= u64::MAX,
    ensures
        parse_str(spec_encode_str(s) + rest) == Some((s, rest)),
{
    lemma_parse_bytes_encode(encode_utf8(s), rest);
    encode_utf8_valid_utf8(s);
    encode_utf8_decode_utf8(s);
}

proof fn lemma_parse_tx_encode(t: TxV, rest: Seq<u8>)
    requires
        tx_bounded(t),
    ensures
        parse_tx(spec_encode_tx(t) + rest) == Some((t, rest)),
{
    match t {
        TxV::SendMessage { user, contents, channel, signature } => {
            let e1 = spec_encode_bytes(user);
            let e2 = spec_encode_str(contents);
            let e3 = spec_encode_str(channel);
            let e4 = spec_encode_bytes(signature);
            let b = spec_encode_tx(t) + rest;
            assert(b =~= u32_le(0) + (e1 + (e2 + (e3 + (e4 + rest)))));
            lemma_parse_u32_encode(0, e1 + (e2 + (e3 + (e4 + rest))));
            lemma_parse_bytes_encode(user, e2 + (e3 + (e4 + rest)));
            lemma_parse_str_encode(contents, e3 + (e4 + rest));
            lemma_parse_str_encode(channel, e4 + rest);
            lemma_parse_bytes_encode(signature, rest);
        },
        TxV::Register { user, id, signature } => {
            let e1 = spec_encode_bytes(user);
            let e2 = spec_encode_str(id);
            let e3 = spec_encode_bytes(signature);
            let b = spec_encode_tx(t) + rest;
            assert(b =~= u32_le(1) + (e1 + (e2 + (e3 + rest))));
            lemma_parse_u32_encode(1, e1 + (e2 + (e3 + rest)));
            lemma_parse_bytes_encode(user, e2 + (e3 + rest));
            lemma_parse_str_encode(id, e3 + rest);
            lemma_parse_bytes_encode(signature, rest);
        },
    }
}

proof fn lemma_parse_txs_cons(b: Seq<u8>, t: TxV, mid: Seq<u8>, ts: Seq<TxV>, rest: Seq<u8>, n: nat)
    requires
        n > 0,
        parse_tx(b) == Some((t, mid)),
        parse_txs(mid, (n - 1) as nat) == Some((ts, rest)),
    ensures
        parse_txs(b, n) == Some((seq![t] + ts, rest)),
{
}

#[verifier::rlimit(100)]
#[verifier::spinoff_prover]
proof fn lemma_parse_txs_encode(ts: Seq<TxV>, rest: Seq<u8>)
    requires
        forall|i: int| 0 <= i < ts.len() ==> tx_bounded(#[trigger] ts[i]),
    ensures
        parse_txs(spec_encode_txs(ts) + rest, ts.len()) == Some((ts, rest)),
    decreases ts.len(),
{
    if ts.len() == 0 {
        assert(spec_encode_txs(ts) + rest =~= rest);
        assert(parse_txs(rest, 0) == Some((Seq::<TxV>::empty(), rest)));
        assert(Seq::<TxV>::empty() =~= ts);
    } else {
        let b = spec_encode_txs(ts) + rest;
        vstd::seq_lib::lemma_concat_associative(
            spec_encode_tx(ts[0]),
            spec_encode_txs(ts.drop_first()),
            rest,
        );
        assert(b == spec_encode_tx(ts[0]) + (spec_encode_txs(ts.drop_first()) + rest));
        lemma_parse_tx_encode(ts[0], spec_encode_txs(ts.drop_first()) + rest);
        assert(forall|i: int|
            0 <= i < ts.drop_first().len() ==> tx_bounded(#[trigger] ts.drop_first()[i]));
        lemma_parse_txs_encode(ts.drop_first(), rest);
        lemma_parse_txs_cons(
            b,
            ts[0],
            spec_encode_txs(ts.drop_first()) + rest,
            ts.drop_first(),
            rest,
            ts.len(),
        );
        assert(seq![ts[0]] + ts.drop_first() =~= ts);
    }
}

/// Round trip for a batch: decoding an encoded batch yields exactly the
/// same transactions, in the same order, both as a strict batch and through
/// the blob fallback.
pub proof fn lemma_batch_round_trip(ts: Seq<TxV>)
    requires
        ts.len() <= u64::MAX,
        forall|i: int| 0 <= i < ts.len() ==> tx_bounded(#[trigger] ts[i]),
    ensures
        spec_decode_batch(spec_encode_batch(ts)) == Some(ts),
        spec_decode_blob(spec_encode_batch(ts)) == Some(ts),
{
    lemma_parse_u64_encode(ts.len() as u64, spec_encode_txs(ts));
    lemma_parse_txs_encode(ts, Seq::empty());
    assert(spec_encode_txs(ts) + Seq::<u8>::empty() =~= spec_encode_txs(ts));
}

/// Round trip for one transaction, decoded strictly.
pub proof fn lemma_tx_round_trip(t: TxV)
    requires
        tx_bounded(t),
    ensures
        spec_decode_tx(spec_encode_tx(t)) == Some(t),
{
    lemma_parse_tx_encode(t, Seq::empty());
    assert(spec_encode_tx(t) + Seq::<u8>::empty() =~= spec_encode_tx(t));
}

proof fn lemma_parse_bytes_consumes(b: Seq<u8>)
    ensures
        parse_bytes(b) matches Some(v) ==> v.1.len() + 8 <= b.len(),
{
}

proof fn lemma_parse_str_consumes(b: Seq<u8>)
    ensures
        parse_str(b) matches Some(v) ==> v.1.len() + 8 <= b.len(),
{
    lemma_parse_bytes_consumes(b);
}

proof fn lemma_parse_tx_consumes(b: Seq<u8>)
    ensures
        parse_tx(b) matches Some(v) ==> v.1.len() + 28 <= b.len(),
{
    match parse_u32(b) {
        Some(v0) => {
            let r0 = v0.1;
            assert(r0.len() + 4 <= b.len());
            lemma_parse_bytes_consumes(r0);
            match parse_bytes(r0) {
                Some(v1) => {
                    let r1 = v1.1;
                    lemma_parse_str_consumes(r1);
                    match parse_str(r1) {
                        Some(v2) => {
                            let r2 = v2.1;
                            lemma_parse_str_consumes(r2);
                            lemma_parse_bytes_consumes(r2);
                            match parse_str(r2) {
                                Some(v3) => {
                                    lemma_parse_bytes_consumes(v3.1);
                                },
                                None => {},
                            }
                        },
                        None => {},
                    }
                },
                None => {},
            }
        },
        None => {},
    }
}

proof fn lemma_parse_txs_min(b: Seq<u8>, n: nat)
    ensures
        parse_txs(b, n) is Some ==> b.len() >= 28 * n,
    decreases n,
{
    if n > 0 {
        match parse_tx(b) {
            Some(v) => {
                lemma_parse_tx_consumes(b);
                lemma_parse_txs_min(v.1, (n - 1) as nat);
            },
            None => {},
        }
    }
}

/// A blob holding one bare encoded transaction, with a real 32-byte key and
/// 64-byte signature, never parses as a batch: read as a batch, its first
/// eight bytes claim at least `32 * 2^32` transactions, more than the blob
/// could hold. Blob decoding therefore falls back and yields the
/// one-element batch.
pub proof fn lemma_blob_decode_lone_tx(t: TxV)
    requires
        t.user().len() == 32,
        t.sig().len() == 64,
        tx_bounded(t),
        spec_encode_tx(t).len() < 0x1c_0000_0000,
    ensures
        spec_decode_blob(spec_encode_tx(t)) == Some(seq![t]),
{
    let enc = spec_encode_tx(t);
    match t {
        TxV::SendMessage { user, .. } => {
            assert(enc.take(4) =~= u32_le(0));
            assert(enc.subrange(4, 12) =~= u64_le(user.len() as u64));
            lemma_lone_tx_batch_count(enc, 0, user.len() as u64);
        },
        TxV::Register { user, .. } => {
            assert(enc.take(4) =~= u32_le(1));
            assert(enc.subrange(4, 12) =~= u64_le(user.len() as u64));
            lemma_lone_tx_batch_count(enc, 1, user.len() as u64);
        },
    }
    assert(spec_decode_batch(enc) is None);
    lemma_tx_round_trip(t);
}

/// The first eight bytes of an encoded transaction, read as a batch count:
/// the tag, then the low four bytes of the 64-bit user-key length.
proof fn lemma_lone_tx_batch_count(enc: Seq<u8>, tag: u32, ulen: u64)
    requires
        tag == 0 || tag == 1,
        ulen == 32,
        enc.len() >= 12,
        enc.len() < 0x1c_0000_0000,
        enc.take(4) == u32_le(tag),
        enc.subrange(4, 12) == u64_le(ulen),
    ensures
        parse_u64(enc) matches Some(v) ==> parse_txs(v.1, v.0 as nat) is None,
{
    let first8 = enc.take(8);
    assert(first8[0] == u32_le(tag)[0] && first8[1] == u32_le(tag)[1] && first8[2] == u32_le(
        tag,
    )[2] && first8[3] == u32_le(tag)[3]) by {
        assert(forall|i: int| 0 <= i < 4 ==> enc.take(4)[i] == #[trigger] enc.take(8)[i]);
    }
    assert(first8[4] == u64_le(ulen)[0] && first8[5] == u64_le(ulen)[1] && first8[6] == u64_le(
        ulen,
    )[2] && first8[7] == u64_le(ulen)[3]) by {
        assert(forall|i: int| 4 <= i < 8 ==> enc.subrange(4, 12)[i - 4] == #[trigger] enc.take(
            8,
        )[i]);
    }
    let n = le_u64(first8);
    assert(n >= 0x20_0000_0000) by {
        let b0 = (tag & 0xff) as u8;
        let b1 = ((tag >> 8) & 0xff) as u8;
        let b2 = ((tag >> 16) & 0xff) as u8;
        let b3 = ((tag >> 24) & 0xff) as u8;
        let b4 = (ulen & 0xff) as u8;
        let b5 = ((ulen >> 8) & 0xff) as u8;
        let b6 = ((ulen >> 16) & 0xff) as u8;
        let b7 = ((ulen >> 24) & 0xff) as u8;
        assert((b0 as u64) | ((b1 as u64) << 8) | ((b2 as u64) << 16) | ((b3 as u64) << 24) | ((
        b4 as u64) << 32) | ((b5 as u64) << 40) | ((b6 as u64) << 48) | ((b7 as u64) << 56)
            >= 0x20_0000_0000) by (bit_vector)
            requires
                (tag == 0 || tag == 1) && ulen == 32,
                b0 == (tag & 0xff) as u8,
                b1 == ((tag >> 8) & 0xff) as u8,
                b2 == ((tag >> 16) & 0xff) as u8,
                b3 == ((tag >> 24) & 0xff) as u8,
                b4 == (ulen & 0xff) as u8,
                b5 == ((ulen >> 8) & 0xff) as u8,
                b6 == ((ulen >> 16) & 0xff) as u8,
                b7 == ((ulen >> 24) & 0xff) as u8,
        ;
    }
    match parse_u64(enc) {
        Some(v) => {
            assert(v.0 == n);
            lemma_parse_txs_min(v.1, v.0 as nat);
            assert(v.1.len() < 0x1c_0000_0000);
            assert(28 * (v.0 as nat) >= 28 * 0x20_0000_0000);
        },
        None => {},
    }
}

proof fn lemma_encode_txs_push(ts: Seq<TxV>, t: TxV)
    ensures
        spec_encode_txs(ts.push(t)) == spec_encode_txs(ts) + spec_encode_tx(t),
    decreases ts.len(),
{
    if ts.len() == 0 {
        assert(ts.push(t)[0] == t);
        assert(ts.push(t).drop_first() =~= Seq::<TxV>::empty());
        assert(spec_encode_txs(ts.push(t).drop_first()) == Seq::<u8>::empty());
        assert(spec_encode_txs(ts.push(t)) =~= spec_encode_txs(ts) + spec_encode_tx(t));
    } else {
        assert(ts.push(t)[0] == ts[0]);
        assert(ts.push(t).drop_first() =~= ts.drop_first().push(t));
        lemma_encode_txs_push(ts.drop_first(), t);
        assert(spec_encode_txs(ts.push(t)) == spec_encode_tx(ts[0]) + (spec_encode_txs(
            ts.drop_first(),
        ) + spec_encode_tx(t)));
        vstd::seq_lib::lemma_concat_associative(
            spec_encode_tx(ts[0]),
            spec_encode_txs(ts.drop_first()),
            spec_encode_tx(t),
        );
        assert(spec_encode_txs(ts.push(t)) == spec_encode_txs(ts) + spec_encode_tx(t));
    }
}

} // verus!
