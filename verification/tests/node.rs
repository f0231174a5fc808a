use ed25519_dalek::{Signer, SigningKey};
use grugchat::codec::Batch;
use grugchat::mempool::Mempool;
use grugchat::state::{RejectReason, State};
use grugchat::sync::{apply_block_blobs, SyncEngine};
use grugchat::tx::{PublicKey, Register, SendMessage, Signature, Transaction};

fn signing_key(seed: u8) -> SigningKey {
    SigningKey::from_bytes(&[seed; 32])
}

fn pubkey_of(sk: &SigningKey) -> Vec<u8> {
    sk.verifying_key().to_bytes().to_vec()
}

fn signed_register(sk: &SigningKey, id: &str) -> Transaction {
    let unsigned = Transaction::Register(Register {
        user: PublicKey::new(pubkey_of(sk)),
        id: id.to_string(),
        signature: Signature::new(Vec::new()),
    });
    let sig = sk.sign(&unsigned.encode());
    Transaction::Register(Register {
        user: PublicKey::new(pubkey_of(sk)),
        id: id.to_string(),
        signature: Signature::new(sig.to_bytes().to_vec()),
    })
}

fn signed_send(sk: &SigningKey, channel: &str, contents: &str) -> Transaction {
    let unsigned = Transaction::SendMessage(SendMessage {
        user: PublicKey::new(pubkey_of(sk)),
        contents: contents.to_string(),
        channel: channel.to_string(),
        signature: Signature::new(Vec::new()),
    });
    let sig = sk.sign(&unsigned.encode());
    Transaction::SendMessage(SendMessage {
        user: PublicKey::new(pubkey_of(sk)),
        contents: contents.to_string(),
        channel: channel.to_string(),
        signature: Signature::new(sig.to_bytes().to_vec()),
    })
}

fn unsigned_register(user: Vec<u8>, id: &str) -> Transaction {
    Transaction::Register(Register {
        user: PublicKey::new(user),
        id: id.to_string(),
        signature: Signature::new(Vec::new()),
    })
}

fn unsigned_send(user: Vec<u8>, channel: &str, contents: &str) -> Transaction {
    Transaction::SendMessage(SendMessage {
        user: PublicKey::new(user),
        contents: contents.to_string(),
        channel: channel.to_string(),
        signature: Signature::new(Vec::new()),
    })
}

#[test]
fn register_then_sends_builds_channel_log() {
    let mut state = State::new();
    let user = vec![1u8; 32];
    assert_eq!(state.process_tx(unsigned_register(user.clone(), "alice")), Ok(()));
    assert_eq!(state.process_tx(unsigned_send(user.clone(), "general", "hi")), Ok(()));
    assert_eq!(state.process_tx(unsigned_send(user.clone(), "general", "there")), Ok(()));

    let channels = state.list_channels();
    assert_eq!(channels.len(), 1);
    assert_eq!(channels[0].as_str(), "general");

    let msgs = state.read_channel("general".to_string()).expect("channel exists");
    assert_eq!(msgs.len(), 2);
    assert_eq!(msgs[0].user_id.as_str(), "alice");
    assert_eq!(msgs[0].contents.as_str(), "hi");
    assert_eq!(msgs[1].user_id.as_str(), "alice");
    assert_eq!(msgs[1].contents.as_str(), "there");

    assert!(state.read_channel("other".to_string()).is_none());
}

#[test]
fn register_twice_is_rejected_and_changes_nothing() {
    let mut state = State::new();
    let user = vec![2u8; 32];
    assert_eq!(state.process_tx(unsigned_register(user.clone(), "bob")), Ok(()));
    assert_eq!(
        state.process_tx(unsigned_register(user.clone(), "bob")),
        Err(RejectReason::UserAlreadyExists)
    );
    // even under another name the identity stays taken
    assert_eq!(
        state.process_tx(unsigned_register(user.clone(), "robert")),
        Err(RejectReason::UserAlreadyExists)
    );
    // the ledger still shows the first registration alone
    assert_eq!(state.process_tx(unsigned_send(user, "general", "hi")), Ok(()));
    let msgs = state.read_channel("general".to_string()).expect("channel exists");
    assert_eq!(msgs[0].user_id.as_str(), "bob");
}

#[test]
fn send_before_register_is_rejected_and_creates_no_channel() {
    let mut state = State::new();
    let user = vec![3u8; 32];
    assert_eq!(
        state.process_tx(unsigned_send(user.clone(), "general", "hi")),
        Err(RejectReason::UserNotRegistered)
    );
    assert!(state.read_channel("general".to_string()).is_none());
    assert_eq!(state.list_channels().len(), 0);

    let tx = unsigned_send(user, "general", "hi");
    assert_eq!(state.validate_tx(&tx), Err(RejectReason::UserNotRegistered));
}

#[test]
fn batch_round_trip() {
    let t1 = unsigned_register(vec![4u8; 32], "carol");
    let t2 = unsigned_send(vec![4u8; 32], "general", "hé ☃ llo");
    let batch = Batch::new(vec![t1.clone(), t2.clone()]);
    let encoded = batch.encode();

    let decoded = Batch::decode(&encoded).expect("decodes as batch");
    assert_eq!(decoded.transactions().as_slice(), &[t1.clone(), t2.clone()]);

    let via_blob = Batch::from_blob(&encoded).expect("blob decodes as batch");
    assert_eq!(via_blob.into_transactions(), vec![t1, t2]);
}

#[test]
fn lone_transaction_decodes_as_one_element_batch() {
    let sk = signing_key(5);
    let tx = signed_register(&sk, "dave");
    let encoded = tx.encode();

    assert!(Batch::decode(&encoded).is_none());
    let batch = Batch::from_blob(&encoded).expect("falls back to bare transaction");
    assert_eq!(batch.transactions().as_slice(), &[tx.clone()]);

    let direct = Transaction::decode(&encoded).expect("decodes as transaction");
    assert_eq!(direct, tx);
}

#[test]
fn foreign_payloads_are_ignored() {
    assert!(Batch::from_blob(&Vec::new()).is_none());
    assert!(Batch::from_blob(&vec![0xffu8; 7]).is_none());
    assert!(Batch::from_blob(&vec![9u8, 9, 9, 9, 9, 9, 9, 9, 9]).is_none());
    // a truncated transaction fails both decodings
    let tx = unsigned_register(vec![6u8; 32], "erin");
    let mut encoded = tx.encode();
    encoded.pop();
    assert!(Batch::from_blob(&encoded).is_none());
}

#[test]
fn verify_accepts_only_the_genuine_signature() {
    let sk = signing_key(7);
    let reg = signed_register(&sk, "frank");
    assert!(reg.verify());
    let send = signed_send(&sk, "general", "hello");
    assert!(send.verify());

    // flipping one byte of the display name breaks the signature
    if let Transaction::Register(r) = &reg {
        let tampered = Transaction::Register(Register {
            user: r.user.clone(),
            id: "frang".to_string(),
            signature: r.signature.clone(),
        });
        assert!(!tampered.verify());
    } else {
        unreachable!();
    }

    // flipping one byte of contents, channel or signature breaks it too
    if let Transaction::SendMessage(m) = &send {
        let tampered = Transaction::SendMessage(SendMessage {
            user: m.user.clone(),
            contents: "hellp".to_string(),
            channel: m.channel.clone(),
            signature: m.signature.clone(),
        });
        assert!(!tampered.verify());

        let tampered = Transaction::SendMessage(SendMessage {
            user: m.user.clone(),
            contents: m.contents.clone(),
            channel: "generak".to_string(),
            signature: m.signature.clone(),
        });
        assert!(!tampered.verify());

        let mut sig = m.signature.to_bytes();
        sig[0] ^= 1;
        let tampered = Transaction::SendMessage(SendMessage {
            user: m.user.clone(),
            contents: m.contents.clone(),
            channel: m.channel.clone(),
            signature: Signature::new(sig),
        });
        assert!(!tampered.verify());
    } else {
        unreachable!();
    }

    // a signature by another key never verifies
    let other = signing_key(8);
    if let Transaction::Register(r) = &reg {
        let forged = Transaction::Register(Register {
            user: PublicKey::new(pubkey_of(&other)),
            id: r.id.clone(),
            signature: r.signature.clone(),
        });
        assert!(!forged.verify());
    }
}

#[test]
fn verify_fails_closed_on_malformed_lengths() {
    // wrong key length: rejected, not a panic
    let tx = Transaction::Register(Register {
        user: PublicKey::new(vec![1u8; 31]),
        id: "gina".to_string(),
        signature: Signature::new(vec![0u8; 64]),
    });
    assert!(!tx.verify());

    // wrong signature length: rejected, not a panic
    let tx = Transaction::Register(Register {
        user: PublicKey::new(vec![1u8; 32]),
        id: "gina".to_string(),
        signature: Signature::new(vec![0u8; 63]),
    });
    assert!(!tx.verify());

    // empty signature (the canonical unsigned form): rejected
    let tx = unsigned_register(vec![1u8; 32], "gina");
    assert!(!tx.verify());
}

#[test]
fn signature_verify_checks_raw_bytes() {
    let sk = signing_key(9);
    let msg = b"some message".to_vec();
    let sig = sk.sign(&msg);
    let signature = Signature::new(sig.to_bytes().to_vec());
    let pk = PublicKey::new(pubkey_of(&sk));
    assert!(signature.verify(&pk, &msg));
    assert!(!signature.verify(&pk, b"some messagf"));
    let wrong = PublicKey::new(pubkey_of(&signing_key(10)));
    assert!(!signature.verify(&wrong, &msg));
}

#[test]
fn mempool_flush_drains_exactly_the_pending_batch() {
    let mut mempool = Mempool::new();
    let mut expected = Vec::new();
    for i in 0..5u8 {
        let tx = unsigned_register(vec![i; 32], "user");
        expected.push(tx.clone());
        mempool.enqueue(tx);
    }
    assert_eq!(mempool.len(), 5);

    let blob = mempool.flush().expect("five transactions pending");
    assert_eq!(mempool.len(), 0);
    let batch = Batch::decode(&blob).expect("flush publishes a batch blob");
    assert_eq!(batch.into_transactions(), expected);

    // nothing pending: no empty blob is published
    assert!(mempool.flush().is_none());

    // a transaction enqueued after the drain lands in the next batch
    let late = unsigned_register(vec![9u8; 32], "late");
    mempool.enqueue(late.clone());
    let blob = mempool.flush().expect("one transaction pending");
    let batch = Batch::decode(&blob).expect("decodes");
    assert_eq!(batch.into_transactions(), vec![late]);
}

#[test]
fn catch_up_replays_heights_in_order() {
    // start height 10, network head 13: catch-up covers 10, 11 and 12
    let alice = signing_key(11);
    let mut engine = SyncEngine::new(10, 13);
    let mut state = State::new();

    assert_eq!(engine.next_fetch(), Some(10));
    engine.apply_catch_up(&mut state, &Vec::new());
    assert!(!engine.caught_up());

    assert_eq!(engine.next_fetch(), Some(11));
    let blob = signed_register(&alice, "alice").encode();
    engine.apply_catch_up(&mut state, &vec![blob]);
    assert!(!engine.caught_up());

    assert_eq!(engine.next_fetch(), Some(12));
    let blob = Batch::new(vec![signed_send(&alice, "general", "hi")]).encode();
    engine.apply_catch_up(&mut state, &vec![blob]);

    assert!(engine.caught_up());
    assert_eq!(engine.next_fetch(), None);

    let channels = state.list_channels();
    assert_eq!(channels.len(), 1);
    assert_eq!(channels[0].as_str(), "general");
    let msgs = state.read_channel("general".to_string()).expect("created during replay");
    assert_eq!(msgs.len(), 1);
    assert_eq!(msgs[0].user_id.as_str(), "alice");
    assert_eq!(msgs[0].contents.as_str(), "hi");
}

#[test]
fn live_deliveries_wait_for_catch_up() {
    let alice = signing_key(12);
    let mut engine = SyncEngine::new(20, 21);
    let mut state = State::new();

    let batch = Batch::new(vec![
        signed_register(&alice, "alice"),
        signed_send(&alice, "general", "hello"),
    ]);
    assert!(engine.submit_live(vec![batch.encode()]));
    assert_eq!(engine.queue_len(), 1);

    // catch-up is not complete: nothing is applied, nothing is lost
    assert!(!engine.pump_live(&mut state));
    assert_eq!(engine.queue_len(), 1);
    assert!(state.read_channel("general".to_string()).is_none());

    engine.apply_catch_up(&mut state, &Vec::new());
    assert!(engine.caught_up());

    // catch-up is complete: the queued delivery is applied in arrival order
    assert!(engine.pump_live(&mut state));
    assert_eq!(engine.queue_len(), 0);
    let msgs = state.read_channel("general".to_string()).expect("applied once caught up");
    assert_eq!(msgs.len(), 1);
    assert_eq!(msgs[0].contents.as_str(), "hello");
}

#[test]
fn sync_skips_unsigned_and_foreign_data() {
    let alice = signing_key(13);
    let mut state = State::new();

    // an unsigned register, a foreign blob and a genuine pair of transactions
    let unsigned_blob = unsigned_register(pubkey_of(&alice), "alice").encode();
    let foreign_blob = vec![1u8, 2, 3];
    let good_blob = Batch::new(vec![
        signed_register(&alice, "alice"),
        signed_send(&alice, "general", "hi"),
    ])
    .encode();

    apply_block_blobs(&mut state, &vec![unsigned_blob, foreign_blob, good_blob]);

    // only the signed transactions reached the ledger
    let msgs = state.read_channel("general".to_string()).expect("signed pair applied");
    assert_eq!(msgs.len(), 1);
    assert_eq!(msgs[0].user_id.as_str(), "alice");
}

#[test]
fn transaction_accessors_and_canonical_form() {
    let sk = signing_key(14);
    let tx = signed_send(&sk, "general", "hi");

    assert_eq!(tx.pubkey().to_bytes(), pubkey_of(&sk));
    assert_eq!(tx.signature().to_bytes().len(), 64);

    let canonical = tx.without_signature();
    assert_eq!(canonical.signature().to_bytes(), Vec::<u8>::new());
    assert_eq!(canonical.pubkey().to_bytes(), pubkey_of(&sk));
    // the canonical form is what was signed
    let sig = sk.sign(&canonical.encode());
    assert_eq!(tx.signature().to_bytes(), sig.to_bytes().to_vec());
}

#[test]
fn mempool_blob_feeds_back_into_sync() {
    // what the batching layer publishes, the sync engine can replay
    let alice = signing_key(15);
    let mut mempool = Mempool::new();
    mempool.enqueue(signed_register(&alice, "alice"));
    mempool.enqueue(signed_send(&alice, "room", "hey"));
    let blob = mempool.flush().expect("two transactions pending");

    let mut engine = SyncEngine::new(0, 1);
    let mut state = State::new();
    engine.apply_catch_up(&mut state, &vec![blob]);
    assert!(engine.caught_up());
    let msgs = state.read_channel("room".to_string()).expect("replayed from the blob");
    assert_eq!(msgs[0].user_id.as_str(), "alice");
    assert_eq!(msgs[0].contents.as_str(), "hey");
}
