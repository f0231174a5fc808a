//! The ledger: users and channels derived by replaying transactions, and the
//! deterministic state-transition function that is its sole writer.

use vstd::prelude::*;

use crate::tx::{PublicKey, Transaction, TxV};

verus! {

/// Why a transaction was rejected by the ledger.
#[derive(Clone, Copy, Debug, PartialEq, Eq, Structural)]
pub enum RejectReason {
    /// A `Register` for a user that is already registered.
    UserAlreadyExists,
    /// A `SendMessage` from a user that was never registered.
    UserNotRegistered,
}

/// One message in a channel log: the sender's display name and the text.
#[derive(Clone, Debug, PartialEq, Eq)]
pub struct Message {
    pub user_id: String,
    pub contents: String,
}

/// The mathematical value of a [`Message`].
#[verifier::ext_equal]
pub struct MessageV {
    pub user_id: Seq<char>,
    pub contents: Seq<char>,
}

impl DeepView for Message {
    type V = MessageV;

    open spec fn deep_view(&self) -> MessageV {
        MessageV { user_id: self.user_id@, contents: self.contents@ }
    }
}

/// The mathematical value of the ledger: two maps over plain sequences.
#[verifier::ext_equal]
pub struct StateV {
    /// Registered identities: key bytes to display name.
    pub users: Map<Seq<u8>, Seq<char>>,
    /// Channel name to its ordered, append-only message log.
    pub channels: Map<Seq<char>, Seq<MessageV>>,
}

impl StateV {
    /// The ledger at node start: no users, no channels.
    pub open spec fn empty() -> StateV {
        StateV { users: Map::empty(), channels: Map::empty() }
    }
}

/// Whether the ledger accepts `t`, and if not, why: a `Register` only for a
/// user not yet present, a `SendMessage` only for a user already present.
pub open spec fn tx_check(s: StateV, t: TxV) -> Result<(), RejectReason> {
    match t {
        TxV::SendMessage { user, .. } => if s.users.contains_key(user) {
            Ok(())
        } else {
            Err(RejectReason::UserNotRegistered)
        },
        TxV::Register { user, .. } => if !s.users.contains_key(user) {
            Ok(())
        } else {
            Err(RejectReason::UserAlreadyExists)
        },
    }
}

/// The log of `channel`, or the empty log for a channel not yet created.
pub open spec fn channel_log(s: StateV, channel: Seq<char>) -> Seq<MessageV> {
    if s.channels.contains_key(channel) {
        s.channels[channel]
    } else {
        Seq::empty()
    }
}

/// The state-transition function: the ledger after `t`. A rejected
/// transaction leaves the ledger unchanged; an accepted `Register` adds the
/// user; an accepted `SendMessage` appends to the channel's log, creating
/// the channel on its first message.
pub open spec fn tx_step(s: StateV, t: TxV) -> StateV {
    if tx_check(s, t) is Err {
        s
    } else {
        match t {
            TxV::SendMessage { user, contents, channel, .. } => StateV {
                users: s.users,
                channels: s.channels.insert(
                    channel,
                    channel_log(s, channel).push(MessageV { user_id: s.users[user], contents }),
                ),
            },
            TxV::Register { user, id, .. } => StateV {
                users: s.users.insert(user, id),
                channels: s.channels,
            },
        }
    }
}

/// The ledger after applying a sequence of transactions in order.
pub open spec fn apply_all(s: StateV, ts: Seq<TxV>) -> StateV
    decreases ts.len(),
{
    if ts.len() == 0 {
        s
    } else {
        apply_all(tx_step(s, ts[0]), ts.drop_first())
    }
}

struct UserEntry {
    key: PublicKey,
    id: String,
}

struct Channel {
    name: String,
    messages: Vec<Message>,
}

/// The ledger. Mutated exclusively through [`State::process_tx`]; readers
/// see it as the two maps of [`StateV`].
pub struct State {
    users: Vec<UserEntry>,
    channels: Vec<Channel>,
}

spec fn users_map(s: Seq<UserEntry>) -> Map<Seq<u8>, Seq<char>>
    decreases s.len(),
{
    if s.len() == 0 {
        Map::empty()
    } else {
        users_map(s.drop_last()).insert(s.last().key@, s.last().id@)
    }
}

spec fn channels_map(s: Seq<Channel>) -> Map<Seq<char>, Seq<MessageV>>
    decreases s.len(),
{
    if s.len() == 0 {
        Map::empty()
    } else {
        channels_map(s.drop_last()).insert(s.last().name@, s.last().messages.deep_view())
    }
}

proof fn lemma_users_map_contains(s: Seq<UserEntry>, k: Seq<u8>)
    ensures
        users_map(s).contains_key(k) <==> exists|i: int| 0 <= i < s.len() && s[i].key@ == k,
    decreases s.len(),
{
    if s.len() > 0 {
        lemma_users_map_contains(s.drop_last(), k);
        if s.last().key@ == k {
            assert(s[s.len() - 1].key@ == k);
        } else if users_map(s).contains_key(k) {
            let i = choose|i: int| 0 <= i < s.drop_last().len() && s.drop_last()[i].key@ == k;
            assert(s[i].key@ == k);
        } else if exists|i: int| 0 <= i < s.len() && s[i].key@ == k {
            let i = choose|i: int| 0 <= i < s.len() && s[i].key@ == k;
            assert(s.drop_last()[i].key@ == k);
        }
    }
}

proof fn lemma_users_map_get(s: Seq<UserEntry>, i: int)
    requires
        0 <= i < s.len(),
        forall|p: int, q: int| 0 <= p < q < s.len() ==> s[p].key@ != s[q].key@,
    ensures
        users_map(s).contains_key(s[i].key@),
        users_map(s)[s[i].key@] == s[i].id@,
    decreases s.len(),
{
    if i < s.len() - 1 {
        lemma_users_map_get(s.drop_last(), i);
        assert(s[i].key@ != s[s.len() - 1].key@);
    }
}

proof fn lemma_channels_map_contains(s: Seq<Channel>, k: Seq<char>)
    ensures
        channels_map(s).contains_key(k) <==> exists|i: int| 0 <= i < s.len() && s[i].name@ == k,
    decreases s.len(),
{
    if s.len() > 0 {
        lemma_channels_map_contains(s.drop_last(), k);
        if s.last().name@ == k {
            assert(s[s.len() - 1].name@ == k);
        } else if channels_map(s).contains_key(k) {
            let i = choose|i: int| 0 <= i < s.drop_last().len() && s.drop_last()[i].name@ == k;
            assert(s[i].name@ == k);
        } else if exists|i: int| 0 <= i < s.len() && s[i].name@ == k {
            let i = choose|i: int| 0 <= i < s.len() && s[i].name@ == k;
            assert(s.drop_last()[i].name@ == k);
        }
    }
}

proof fn lemma_channels_map_get(s: Seq<Channel>, i: int)
    requires
        0 <= i < s.len(),
        forall|p: int, q: int| 0 <= p < q < s.len() ==> s[p].name@ != s[q].name@,
    ensures
        channels_map(s).contains_key(s[i].name@),
        channels_map(s)[s[i].name@] == s[i].messages.deep_view(),
    decreases s.len(),
{
    if i < s.len() - 1 {
        lemma_channels_map_get(s.drop_last(), i);
        assert(s[i].name@ != s[s.len() - 1].name@);
    }
}

proof fn lemma_channels_map_update(s: Seq<Channel>, i: int, ch: Channel)
    requires
        0 <= i < s.len(),
        forall|p: int, q: int| 0 <= p < q < s.len() ==> s[p].name@ != s[q].name@,
        ch.name@ == s[i].name@,
    ensures
        channels_map(s.update(i, ch)) == channels_map(s).insert(ch.name@, ch.messages.deep_view()),
    decreases s.len(),
{
    let t = s.update(i, ch);
    if i == s.len() - 1 {
        assert(t.drop_last() =~= s.drop_last());
        assert(t.last() == ch);
        assert(channels_map(t) =~= channels_map(s).insert(ch.name@, ch.messages.deep_view()));
    } else {
        assert(t.drop_last() =~= s.drop_last().update(i, ch));
        assert(t.last() == s.last());
        lemma_channels_map_update(s.drop_last(), i, ch);
        assert(s.drop_last()[i] == s[i]);
        // the two inserts commute: the updated name differs from the last name
        assert(ch.name@ != s.last().name@);
        assert(channels_map(t) =~= channels_map(s).insert(ch.name@, ch.messages.deep_view()));
    }
}

impl View for State {
    type V = StateV;

    closed spec fn view(&self) -> StateV {
        StateV { users: users_map(self.users@), channels: channels_map(self.channels@) }
    }
}

impl State {
    #[verifier::type_invariant]
    spec fn inv(self) -> bool {
        &&& forall|p: int, q: int|
            0 <= p < q < self.users@.len() ==> self.users@[p].key@ != self.users@[q].key@
        &&& forall|p: int, q: int|
            0 <= p < q < self.channels@.len() ==> self.channels@[p].name@ != self.channels@[q].name@
        &&& forall|p: int| 0 <= p < self.channels@.len() ==> self.channels@[p].messages@.len() > 0
    }

    /// The empty ledger.
    pub fn new() -> (s: Self)
        ensures
            s@ == StateV::empty(),
    {
        let s = State { users: Vec::new(), channels: Vec::new() };
        proof {
            assert(s@.users =~= Map::<Seq<u8>, Seq<char>>::empty());
            assert(s@.channels =~= Map::<Seq<char>, Seq<MessageV>>::empty());
            assert(s@ =~= StateV::empty());
        }
        s
    }

    fn find_user(&self, key: &PublicKey) -> (r: Option<usize>)
        ensures
            match r {
                Some(i) => i < self.users@.len() && self.users@[i as int].key@ == key@,
                None => forall|i: int| 0 <= i < self.users@.len() ==> self.users@[i].key@ != key@,
            },
    {
        let mut i: usize = 0;
        while i < self.users.len()
            invariant
                i <= self.users@.len(),
                forall|j: int| 0 <= j < i ==> self.users@[j].key@ != key@,
            decreases self.users@.len() - i,
        {
            if self.users[i].key.key_eq(key) {
                return Some(i);
            }
            i = i + 1;
        }
        None
    }

    fn find_channel(&self, name: &String) -> (r: Option<usize>)
        ensures
            match r {
                Some(i) => i < self.channels@.len() && self.channels@[i as int].name@ == name@,
                None => forall|i: int|
                    0 <= i < self.channels@.len() ==> self.channels@[i].name@ != name@,
            },
    {
        let mut i: usize = 0;
        while i < self.channels.len()
            invariant
                i <= self.channels@.len(),
                forall|j: int| 0 <= j < i ==> self.channels@[j].name@ != name@,
            decreases self.channels@.len() - i,
        {
            if str_eq(&self.channels[i].name, name) {
                return Some(i);
            }
            i = i + 1;
        }
        None
    }

    /// The message log of `channel`: `None` exactly for a channel that no
    /// accepted message has ever created.
    pub fn read_channel(&self, channel: String) -> (r: Option<&Vec<Message>>)
        ensures
            match r {
                Some(msgs) => self@.channels.contains_key(channel@) && msgs.deep_view()
                    == self@.channels[channel@],
                None => !self@.channels.contains_key(channel@),
            },
    {
        proof {
            use_type_invariant(&*self);
            lemma_channels_map_contains(self.channels@, channel@);
        }
        match self.find_channel(&channel) {
            Some(i) => {
                proof {
                    lemma_channels_map_get(self.channels@, i as int);
                }
                Some(&self.channels[i].messages)
            },
            None => None,
        }
    }

    /// The names of all channels, each exactly once.
    pub fn list_channels(&self) -> (r: Vec<&String>)
        ensures
            forall|k: Seq<char>|
                self@.channels.contains_key(k) <==> exists|i: int|
                    0 <= i < r@.len() && #[trigger] r@[i]@ == k,
            forall|i: int, j: int| 0 <= i < j < r@.len() ==> r@[i]@ != r@[j]@,
    {
        proof {
            use_type_invariant(&*self);
        }
        let mut r: Vec<&String> = Vec::new();
        let mut i: usize = 0;
        while i < self.channels.len()
            invariant
                i <= self.channels@.len(),
                r@.len() == i,
                forall|j: int| 0 <= j < i ==> r@[j]@ == self.channels@[j].name@,
                forall|p: int, q: int|
                    0 <= p < q < self.channels@.len() ==> self.channels@[p].name@
                        != self.channels@[q].name@,
            decreases self.channels@.len() - i,
        {
            r.push(&self.channels[i].name);
            i = i + 1;
        }
        proof {
            assert forall|k: Seq<char>|
                self@.channels.contains_key(k) <==> exists|i: int|
                    0 <= i < r@.len() && #[trigger] r@[i]@ == k by {
                lemma_channels_map_contains(self.channels@, k);
                if exists|i: int| 0 <= i < self.channels@.len() && self.channels@[i].name@ == k {
                    let i = choose|i: int|
                        0 <= i < self.channels@.len() && self.channels@[i].name@ == k;
                    assert(r@[i]@ == k);
                }
                if exists|i: int| 0 <= i < r@.len() && #[trigger] r@[i]@ == k {
                    let i = choose|i: int| 0 <= i < r@.len() && #[trigger] r@[i]@ == k;
                    assert(self.channels@[i].name@ == k);
                }
            }
        }
        r
    }

    /// Check `tx` against the ledger's invariants without applying it.
    /// The signature is not checked here: the sync engine checks it before a
    /// transaction reaches the ledger.
    pub fn validate_tx(&self, tx: &Transaction) -> (r: Result<(), RejectReason>)
        ensures
            r == tx_check(self@, tx@),
    {
        proof {
            use_type_invariant(&*self);
        }
        let user = match tx {
            Transaction::SendMessage(m) => &m.user,
            Transaction::Register(reg) => &reg.user,
        };
        let found = self.find_user(user);
        proof {
            lemma_users_map_contains(self.users@, user@);
        }
        match tx {
            Transaction::SendMessage(_) => match found {
                Some(_) => Ok(()),
                None => Err(RejectReason::UserNotRegistered),
            },
            Transaction::Register(_) => match found {
                Some(_) => Err(RejectReason::UserAlreadyExists),
                None => Ok(()),
            },
        }
    }

    /// Validate `tx` and, if it is accepted, apply it: the ledger moves to
    /// `tx_step` of its old value, and the result is `tx_check` of the old
    /// value. A rejected transaction leaves the ledger unchanged.
    pub fn process_tx(&mut self, tx: Transaction) -> (r: Result<(), RejectReason>)
        ensures
            r == tx_check(old(self)@, tx@),
            final(self)@ == tx_step(old(self)@, tx@),
    {
        proof {
            use_type_invariant(&*self);
        }
        let ghost s0 = self@;
        let ghost txv = tx@;
        if let Err(e) = self.validate_tx(&tx) {
            return Err(e);
        }
        match tx {
            Transaction::SendMessage(m) => {
                let ghost userv = m.user@;
                let ghost channelv = m.channel@;
                let user_idx = match self.find_user(&m.user) {
                    Some(i) => i,
                    None => {
                        proof {
                            lemma_users_map_contains(self.users@, userv);
                        }
                        unreached()
                    },
                };
                proof {
                    lemma_users_map_contains(self.users@, userv);
                    lemma_users_map_get(self.users@, user_idx as int);
                }
                let user_id = self.users[user_idx].id.clone();
                assert(user_id@ == s0.users[userv]);
                let ghost contentsv = m.contents@;
                let msg = Message { user_id, contents: m.contents };
                let ghost msgv = msg.deep_view();
                assert(msgv == MessageV { user_id: s0.users[userv], contents: contentsv });
                let found = self.find_channel(&m.channel);
                let ghost old_channels = self.channels@;
                let mut channels: Vec<Channel> = Vec::new();
                core::mem::swap(&mut channels, &mut self.channels);
                match found {
                    Some(i) => {
                        proof {
                            lemma_channels_map_get(old_channels, i as int);
                        }
                        let ch = &mut channels[i];
                        ch.messages.push(msg);
                        proof {
                            assert(channels@ =~= old_channels.update(
                                i as int,
                                channels@[i as int],
                            ));
                            assert(channels@[i as int].name@ == channelv);
                            assert(channels@[i as int].messages.deep_view() =~= old_channels[i as int].messages.deep_view().push(
                                msgv,
                            ));
                            lemma_channels_map_update(old_channels, i as int, channels@[i as int]);
                            assert(forall|p: int|
                                0 <= p < channels@.len() ==> channels@[p].name@ == old_channels[p].name@);
                            assert(channel_log(s0, channelv) == old_channels[i as int].messages.deep_view());
                        }
                    },
                    None => {
                        proof {
                            lemma_channels_map_contains(old_channels, channelv);
                            assert(!s0.channels.contains_key(channelv));
                        }
                        let mut messages: Vec<Message> = Vec::new();
                        messages.push(msg);
                        let ch = Channel { name: m.channel, messages };
                        proof {
                            assert(channels@.push(ch).drop_last() =~= channels@);
                            assert(ch.messages.deep_view() =~= channel_log(s0, channelv).push(msgv));
                        }
                        channels.push(ch);
                    },
                }
                self.channels = channels;
                proof {
                    assert(self@.channels =~= tx_step(s0, txv).channels);
                    assert(self@ =~= tx_step(s0, txv));
                }
                Ok(())
            },
            Transaction::Register(reg) => {
                let ghost keyv = reg.user@;
                proof {
                    lemma_users_map_contains(self.users@, keyv);
                    assert(forall|i: int|
                        0 <= i < self.users@.len() ==> self.users@[i].key@ != keyv);
                }
                let ghost old_users = self.users@;
                let mut users: Vec<UserEntry> = Vec::new();
                core::mem::swap(&mut users, &mut self.users);
                let entry = UserEntry { key: reg.user, id: reg.id };
                proof {
                    assert(users@.push(entry).drop_last() =~= users@);
                }
                users.push(entry);
                self.users = users;
                proof {
                    assert(self@.users =~= tx_step(s0, txv).users);
                    assert(self@ =~= tx_step(s0, txv));
                }
                Ok(())
            },
        }
    }
}

/// Content equality of two strings.
fn str_eq(a: &String, b: &String) -> (r: bool)
    ensures
        r == (a@ == b@),
{
    *a == *b
}

/// Registering the same user twice: the first `Register` is accepted, the
/// second is rejected with `UserAlreadyExists`, and the ledger after both is
/// exactly the ledger after the first alone.
pub proof fn lemma_register_twice(s: StateV, t1: TxV, t2: TxV)
    requires
        t1 is Register,
        t2 is Register,
        t1.user() == t2.user(),
        !s.users.contains_key(t1.user()),
    ensures
        tx_check(s, t1) == Ok::<(), RejectReason>(()),
        tx_check(tx_step(s, t1), t2) == Err::<(), RejectReason>(RejectReason::UserAlreadyExists),
        tx_step(tx_step(s, t1), t2) == tx_step(s, t1),
{
}

/// A `SendMessage` from a user that was never registered is rejected with
/// `UserNotRegistered` and leaves the ledger, and so every channel,
/// unchanged.
pub proof fn lemma_send_before_register(s: StateV, t: TxV)
    requires
        t is SendMessage,
        !s.users.contains_key(t.user()),
    ensures
        tx_check(s, t) == Err::<(), RejectReason>(RejectReason::UserNotRegistered),
        tx_step(s, t) == s,
{
}

proof fn lemma_sends_append(s: StateV, ts: Seq<TxV>, u: Seq<u8>, id: Seq<char>, ch: Seq<char>)
    requires
        s.users.contains_key(u),
        s.users[u] == id,
        forall|i: int|
            0 <= i < ts.len() ==> (#[trigger] ts[i]) is SendMessage && ts[i].user() == u
                && ts[i].channel() == ch,
    ensures
        apply_all(s, ts).users == s.users,
        apply_all(s, ts).channels.contains_key(ch) <==> s.channels.contains_key(ch) || ts.len()
            > 0,
        channel_log(apply_all(s, ts), ch) =~= channel_log(s, ch) + Seq::new(
            ts.len(),
            |j: int| MessageV { user_id: id, contents: ts[j].contents() },
        ),
    decreases ts.len(),
{
    if ts.len() > 0 {
        let s1 = tx_step(s, ts[0]);
        assert(channel_log(s1, ch) =~= channel_log(s, ch).push(
            MessageV { user_id: id, contents: ts[0].contents() },
        ));
        lemma_sends_append(s1, ts.drop_first(), u, id, ch);
        assert(channel_log(apply_all(s, ts), ch) =~= channel_log(s, ch) + Seq::new(
            ts.len(),
            |j: int| MessageV { user_id: id, contents: ts[j].contents() },
        ));
    }
}

/// A `Register(u, id)` followed by any number of `SendMessage` transactions
/// from `u` into one channel, applied to the empty ledger: the ledger ends
/// with `u`'s display name equal to `id`, and the channel's log holds
/// exactly the sent texts, in submission order, each under that name. With
/// no message sent the channel is never created.
pub proof fn lemma_register_then_sends(ts: Seq<TxV>, u: Seq<u8>, id: Seq<char>, ch: Seq<char>)
    requires
        ts.len() >= 1,
        ts[0] is Register,
        ts[0].user() == u,
        ts[0].id() == id,
        forall|i: int|
            1 <= i < ts.len() ==> (#[trigger] ts[i]) is SendMessage && ts[i].user() == u
                && ts[i].channel() == ch,
    ensures
        apply_all(StateV::empty(), ts).users.contains_key(u),
        apply_all(StateV::empty(), ts).users[u] == id,
        apply_all(StateV::empty(), ts).channels.contains_key(ch) <==> ts.len() > 1,
        apply_all(StateV::empty(), ts).channels.contains_key(ch)
            ==> apply_all(StateV::empty(), ts).channels[ch] =~= Seq::new(
            (ts.len() - 1) as nat,
            |j: int| MessageV { user_id: id, contents: ts[j + 1].contents() },
        ),
{
    let s0 = StateV::empty();
    let s1 = tx_step(s0, ts[0]);
    assert(s1.users == s0.users.insert(u, id));
    assert(apply_all(s0, ts) == apply_all(s1, ts.drop_first()));
    lemma_sends_append(s1, ts.drop_first(), u, id, ch);
    let f = apply_all(s0, ts);
    assert(!s1.channels.contains_key(ch));
    if f.channels.contains_key(ch) {
        assert(channel_log(s1, ch) =~= Seq::<MessageV>::empty());
        assert(f.channels[ch] =~= Seq::new(
            (ts.len() - 1) as nat,
            |j: int| MessageV { user_id: id, contents: ts[j + 1].contents() },
        ));
    }
}

} // verus!

