//! The mailbox: per chat, the entries a user has received, kept by id and
//! in an index that runs from the newest entry to the oldest.

use vstd::prelude::*;
use std::collections::HashMap;
use crate::message::Message;
use crate::ordering::{
    is_after, landing, lemma_landing_agree, lemma_landing_bounds, lemma_landing_skip,
    lemma_newer_prefix, lemma_placed_wf, lemma_remove_value, lemma_remove_value_absent,
    newest_first, placed,
};
use crate::sendables::{Sendable, SendableType};
use crate::server::{QueryError, Server};

verus! {

/// A value that is ordered by a point in time.
pub trait TimeStamped {
    /// The time by which the value is ordered, in milliseconds since the epoch.
    spec fn timestamp(&self) -> u128;

    fn get_timestamp(&self) -> (timestamp: u128)
        ensures
            timestamp == self.timestamp(),
    ;
}

/// What a `DBMap` holds: the entries by key, and the keys from the newest
/// entry to the oldest.
pub struct DBMapView<T> {
    pub entries: Map<u32, T>,
    pub order: Seq<u32>,
}

impl<T: TimeStamped> DBMapView<T> {
    /// The time of each entry, by key.
    pub open spec fn times(self) -> Map<u32, u128> {
        Map::new(|k: u32| self.entries.contains_key(k), |k: u32| self.entries[k].timestamp())
    }

    /// The index names each entry once, names nothing else, and runs from
    /// newest to oldest.
    pub open spec fn wf(self) -> bool {
        &&& self.order.no_duplicates()
        &&& forall|k: u32| self.entries.contains_key(k) <==> self.order.contains(k)
        &&& newest_first(self.order, self.times())
    }

    /// The state after `entry` went in under `key`: it replaces what was
    /// held under that key, and it lands behind every newer entry and before
    /// every entry of the same time or older.
    pub open spec fn inserted(self, key: u32, entry: T) -> Self {
        DBMapView {
            entries: self.entries.insert(key, entry),
            order: placed(self.order.remove_value(key), self.times(), key, entry.timestamp()),
        }
    }

    /// The state after the entry under `key` was replaced by `entry`: it
    /// keeps its place where its time is unchanged, and lands anew otherwise.
    pub open spec fn updated(self, key: u32, entry: T) -> Self {
        if self.entries.contains_key(key) && self.entries[key].timestamp() == entry.timestamp() {
            DBMapView { entries: self.entries.insert(key, entry), order: self.order }
        } else {
            self.inserted(key, entry)
        }
    }

    /// The state after the entry under `key` was taken out.
    pub open spec fn removed(self, key: u32) -> Self {
        DBMapView { entries: self.entries.remove(key), order: self.order.remove_value(key) }
    }

    /// The time of the newest entry, and 0 where there is none.
    pub open spec fn newest_time(self) -> u128 {
        if self.order.len() > 0 && self.entries.contains_key(self.order[0]) {
            self.entries[self.order[0]].timestamp()
        } else {
            0
        }
    }

    /// The keys of the entries that are newer than `after`, newest first.
    pub open spec fn newer_than(self, after: Option<u128>) -> Seq<u32> {
        self.order.filter(|k: u32| is_after(self.times()[k], after))
    }

    /// The keys a reader gets: those newer than `after`, newest first, and
    /// of these the first `limit` where there is a limit.
    pub open spec fn page(self, limit: Option<usize>, after: Option<u128>) -> Seq<u32> {
        let fresh = self.newer_than(after);
        match limit {
            Some(n) => if n < fresh.len() {
                fresh.take(n as int)
            } else {
                fresh
            },
            None => fresh,
        }
    }
}

/// Entries by key, with an index of the keys by time.
pub struct DBMap<T: TimeStamped> {
    map: HashMap<u32, T>,
    timestamp_sorted: Vec<u32>,
}

impl<T: TimeStamped> View for DBMap<T> {
    type V = DBMapView<T>;

    closed spec fn view(&self) -> DBMapView<T> {
        DBMapView { entries: self.map@, order: self.timestamp_sorted@ }
    }
}

impl<T: TimeStamped> DBMap<T> {
    /// The index and the entries agree.
    pub open spec fn wf(&self) -> bool {
        self@.wf()
    }

    pub fn new() -> (map: Self)
        ensures
            map.wf(),
            map@.entries == Map::<u32, T>::empty(),
            map@.order == Seq::<u32>::empty(),
    {
        let map = Self { map: HashMap::new(), timestamp_sorted: Vec::new() };
        assert(map@.times() =~= Map::<u32, u128>::empty());
        map
    }

    pub fn get(&self, key: &u32) -> (entry: Option<&T>)
        ensures
            entry == (if self@.entries.contains_key(*key) {
                Some(&self@.entries[*key])
            } else {
                None
            }),
    {
        self.map.get(key)
    }

    pub fn contains_key(&self, key: &u32) -> (held: bool)
        ensures
            held == self@.entries.contains_key(*key),
    {
        self.map.contains_key(key)
    }

    /// The number of entries.
    pub fn len(&self) -> (n: usize)
        ensures
            n == self@.order.len(),
    {
        self.timestamp_sorted.len()
    }

    /// The keys, from the newest entry to the oldest.
    pub fn keys(&self) -> (keys: &Vec<u32>)
        ensures
            keys@ == self@.order,
    {
        &self.timestamp_sorted
    }

    /// Takes `key` out of the index, where it is there.
    fn unlist(&mut self, key: u32)
        requires
            old(self).timestamp_sorted@.no_duplicates(),
        ensures
            final(self).map == old(self).map,
            final(self).timestamp_sorted@ == old(self).timestamp_sorted@.remove_value(key),
            final(self).timestamp_sorted@.no_duplicates(),
            !final(self).timestamp_sorted@.contains(key),
            forall|k: u32|
                k != key ==> (final(self).timestamp_sorted@.contains(k) <==> old(
                    self,
                ).timestamp_sorted@.contains(k)),
            forall|times: Map<u32, u128>| #[trigger]
                newest_first(old(self).timestamp_sorted@, times) ==> newest_first(
                    final(self).timestamp_sorted@,
                    times,
                ),
    {
        let mut i: usize = 0;
        while i < self.timestamp_sorted.len()
            invariant
                self.timestamp_sorted@.no_duplicates(),
                self.timestamp_sorted == old(self).timestamp_sorted,
                self.map == old(self).map,
                i <= self.timestamp_sorted@.len(),
                forall|j: int| 0 <= j < i ==> self.timestamp_sorted@[j] != key,
            decreases self.timestamp_sorted@.len() - i,
        {
            if self.timestamp_sorted[i] == key {
                proof {
                    lemma_remove_value(self.timestamp_sorted@, key, i as int);
                }
                self.timestamp_sorted.remove(i);
                return ;
            }
            i = i + 1;
        }
        proof {
            lemma_remove_value_absent(self.timestamp_sorted@, key);
        }
    }

    /// Puts `key` into the index where an entry of time `ts` lands.
    fn enlist(&mut self, key: u32, ts: u128)
        requires
            forall|k: u32|
                old(self).timestamp_sorted@.contains(k) ==> old(self).map@.contains_key(k),
        ensures
            final(self).map == old(self).map,
            final(self).timestamp_sorted@ == placed(
                old(self).timestamp_sorted@,
                old(self)@.times(),
                key,
                ts,
            ),
    {
        let ghost order = self.timestamp_sorted@;
        let ghost times = self@.times();
        let mut i: usize = 0;
        while i < self.timestamp_sorted.len()
            invariant
                self.timestamp_sorted@ == order,
                self.map == old(self).map,
                times == old(self)@.times(),
                forall|k: u32| order.contains(k) ==> self.map@.contains_key(k),
                i <= order.len(),
                forall|j: int| 0 <= j < i ==> times[#[trigger] order[j]] > ts,
            ensures
                i == order.len() || times[order[i as int]] <= ts,
            decreases order.len() - i,
        {
            let k = self.timestamp_sorted[i];
            assert(order.contains(k));
            let other_ts = match self.map.get(&k) {
                Some(other) => other.get_timestamp(),
                None => 0,
            };
            assert(other_ts == times[k]);
            if ts >= other_ts {
                break ;
            }
            i = i + 1;
        }
        proof {
            lemma_landing_skip(order, times, ts, i as int);
        }
        self.timestamp_sorted.insert(i, key);
    }

    /// Holds `entry` under `key`, in place of what was held there.
    pub fn insert(&mut self, key: u32, entry: T)
        requires
            old(self).wf(),
        ensures
            final(self).wf(),
            final(self)@ == old(self)@.inserted(key, entry),
    {
        let ts = entry.get_timestamp();
        self.unlist(key);
        let ghost base = self.timestamp_sorted@;
        let ghost times = self@.times();
        assert(times == old(self)@.times());
        self.enlist(key, ts);
        self.map.insert(key, entry);
        proof {
            lemma_placed_wf(base, times, key, ts);
            let after = self@;
            let p = landing(base, times, ts, 0);
            assert(after.order == base.insert(p, key));
            assert(after.entries == old(self)@.entries.insert(key, entry));
            assert forall|k: u32| after.entries.contains_key(k) <==> after.order.contains(k) by {
                if after.order.contains(k) {
                    let i = choose|i: int| 0 <= i < after.order.len() && after.order[i] == k;
                    if i < p {
                        assert(base[i] == k);
                        assert(base.contains(k));
                    } else if i > p {
                        assert(base[i - 1] == k);
                        assert(base.contains(k));
                    }
                }
                if after.entries.contains_key(k) {
                    if k == key {
                        assert(after.order[p] == key);
                    } else {
                        assert(base.contains(k));
                        let i = choose|i: int| 0 <= i < base.len() && base[i] == k;
                        let i1 = if i < p { i } else { i + 1 };
                        assert(after.order[i1] == k);
                    }
                }
            }
            assert forall|i: int, j: int|
                0 <= i < j < after.order.len() implies after.times()[#[trigger] after.order[i]]
                >= after.times()[#[trigger] after.order[j]] by {
                let ki = after.order[i];
                let kj = after.order[j];
                let tmap = times.insert(key, ts);
                assert(after.order.contains(ki));
                assert(after.order.contains(kj));
                assert(after.times()[ki] == tmap[ki]);
                assert(after.times()[kj] == tmap[kj]);
            }
        }
    }

    /// Holds `new_entry` under `key` in place of the entry held there. The
    /// entry keeps its place in the index where its time is unchanged.
    pub fn update(&mut self, key: u32, new_entry: T)
        requires
            old(self).wf(),
        ensures
            final(self).wf(),
            final(self)@ == old(self)@.updated(key, new_entry),
    {
        let same_time = match self.map.get(&key) {
            Some(held) => held.get_timestamp() == new_entry.get_timestamp(),
            None => false,
        };
        if same_time {
            self.map.insert(key, new_entry);
            proof {
                assert(self@.times() =~= old(self)@.times());
                assert(self@.entries.dom() =~= old(self)@.entries.dom());
            }
        } else {
            self.insert(key, new_entry);
        }
    }

    /// Takes the entry under `key` out, where there is one.
    pub(crate) fn take(&mut self, key: u32) -> (entry: Option<T>)
        requires
            old(self).wf(),
        ensures
            final(self).wf(),
            final(self)@ == old(self)@.removed(key),
            entry == (if old(self)@.entries.contains_key(key) {
                Some(old(self)@.entries[key])
            } else {
                None
            }),
    {
        self.unlist(key);
        let entry = self.map.remove(&key);
        proof {
            let before = old(self)@;
            let after = self@;
            assert(newest_first(after.order, before.times()));
            assert forall|i: int, j: int| 0 <= i < j < after.order.len() implies after.times()[
                #[trigger] after.order[i]] >= after.times()[#[trigger] after.order[j]] by {
                let ki = after.order[i];
                let kj = after.order[j];
                assert(after.order.contains(ki));
                assert(after.order.contains(kj));
                assert(after.times()[ki] == before.times()[ki]);
                assert(after.times()[kj] == before.times()[kj]);
            }
        }
        entry
    }

    /// The keys of the entries that are newer than `after`, newest first;
    /// with a limit, the first `limit` of them.
    pub fn list(&self, limit: Option<usize>, after: Option<u128>) -> (keys: Vec<u32>)
        requires
            self.wf(),
        ensures
            keys@ == self@.page(limit, after),
    {
        let ghost order = self@.order;
        let ghost times = self@.times();
        let mut keys: Vec<u32> = Vec::new();
        let mut i: usize = 0;
        while i < self.timestamp_sorted.len()
            invariant
                self.wf(),
                order == self@.order,
                times == self@.times(),
                i <= order.len(),
                keys@ == order.take(i as int),
                forall|j: int| 0 <= j < i ==> is_after(times[#[trigger] order[j]], after),
                limit matches Some(n) ==> i <= n,
            ensures
                i <= order.len(),
                keys@ == order.take(i as int),
                forall|j: int| 0 <= j < i ==> is_after(times[#[trigger] order[j]], after),
                limit matches Some(n) ==> i <= n,
                i == order.len() || limit == Some(i) || !is_after(times[order[i as int]], after),
            decreases order.len() - i,
        {
            let full = match limit {
                Some(n) => i >= n,
                None => false,
            };
            if full {
                break ;
            }
            let k = self.timestamp_sorted[i];
            assert(order.contains(k));
            let ts = match self.map.get(&k) {
                Some(entry) => entry.get_timestamp(),
                None => 0,
            };
            let seen = match after {
                Some(bound) => ts <= bound,
                None => false,
            };
            if seen {
                break ;
            }
            keys.push(k);
            assert(keys@ =~= order.take(i + 1));
            i = i + 1;
        }
        proof {
            let c = lemma_newer_prefix(order, times, after);
            let fresh = self@.newer_than(after);
            assert(fresh == order.take(c));
            if i > c {
                assert(is_after(times[order[c]], after));
            }
            if i < c {
                assert(limit == Some(i));
                assert(fresh.take(i as int) =~= order.take(i as int));
            } else {
                assert(order.take(i as int) =~= fresh);
            }
        }
        keys
    }
}

impl<T: TimeStamped> TimeStamped for DBMap<T> {
    /// A map is as new as its newest entry; an empty one has time 0.
    open spec fn timestamp(&self) -> u128 {
        self@.newest_time()
    }

    fn get_timestamp(&self) -> (timestamp: u128) {
        if self.timestamp_sorted.len() > 0 {
            match self.map.get(&self.timestamp_sorted[0]) {
                Some(newest) => newest.get_timestamp(),
                None => 0,
            }
        } else {
            0
        }
    }
}

/// Which of its two fields an entry is read from.
#[derive(Clone, Copy, Debug, PartialEq, Eq, Structural)]
pub enum DBEntryType {
    Message,
    Sendable,
}

/// One entry of a mailbox: a chat message, or another event that was kept.
pub struct DBEntry {
    pub message: Option<Message>,
    pub sendable: Option<Sendable>,
    pub entry_type: DBEntryType,
}

impl DBEntry {
    pub fn message(message: Message) -> (entry: Self)
        ensures
            entry == (DBEntry {
                message: Some(message),
                sendable: None,
                entry_type: DBEntryType::Message,
            }),
    {
        Self { message: Some(message), sendable: None, entry_type: DBEntryType::Message }
    }

    pub fn sendable(sendable: Sendable) -> (entry: Self)
        ensures
            entry == (DBEntry {
                message: None,
                sendable: Some(sendable),
                entry_type: DBEntryType::Sendable,
            }),
    {
        Self { message: None, sendable: Some(sendable), entry_type: DBEntryType::Sendable }
    }

    /// The chat message that the entry keeps, where it keeps one.
    pub open spec fn kept_message(&self) -> Option<Message> {
        match self.entry_type {
            DBEntryType::Message => self.message,
            DBEntryType::Sendable => None,
        }
    }

    pub fn as_message(&self) -> (message: Option<&Message>)
        ensures
            message == (match self.kept_message() {
                Some(m) => Some(&m),
                None => None,
            }),
    {
        match self.entry_type {
            DBEntryType::Message => self.message.as_ref(),
            DBEntryType::Sendable => None,
        }
    }

    /// The event as which the entry travels in a list: the event that is
    /// kept, and for a chat message a message event around `payload`, the
    /// JSON rendering of the message. `None` where the field that the type
    /// names is empty.
    pub open spec fn listed_as(&self, payload: String) -> Option<Sendable> {
        match self.entry_type {
            DBEntryType::Message => if self.message is Some {
                Some(
                    Sendable {
                        sendable_type: SendableType::Message,
                        data: payload,
                        timestamp: None,
                    },
                )
            } else {
                None
            },
            DBEntryType::Sendable => self.sendable,
        }
    }

    pub fn as_sendable(&self, payload: String) -> (event: Option<Sendable>)
        ensures
            event == self.listed_as(payload),
    {
        match self.entry_type {
            DBEntryType::Message => match &self.message {
                Some(_) => Some(Sendable::new(SendableType::Message, payload, None)),
                None => None,
            },
            DBEntryType::Sendable => match &self.sendable {
                Some(sendable) => Some(sendable.clone()),
                None => None,
            },
        }
    }
}

impl TimeStamped for DBEntry {
    /// The time of the message or of the event; 0 where the field that the
    /// type names is empty, or the event carries no time.
    open spec fn timestamp(&self) -> u128 {
        match self.entry_type {
            DBEntryType::Message => match self.message {
                Some(message) => message.timestamp,
                None => 0,
            },
            DBEntryType::Sendable => match self.sendable {
                Some(sendable) => match sendable.timestamp {
                    Some(t) => t,
                    None => 0,
                },
                None => 0,
            },
        }
    }

    fn get_timestamp(&self) -> (timestamp: u128) {
        match self.entry_type {
            DBEntryType::Message => match &self.message {
                Some(message) => message.timestamp,
                None => 0,
            },
            DBEntryType::Sendable => match &self.sendable {
                Some(sendable) => match sendable.timestamp {
                    Some(t) => t,
                    None => 0,
                },
                None => 0,
            },
        }
    }
}

/// Why a mailbox query found nothing.
#[derive(Clone, Copy, Debug, PartialEq, Eq, Structural)]
pub enum MailboxError {
    /// The user holds no entries of that chat.
    UnknownChat,
    /// The chat holds no entry of that id.
    NotFound,
}

/// What a user's mailbox holds: a log for each chat, and the chats from the
/// one with the newest entry to the one with the oldest.
pub struct UserDBView {
    pub logs: Map<u32, DBMapView<DBEntry>>,
    pub chats: Seq<u32>,
}

impl UserDBView {
    /// The mailbox that holds nothing.
    pub open spec fn empty() -> Self {
        UserDBView { logs: Map::empty(), chats: Seq::empty() }
    }

    /// The time of the newest entry of each chat.
    pub open spec fn chat_times(self) -> Map<u32, u128> {
        Map::new(|c: u32| self.logs.contains_key(c), |c: u32| self.logs[c].newest_time())
    }

    /// Every log is in order, and so is the index of the chats.
    pub open spec fn wf(self) -> bool {
        &&& self.chats.no_duplicates()
        &&& forall|c: u32| self.logs.contains_key(c) <==> self.chats.contains(c)
        &&& newest_first(self.chats, self.chat_times())
        &&& forall|c: u32| self.logs.contains_key(c) ==> (#[trigger] self.logs[c]).wf()
    }

    /// The log of `chat`; an empty one where the mailbox has none.
    pub open spec fn log(self, chat: u32) -> DBMapView<DBEntry> {
        if self.logs.contains_key(chat) {
            self.logs[chat]
        } else {
            DBMapView { entries: Map::empty(), order: Seq::empty() }
        }
    }

    /// The state after the log of `chat` became `log`: the chat lands in the
    /// index by the time of its newest entry.
    pub open spec fn with_log(self, chat: u32, log: DBMapView<DBEntry>) -> Self {
        UserDBView {
            logs: self.logs.insert(chat, log),
            chats: placed(
                self.chats.remove_value(chat),
                self.chat_times(),
                chat,
                log.newest_time(),
            ),
        }
    }

    /// What a query for the entry `id` of `chat` misses; `None` where the
    /// mailbox holds the entry.
    pub open spec fn missing(self, chat: u32, id: u32) -> Option<MailboxError> {
        if !self.logs.contains_key(chat) {
            Some(MailboxError::UnknownChat)
        } else if !self.logs[chat].entries.contains_key(id) {
            Some(MailboxError::NotFound)
        } else {
            None
        }
    }

    /// The state after `entry` was appended to `chat` under `id`.
    pub open spec fn appended(self, chat: u32, id: u32, entry: DBEntry) -> Self {
        self.with_log(chat, self.log(chat).inserted(id, entry))
    }

    /// The state after the entry `id` of `chat` was replaced by `entry`.
    pub open spec fn updated(self, chat: u32, id: u32, entry: DBEntry) -> Self {
        self.with_log(chat, self.log(chat).updated(id, entry))
    }
}

/// The mailbox of one user.
pub struct UserDB {
    messages: DBMap<DBMap<DBEntry>>,
}

impl View for UserDB {
    type V = UserDBView;

    closed spec fn view(&self) -> UserDBView {
        UserDBView {
            logs: Map::new(
                |c: u32| self.messages@.entries.contains_key(c),
                |c: u32| self.messages@.entries[c]@,
            ),
            chats: self.messages@.order,
        }
    }
}

/// One entry of a page: the id, and the entry held under it.
pub struct Listed<'a> {
    pub id: u32,
    pub entry: &'a DBEntry,
}

/// The ids of a page, in order.
pub open spec fn listed_ids(page: Seq<Listed>) -> Seq<u32> {
    page.map_values(|item: Listed| item.id)
}

impl UserDB {
    /// Every log is in order, and so is the index of the chats.
    pub open spec fn wf(&self) -> bool {
        self@.wf()
    }

    proof fn lemma_outer(&self)
        ensures
            self@.chat_times() == self.messages@.times(),
            self@.wf() ==> self.messages.wf(),
    {
        assert(self@.chat_times() =~= self.messages@.times());
    }

    pub fn new() -> (db: Self)
        ensures
            db.wf(),
            db@ == UserDBView::empty(),
    {
        let db = Self { messages: DBMap::new() };
        proof {
            assert(db@.logs =~= Map::<u32, DBMapView<DBEntry>>::empty());
            db.lemma_outer();
        }
        db
    }

    /// Takes the log of `chat` out of the mailbox; a fresh one where there is none.
    fn lift(&mut self, chat: u32) -> (log: DBMap<DBEntry>)
        requires
            old(self).wf(),
        ensures
            log.wf(),
            log@ == old(self)@.log(chat),
            final(self).messages.wf(),
            final(self).messages@ == old(self).messages@.removed(chat),
    {
        proof {
            self.lemma_outer();
        }
        match self.messages.take(chat) {
            Some(log) => {
                assert(old(self)@.logs.contains_key(chat));
                assert(old(self)@.logs[chat].wf());
                log
            },
            None => {
                assert(!old(self)@.logs.contains_key(chat));
                let log: DBMap<DBEntry> = DBMap::new();
                assert(log@ == old(self)@.log(chat));
                log
            },
        }
    }

    /// Puts the log of `chat` back after `lift`.
    fn lower(&mut self, chat: u32, log: DBMap<DBEntry>, Ghost(before): Ghost<UserDB>)
        requires
            before.wf(),
            log.wf(),
            old(self).messages.wf(),
            old(self).messages@ == before.messages@.removed(chat),
        ensures
            final(self).wf(),
            final(self)@ == before@.with_log(chat, log@),
    {
        let ghost lifted = self.messages@;
        self.messages.insert(chat, log);
        proof {
            before.lemma_outer();
            self.lemma_outer();
            let outer = before.messages@;
            let base = outer.order.remove_value(chat);
            assert(lifted.order == base);
            if outer.order.contains(chat) {
                let at = choose|i: int| 0 <= i < outer.order.len() && outer.order[i] == chat;
                lemma_remove_value(outer.order, chat, at);
            } else {
                lemma_remove_value_absent(outer.order, chat);
            }
            assert(!base.contains(chat));
            lemma_remove_value_absent(base, chat);
            assert forall|j: int| 0 <= j < base.len() implies lifted.times()[#[trigger] base[j]]
                == outer.times()[base[j]] by {
                assert(base.contains(base[j]));
            }
            lemma_landing_agree(base, lifted.times(), outer.times(), log@.newest_time(), 0);
            assert(self@.chats == before@.with_log(chat, log@).chats);
            assert(self@.logs =~= before@.with_log(chat, log@).logs);
            assert forall|c: u32| self@.logs.contains_key(c) implies (
            #[trigger] self@.logs[c]).wf() by {
                if c != chat {
                    assert(before@.logs.contains_key(c));
                    assert(before@.logs[c].wf());
                }
            }
        }
    }

    /// Appends `entry` to the log of `chat` under `id`.
    pub fn append(&mut self, chat: u32, id: u32, entry: DBEntry)
        requires
            old(self).wf(),
        ensures
            final(self).wf(),
            final(self)@ == old(self)@.appended(chat, id, entry),
    {
        let ghost before = *self;
        let mut log = self.lift(chat);
        log.insert(id, entry);
        self.lower(chat, log, Ghost(before));
    }

    /// Replaces the entry `id` of `chat` by `entry`. The entry keeps its
    /// place in the log where its time is unchanged.
    pub fn update(&mut self, chat: u32, id: u32, entry: DBEntry) -> (done: Result<(), MailboxError>)
        requires
            old(self).wf(),
        ensures
            final(self).wf(),
            match done {
                Ok(()) => old(self)@.missing(chat, id) is None
                    && final(self)@ == old(self)@.updated(chat, id, entry),
                Err(e) => old(self)@.missing(chat, id) == Some(e) && final(self)@ == old(self)@,
            },
    {
        let known = match self.messages.get(&chat) {
            Some(log) => Ok(log.contains_key(&id)),
            None => Err(MailboxError::UnknownChat),
        };
        match known {
            Err(e) => Err(e),
            Ok(false) => Err(MailboxError::NotFound),
            Ok(true) => {
                let ghost before = *self;
                let mut log = self.lift(chat);
                log.update(id, entry);
                self.lower(chat, log, Ghost(before));
                Ok(())
            },
        }
    }

    /// The entry `id` of `chat`.
    pub fn get(&self, chat: u32, id: u32) -> (found: Result<&DBEntry, MailboxError>)
        ensures
            match found {
                Ok(entry) => self@.missing(chat, id) is None && *entry
                    == self@.logs[chat].entries[id],
                Err(e) => self@.missing(chat, id) == Some(e),
            },
    {
        match self.messages.get(&chat) {
            Some(log) => match log.get(&id) {
                Some(entry) => Ok(entry),
                None => Err(MailboxError::NotFound),
            },
            None => Err(MailboxError::UnknownChat),
        }
    }

    /// The entries of `chat` that are newer than `after`, newest first; with
    /// a limit, the first `limit` of them.
    pub fn list(&self, chat: u32, limit: Option<usize>, after: Option<u128>) -> (found: Result<
        Vec<Listed<'_>>,
        MailboxError,
    >)
        requires
            self.wf(),
        ensures
            match found {
                Ok(page) => {
                    let log = self@.logs[chat];
                    &&& self@.logs.contains_key(chat)
                    &&& listed_ids(page@) == log.page(limit, after)
                    &&& forall|i: int|
                        0 <= i < page@.len() ==> log.entries.contains_key((#[trigger] page@[i]).id)
                            && *page@[i].entry == log.entries[page@[i].id]
                },
                Err(e) => e == MailboxError::UnknownChat && !self@.logs.contains_key(chat),
            },
    {
        match self.messages.get(&chat) {
            Some(log) => {
                assert(self@.logs.contains_key(chat));
                assert(self@.logs[chat].wf());
                let ids = log.list(limit, after);
                let ghost wanted = log@.page(limit, after);
                proof {
                    lemma_page_held(log@, limit, after);
                }
                let mut page: Vec<Listed<'_>> = Vec::new();
                let mut i: usize = 0;
                while i < ids.len()
                    invariant
                        i <= ids@.len(),
                        ids@ == wanted,
                        forall|j: int|
                            0 <= j < wanted.len() ==> log@.entries.contains_key(
                                #[trigger] wanted[j],
                            ),
                        page@.len() == i,
                        forall|j: int|
                            0 <= j < i ==> (#[trigger] page@[j]).id == wanted[j] && *page@[j].entry
                                == log@.entries[wanted[j]],
                    decreases ids@.len() - i,
                {
                    let id = ids[i];
                    match log.get(&id) {
                        Some(entry) => {
                            page.push(Listed { id, entry });
                        },
                        None => {
                            assert(false);
                        },
                    }
                    i = i + 1;
                }
                assert(listed_ids(page@) =~= wanted);
                Ok(page)
            },
            None => Err(MailboxError::UnknownChat),
        }
    }

    /// The log of `chat`, where the mailbox has one.
    pub fn log(&self, chat: u32) -> (held: Option<&DBMap<DBEntry>>)
        requires
            self.wf(),
        ensures
            match held {
                Some(log) => self@.logs.contains_key(chat) && log@ == self@.logs[chat] && log.wf(),
                None => !self@.logs.contains_key(chat),
            },
    {
        let held = self.messages.get(&chat);
        proof {
            if self@.logs.contains_key(chat) {
                assert(self@.logs[chat].wf());
            }
        }
        held
    }

    /// The chats of which the mailbox holds entries, from the one with the
    /// newest entry to the one with the oldest.
    pub fn list_chats(&self) -> (chats: &Vec<u32>)
        ensures
            chats@ == self@.chats,
    {
        self.messages.keys()
    }
}

/// Every key of a page names an entry.
pub proof fn lemma_page_held<T: TimeStamped>(
    log: DBMapView<T>,
    limit: Option<usize>,
    after: Option<u128>,
)
    requires
        log.wf(),
    ensures
        forall|j: int|
            0 <= j < log.page(limit, after).len() ==> log.entries.contains_key(
                #[trigger] log.page(limit, after)[j],
            ),
{
    let c = lemma_newer_prefix(log.order, log.times(), after);
    let fresh = log.newer_than(after);
    assert(fresh == log.order.take(c));
    assert forall|j: int| 0 <= j < log.page(limit, after).len() implies log.entries.contains_key(
        #[trigger] log.page(limit, after)[j],
    ) by {
        assert(log.page(limit, after)[j] == log.order[j]);
        assert(log.order.contains(log.order[j]));
    }
}

/// The entry `message` of `chat` in the mailbox of the user behind `token`.
pub fn get_message<'a>(token: u32, chat: u32, message: u32, server: &'a Server) -> (found: Result<
    &'a DBEntry,
    QueryError,
>)
    requires
        server.wf(),
    ensures
        match found {
            Ok(entry) => server@.entry_refusal(token, chat, message) is None && *entry
                == server@.mailbox(token).logs[chat].entries[message],
            Err(e) => server@.entry_refusal(token, chat, message) == Some(e),
        },
{
    let user = match server.resolve(token) {
        Some(user) => user,
        None => {
            return Err(QueryError::InvalidToken);
        },
    };
    match server.mailbox(user) {
        Some(db) => match db.get(chat, message) {
            Ok(entry) => Ok(entry),
            Err(MailboxError::UnknownChat) => Err(QueryError::UnknownChat),
            Err(MailboxError::NotFound) => Err(QueryError::NotFound),
        },
        None => Err(QueryError::UnknownChat),
    }
}

/// The entries of `chat` in the mailbox of the user behind `token` that are
/// newer than `after`, newest first; with `number`, the first `number` of
/// them.
pub fn get_chat_messages<'a>(
    token: u32,
    chat: u32,
    number: Option<usize>,
    after: Option<u128>,
    server: &'a Server,
) -> (found: Result<Vec<Listed<'a>>, QueryError>)
    requires
        server.wf(),
    ensures
        match found {
            Ok(page) => {
                let log = server@.mailbox(token).logs[chat];
                &&& server@.log_refusal(token, chat) is None
                &&& listed_ids(page@) == log.page(number, after)
                &&& forall|i: int|
                    0 <= i < page@.len() ==> log.entries.contains_key((#[trigger] page@[i]).id)
                        && *page@[i].entry == log.entries[page@[i].id]
            },
            Err(e) => server@.log_refusal(token, chat) == Some(e),
        },
{
    let user = match server.resolve(token) {
        Some(user) => user,
        None => {
            return Err(QueryError::InvalidToken);
        },
    };
    match server.mailbox(user) {
        Some(db) => match db.list(chat, number, after) {
            Ok(page) => Ok(page),
            Err(_) => Err(QueryError::UnknownChat),
        },
        None => Err(QueryError::UnknownChat),
    }
}

/// The chats of which the user behind `token` holds entries, from the one
/// with the newest entry to the one with the oldest.
pub fn get_chats(token: u32, server: &Server) -> (found: Result<Vec<u32>, QueryError>)
    requires
        server.wf(),
    ensures
        match found {
            Ok(chats) => server@.logged_in(token) && chats@ == server@.mailbox(token).chats,
            Err(e) => e == QueryError::InvalidToken && !server@.logged_in(token),
        },
{
    let user = match server.resolve(token) {
        Some(user) => user,
        None => {
            return Err(QueryError::InvalidToken);
        },
    };
    let mut chats: Vec<u32> = Vec::new();
    match server.mailbox(user) {
        Some(db) => {
            let held = db.list_chats();
            let mut i: usize = 0;
            while i < held.len()
                invariant
                    i <= held@.len(),
                    chats@ == held@.take(i as int),
                decreases held@.len() - i,
            {
                chats.push(held[i]);
                assert(chats@ =~= held@.take(i + 1));
                i = i + 1;
            }
            assert(held@.take(i as int) =~= held@);
        },
        None => {},
    }
    Ok(chats)
}

/// A page holds at most as many keys as the limit allows, runs from newest
/// to oldest, and names nothing but entries that the log holds.
pub proof fn lemma_page_bounded<T: TimeStamped>(
    log: DBMapView<T>,
    limit: Option<usize>,
    after: Option<u128>,
)
    requires
        log.wf(),
    ensures
        limit matches Some(n) ==> log.page(limit, after).len() <= n,
        newest_first(log.page(limit, after), log.times()),
        log.page(limit, after).no_duplicates(),
        forall|j: int|
            0 <= j < log.page(limit, after).len() ==> log.entries.contains_key(
                #[trigger] log.page(limit, after)[j],
            ),
{
    let c = lemma_newer_prefix(log.order, log.times(), after);
    let page = log.page(limit, after);
    lemma_page_held(log, limit, after);
    assert forall|i: int, j: int| 0 <= i < j < page.len() implies log.times()[#[trigger] page[i]]
        >= log.times()[#[trigger] page[j]] by {
        assert(page[i] == log.order[i]);
        assert(page[j] == log.order[j]);
    }
    assert forall|i: int, j: int|
        0 <= i < page.len() && 0 <= j < page.len() && i != j implies page[i] != page[j] by {
        assert(page[i] == log.order[i]);
        assert(page[j] == log.order[j]);
    }
}

/// Without a limit, a page names exactly the entries that are newer than
/// `after`, each of them once.
pub proof fn lemma_page_exact<T: TimeStamped>(log: DBMapView<T>, after: u128)
    requires
        log.wf(),
    ensures
        log.page(None, Some(after)).no_duplicates(),
        forall|k: u32|
            log.page(None, Some(after)).contains(k) <==> log.entries.contains_key(k)
                && log.entries[k].timestamp() > after,
{
    let bound = Some(after);
    let c = lemma_newer_prefix(log.order, log.times(), bound);
    let page = log.page(None, bound);
    lemma_page_bounded(log, None, bound);
    assert(page == log.order.take(c));
    assert forall|k: u32| page.contains(k) <==> log.entries.contains_key(k)
        && log.entries[k].timestamp() > after by {
        if page.contains(k) {
            let j = choose|j: int| 0 <= j < page.len() && page[j] == k;
            assert(log.order[j] == k);
            assert(log.order.contains(k));
            assert(is_after(log.times()[log.order[j]], bound));
        }
        if log.entries.contains_key(k) && log.entries[k].timestamp() > after {
            assert(log.order.contains(k));
            let j = choose|j: int| 0 <= j < log.order.len() && log.order[j] == k;
            if j >= c {
                assert(log.times()[log.order[c]] >= log.times()[log.order[j]]);
            }
            assert(page[j] == k);
        }
    }
}

/// Every entry that a page of a chat names is found under its id: a query
/// for it misses nothing, and so yields the entry that the page holds.
pub proof fn lemma_listed_is_found(
    db: UserDBView,
    chat: u32,
    limit: Option<usize>,
    after: Option<u128>,
)
    requires
        db.wf(),
        db.logs.contains_key(chat),
    ensures
        forall|j: int|
            0 <= j < db.logs[chat].page(limit, after).len() ==> db.missing(
                chat,
                #[trigger] db.logs[chat].page(limit, after)[j],
            ) is None,
{
    assert(db.logs[chat].wf());
    lemma_page_held(db.logs[chat], limit, after);
}

/// Among entries of the same time, the one that was appended later stands
/// nearer to the newest end: a fresh entry lands behind every entry that is
/// newer and before every entry of its own time or older.
pub proof fn lemma_inserted_position<T: TimeStamped>(log: DBMapView<T>, key: u32, entry: T)
    requires
        log.wf(),
        !log.entries.contains_key(key),
    ensures
        log.inserted(key, entry).wf(),
        log.inserted(key, entry).order == log.order.insert(
            landing(log.order, log.times(), entry.timestamp(), 0),
            key,
        ),
        0 <= landing(log.order, log.times(), entry.timestamp(), 0) <= log.order.len(),
        forall|j: int|
            0 <= j < landing(log.order, log.times(), entry.timestamp(), 0) ==> log.times()[
                #[trigger] log.order[j]] > entry.timestamp(),
        forall|j: int|
            landing(log.order, log.times(), entry.timestamp(), 0) <= j < log.order.len()
                ==> log.times()[#[trigger] log.order[j]] <= entry.timestamp(),
{
    let ts = entry.timestamp();
    let times = log.times();
    let p = landing(log.order, times, ts, 0);
    lemma_remove_value_absent(log.order, key);
    lemma_landing_bounds(log.order, times, ts, 0);
    lemma_placed_wf(log.order, times, key, ts);
    let after = log.inserted(key, entry);
    assert(after.times() =~= times.insert(key, ts));
    assert forall|k: u32| after.entries.contains_key(k) <==> after.order.contains(k) by {
        if after.order.contains(k) {
            let i = choose|i: int| 0 <= i < after.order.len() && after.order[i] == k;
            if i < p {
                assert(log.order[i] == k);
                assert(log.order.contains(k));
            } else if i > p {
                assert(log.order[i - 1] == k);
                assert(log.order.contains(k));
            }
        }
        if after.entries.contains_key(k) {
            if k == key {
                assert(after.order[p] == key);
            } else {
                assert(log.order.contains(k));
                let i = choose|i: int| 0 <= i < log.order.len() && log.order[i] == k;
                let i1 = if i < p { i } else { i + 1 };
                assert(after.order[i1] == k);
            }
        }
    }
    assert forall|j: int| p <= j < log.order.len() implies times[#[trigger] log.order[j]] <= ts by {
        if j > p {
            assert(times[log.order[p]] >= times[log.order[j]]);
        }
    }
}

} // verus!
