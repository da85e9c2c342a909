//! The responses that the proxy keeps, and the requests that are under way.

use crate::json::{array_of, copy_values, Json, JsonValue};
use crate::table::{
    entries_map, lemma_entries_len, lemma_entries_map, lemma_table_view, Table,
};
use crate::text::texts;
use vstd::prelude::*;
use vstd::string::*;

verus! {

/// A response that is kept, with what its request held. The time at which it came in is
/// in nanoseconds on the proxy's own clock.
#[derive(Debug)]
pub struct StoredResponse {
    pub response: JsonValue,
    pub input_items: Vec<JsonValue>,
    pub request_messages: Vec<JsonValue>,
    pub inserted_at: u128,
}

/// What a [`StoredResponse`] stands for.
#[verifier::ext_equal]
pub struct Stored {
    pub response: Json,
    pub input_items: Seq<Json>,
    pub request_messages: Seq<Json>,
    pub inserted_at: u128,
}

impl View for StoredResponse {
    type V = Stored;

    open spec fn view(&self) -> Stored {
        Stored {
            response: self.response@,
            input_items: array_of(self.input_items@),
            request_messages: array_of(self.request_messages@),
            inserted_at: self.inserted_at,
        }
    }
}

impl DeepView for StoredResponse {
    type V = Stored;

    open spec fn deep_view(&self) -> Stored {
        self@
    }
}

impl Clone for StoredResponse {
    fn clone(&self) -> (copy: Self)
        ensures
            copy@ == self@,
    {
        StoredResponse {
            response: self.response.clone(),
            input_items: copy_values(&self.input_items),
            request_messages: copy_values(&self.request_messages),
            inserted_at: self.inserted_at,
        }
    }
}

/// The whole seconds from `then` to `now`, zero where `now` comes first.
pub open spec fn elapsed_seconds(then: u128, now: u128) -> int {
    if now < then {
        0
    } else {
        (now - then) / 1_000_000_000
    }
}

/// Whether a response is still kept at `now`.
pub open spec fn is_alive(s: Stored, now: u128, ttl: u64) -> bool {
    elapsed_seconds(s.inserted_at, now) < ttl
}

/// The responses that are still kept at `now`.
pub open spec fn alive_at(m: Map<Seq<char>, Stored>, now: u128, ttl: u64) -> Map<
    Seq<char>,
    Stored,
> {
    Map::new(|k: Seq<char>| m.contains_key(k) && is_alive(m[k], now, ttl), |k: Seq<char>| m[k])
}

/// The responses after one more came in. Whenever their number is a multiple of 32, the
/// expired ones are dropped.
pub open spec fn after_put(
    m: Map<Seq<char>, Stored>,
    id: Seq<char>,
    s: Stored,
    now: u128,
    ttl: u64,
) -> Map<Seq<char>, Stored> {
    let grown = m.insert(id, s);
    if grown.dom().len() % 32 == 0 {
        alive_at(grown, now, ttl)
    } else {
        grown
    }
}

/// The responses after the one under `id` was replaced.
pub open spec fn after_update(m: Map<Seq<char>, Stored>, id: Seq<char>, response: Json) -> Map<
    Seq<char>,
    Stored,
> {
    if m.contains_key(id) {
        m.insert(id, Stored { response, ..m[id] })
    } else {
        m
    }
}

/// What a table of responses stands for.
pub open spec fn stored_map(t: Table<StoredResponse>) -> Map<Seq<char>, Stored> {
    Map::new(|k: Seq<char>| t@.contains_key(k), |k: Seq<char>| t@[k]@)
}

/// The responses that the proxy keeps.
#[derive(Debug)]
pub struct ResponseStore {
    entries: Table<StoredResponse>,
    ttl_seconds: u64,
}

impl View for ResponseStore {
    type V = Map<Seq<char>, Stored>;

    closed spec fn view(&self) -> Map<Seq<char>, Stored> {
        stored_map(self.entries)
    }
}

fn alive(s: &StoredResponse, now: u128, ttl: u64) -> (b: bool)
    ensures
        b == is_alive(s@, now, ttl),
{
    let seconds: u128 = if now < s.inserted_at {
        0
    } else {
        (now - s.inserted_at) / 1_000_000_000
    };
    seconds < ttl as u128
}

impl ResponseStore {
    /// How long responses are kept, in seconds.
    pub closed spec fn ttl(self) -> u64 {
        self.ttl_seconds
    }

    pub fn with_ttl(ttl_seconds: u64) -> (store: ResponseStore)
        ensures
            store@ == Map::<Seq<char>, Stored>::empty(),
            store.ttl() == ttl_seconds,
    {
        let store = ResponseStore { entries: Table::new(), ttl_seconds };
        assert(store@ =~= Map::empty());
        store
    }

    /// The number of responses that are kept.
    pub fn len(&self) -> (n: usize)
        ensures
            n == self@.dom().len(),
            self@.dom().finite(),
    {
        self.entries.keys_are_distinct();
        proof {
            lemma_table_view(self.entries);
            lemma_entries_len(self.entries.spec_entries());
            assert(self@.dom() =~= self.entries@.dom());
        }
        self.entries.len()
    }

    /// Keeps a response.
    pub fn put(&mut self, response_id: String, stored: StoredResponse, now: u128)
        ensures
            final(self)@ == after_put(old(self)@, response_id@, stored@, now, old(self).ttl()),
            final(self).ttl() == old(self).ttl(),
    {
        self.entries.insert(response_id, stored);
        assert(self@ =~= old(self)@.insert(response_id@, stored@));
        if self.len() % 32 == 0 {
            let _removed = self.cleanup(now);
        }
    }

    /// The response under an identifier.
    pub fn get(&self, response_id: &str) -> (stored: Option<StoredResponse>)
        ensures
            stored.deep_view() == self@.get(response_id@),
    {
        match self.entries.get(response_id) {
            Some(s) => Some(s.clone()),
            None => None,
        }
    }

    /// Drops the response under an identifier, and gives it.
    pub fn delete(&mut self, response_id: &str) -> (stored: Option<StoredResponse>)
        ensures
            stored.deep_view() == old(self)@.get(response_id@),
            final(self)@ == old(self)@.remove(response_id@),
            final(self).ttl() == old(self).ttl(),
    {
        let stored = self.get(response_id);
        self.entries.remove(response_id);
        assert(self@ =~= old(self)@.remove(response_id@));
        stored
    }

    /// Replaces the response under an identifier, if there is one.
    pub fn update_response(&mut self, response_id: &str, response: JsonValue)
        ensures
            final(self)@ == after_update(old(self)@, response_id@, response@),
            final(self).ttl() == old(self).ttl(),
    {
        if let Some(stored) = self.get(response_id) {
            let updated = StoredResponse {
                response,
                input_items: stored.input_items,
                request_messages: stored.request_messages,
                inserted_at: stored.inserted_at,
            };
            self.entries.insert(response_id.to_owned(), updated);
            assert(self@ =~= after_update(old(self)@, response_id@, response@));
        }
    }

    fn expired(&self, now: u128) -> (keys: Vec<String>)
        ensures
            forall|k: Seq<char>| #[trigger]
                texts(keys@).contains(k) <==> self@.contains_key(k) && !is_alive(
                    self@[k],
                    now,
                    self.ttl(),
                ),
    {
        self.entries.keys_are_distinct();
        let ghost entries = self.entries.spec_entries();
        proof {
            lemma_table_view(self.entries);
            lemma_entries_map(entries);
        }
        let mut keys: Vec<String> = Vec::new();
        let mut i: usize = 0;
        while i < self.entries.len()
            invariant
                i <= entries.len(),
                entries == self.entries.spec_entries(),
                forall|k: Seq<char>| #[trigger]
                    texts(keys@).contains(k) <==> exists|j: int|
                        0 <= j < i && (#[trigger] entries[j]).0@ == k && !is_alive(
                            entries[j].1@,
                            now,
                            self.ttl(),
                        ),
            decreases entries.len() - i,
        {
            let (key, stored) = self.entries.entry(i);
            let ghost before = texts(keys@);
            if !alive(stored, now, self.ttl_seconds) {
                keys.push(key.clone());
                assert(texts(keys@) =~= before.push(key@));
                assert forall|k: Seq<char>| #[trigger]
                    texts(keys@).contains(k) <==> exists|j: int|
                        0 <= j < i + 1 && (#[trigger] entries[j]).0@ == k && !is_alive(
                            entries[j].1@,
                            now,
                            self.ttl(),
                        ) by {
                    if texts(keys@).contains(k) {
                        let x = choose|x: int| 0 <= x < texts(keys@).len() && texts(keys@)[x] == k;
                        if x < before.len() {
                            assert(before[x] == k);
                            assert(before.contains(k));
                        } else {
                            assert(entries[i as int].0@ == k);
                        }
                    }
                    if before.contains(k) {
                        let x = choose|x: int| 0 <= x < before.len() && before[x] == k;
                        assert(texts(keys@)[x] == k);
                    }
                    if k == key@ {
                        assert(texts(keys@)[before.len() as int] == k);
                    }
                }
            }
            i += 1;
        }
        assert forall|k: Seq<char>| #[trigger]
            texts(keys@).contains(k) <==> self@.contains_key(k) && !is_alive(
                self@[k],
                now,
                self.ttl(),
            ) by {
            if self@.contains_key(k) {
                assert(entries_map(entries).contains_key(k));
                let j = choose|j: int| 0 <= j < entries.len() && (#[trigger] entries[j]).0@ == k;
                assert(entries_map(entries)[entries[j].0@] == entries[j].1);
            }
            if texts(keys@).contains(k) {
                let j = choose|j: int|
                    0 <= j < entries.len() && (#[trigger] entries[j]).0@ == k && !is_alive(
                        entries[j].1@,
                        now,
                        self.ttl(),
                    );
                assert(entries_map(entries)[entries[j].0@] == entries[j].1);
            }
        }
        keys
    }

    /// Drops the expired responses, and says how many there were.
    pub fn cleanup(&mut self, now: u128) -> (removed: usize)
        ensures
            final(self)@ == alive_at(old(self)@, now, old(self).ttl()),
            final(self).ttl() == old(self).ttl(),
            removed == old(self)@.dom().len() - final(self)@.dom().len(),
    {
        let before = self.len();
        let keys = self.expired(now);
        let ghost all = self@;
        let mut i: usize = 0;
        while i < keys.len()
            invariant
                i <= keys@.len(),
                self.ttl() == old(self).ttl(),
                all == old(self)@,
                forall|k: Seq<char>| #[trigger]
                    self@.contains_key(k) <==> all.contains_key(k) && !texts(keys@).take(
                        i as int,
                    ).contains(k),
                forall|k: Seq<char>| #[trigger] self@.contains_key(k) ==> self@[k] == all[k],
            decreases keys@.len() - i,
        {
            let ghost now_kept = self@;
            self.entries.remove(keys[i].as_str());
            assert(self@ =~= now_kept.remove(keys@[i as int]@));
            proof {
                let done = texts(keys@).take(i as int);
                let next = texts(keys@).take(i + 1);
                assert(next =~= done.push(keys@[i as int]@));
                assert forall|k: Seq<char>|
                    next.contains(k) == (done.contains(k) || k == keys@[i as int]@) by {
                    if done.contains(k) {
                        let x = choose|x: int| 0 <= x < done.len() && done[x] == k;
                        assert(next[x] == k);
                    }
                    if next.contains(k) {
                        let x = choose|x: int| 0 <= x < next.len() && next[x] == k;
                        if x < done.len() {
                            assert(done[x] == k);
                        }
                    }
                    assert(next[i as int] == keys@[i as int]@);
                }
            }
            i += 1;
        }
        assert(texts(keys@).take(i as int) =~= texts(keys@));
        assert(self@ =~= alive_at(all, now, self.ttl()));
        let after = self.len();
        proof {
            lemma_kept_len(all, self@);
        }
        before - after
    }

    /// How often expired responses are looked for, in seconds; never where nothing is
    /// kept for any time.
    pub fn cleanup_interval(&self) -> (seconds: Option<u64>)
        ensures
            seconds == (if self.ttl() == 0 {
                None::<u64>
            } else if self.ttl() < 10 {
                Some(10u64)
            } else if self.ttl() < 60 {
                Some(self.ttl())
            } else {
                Some(60u64)
            }),
    {
        let ttl = self.ttl_seconds;
        if ttl == 0 {
            None
        } else if ttl < 10 {
            Some(10)
        } else if ttl < 60 {
            Some(ttl)
        } else {
            Some(60)
        }
    }
}

/// A part of the responses is not larger than the whole.
proof fn lemma_kept_len(all: Map<Seq<char>, Stored>, kept: Map<Seq<char>, Stored>)
    requires
        all.dom().finite(),
        forall|k: Seq<char>| #[trigger] kept.contains_key(k) ==> all.contains_key(k),
    ensures
        kept.dom().len() <= all.dom().len(),
{
    assert(kept.dom().subset_of(all.dom()));
    vstd::set_lib::lemma_len_subset(kept.dom(), all.dom());
}

/// A response that was just put is found, with all that was put along with it, as long
/// as responses are kept for any time at all; and putting it leaves the others that are
/// not expired where they were.
pub proof fn law_what_is_put_is_found(
    m: Map<Seq<char>, Stored>,
    id: Seq<char>,
    s: Stored,
    now: u128,
    ttl: u64,
    other: Seq<char>,
)
    requires
        is_alive(s, now, ttl),
    ensures
        after_put(m, id, s, now, ttl).get(id) == Some(s),
        other != id && m.contains_key(other) && is_alive(m[other], now, ttl) ==> after_put(
            m,
            id,
            s,
            now,
            ttl,
        ).get(other) == Some(m[other]),
{
}

/// A response that comes in now is alive, as long as responses are kept for any time.
pub proof fn law_fresh_responses_are_alive(s: Stored, ttl: u64)
    requires
        ttl > 0,
    ensures
        is_alive(s, s.inserted_at, ttl),
{
}

/// Nothing but what was put, deleted or expired changes: what is not expired and has
/// another identifier is found before and after a put.
pub proof fn law_nothing_comes_from_nowhere(
    m: Map<Seq<char>, Stored>,
    id: Seq<char>,
    s: Stored,
    now: u128,
    ttl: u64,
    other: Seq<char>,
)
    requires
        other != id,
        after_put(m, id, s, now, ttl).contains_key(other),
    ensures
        m.contains_key(other),
        after_put(m, id, s, now, ttl)[other] == m[other],
{
}

/// Replacing a response keeps the input items, the messages and the time that it came
/// with, and touches no other.
pub proof fn law_update_replaces_the_response_alone(
    m: Map<Seq<char>, Stored>,
    id: Seq<char>,
    response: Json,
    other: Seq<char>,
)
    ensures
        after_update(m, id, response).dom() == m.dom(),
        m.contains_key(id) ==> after_update(m, id, response)[id] == (Stored {
            response,
            ..m[id]
        }),
        other != id && m.contains_key(other) ==> after_update(m, id, response)[other] == m[other],
{
    assert(after_update(m, id, response).dom() =~= m.dom());
}

/// The requests that are under way, each with a mark that it was cancelled.
#[derive(Debug)]
pub struct InflightRegistry {
    flags: Table<bool>,
}

impl View for InflightRegistry {
    type V = Map<Seq<char>, bool>;

    closed spec fn view(&self) -> Map<Seq<char>, bool> {
        self.flags@
    }
}

impl Default for InflightRegistry {
    fn default() -> (r: Self)
        ensures
            r@ == Map::<Seq<char>, bool>::empty(),
    {
        InflightRegistry { flags: Table::new() }
    }
}

impl InflightRegistry {
    /// A request begins.
    pub fn start(&mut self, response_id: String)
        ensures
            final(self)@ == old(self)@.insert(response_id@, false),
    {
        self.flags.insert(response_id, false);
    }

    /// Marks a request as cancelled, and says whether it was under way.
    pub fn cancel(&mut self, response_id: &str) -> (found: bool)
        ensures
            found == old(self)@.contains_key(response_id@),
            final(self)@ == (if found {
                old(self)@.insert(response_id@, true)
            } else {
                old(self)@
            }),
    {
        if self.flags.contains_key(response_id) {
            self.flags.insert(response_id.to_owned(), true);
            true
        } else {
            false
        }
    }

    /// Whether a request is marked as cancelled.
    pub fn is_cancelled(&self, response_id: &str) -> (b: bool)
        ensures
            b == (self@.get(response_id@) == Some(true)),
    {
        match self.flags.get(response_id) {
            Some(b) => *b,
            None => false,
        }
    }

    /// A request ends.
    pub fn finish(&mut self, response_id: &str)
        ensures
            final(self)@ == old(self)@.remove(response_id@),
    {
        self.flags.remove(response_id);
    }

    /// The number of requests that are under way.
    pub fn count(&self) -> (n: usize)
        ensures
            n == self@.dom().len(),
    {
        self.flags.keys_are_distinct();
        proof {
            lemma_table_view(self.flags);
            lemma_entries_len(self.flags.spec_entries());
        }
        self.flags.len()
    }
}

/// A response is kept for as many seconds as responses are kept, and no longer; one that
/// came in after `now` is kept as long as responses are kept for any time at all.
pub proof fn law_responses_live_their_time(s: Stored, now: u128, ttl: u64)
    ensures
        s.inserted_at <= now ==> (is_alive(s, now, ttl) <==> now - s.inserted_at < ttl
            * 1_000_000_000),
        now < s.inserted_at ==> (is_alive(s, now, ttl) <==> ttl > 0),
{
}

/// Looking for expired responses drops those, and keeps the others as they were.
pub proof fn law_expired_responses_are_dropped(
    m: Map<Seq<char>, Stored>,
    id: Seq<char>,
    s: Stored,
    now: u128,
    ttl: u64,
    other: Seq<char>,
)
    ensures
        m.contains_key(other) && is_alive(m[other], now, ttl) ==> alive_at(m, now, ttl).get(other)
            == Some(m[other]),
        !m.contains_key(other) || !is_alive(m[other], now, ttl) ==> !alive_at(
            m,
            now,
            ttl,
        ).contains_key(other),
        m.insert(id, s).dom().len() % 32 == 0 && m.contains_key(other) && other != id && !is_alive(
            m[other],
            now,
            ttl,
        ) ==> !after_put(m, id, s, now, ttl).contains_key(other),
        m.insert(id, s).dom().len() % 32 != 0 ==> after_put(m, id, s, now, ttl).get(id) == Some(s),
{
}

} // verus!
