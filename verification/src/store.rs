//! The store engine: commands, responses, and the store that applies one to
//! give the other.

use vstd::prelude::*;
use crate::clock::Clock;
use crate::model::{
    answers, lists, live, purged, state_after, CommandView, Contents, Record, ResponseView,
    NANOS_PER_SECOND,
};
use crate::pattern::{fragments, glob_matches, matches_chars, split, views};
use crate::text::{chars_of, push_decimal, texts};

verus! {

/// A command to the store.
#[derive(Debug, PartialEq, Eq)]
pub enum Command {
    /// `GET key`: the value of a live key.
    Get(String),
    /// `SET key value`: store a value that does not expire.
    Put(String, String),
    /// `SETEX key value seconds`: store a value that expires.
    Setex(String, String, i32),
    /// `DEL key`: remove a key, live or dead.
    Del(String),
    /// `EXISTS key`: whether a key is live.
    Exists(String),
    /// `KEYS pattern`: the keys that match a pattern.
    Keys(String),
    /// `EXPIRE key seconds`: give a live key a new deadline.
    Expire(String, i32),
    /// `TTL key`: the seconds a key has left.
    Ttl(String),
    /// `PING`.
    Ping(),
    /// `QUIT`: end the conversation.
    Quit(),
}

impl View for Command {
    type V = CommandView;

    open spec fn view(&self) -> CommandView {
        match *self {
            Command::Get(k) => CommandView::Get(k@),
            Command::Put(k, v) => CommandView::Put(k@, v@),
            Command::Setex(k, v, s) => CommandView::Setex(k@, v@, s),
            Command::Del(k) => CommandView::Del(k@),
            Command::Exists(k) => CommandView::Exists(k@),
            Command::Keys(p) => CommandView::Keys(p@),
            Command::Expire(k, s) => CommandView::Expire(k@, s),
            Command::Ttl(k) => CommandView::Ttl(k@),
            Command::Ping() => CommandView::Ping,
            Command::Quit() => CommandView::Quit,
        }
    }
}

/// What the store answers to a command.
#[derive(Debug, PartialEq, Eq)]
pub enum Response {
    /// A status word.
    Simple(String),
    /// One string of data.
    Bulk(String),
    /// A count or a flag.
    Integer(i32),
    /// Several strings of data.
    List(Vec<String>),
    /// The conversation is over.
    Quit(),
    /// The command was refused.
    Error(String),
}

impl View for Response {
    type V = ResponseView;

    open spec fn view(&self) -> ResponseView {
        match *self {
            Response::Simple(s) => ResponseView::Simple(s@),
            Response::Bulk(s) => ResponseView::Bulk(s@),
            Response::Integer(i) => ResponseView::Integer(i),
            Response::List(l) => ResponseView::List(texts(l@)),
            Response::Quit() => ResponseView::Quit,
            Response::Error(s) => ResponseView::Error(s@),
        }
    }
}

/// One key with what is stored under it.
struct Slot {
    key: String,
    value: String,
    deadline: Option<u128>,
}

/// The record that a slot stands for.
spec fn record_of(s: Slot) -> Record {
    Record {
        value: s.value@,
        deadline: match s.deadline {
            Some(d) => Some(d as nat),
            None => None,
        },
    }
}

/// Slot `i` exists and holds key `k`.
spec fn at(slots: Seq<Slot>, i: int, k: Seq<char>) -> bool {
    0 <= i < slots.len() && slots[i].key@ == k
}

/// No key stands in two slots.
spec fn distinct(slots: Seq<Slot>) -> bool {
    forall|i: int, j: int| 0 <= i < j < slots.len() ==> slots[i].key@ != slots[j].key@
}

/// The map that the slots stand for.
spec fn contents(slots: Seq<Slot>) -> Contents {
    Map::new(
        |k: Seq<char>| exists|i: int| at(slots, i, k),
        |k: Seq<char>| record_of(slots[choose|i: int| at(slots, i, k)]),
    )
}

/// Each slot shows in the map, under its key and with its record.
proof fn lemma_slot_shows(slots: Seq<Slot>, i: int)
    requires
        distinct(slots),
        0 <= i < slots.len(),
    ensures
        contents(slots).contains_key(slots[i].key@),
        contents(slots)[slots[i].key@] == record_of(slots[i]),
{
    // slot `i` holds the key, and by `distinct` no other slot does
    assert(at(slots, i, slots[i].key@));
}

/// Writing a new value or deadline into slot `i` is an insertion under the
/// slot's key.
proof fn lemma_rewritten(before: Seq<Slot>, after: Seq<Slot>, i: int)
    requires
        distinct(before),
        0 <= i < before.len(),
        after.len() == before.len(),
        after[i].key@ == before[i].key@,
        forall|j: int| 0 <= j < before.len() && j != i ==> after[j] == before[j],
    ensures
        distinct(after),
        contents(after) == contents(before).insert(before[i].key@, record_of(after[i])),
{
    let target = contents(before).insert(before[i].key@, record_of(after[i]));
    assert forall|k: Seq<char>| contents(after).contains_key(k) <==> target.contains_key(k) by {
        if contents(after).contains_key(k) {
            let j = choose|j: int| at(after, j, k);
            assert(at(before, j, k));
        }
        if target.contains_key(k) {
            if k == before[i].key@ {
                assert(at(after, i, k));
            } else {
                let j = choose|j: int| at(before, j, k);
                assert(at(after, j, k));
            }
        }
    }
    assert forall|k: Seq<char>| contents(after).contains_key(k) implies contents(after)[k]
        == target[k] by {
        let j = choose|j: int| at(after, j, k);
        lemma_slot_shows(after, j);
        if j != i {
            lemma_slot_shows(before, j);
        }
    }
}

/// A slot with a new key, added at the end, is an insertion.
proof fn lemma_pushed(before: Seq<Slot>, s: Slot)
    requires
        distinct(before),
        !contents(before).contains_key(s.key@),
    ensures
        distinct(before.push(s)),
        contents(before.push(s)) == contents(before).insert(s.key@, record_of(s)),
{
    let after = before.push(s);
    let n = before.len() as int;
    assert forall|i: int, j: int| 0 <= i < j < after.len() implies after[i].key@
        != after[j].key@ by {
        if j == n {
            assert(at(before, i, after[i].key@));
        }
    }
    let target = contents(before).insert(s.key@, record_of(s));
    assert forall|k: Seq<char>| contents(after).contains_key(k) <==> target.contains_key(k) by {
        if contents(after).contains_key(k) {
            let j = choose|j: int| at(after, j, k);
            if j < n {
                assert(at(before, j, k));
            }
        }
        if target.contains_key(k) {
            if k == s.key@ {
                assert(at(after, n, k));
            } else {
                let j = choose|j: int| at(before, j, k);
                assert(at(after, j, k));
            }
        }
    }
    assert forall|k: Seq<char>| contents(after).contains_key(k) implies contents(after)[k]
        == target[k] by {
        let j = choose|j: int| at(after, j, k);
        lemma_slot_shows(after, j);
        if j < n {
            lemma_slot_shows(before, j);
        }
    }
}

/// The slots after slot `i` was taken out and the last slot put in its place.
spec fn without(slots: Seq<Slot>, i: int) -> Seq<Slot> {
    slots.update(i, slots.last()).drop_last()
}

/// Taking slot `i` out is a removal of its key.
proof fn lemma_taken_out(before: Seq<Slot>, i: int)
    requires
        distinct(before),
        0 <= i < before.len(),
    ensures
        distinct(without(before, i)),
        contents(without(before, i)) == contents(before).remove(before[i].key@),
{
    let after = without(before, i);
    let last = before.len() - 1;
    // where each slot of `after` stood in `before`
    let origin = |j: int| if j == i { last } else { j };
    assert forall|j: int| 0 <= j < after.len() implies after[j] == before[origin(j)] by {}
    assert forall|a: int, b: int| 0 <= a < b < after.len() implies after[a].key@
        != after[b].key@ by {
        assert(origin(a) != origin(b));
    }
    let gone = before[i].key@;
    let target = contents(before).remove(gone);
    assert forall|k: Seq<char>| contents(after).contains_key(k) <==> target.contains_key(k) by {
        if contents(after).contains_key(k) {
            let j = choose|j: int| at(after, j, k);
            assert(at(before, origin(j), k));
        }
        if target.contains_key(k) {
            let x = choose|x: int| at(before, x, k);
            if x == last {
                assert(at(after, i, k));
            } else {
                assert(at(after, x, k));
            }
        }
    }
    assert forall|k: Seq<char>| contents(after).contains_key(k) implies contents(after)[k]
        == target[k] by {
        let j = choose|j: int| at(after, j, k);
        lemma_slot_shows(after, j);
        lemma_slot_shows(before, origin(j));
    }
}

/// The slot that holds `key`, if one does.
fn position(slots: &Vec<Slot>, key: &String) -> (r: Option<usize>)
    ensures
        match r {
            Some(i) => at(slots@, i as int, key@),
            None => !contents(slots@).contains_key(key@),
        },
{
    let mut i: usize = 0;
    while i < slots.len()
        invariant
            i <= slots.len(),
            forall|j: int| 0 <= j < i ==> !at(slots@, j, key@),
        decreases slots.len() - i,
    {
        if slots[i].key == *key {
            return Some(i);
        }
        i += 1;
    }
    None
}

/// Stores `value` under `key`, over whatever stood there.
fn put(slots: &mut Vec<Slot>, key: String, value: String, deadline: Option<u128>)
    requires
        distinct(old(slots)@),
    ensures
        distinct(final(slots)@),
        contents(final(slots)@) == contents(old(slots)@).insert(
            key@,
            record_of(Slot { key, value, deadline }),
        ),
{
    let slot = Slot { key, value, deadline };
    match position(slots, &slot.key) {
        Some(i) => {
            slots[i] = slot;
            proof {
                lemma_rewritten(old(slots)@, slots@, i as int);
            }
        },
        None => {
            slots.push(slot);
            proof {
                lemma_pushed(old(slots)@, slot);
            }
        },
    }
}

/// Removes slot `i`.
fn take_out(slots: &mut Vec<Slot>, i: usize)
    requires
        distinct(old(slots)@),
        i < old(slots).len(),
    ensures
        distinct(final(slots)@),
        contents(final(slots)@) == contents(old(slots)@).remove(old(slots)@[i as int].key@),
{
    slots.swap_remove(i);
    proof {
        lemma_taken_out(old(slots)@, i as int);
    }
}

/// Removes `key`, whether live or dead, and says whether it was there.
fn remove(slots: &mut Vec<Slot>, key: &String) -> (was_there: bool)
    requires
        distinct(old(slots)@),
    ensures
        distinct(final(slots)@),
        contents(final(slots)@) == contents(old(slots)@).remove(key@),
        was_there == contents(old(slots)@).contains_key(key@),
{
    match position(slots, key) {
        Some(i) => {
            take_out(slots, i);
            true
        },
        None => {
            false
        },
    }
}

/// Asks about `key` at `now`: the slot of a live key is returned, a dead key
/// is removed, and nothing is done for a key that is not there.
fn get_if_alive(slots: &mut Vec<Slot>, key: &String, now: u64) -> (r: Option<usize>)
    requires
        distinct(old(slots)@),
    ensures
        distinct(final(slots)@),
        contents(final(slots)@) == purged(contents(old(slots)@), key@, now as nat),
        match r {
            Some(i) => live(contents(old(slots)@), key@, now as nat) && at(
                final(slots)@,
                i as int,
                key@,
            ),
            None => !live(contents(old(slots)@), key@, now as nat),
        },
{
    match position(slots, key) {
        None => {
            None
        },
        Some(i) => {
            proof {
                lemma_slot_shows(slots@, i as int);
            }
            let dead = match slots[i].deadline {
                Some(d) => d <= now as u128,
                None => false,
            };
            if dead {
                take_out(slots, i);
                None
            } else {
                Some(i)
            }
        },
    }
}

/// Key `k` stands in a slot below `i` and matches `p`.
spec fn matched_below(slots: Seq<Slot>, p: Seq<char>, i: int, k: Seq<char>) -> bool {
    glob_matches(p, k) && exists|j: int| j < i && at(slots, j, k)
}

/// The keys that match `pattern`, dead ones too.
fn keys_matching(slots: &Vec<Slot>, pattern: &String) -> (keys: Vec<String>)
    requires
        distinct(slots@),
    ensures
        lists(contents(slots@), pattern@, texts(keys@)),
{
    let p = chars_of(pattern.as_str());
    let parts = split(&p);
    let mut keys: Vec<String> = Vec::new();
    let mut i: usize = 0;
    while i < slots.len()
        invariant
            i <= slots.len(),
            distinct(slots@),
            p@ == pattern@,
            views(parts@) == fragments(p@),
            texts(keys@).no_duplicates(),
            forall|k: Seq<char>| #[trigger]
                texts(keys@).contains(k) <==> matched_below(slots@, p@, i as int, k),
        decreases slots.len() - i,
    {
        let ghost listed = texts(keys@);
        let key = &slots[i].key;
        let k = chars_of(key.as_str());
        if matches_chars(&p, &parts, &k) {
            keys.push(key.clone());
            proof {
                assert(texts(keys@) =~= listed.push(key@));
                assert(!listed.contains(key@)) by {
                    if listed.contains(key@) {
                        // then a slot below `i` would hold the key of slot `i`
                        let j = choose|j: int| j < i && at(slots@, j, key@);
                        assert(slots@[j].key@ != slots@[i as int].key@);
                    }
                }
                assert forall|x: Seq<char>| #[trigger]
                    texts(keys@).contains(x) <==> matched_below(
                        slots@,
                        p@,
                        i + 1,
                        x,
                    ) by {
                    if texts(keys@).contains(x) {
                        let a = choose|a: int| 0 <= a < texts(keys@).len() && texts(keys@)[a] == x;
                        if a < listed.len() {
                            assert(listed.contains(x));
                            let j = choose|j: int| j < i && at(slots@, j, x);
                            assert(j < i + 1 && at(slots@, j, x));
                        } else {
                            assert(at(slots@, i as int, x));
                        }
                    }
                    if matched_below(slots@, p@, i + 1, x) {
                        let j = choose|j: int| j < i + 1 && at(slots@, j, x);
                        if j < i {
                            assert(listed.contains(x));
                            let a = choose|a: int| 0 <= a < listed.len() && listed[a] == x;
                            assert(texts(keys@)[a] == x);
                        } else {
                            assert(texts(keys@)[listed.len() as int] == x);
                        }
                    }
                }
            }
        } else {
            proof {
                assert forall|x: Seq<char>| #[trigger]
                    texts(keys@).contains(x) <==> matched_below(
                        slots@,
                        p@,
                        i + 1,
                        x,
                    ) by {
                    if texts(keys@).contains(x) {
                        let j = choose|j: int| j < i && at(slots@, j, x);
                        assert(j < i + 1 && at(slots@, j, x));
                    }
                    if matched_below(slots@, p@, i + 1, x) {
                        // slot `i` does not match, so the slot lies below it
                        let j = choose|j: int| j < i + 1 && at(slots@, j, x);
                        assert(j < i && at(slots@, j, x));
                    }
                }
            }
        }
        i += 1;
    }
    proof {
        assert forall|x: Seq<char>| #[trigger]
            texts(keys@).contains(x) <==> contents(slots@).contains_key(x) && glob_matches(
                pattern@,
                x,
            ) by {
            if matched_below(slots@, p@, i as int, x) {
                let j = choose|j: int| j < i && at(slots@, j, x);
                assert(at(slots@, j, x));
            }
            if contents(slots@).contains_key(x) && glob_matches(pattern@, x) {
                let j = choose|j: int| at(slots@, j, x);
                assert(j < i && at(slots@, j, x));
            }
        }
    }
    keys
}

/// An in-memory store of string values under string keys, each with an
/// optional deadline.
///
/// A command changes the store as a whole or not at all: [`Store::apply`]
/// takes the store by exclusive reference, so whoever shares one store among
/// several threads has to give it to one of them at a time, for the length
/// of a call.
pub struct Store {
    slots: Vec<Slot>,
    clock: Clock,
    latest: u64,
}

impl View for Store {
    type V = Contents;

    /// What the store holds, dead keys that no command has found yet
    /// included.
    closed spec fn view(&self) -> Contents {
        contents(self.slots@)
    }
}

impl Store {
    #[verifier::type_invariant]
    spec fn well_formed(&self) -> bool {
        distinct(self.slots@)
    }

    /// The latest instant at which [`Store::apply`] has applied a command;
    /// zero before the first.
    pub closed spec fn clock(&self) -> nat {
        self.latest as nat
    }

    /// An empty store, with a clock that starts now.
    pub fn new() -> (s: Store)
        ensures
            s@ == Map::<Seq<char>, Record>::empty(),
            s.clock() == 0,
    {
        Store { slots: Vec::new(), clock: Clock::start(), latest: 0 }
    }

    /// Applies `cmd` at the instant that the store's clock shows: what
    /// [`Store::apply_at`] does at that instant, which is not before the
    /// instant of any earlier call.
    pub fn apply(&mut self, cmd: Command) -> (r: Response)
        ensures
            old(self).clock() <= final(self).clock(),
            final(self)@ == state_after(old(self)@, cmd@, final(self).clock()),
            answers(old(self)@, cmd@, final(self).clock(), r@),
    {
        let now = self.clock.read(self.latest);
        let r = self.apply_at(cmd, now);
        proof {
            use_type_invariant(&*self);
        }
        self.latest = now;
        r
    }

    /// Applies `cmd` at instant `now`: the store changes as
    /// [`state_after`] says, and the response is one that [`answers`] allows.
    /// The store's own clock is left as it is.
    pub fn apply_at(&mut self, cmd: Command, now: u64) -> (r: Response)
        ensures
            final(self)@ == state_after(old(self)@, cmd@, now as nat),
            answers(old(self)@, cmd@, now as nat, r@),
            final(self).clock() == old(self).clock(),
    {
        proof {
            use_type_invariant(&*self);
        }
        let mut slots: Vec<Slot> = Vec::new();
        std::mem::swap(&mut self.slots, &mut slots);
        let r = match cmd {
            Command::Get(k) => match get_if_alive(&mut slots, &k, now) {
                Some(i) => {
                    proof {
                        lemma_slot_shows(slots@, i as int);
                    }
                    Response::Bulk(slots[i].value.clone())
                },
                None => Response::Simple("NULL".to_owned()),
            },
            Command::Put(k, v) => {
                put(&mut slots, k, v, None);
                Response::Simple("OK".to_owned())
            },
            Command::Setex(k, v, s) => {
                if s < 0 {
                    Response::Error("invalid expire time".to_owned())
                } else {
                    let deadline: u128 = now as u128 + (s as u128) * (NANOS_PER_SECOND as u128);
                    put(&mut slots, k, v, Some(deadline));
                    Response::Simple("OK".to_owned())
                }
            },
            Command::Del(k) => {
                if remove(&mut slots, &k) {
                    Response::Integer(1)
                } else {
                    Response::Integer(0)
                }
            },
            Command::Exists(k) => match get_if_alive(&mut slots, &k, now) {
                Some(_) => Response::Integer(1),
                None => Response::Integer(0),
            },
            Command::Keys(p) => Response::List(keys_matching(&slots, &p)),
            Command::Expire(k, s) => {
                if s <= 0 {
                    remove(&mut slots, &k);
                    Response::Integer(0)
                } else {
                    match get_if_alive(&mut slots, &k, now) {
                        Some(i) => {
                            let ghost before = slots@;
                            let deadline: u128 = now as u128 + (s as u128) * (NANOS_PER_SECOND as u128);
                            slots[i].deadline = Some(deadline);
                            proof {
                                lemma_slot_shows(before, i as int);
                                lemma_rewritten(before, slots@, i as int);
                            }
                            Response::Integer(1)
                        },
                        None => {
                            Response::Integer(0)
                        },
                    }
                }
            },
            Command::Ttl(k) => match get_if_alive(&mut slots, &k, now) {
                None => Response::Integer(-2),
                Some(i) => {
                    proof {
                        lemma_slot_shows(slots@, i as int);
                    }
                    match slots[i].deadline {
                        None => Response::Integer(-1),
                        Some(d) => {
                            let left: u128 = (d - now as u128) / (NANOS_PER_SECOND as u128);
                            let mut text = String::new();
                            push_decimal(&mut text, left);
                            Response::Bulk(text)
                        },
                    }
                },
            },
            Command::Ping() => Response::Simple("PONG".to_owned()),
            Command::Quit() => Response::Quit(),
        };
        self.slots = slots;
        r
    }
}

} // verus!
