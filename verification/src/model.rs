//! The store as mathematics: what it holds, and what each command does to it.
//!
//! The store is a finite map from keys to records. A record may carry a
//! deadline, an instant of the clock in nanoseconds; from that instant on the
//! key is dead. A dead key stays in the map until a command that asks about
//! it finds it dead and removes it. Commands that do not ask (`DEL`, `KEYS`)
//! see the map as it is.

use vstd::prelude::*;
use crate::pattern::glob_matches;
use crate::text::decimal;

verus! {

/// Clock ticks per second: the clock counts nanoseconds.
pub const NANOS_PER_SECOND: u64 = 1_000_000_000;

/// What the store holds under one key.
pub struct Record {
    /// The value, as it was set.
    pub value: Seq<char>,
    /// The instant from which the key is dead, if it expires at all.
    pub deadline: Option<nat>,
}

/// What a store holds.
pub type Contents = Map<Seq<char>, Record>;

/// A command, with its operands as plain sequences.
pub enum CommandView {
    Get(Seq<char>),
    Put(Seq<char>, Seq<char>),
    Setex(Seq<char>, Seq<char>, i32),
    Del(Seq<char>),
    Exists(Seq<char>),
    Keys(Seq<char>),
    Expire(Seq<char>, i32),
    Ttl(Seq<char>),
    Ping,
    Quit,
}

/// A response, with its payload as plain sequences.
pub enum ResponseView {
    Simple(Seq<char>),
    Bulk(Seq<char>),
    Integer(i32),
    List(Seq<Seq<char>>),
    Quit,
    Error(Seq<char>),
}

/// The key is in the map and its deadline, if it has one, lies after `now`.
pub open spec fn live(m: Contents, k: Seq<char>, now: nat) -> bool {
    m.contains_key(k) && match m[k].deadline {
        Some(d) => now < d,
        None => true,
    }
}

/// The map after a command has asked about `k` at `now`: a key found dead is
/// removed, and nothing else changes.
pub open spec fn purged(m: Contents, k: Seq<char>, now: nat) -> Contents {
    if live(m, k, now) {
        m
    } else {
        m.remove(k)
    }
}

/// The instant `seconds` whole seconds after `now`.
pub open spec fn deadline_after(now: nat, seconds: i32) -> nat
    recommends
        seconds >= 0,
{
    (now + seconds * NANOS_PER_SECOND) as nat
}

/// The whole seconds left at `now` until `deadline`.
pub open spec fn seconds_left(deadline: nat, now: nat) -> nat
    recommends
        now < deadline,
{
    ((deadline - now) / (NANOS_PER_SECOND as int)) as nat
}

/// The record that `SET` stores.
pub open spec fn lasting(value: Seq<char>) -> Record {
    Record { value, deadline: None }
}

/// The record that `SETEX` and `EXPIRE` store.
pub open spec fn expiring(value: Seq<char>, deadline: nat) -> Record {
    Record { value, deadline: Some(deadline) }
}

/// The map after `cmd` was applied at `now`.
pub open spec fn state_after(m: Contents, cmd: CommandView, now: nat) -> Contents {
    match cmd {
        CommandView::Get(k) => purged(m, k, now),
        CommandView::Put(k, v) => m.insert(k, lasting(v)),
        CommandView::Setex(k, v, s) => if s < 0 {
            m
        } else {
            m.insert(k, expiring(v, deadline_after(now, s)))
        },
        CommandView::Del(k) => m.remove(k),
        CommandView::Exists(k) => purged(m, k, now),
        CommandView::Keys(_) => m,
        CommandView::Expire(k, s) => if s > 0 && live(m, k, now) {
            m.insert(k, expiring(m[k].value, deadline_after(now, s)))
        } else {
            m.remove(k)
        },
        CommandView::Ttl(k) => purged(m, k, now),
        CommandView::Ping => m,
        CommandView::Quit => m,
    }
}

/// `list` names each key of the map that matches `pattern` once, and nothing
/// else. The order is left open.
pub open spec fn lists(m: Contents, pattern: Seq<char>, list: Seq<Seq<char>>) -> bool {
    &&& list.no_duplicates()
    &&& forall|k: Seq<char>| #[trigger]
        list.contains(k) <==> m.contains_key(k) && glob_matches(pattern, k)
}

/// `r` is a response that `cmd`, applied at `now` to a store holding `m`,
/// may give. Every command but `KEYS` has exactly one such response.
pub open spec fn answers(m: Contents, cmd: CommandView, now: nat, r: ResponseView) -> bool {
    match cmd {
        CommandView::Get(k) => r == if live(m, k, now) {
            ResponseView::Bulk(m[k].value)
        } else {
            ResponseView::Simple("NULL"@)
        },
        CommandView::Put(_, _) => r == ResponseView::Simple("OK"@),
        CommandView::Setex(_, _, s) => r == if s < 0 {
            ResponseView::Error("invalid expire time"@)
        } else {
            ResponseView::Simple("OK"@)
        },
        CommandView::Del(k) => r == ResponseView::Integer(
            if m.contains_key(k) {
                1i32
            } else {
                0i32
            },
        ),
        CommandView::Exists(k) => r == ResponseView::Integer(
            if live(m, k, now) {
                1i32
            } else {
                0i32
            },
        ),
        CommandView::Keys(p) => r is List && lists(m, p, r->List_0),
        CommandView::Expire(k, s) => r == ResponseView::Integer(
            if s > 0 && live(m, k, now) {
                1i32
            } else {
                0i32
            },
        ),
        CommandView::Ttl(k) => r == if !live(m, k, now) {
            ResponseView::Integer(-2i32)
        } else {
            match m[k].deadline {
                None => ResponseView::Integer(-1i32),
                Some(d) => ResponseView::Bulk(decimal(seconds_left(d, now))),
            }
        },
        CommandView::Ping => r == ResponseView::Simple("PONG"@),
        CommandView::Quit => r == ResponseView::Quit,
    }
}

} // verus!
