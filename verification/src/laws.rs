//! What holds of the store whatever it holds: theorems over the model of
//! [`crate::model`], which [`crate::store::Store::apply_at`] follows.

use vstd::prelude::*;
use crate::model::{
    answers, deadline_after, live, purged, seconds_left, state_after, CommandView, Contents,
    ResponseView, NANOS_PER_SECOND,
};
use crate::pattern::lemma_star_matches_every_key;
use crate::text::decimal;

verus! {

/// The key is in the map, and its deadline has come.
pub open spec fn dead(m: Contents, k: Seq<char>, now: nat) -> bool {
    m.contains_key(k) && !live(m, k, now)
}

/// `cmd` is one of the commands that ask whether `k` is live before they
/// do anything else, or that overwrite `k` without asking: every command on
/// `k` that is not refused, but `DEL`.
pub open spec fn about(cmd: CommandView, k: Seq<char>) -> bool {
    match cmd {
        CommandView::Get(x) => x == k,
        CommandView::Exists(x) => x == k,
        CommandView::Ttl(x) => x == k,
        CommandView::Expire(x, _) => x == k,
        CommandView::Put(x, _) => x == k,
        CommandView::Setex(x, _, s) => x == k && s >= 0,
        _ => false,
    }
}

/// Time only kills: a key that is live at an instant was live at every
/// earlier one, with no fewer seconds left.
pub proof fn law_time_only_kills(m: Contents, k: Seq<char>, now: nat, later: nat)
    requires
        now <= later,
        live(m, k, later),
    ensures
        live(m, k, now),
        purged(m, k, now) == m,
        m[k].deadline is Some ==> seconds_left(m[k].deadline->0, later) <= seconds_left(
            m[k].deadline->0,
            now,
        ),
{
}

/// A key set with `SETEX k v s` at `set_at` is read back by `GET k` at every
/// instant before `set_at + s` seconds, and is not found from that instant
/// on.
pub proof fn law_expiry(
    m: Contents,
    k: Seq<char>,
    v: Seq<char>,
    s: i32,
    set_at: nat,
    now: nat,
    r: ResponseView,
)
    requires
        s >= 0,
        answers(state_after(m, CommandView::Setex(k, v, s), set_at), CommandView::Get(k), now, r),
    ensures
        now < set_at + s * NANOS_PER_SECOND ==> r == ResponseView::Bulk(v),
        now >= set_at + s * NANOS_PER_SECOND ==> r == ResponseView::Simple("NULL"@),
{
}

/// A dead key is not seen: a command about it answers, and leaves the store,
/// as if the key had never been set.
pub proof fn law_dead_key_is_unseen(
    m: Contents,
    k: Seq<char>,
    now: nat,
    cmd: CommandView,
    r: ResponseView,
)
    requires
        dead(m, k, now),
        about(cmd, k),
    ensures
        state_after(m, cmd, now) == state_after(m.remove(k), cmd, now),
        answers(m, cmd, now, r) <==> answers(m.remove(k), cmd, now, r),
{
}

/// `cmd` reads key `k`: it is `GET k`, `EXISTS k` or `TTL k`.
pub open spec fn reads(cmd: CommandView, k: Seq<char>) -> bool {
    cmd == CommandView::Get(k) || cmd == CommandView::Exists(k) || cmd == CommandView::Ttl(k)
}

/// What a command that reads a key answers where it finds no live one.
pub open spec fn not_found(cmd: CommandView) -> ResponseView {
    match cmd {
        CommandView::Get(_) => ResponseView::Simple("NULL"@),
        CommandView::Exists(_) => ResponseView::Integer(0),
        _ => ResponseView::Integer(-2i32),
    }
}

/// Finding a key dead is done once: the first command that reads a dead key
/// removes it and finds nothing, and a second, at whatever instant, finds
/// nothing again and changes nothing.
pub proof fn law_purge_is_idempotent(
    m: Contents,
    k: Seq<char>,
    now: nat,
    later: nat,
    first: CommandView,
    second: CommandView,
    r: ResponseView,
    again: ResponseView,
)
    requires
        dead(m, k, now),
        reads(first, k),
        reads(second, k),
        answers(m, first, now, r),
        answers(state_after(m, first, now), second, later, again),
    ensures
        r == not_found(first),
        again == not_found(second),
        state_after(m, first, now) == m.remove(k),
        state_after(state_after(m, first, now), second, later) == m.remove(k),
{
}

/// `DEL` does not ask whether a key is live: it removes a dead key that
/// nothing has found yet and counts it, and counts nothing once a read has
/// found the key dead.
pub proof fn law_del_counts_dead_keys(
    m: Contents,
    k: Seq<char>,
    now: nat,
    later: nat,
    at_once: ResponseView,
    after_read: ResponseView,
)
    requires
        dead(m, k, now),
        answers(m, CommandView::Del(k), now, at_once),
        answers(state_after(m, CommandView::Get(k), now), CommandView::Del(k), later, after_read),
    ensures
        at_once == ResponseView::Integer(1),
        after_read == ResponseView::Integer(0),
        state_after(m, CommandView::Del(k), now) == m.remove(k),
{
}

/// `SET` clears the deadline: after `SETEX k ..` and then `SET k ..`, at
/// whatever instants, `TTL k` reports that the key does not expire.
pub proof fn law_set_clears_deadline(
    m: Contents,
    k: Seq<char>,
    v: Seq<char>,
    s: i32,
    w: Seq<char>,
    t0: nat,
    t1: nat,
    t2: nat,
    r: ResponseView,
)
    requires
        answers(
            state_after(
                state_after(m, CommandView::Setex(k, v, s), t0),
                CommandView::Put(k, w),
                t1,
            ),
            CommandView::Ttl(k),
            t2,
            r,
        ),
    ensures
        r == ResponseView::Integer(-1i32),
{
}

/// `EXPIRE` with zero or negative seconds removes the key and reports 0,
/// whatever deadline the key had.
pub proof fn law_expire_nonpositive_deletes(
    m: Contents,
    k: Seq<char>,
    s: i32,
    now: nat,
    r: ResponseView,
)
    requires
        s <= 0,
        answers(m, CommandView::Expire(k, s), now, r),
    ensures
        r == ResponseView::Integer(0),
        state_after(m, CommandView::Expire(k, s), now) == m.remove(k),
        !state_after(m, CommandView::Expire(k, s), now).contains_key(k),
{
}

/// `KEYS *` lists the keys of the store, dead ones with the rest, and leaves
/// the store as it is.
pub proof fn law_keys_star_lists_every_key(m: Contents, now: nat, r: ResponseView)
    requires
        answers(m, CommandView::Keys(seq!['*']), now, r),
    ensures
        r is List,
        r->List_0.no_duplicates(),
        forall|k: Seq<char>| #[trigger] r->List_0.contains(k) <==> m.contains_key(k),
        state_after(m, CommandView::Keys(seq!['*']), now) == m,
{
    assert forall|k: Seq<char>| #[trigger] r->List_0.contains(k) <==> m.contains_key(k) by {
        lemma_star_matches_every_key(k);
    }
}

/// At one instant `GET`, `EXISTS` and `TTL` agree on whether a key is live:
/// `TTL` counts seconds, or reports that there is no deadline, exactly where
/// `GET` finds the value and `EXISTS` reports 1.
pub proof fn law_reads_agree(
    m: Contents,
    k: Seq<char>,
    now: nat,
    got: ResponseView,
    exists: ResponseView,
    ttl: ResponseView,
)
    requires
        answers(m, CommandView::Get(k), now, got),
        answers(m, CommandView::Exists(k), now, exists),
        answers(m, CommandView::Ttl(k), now, ttl),
    ensures
        got is Bulk <==> exists == ResponseView::Integer(1),
        got is Bulk <==> ttl != ResponseView::Integer(-2i32),
        got == ResponseView::Simple("NULL"@) <==> exists == ResponseView::Integer(0),
        ttl is Bulk ==> m[k].deadline is Some && now < m[k].deadline->0 && ttl
            == ResponseView::Bulk(decimal(seconds_left(m[k].deadline->0, now))),
        state_after(m, CommandView::Get(k), now) == state_after(m, CommandView::Ttl(k), now),
        state_after(m, CommandView::Get(k), now) == state_after(m, CommandView::Exists(k), now),
{
}

/// After `EXPIRE k s` has given a live key `s > 0` seconds at `set_at`,
/// `TTL k` at a later instant before the deadline counts the whole seconds
/// that are left: at most `s`, and `s` itself only at `set_at`.
pub proof fn law_ttl_counts_down(
    m: Contents,
    k: Seq<char>,
    s: i32,
    set_at: nat,
    now: nat,
    r: ResponseView,
)
    requires
        s > 0,
        live(m, k, set_at),
        set_at <= now < set_at + s * NANOS_PER_SECOND,
        answers(state_after(m, CommandView::Expire(k, s), set_at), CommandView::Ttl(k), now, r),
    ensures
        r == ResponseView::Bulk(decimal(seconds_left(deadline_after(set_at, s), now))),
        seconds_left(deadline_after(set_at, s), now) <= s,
        seconds_left(deadline_after(set_at, s), now) == s <==> now == set_at,
        seconds_left(deadline_after(set_at, s), now) == (set_at + s * NANOS_PER_SECOND - now)
            / 1_000_000_000,
{
}

} // verus!
