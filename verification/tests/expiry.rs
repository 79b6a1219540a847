use redis_lite::store::{Command, Response, Store};

const SECOND: u64 = 1_000_000_000;

fn s(text: &str) -> String {
    text.to_string()
}

fn null() -> Response {
    Response::Simple(s("NULL"))
}

#[test]
fn value_is_read_until_the_deadline_and_not_from_it_on() {
    for (set_at, seconds) in [(0u64, 1i32), (17, 5), (1_000_000_007, 3600), (u64::MAX / 2, 1)] {
        let deadline = set_at + seconds as u64 * SECOND;
        for now in [set_at, set_at + 1, deadline - 1] {
            let mut store = Store::new();
            store.apply_at(Command::Setex(s("k"), s("v"), seconds), set_at);
            assert_eq!(store.apply_at(Command::Get(s("k")), now), Response::Bulk(s("v")));
        }
        for now in [deadline, deadline + 1, deadline + 100 * SECOND] {
            let mut store = Store::new();
            store.apply_at(Command::Setex(s("k"), s("v"), seconds), set_at);
            assert_eq!(store.apply_at(Command::Get(s("k")), now), null());
        }
    }
}

#[test]
fn reading_before_the_deadline_changes_nothing() {
    let mut store = Store::new();
    store.apply_at(Command::Setex(s("k"), s("v"), 2), 0);
    for now in 0..50 {
        assert_eq!(store.apply_at(Command::Get(s("k")), now), Response::Bulk(s("v")));
        assert_eq!(store.apply_at(Command::Exists(s("k")), now), Response::Integer(1));
    }
    assert_eq!(store.apply_at(Command::Ttl(s("k")), 50), Response::Bulk(s("1")));
}

#[test]
fn dead_key_reads_as_missing_again_and_again() {
    let mut store = Store::new();
    store.apply_at(Command::Setex(s("k"), s("v"), 1), 0);
    for now in [SECOND, SECOND + 1, 0, 5, 10 * SECOND] {
        assert_eq!(store.apply_at(Command::Get(s("k")), now), null());
        assert_eq!(store.apply_at(Command::Exists(s("k")), now), Response::Integer(0));
        assert_eq!(store.apply_at(Command::Ttl(s("k")), now), Response::Integer(-2));
    }
}

#[test]
fn del_counts_a_dead_key_that_nothing_has_found() {
    let mut store = Store::new();
    store.apply_at(Command::Setex(s("k"), s("v"), 1), 0);
    assert_eq!(store.apply_at(Command::Del(s("k")), 5 * SECOND), Response::Integer(1));
    assert_eq!(store.apply_at(Command::Del(s("k")), 5 * SECOND), Response::Integer(0));
}

#[test]
fn del_counts_nothing_once_a_read_has_found_the_key_dead() {
    for finder in 0..4 {
        let mut store = Store::new();
        store.apply_at(Command::Setex(s("k"), s("v"), 1), 0);
        let found = match finder {
            0 => store.apply_at(Command::Get(s("k")), SECOND),
            1 => store.apply_at(Command::Exists(s("k")), SECOND),
            2 => store.apply_at(Command::Ttl(s("k")), SECOND),
            _ => store.apply_at(Command::Expire(s("k"), 30), SECOND),
        };
        let expected = match finder {
            0 => null(),
            1 => Response::Integer(0),
            2 => Response::Integer(-2),
            _ => Response::Integer(0),
        };
        assert_eq!(found, expected);
        assert_eq!(store.apply_at(Command::Del(s("k")), SECOND), Response::Integer(0));
    }
}

#[test]
fn set_over_a_dead_key_brings_a_fresh_value() {
    let mut store = Store::new();
    store.apply_at(Command::Setex(s("k"), s("old"), 1), 0);
    store.apply_at(Command::Put(s("k"), s("new")), 9 * SECOND);
    assert_eq!(store.apply_at(Command::Get(s("k")), 9 * SECOND), Response::Bulk(s("new")));
    assert_eq!(store.apply_at(Command::Ttl(s("k")), 9 * SECOND), Response::Integer(-1));
}

#[test]
fn get_exists_and_ttl_agree_at_each_instant() {
    let mut store = Store::new();
    store.apply_at(Command::Setex(s("k"), s("v"), 3), 0);
    for now in [0, 1, SECOND, 3 * SECOND - 1, 3 * SECOND, 3 * SECOND + 1] {
        let mut a = Store::new();
        let mut b = Store::new();
        let mut c = Store::new();
        for each in [&mut a, &mut b, &mut c] {
            each.apply_at(Command::Setex(s("k"), s("v"), 3), 0);
        }
        let got = a.apply_at(Command::Get(s("k")), now);
        let exists = b.apply_at(Command::Exists(s("k")), now);
        let ttl = c.apply_at(Command::Ttl(s("k")), now);
        let live = now < 3 * SECOND;
        assert_eq!(got == Response::Bulk(s("v")), live);
        assert_eq!(exists == Response::Integer(1), live);
        assert_eq!(ttl != Response::Integer(-2), live);
        if live {
            assert_eq!(ttl, Response::Bulk(((3 * SECOND - now) / SECOND).to_string()));
        }
    }
}

#[test]
fn running_clock_keeps_a_fresh_key_and_drops_a_zero_second_one() {
    let mut store = Store::new();
    assert_eq!(store.apply(Command::Setex(s("stay"), s("v"), 3600)), Response::Simple(s("OK")));
    assert_eq!(store.apply(Command::Setex(s("go"), s("v"), 0)), Response::Simple(s("OK")));
    assert_eq!(store.apply(Command::Get(s("stay"))), Response::Bulk(s("v")));
    assert_eq!(store.apply(Command::Get(s("go"))), null());
    assert_eq!(store.apply(Command::Exists(s("stay"))), Response::Integer(1));
    assert_eq!(store.apply(Command::Exists(s("go"))), Response::Integer(0));
}
