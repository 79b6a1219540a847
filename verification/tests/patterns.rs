use redis_lite::pattern::{matches_chars, split};

fn is_match(pattern: &str, key: &str) -> bool {
    redis_lite::pattern::matches(pattern, key)
}

/// The same matching, written with the text searches of the standard library.
fn by_text_search(pattern: &str, key: &str) -> bool {
    if pattern == "*" {
        return true;
    }
    let parts: Vec<&str> = pattern.split('*').collect();
    if parts.len() == 1 {
        return key == pattern;
    }
    if !key.starts_with(parts[0]) || !key.ends_with(parts[parts.len() - 1]) {
        return false;
    }
    let mut pos = parts[0].len();
    for part in &parts[1..parts.len() - 1] {
        match key[pos..].find(part) {
            Some(found) => pos += found + part.len(),
            None => return false,
        }
    }
    true
}

fn words(alphabet: &[char], longest: usize) -> Vec<String> {
    let mut all = vec![String::new()];
    let mut last = vec![String::new()];
    for _ in 0..longest {
        let mut next = Vec::new();
        for w in &last {
            for c in alphabet {
                let mut longer = w.clone();
                longer.push(*c);
                next.push(longer);
            }
        }
        all.extend(next.iter().cloned());
        last = next;
    }
    all
}

#[test]
fn prefix_pattern_matches_keys_with_that_prefix() {
    assert!(is_match("user:*", "user:1"));
    assert!(is_match("user:*", "user:bob"));
    assert!(is_match("user:*", "user:"));
    assert!(!is_match("user:*", "admin:1"));
    assert!(!is_match("user:*", "user"));
    assert!(!is_match("user:*", "xuser:1"));
}

#[test]
fn star_matches_every_key() {
    for key in ["", "a", "user:1", "*", "**", "sp ace", "\u{1f511}"] {
        assert!(is_match("*", key), "key {:?}", key);
    }
}

#[test]
fn pattern_without_star_matches_only_itself() {
    assert!(is_match("user:1", "user:1"));
    assert!(!is_match("user:1", "user:10"));
    assert!(!is_match("user:1", "user:"));
    assert!(!is_match("user:1", "User:1"));
    assert!(is_match("", ""));
    assert!(!is_match("", "a"));
    assert!(!is_match("a", ""));
}

#[test]
fn suffix_and_infix_patterns() {
    assert!(is_match("*:1", "user:1"));
    assert!(!is_match("*:1", "user:2"));
    assert!(is_match("a*c", "abc"));
    assert!(is_match("a*c", "ac"));
    assert!(!is_match("a*c", "ab"));
    assert!(is_match("*b*", "abc"));
    assert!(!is_match("*b*", "ac"));
    assert!(is_match("a*b*c", "a--b--c"));
    assert!(!is_match("a*b*c", "a--c--b"));
    assert!(is_match("**", ""));
    assert!(is_match("a**b", "ab"));
}

#[test]
fn fragments_in_the_middle_are_taken_leftmost_in_order() {
    assert!(is_match("x*ab*cd*y", "x-ab-cd-y"));
    assert!(!is_match("x*ab*cd*y", "x-cd-ab-y"));
    assert!(is_match("x*a*a*y", "xaay"));
    assert!(!is_match("x*a*a*y", "xay"));
    assert!(!is_match("x*aa*a*y", "xaay"));
}

#[test]
fn the_last_fragment_may_share_the_end_of_the_key() {
    // the first and the last fragment are tested on their own
    assert!(is_match("ab*bc", "abc"));
    assert!(is_match("a*a", "a"));
    assert!(is_match("x*b*b", "xb"));
    assert!(!is_match("ab*bc", "ab"));
}

#[test]
fn patterns_over_any_characters() {
    assert!(is_match("sch\u{fc}*\u{1f511}", "sch\u{fc}ssel \u{1f511}"));
    assert!(!is_match("sch\u{fc}*\u{1f511}", "schussel \u{1f511}"));
    assert!(is_match("*\u{e9}*", "caf\u{e9}s"));
    assert!(!is_match("*e*", "caf\u{e9}s"));
}

#[test]
fn agrees_with_text_search_on_all_short_inputs() {
    let patterns = words(&['a', 'b', '*'], 5);
    let keys = words(&['a', 'b'], 6);
    let mut matched = 0;
    for p in &patterns {
        for k in &keys {
            let expected = by_text_search(p, k);
            assert_eq!(is_match(p, k), expected, "pattern {:?}, key {:?}", p, k);
            if expected {
                matched += 1;
            }
        }
    }
    assert!(matched > 1000);
}

#[test]
fn agrees_with_text_search_where_stars_are_keys_too() {
    let patterns = words(&['a', '*'], 4);
    let keys = words(&['a', '*', '\u{e9}'], 4);
    for p in &patterns {
        for k in &keys {
            assert_eq!(is_match(p, k), by_text_search(p, k), "pattern {:?}, key {:?}", p, k);
        }
    }
}

#[test]
fn split_cuts_at_every_star() {
    let cut = |p: &str| -> Vec<String> {
        split(&p.chars().collect()).into_iter().map(|f| f.into_iter().collect()).collect()
    };
    assert_eq!(cut(""), vec![""]);
    assert_eq!(cut("abc"), vec!["abc"]);
    assert_eq!(cut("*"), vec!["", ""]);
    assert_eq!(cut("a*b"), vec!["a", "b"]);
    assert_eq!(cut("*a**b*"), vec!["", "a", "", "b", ""]);
    for p in words(&['a', 'b', '*'], 5) {
        let expected: Vec<String> = p.split('*').map(|f| f.to_string()).collect();
        assert_eq!(cut(&p), expected);
    }
}

#[test]
fn matching_on_a_pattern_cut_once() {
    let p: Vec<char> = "k*:*".chars().collect();
    let parts = split(&p);
    for (key, expected) in [("k1:a", true), ("k:", true), ("k", false), ("x:k:", false)] {
        let k: Vec<char> = key.chars().collect();
        assert_eq!(matches_chars(&p, &parts, &k), expected, "key {:?}", key);
    }
}

#[test]
fn pattern_is_cut_at_a_star_into_what_stands_on_either_side() {
    let cut = |p: &str| -> Vec<Vec<char>> { split(&p.chars().collect()) };
    for a in ["", "a", "a*b", "**"] {
        for b in ["", "c", "*c", "c*d*"] {
            let mut expected = cut(a);
            expected.extend(cut(b));
            assert_eq!(cut(&format!("{}*{}", a, b)), expected);
        }
    }
}
