use redis_lite::protocol::{
    describe, is_whitespace, parse_line, parse_number, parse_tokens, split_whitespace, NumberError,
};
use redis_lite::store::Command;

const USAGE: &str = "usage: GET key | SET key value | DEL key | EXPIRE key seconds";

fn s(text: &str) -> String {
    text.to_string()
}

fn usage() -> Result<Command, String> {
    Err(s(USAGE))
}

#[test]
fn each_command_is_read() {
    assert_eq!(parse_line("GET a"), Ok(Command::Get(s("a"))));
    assert_eq!(parse_line("SET a hello"), Ok(Command::Put(s("a"), s("hello"))));
    assert_eq!(parse_line("SETEX b val 30"), Ok(Command::Setex(s("b"), s("val"), 30)));
    assert_eq!(parse_line("DEL a"), Ok(Command::Del(s("a"))));
    assert_eq!(parse_line("EXISTS a"), Ok(Command::Exists(s("a"))));
    assert_eq!(parse_line("KEYS user:*"), Ok(Command::Keys(s("user:*"))));
    assert_eq!(parse_line("EXPIRE a 10"), Ok(Command::Expire(s("a"), 10)));
    assert_eq!(parse_line("TTL a"), Ok(Command::Ttl(s("a"))));
    assert_eq!(parse_line("PING"), Ok(Command::Ping()));
    assert_eq!(parse_line("QUIT"), Ok(Command::Quit()));
}

#[test]
fn command_names_are_read_without_regard_to_case() {
    assert_eq!(parse_line("get a"), Ok(Command::Get(s("a"))));
    assert_eq!(parse_line("GeT a"), Ok(Command::Get(s("a"))));
    assert_eq!(parse_line("setex k v 1"), Ok(Command::Setex(s("k"), s("v"), 1)));
    assert_eq!(parse_line("ExPiRe k -3"), Ok(Command::Expire(s("k"), -3)));
    assert_eq!(parse_line("ping"), Ok(Command::Ping()));
    assert_eq!(parse_line("quit"), Ok(Command::Quit()));
    // operands keep their case
    assert_eq!(parse_line("set Key Value"), Ok(Command::Put(s("Key"), s("Value"))));
}

#[test]
fn upper_case_is_that_of_unicode() {
    // the long s and the dotless i have S and I as their capitals
    assert_eq!(parse_line("\u{17f}et k v"), Ok(Command::Put(s("k"), s("v"))));
    assert_eq!(parse_line("p\u{131}ng"), Ok(Command::Ping()));
    assert_eq!(parse_line("qu\u{131}t"), Ok(Command::Quit()));
    // the Kelvin sign is a capital already, and no K
    assert_eq!(parse_line("\u{212a}EYS *"), usage());
}

#[test]
fn line_ends_and_runs_of_white_space_separate_tokens() {
    assert_eq!(parse_line("GET a\n"), Ok(Command::Get(s("a"))));
    assert_eq!(parse_line("GET a\r\n"), Ok(Command::Get(s("a"))));
    assert_eq!(parse_line("  \t GET \t\t a   "), Ok(Command::Get(s("a"))));
    assert_eq!(parse_line("GET\u{a0}a"), Ok(Command::Get(s("a"))));
    assert_eq!(parse_line("GET\u{3000}a\u{2028}"), Ok(Command::Get(s("a"))));
    // a zero-width space is no white space
    assert_eq!(parse_line("GET\u{200b}a"), usage());
}

#[test]
fn set_takes_the_rest_of_the_line_with_single_spaces() {
    assert_eq!(parse_line("SET k hello world"), Ok(Command::Put(s("k"), s("hello world"))));
    assert_eq!(
        parse_line("SET k   a \t b\u{a0}c  \n"),
        Ok(Command::Put(s("k"), s("a b c")))
    );
    assert_eq!(parse_line("SET k GET k"), Ok(Command::Put(s("k"), s("GET k"))));
}

#[test]
fn setex_takes_exactly_three_operands() {
    assert_eq!(parse_line("SETEX k v"), usage());
    assert_eq!(parse_line("SETEX k v 10 more"), usage());
    assert_eq!(parse_line("SETEX k two words 10"), usage());
    assert_eq!(parse_line("SETEX k v -1"), Ok(Command::Setex(s("k"), s("v"), -1)));
}

#[test]
fn empty_line_is_no_command() {
    for line in ["", "\n", "   ", "\t\r\n", "\u{2003}"] {
        assert_eq!(parse_line(line), Err(s("empty command")), "line {:?}", line);
    }
}

#[test]
fn wrong_operand_count_gives_the_usage() {
    for line in [
        "GET", "GET a b", "SET", "SET k", "DEL", "DEL a b", "EXISTS", "EXISTS a b", "KEYS",
        "KEYS a b", "EXPIRE", "EXPIRE k", "EXPIRE k 1 2", "TTL", "TTL a b", "PING x", "QUIT now",
    ] {
        assert_eq!(parse_line(line), usage(), "line {:?}", line);
    }
}

#[test]
fn unknown_command_gives_the_usage() {
    for line in ["FLUSH", "GETS a", "G a", "* a", "GET* a", "12", "SE T k v"] {
        assert_eq!(parse_line(line), usage(), "line {:?}", line);
    }
}

#[test]
fn wrong_operand_count_comes_before_the_seconds_are_read() {
    assert_eq!(parse_line("EXPIRE k x y"), usage());
    assert_eq!(parse_line("SETEX k v x y"), usage());
}

#[test]
fn seconds_that_are_no_number_are_refused_with_the_reason() {
    assert_eq!(parse_line("EXPIRE k ten"), Err(s("invalid digit found in string")));
    assert_eq!(parse_line("EXPIRE k 1.5"), Err(s("invalid digit found in string")));
    assert_eq!(parse_line("EXPIRE k -"), Err(s("invalid digit found in string")));
    assert_eq!(
        parse_line("EXPIRE k 2147483648"),
        Err(s("number too large to fit in target type"))
    );
    assert_eq!(
        parse_line("SETEX k v -2147483649"),
        Err(s("number too small to fit in target type"))
    );
    assert_eq!(parse_line("SETEX k v 1s"), Err(s("invalid digit found in string")));
}

#[test]
fn seconds_at_the_ends_of_the_range() {
    assert_eq!(parse_line("EXPIRE k 2147483647"), Ok(Command::Expire(s("k"), i32::MAX)));
    assert_eq!(parse_line("EXPIRE k -2147483648"), Ok(Command::Expire(s("k"), i32::MIN)));
    assert_eq!(parse_line("EXPIRE k +7"), Ok(Command::Expire(s("k"), 7)));
    assert_eq!(parse_line("EXPIRE k 0"), Ok(Command::Expire(s("k"), 0)));
    assert_eq!(parse_line("EXPIRE k -0"), Ok(Command::Expire(s("k"), 0)));
    assert_eq!(parse_line("EXPIRE k 0000000000000042"), Ok(Command::Expire(s("k"), 42)));
}

#[test]
fn numbers_are_read_as_the_standard_library_reads_them() {
    let samples = [
        "", "0", "-0", "+0", "7", "+7", "-7", "42", "2147483647", "2147483648", "+2147483647",
        "+2147483648", "-2147483648", "-2147483649", "99999999999", "-99999999999",
        "99999999999x", "-99999999999x", "999999999x", "x99999999999", "214748364x",
        "0000000000000000000000007", "-0000000000000000000000007", "+", "-", "+-1", "-+1", "--1",
        "++1", "1-", "1+", "1 ", " 1", "1_000", "1e3", "0x10", "\u{663}", "1\u{663}",
        "\u{ff11}", "12\u{e9}", "\u{e9}", "4294967296", "18446744073709551616",
    ];
    for text in samples {
        let expected = text.parse::<i32>().map_err(|e| e.to_string());
        let got = parse_number(text).map_err(describe);
        assert_eq!(got, expected, "token {:?}", text);
    }
}

#[test]
fn numbers_written_by_the_standard_library_are_read_back() {
    let mut i: i64 = i32::MIN as i64;
    while i <= i32::MAX as i64 {
        assert_eq!(parse_number(&i.to_string()), Ok(i as i32));
        i += 9_999_991;
    }
    for i in -1000..=1000 {
        assert_eq!(parse_number(&i.to_string()), Ok(i));
    }
    assert_eq!(parse_number(&i32::MAX.to_string()), Ok(i32::MAX));
}

#[test]
fn each_number_error_has_its_text() {
    assert_eq!(parse_number(""), Err(NumberError::Empty));
    assert_eq!(parse_number("a"), Err(NumberError::InvalidDigit));
    assert_eq!(parse_number("3000000000"), Err(NumberError::TooLarge));
    assert_eq!(parse_number("-3000000000"), Err(NumberError::TooSmall));
    assert_eq!(describe(NumberError::Empty), "cannot parse integer from empty string");
    assert_eq!(describe(NumberError::InvalidDigit), "invalid digit found in string");
    assert_eq!(describe(NumberError::TooLarge), "number too large to fit in target type");
    assert_eq!(describe(NumberError::TooSmall), "number too small to fit in target type");
}

#[test]
fn white_space_is_that_of_unicode() {
    let mut spaces = 0;
    for code in 0..=0x10FFFFu32 {
        if let Some(c) = char::from_u32(code) {
            assert_eq!(is_whitespace(c), c.is_whitespace(), "U+{:04X}", code);
            if c.is_whitespace() {
                spaces += 1;
            }
        }
    }
    assert_eq!(spaces, 25);
}

#[test]
fn tokens_are_those_of_the_standard_library() {
    let lines = [
        "", " ", "a", " a", "a ", " a ", "a b", "a  b", "\ta\nb\r\nc\u{b}d\u{c}e", "SET k  v w ",
        "\u{a0}a\u{1680}b\u{2000}c\u{200a}d\u{2028}e\u{2029}f\u{202f}g\u{205f}h\u{3000}",
        "a\u{200b}b", "\u{85}x\u{85}", "caf\u{e9} \u{1f511}  ",
    ];
    for line in lines {
        let expected: Vec<String> = line.split_whitespace().map(|t| t.to_string()).collect();
        assert_eq!(split_whitespace(line), expected, "line {:?}", line);
    }
}

#[test]
fn tokens_of_all_short_lines() {
    let mut lines = vec![String::new()];
    for _ in 0..6 {
        let mut longer = Vec::new();
        for l in &lines {
            for c in ['a', 'b', ' ', '\t'] {
                let mut next = l.clone();
                next.push(c);
                longer.push(next);
            }
        }
        lines.extend(longer);
        lines.sort();
        lines.dedup();
    }
    assert!(lines.len() > 5000);
    for line in &lines {
        let expected: Vec<String> = line.split_whitespace().map(|t| t.to_string()).collect();
        assert_eq!(&split_whitespace(line), &expected, "line {:?}", line);
    }
}

#[test]
fn tokens_with_a_name_already_in_upper_case() {
    let toks = |words: &[&str]| -> Vec<String> { words.iter().map(|w| w.to_string()).collect() };
    assert_eq!(parse_tokens("GET", &toks(&["get", "a"])), Ok(Command::Get(s("a"))));
    // the name is taken as given: nothing is made upper case here
    assert_eq!(parse_tokens("get", &toks(&["get", "a"])), usage());
    assert_eq!(
        parse_tokens("SET", &toks(&["x", "k", "a", "b", "c"])),
        Ok(Command::Put(s("k"), s("a b c")))
    );
    assert_eq!(parse_tokens("PING", &toks(&[])), usage());
    assert_eq!(parse_tokens("PING", &toks(&["anything"])), Ok(Command::Ping()));
    assert_eq!(
        parse_tokens("EXPIRE", &toks(&["expire", "k", ""])),
        Err(s("cannot parse integer from empty string"))
    );
    assert_eq!(parse_tokens("", &toks(&[""])), usage());
}

#[test]
fn numbers_that_this_library_writes_are_read_back() {
    let written = |i: i32| {
        let mut text = String::new();
        redis_lite::text::push_signed_decimal(&mut text, i);
        text
    };
    for i in [0, 1, -1, 9, 10, -10, 99, 100, 2_000_000_000, i32::MAX, i32::MIN, i32::MIN + 1] {
        assert_eq!(parse_number(&written(i)), Ok(i));
    }
    let mut i: i64 = i32::MIN as i64;
    while i <= i32::MAX as i64 {
        assert_eq!(parse_number(&written(i as i32)), Ok(i as i32));
        i += 7_777_777;
    }
}

#[test]
fn white_space_between_two_lines_keeps_their_tokens_apart() {
    for a in ["", "x", "x y", " x ", "SET k"] {
        for b in ["", "z", " z w ", "v 1"] {
            for c in [' ', '\t', '\n', '\u{a0}', '\u{3000}'] {
                let mut expected = split_whitespace(a);
                expected.extend(split_whitespace(b));
                assert_eq!(split_whitespace(&format!("{}{}{}", a, c, b)), expected);
            }
        }
    }
    assert_eq!(split_whitespace("word"), vec![s("word")]);
}
