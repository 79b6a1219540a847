//! The command line: one line of text, cut into tokens at whitespace, names
//! one command with its operands.
//!
//! ```text
//! GET    key
//! SET    key value...     the value is the rest of the line, its tokens
//!                         joined by single spaces
//! SETEX  key value seconds
//! DEL    key
//! EXISTS key
//! KEYS   pattern
//! EXPIRE key seconds
//! TTL    key
//! PING
//! QUIT
//! ```
//!
//! The command's name is read without regard to case. Seconds are a decimal
//! integer with an optional sign.

use vstd::prelude::*;
use crate::model::CommandView;
use crate::store::Command;
use crate::text::{chars_of, decimal, digit, push_char, signed_decimal, texts};

verus! {

/// Whether `c` is white space: the characters with Unicode's `White_Space`
/// property.
pub open spec fn is_space(c: char) -> bool {
    let n = c as u32;
    ||| 0x09 <= n <= 0x0D
    ||| n == 0x20
    ||| n == 0x85
    ||| n == 0xA0
    ||| n == 0x1680
    ||| 0x2000 <= n <= 0x200A
    ||| n == 0x2028
    ||| n == 0x2029
    ||| n == 0x202F
    ||| n == 0x205F
    ||| n == 0x3000
}

/// The tokens of a line: its longest runs of characters that are not white
/// space, in order.
pub open spec fn tokens(s: Seq<char>) -> Seq<Seq<char>>
    decreases s.len(),
{
    if s.len() == 0 {
        Seq::<Seq<char>>::empty()
    } else {
        let before = tokens(s.drop_last());
        let c = s.last();
        if is_space(c) {
            before
        } else if s.len() >= 2 && !is_space(s[s.len() - 2]) {
            // `c` goes on with the token that the character before it is in
            before.drop_last().push(before.last().push(c))
        } else {
            before.push(seq![c])
        }
    }
}

/// The words with one space between neighbours.
pub open spec fn spaced(words: Seq<Seq<char>>) -> Seq<char>
    decreases words.len(),
{
    if words.len() == 0 {
        Seq::<char>::empty()
    } else if words.len() == 1 {
        words[0]
    } else {
        spaced(words.drop_last()).push(' ') + words.last()
    }
}

/// Why a token is not a number of seconds.
#[derive(Debug, PartialEq, Eq, Clone, Copy)]
pub enum NumberError {
    /// The token is empty.
    Empty,
    /// A character that is no digit stands where a digit must.
    InvalidDigit,
    /// The number is above `i32::MAX`.
    TooLarge,
    /// The number is below `i32::MIN`.
    TooSmall,
}

/// Whether `c` is one of `0` to `9`.
pub open spec fn is_digit(c: char) -> bool {
    '0' <= c <= '9'
}

/// The number that the digit `c` stands for.
pub open spec fn digit_value(c: char) -> int
    recommends
        is_digit(c),
{
    c as int - 48
}

/// Reads `digits` from left to right onto `acc`, adding for a positive
/// number and subtracting for a negative one. The first character that is no
/// digit, or the first digit that takes the number out of `i32`, ends the
/// reading with its error.
pub open spec fn scan(digits: Seq<char>, acc: int, negative: bool) -> Result<int, NumberError>
    decreases digits.len(),
{
    if digits.len() == 0 {
        Ok(acc)
    } else if !is_digit(digits[0]) {
        Err(NumberError::InvalidDigit)
    } else {
        let next = if negative {
            acc * 10 - digit_value(digits[0])
        } else {
            acc * 10 + digit_value(digits[0])
        };
        if next > i32::MAX {
            Err(NumberError::TooLarge)
        } else if next < i32::MIN {
            Err(NumberError::TooSmall)
        } else {
            scan(digits.drop_first(), next, negative)
        }
    }
}

/// The `i32` that a token writes: decimal digits behind an optional `+` or
/// `-`. A sign alone is no number.
pub open spec fn number(token: Seq<char>) -> Result<int, NumberError> {
    if token.len() == 0 {
        Err(NumberError::Empty)
    } else if token.len() == 1 && (token[0] == '+' || token[0] == '-') {
        Err(NumberError::InvalidDigit)
    } else if token[0] == '+' {
        scan(token.drop_first(), 0, false)
    } else if token[0] == '-' {
        scan(token.drop_first(), 0, true)
    } else {
        scan(token, 0, false)
    }
}

/// What the client is told about a token that is no number.
pub open spec fn number_error_text(e: NumberError) -> Seq<char> {
    match e {
        NumberError::Empty => "cannot parse integer from empty string"@,
        NumberError::InvalidDigit => "invalid digit found in string"@,
        NumberError::TooLarge => "number too large to fit in target type"@,
        NumberError::TooSmall => "number too small to fit in target type"@,
    }
}

/// A line that ends in a character that is no white space has a token.
proof fn lemma_tokens_end_open(s: Seq<char>)
    requires
        s.len() > 0,
        !is_space(s.last()),
    ensures
        tokens(s).len() > 0,
    decreases s.len(),
{
    if s.len() >= 2 && !is_space(s[s.len() - 2]) {
        lemma_tokens_end_open(s.drop_last());
    }
}

/// A word, one or more characters none of which is white space, is its own
/// single token.
pub proof fn lemma_tokens_of_word(w: Seq<char>)
    requires
        w.len() > 0,
        forall|i: int| 0 <= i < w.len() ==> !is_space(w[i]),
    ensures
        tokens(w) == seq![w],
    decreases w.len(),
{
    let init = w.drop_last();
    if w.len() == 1 {
        assert(tokens(init) =~= Seq::<Seq<char>>::empty());
        assert(seq![w.last()] =~= w);
    } else {
        lemma_tokens_of_word(init);
        assert(init.push(w.last()) =~= w);
    }
}

/// White space separates: the tokens of `a`, a white space and `b` are those
/// of `a` and then those of `b`.
pub proof fn lemma_tokens_around_space(a: Seq<char>, c: char, b: Seq<char>)
    requires
        is_space(c),
    ensures
        tokens(a.push(c) + b) == tokens(a) + tokens(b),
    decreases b.len(),
{
    let whole = a.push(c) + b;
    if b.len() == 0 {
        assert(whole.drop_last() =~= a);
    } else {
        let init = b.drop_last();
        let d = b.last();
        let ta = tokens(a);
        let ti = tokens(init);
        assert(whole.drop_last() =~= a.push(c) + init);
        lemma_tokens_around_space(a, c, init);
        if !is_space(d) && init.len() > 0 && !is_space(init.last()) {
            // `d` goes on with the last token of `init`, which `b` and the
            // whole line share
            lemma_tokens_end_open(init);
            assert((ta + ti.drop_last()).push(ti.last().push(d)) =~= ta + ti.drop_last().push(
                ti.last().push(d),
            ));
        }
    }
}

/// The numeral of a number begins with a digit.
proof fn lemma_decimal_begins_with_digit(n: nat)
    ensures
        decimal(n).len() > 0,
        is_digit(decimal(n)[0]),
    decreases n,
{
    if n >= 10 {
        lemma_decimal_begins_with_digit(n / 10);
    }
}

/// Reading the numeral of `n` from zero arrives at `n`, or at `-n` when
/// subtracting, and goes on from there.
proof fn lemma_scan_reads_decimal(n: nat, rest: Seq<char>, negative: bool)
    requires
        n <= if negative {
            0x8000_0000int
        } else {
            0x7fff_ffffint
        },
    ensures
        scan(decimal(n) + rest, 0, negative) == scan(
            rest,
            if negative {
                -(n as int)
            } else {
                n as int
            },
            negative,
        ),
    decreases n,
{
    if n < 10 {
        assert((decimal(n) + rest).drop_first() =~= rest);
    } else {
        let low = seq![digit(n % 10)] + rest;
        assert(decimal(n) + rest =~= decimal(n / 10) + low);
        lemma_scan_reads_decimal(n / 10, low, negative);
        assert(low.drop_first() =~= rest);
    }
}

/// What [`signed_decimal`] writes, [`number`] reads back.
pub proof fn lemma_number_reads_decimal(i: i32)
    ensures
        number(signed_decimal(i as int)) == Ok::<int, NumberError>(i as int),
{
    let none = Seq::<char>::empty();
    if i < 0 {
        let n = (-i) as nat;
        lemma_decimal_begins_with_digit(n);
        assert(signed_decimal(i as int).drop_first() =~= decimal(n));
        lemma_scan_reads_decimal(n, none, true);
    } else {
        let n = i as nat;
        lemma_decimal_begins_with_digit(n);
        lemma_scan_reads_decimal(n, none, false);
    }
}

/// Whether `c` is white space.
pub fn is_whitespace(c: char) -> (r: bool)
    ensures
        r == is_space(c),
{
    let n: u32 = c as u32;
    (0x09 <= n && n <= 0x0D) || n == 0x20 || n == 0x85 || n == 0xA0 || n == 0x1680 || (0x2000 <= n
        && n <= 0x200A) || n == 0x2028 || n == 0x2029 || n == 0x202F || n == 0x205F || n == 0x3000
}

/// Cuts a line into its tokens.
pub fn split_whitespace(line: &str) -> (toks: Vec<String>)
    ensures
        texts(toks@) == tokens(line@),
{
    let chars = chars_of(line);
    let mut toks: Vec<String> = Vec::new();
    let mut current = String::new();
    let mut open = false;
    let mut i: usize = 0;
    while i < chars.len()
        invariant
            i <= chars.len(),
            open <==> (i > 0 && !is_space(chars@[i - 1])),
            tokens(chars@.take(i as int)) == if open {
                texts(toks@).push(current@)
            } else {
                texts(toks@)
            },
            !open ==> current@.len() == 0,
        decreases chars.len() - i,
    {
        let ghost done = texts(toks@);
        let ghost word = current@;
        let c = chars[i];
        assert(chars@.take(i + 1).drop_last() =~= chars@.take(i as int));
        if is_whitespace(c) {
            if open {
                toks.push(current);
                current = String::new();
                open = false;
            }
        } else {
            push_char(&mut current, c);
            if open {
                assert(done.push(current@) =~= done.push(word).drop_last().push(
                    done.push(word).last().push(c),
                ));
            } else {
                assert(current@ =~= seq![c]);
            }
            open = true;
        }
        i += 1;
    }
    assert(chars@.take(i as int) =~= chars@);
    if open {
        toks.push(current);
    }
    toks
}

/// A number of seconds written in decimal.
pub fn parse_number(token: &str) -> (r: Result<i32, NumberError>)
    ensures
        match r {
            Ok(n) => number(token@) == Ok::<int, NumberError>(n as int),
            Err(e) => number(token@) == Err::<int, NumberError>(e),
        },
{
    let chars = chars_of(token);
    let n = chars.len();
    if n == 0 {
        return Err(NumberError::Empty);
    }
    let first = chars[0];
    let signed = first == '+' || first == '-';
    if n == 1 && signed {
        return Err(NumberError::InvalidDigit);
    }
    let negative = first == '-';
    let start: usize = if signed {
        1
    } else {
        0
    };
    let mut acc: i64 = 0;
    let mut i: usize = start;
    assert(chars@.skip(0) =~= chars@);
    while i < n
        invariant
            start <= i <= n,
            n == chars.len(),
            i32::MIN <= acc <= i32::MAX,
            number(token@) == scan(chars@.skip(i as int), acc as int, negative),
        decreases n - i,
    {
        let c = chars[i];
        assert(chars@.skip(i as int).drop_first() =~= chars@.skip(i + 1));
        if c < '0' || c > '9' {
            return Err(NumberError::InvalidDigit);
        }
        let d: i64 = (c as u8 - 48) as i64;
        let next: i64 = if negative {
            acc * 10 - d
        } else {
            acc * 10 + d
        };
        if next > i32::MAX as i64 {
            return Err(NumberError::TooLarge);
        }
        if next < i32::MIN as i64 {
            return Err(NumberError::TooSmall);
        }
        acc = next;
        i += 1;
    }
    Ok(acc as i32)
}

/// What the client is told about a token that is no number.
pub fn describe(e: NumberError) -> (s: String)
    ensures
        s@ == number_error_text(e),
{
    match e {
        NumberError::Empty => "cannot parse integer from empty string".to_owned(),
        NumberError::InvalidDigit => "invalid digit found in string".to_owned(),
        NumberError::TooLarge => "number too large to fit in target type".to_owned(),
        NumberError::TooSmall => "number too small to fit in target type".to_owned(),
    }
}

/// The tokens from index `from` on, with one space between neighbours.
fn join_from(toks: &Vec<String>, from: usize) -> (s: String)
    requires
        from <= toks.len(),
    ensures
        s@ == spaced(texts(toks@).skip(from as int)),
{
    let mut s = String::new();
    let mut i: usize = from;
    let ghost all = texts(toks@);
    while i < toks.len()
        invariant
            from <= i <= toks.len(),
            all == texts(toks@),
            s@ == spaced(all.subrange(from as int, i as int)),
        decreases toks.len() - i,
    {
        assert(all.subrange(from as int, i + 1).drop_last() =~= all.subrange(
            from as int,
            i as int,
        ));
        if i > from {
            push_char(&mut s, ' ');
        }
        s.append(toks[i].as_str());
        i += 1;
    }
    s
}

/// The upper-case form of a string: what `str::to_uppercase` of the standard
/// library makes of it, by Unicode's tables.
pub uninterp spec fn uppercase(s: Seq<char>) -> Seq<char>;

/// The upper-case form of `s`.
///
/// Trusted: `str::to_uppercase` depends on nothing but the characters of
/// its argument; its result is given the name [`uppercase`], and nothing
/// more is claimed of it.
#[verifier::external_body]
fn to_uppercase(s: &str) -> (r: String)
    ensures
        r@ == uppercase(s@),
{
    s.to_uppercase()
}

/// What the client is told about a line that names no command with the
/// right number of operands.
pub open spec fn usage() -> Seq<char> {
    "usage: GET key | SET key value | DEL key | EXPIRE key seconds"@
}

/// The command with operands `toks[1..]` and the number of seconds that
/// `token` writes, or the reason why `token` writes none.
pub open spec fn timed(
    token: Seq<char>,
    make: spec_fn(i32) -> CommandView,
) -> Result<CommandView, Seq<char>> {
    match number(token) {
        Ok(n) => Ok(make(n as i32)),
        Err(e) => Err(number_error_text(e)),
    }
}

/// The command that the tokens of a line write, given the upper-case form
/// `name` of the first of them; or what the client is told instead.
pub open spec fn command_of(name: Seq<char>, toks: Seq<Seq<char>>) -> Result<
    CommandView,
    Seq<char>,
> {
    let n = toks.len();
    if name == "GET"@ && n == 2 {
        Ok(CommandView::Get(toks[1]))
    } else if name == "SET"@ && n >= 3 {
        Ok(CommandView::Put(toks[1], spaced(toks.skip(2))))
    } else if name == "SETEX"@ && n == 4 {
        timed(toks[3], |s: i32| CommandView::Setex(toks[1], toks[2], s))
    } else if name == "DEL"@ && n == 2 {
        Ok(CommandView::Del(toks[1]))
    } else if name == "EXISTS"@ && n == 2 {
        Ok(CommandView::Exists(toks[1]))
    } else if name == "KEYS"@ && n == 2 {
        Ok(CommandView::Keys(toks[1]))
    } else if name == "EXPIRE"@ && n == 3 {
        timed(toks[2], |s: i32| CommandView::Expire(toks[1], s))
    } else if name == "TTL"@ && n == 2 {
        Ok(CommandView::Ttl(toks[1]))
    } else if name == "PING"@ && n == 1 {
        Ok(CommandView::Ping)
    } else if name == "QUIT"@ && n == 1 {
        Ok(CommandView::Quit)
    } else {
        Err(usage())
    }
}

/// What a line says: the command of its tokens, named by the upper-case form
/// of the first; a line without tokens says nothing.
pub open spec fn parsed(line: Seq<char>) -> Result<CommandView, Seq<char>> {
    let toks = tokens(line);
    if toks.len() == 0 {
        Err("empty command"@)
    } else {
        command_of(uppercase(toks[0]), toks)
    }
}

/// The outcome of parsing, with its strings as plain sequences.
pub open spec fn outcome(r: Result<Command, String>) -> Result<CommandView, Seq<char>> {
    match r {
        Ok(c) => Ok(c@),
        Err(e) => Err(e@),
    }
}

/// Whether `name` spells `word`.
fn is_word(name: &Vec<char>, word: &str) -> (r: bool)
    ensures
        r == (name@ == word@),
{
    let w = chars_of(word);
    if w.len() != name.len() {
        return false;
    }
    let mut i: usize = 0;
    while i < w.len()
        invariant
            i <= w.len(),
            w.len() == name.len(),
            w@ == word@,
            forall|j: int| 0 <= j < i ==> name@[j] == w@[j],
        decreases w.len() - i,
    {
        if name[i] != w[i] {
            return false;
        }
        i += 1;
    }
    assert(name@ =~= w@);
    true
}

/// The command that `tokens` write when `name` is the upper-case form of the
/// first of them.
pub fn parse_tokens(name: &str, tokens: &Vec<String>) -> (r: Result<Command, String>)
    ensures
        outcome(r) == command_of(name@, texts(tokens@)),
{
    let n = tokens.len();
    let word = chars_of(name);
    if is_word(&word, "GET") && n == 2 {
        Ok(Command::Get(tokens[1].clone()))
    } else if is_word(&word, "SET") && n >= 3 {
        Ok(Command::Put(tokens[1].clone(), join_from(tokens, 2)))
    } else if is_word(&word, "SETEX") && n == 4 {
        match parse_number(tokens[3].as_str()) {
            Ok(s) => Ok(Command::Setex(tokens[1].clone(), tokens[2].clone(), s)),
            Err(e) => Err(describe(e)),
        }
    } else if is_word(&word, "DEL") && n == 2 {
        Ok(Command::Del(tokens[1].clone()))
    } else if is_word(&word, "EXISTS") && n == 2 {
        Ok(Command::Exists(tokens[1].clone()))
    } else if is_word(&word, "KEYS") && n == 2 {
        Ok(Command::Keys(tokens[1].clone()))
    } else if is_word(&word, "EXPIRE") && n == 3 {
        match parse_number(tokens[2].as_str()) {
            Ok(s) => Ok(Command::Expire(tokens[1].clone(), s)),
            Err(e) => Err(describe(e)),
        }
    } else if is_word(&word, "TTL") && n == 2 {
        Ok(Command::Ttl(tokens[1].clone()))
    } else if is_word(&word, "PING") && n == 1 {
        Ok(Command::Ping())
    } else if is_word(&word, "QUIT") && n == 1 {
        Ok(Command::Quit())
    } else {
        Err("usage: GET key | SET key value | DEL key | EXPIRE key seconds".to_owned())
    }
}

/// Reads one line as a command.
pub fn parse_line(line: &str) -> (r: Result<Command, String>)
    ensures
        outcome(r) == parsed(line@),
{
    let tokens = split_whitespace(line);
    if tokens.len() == 0 {
        return Err("empty command".to_owned());
    }
    let name = to_uppercase(tokens[0].as_str());
    parse_tokens(name.as_str(), &tokens)
}

} // verus!
