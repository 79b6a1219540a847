//! One turn of a conversation: a line comes in, the store applies what it
//! says, and text goes back.
//!
//! Whoever owns the connection reads the lines and sends the text. Where
//! several connections share one store, the owner of each takes the store
//! for itself for the length of a call to [`respond`], so that no two
//! commands are ever applied at once.

use vstd::prelude::*;
use crate::model::{answers, state_after, Contents, ResponseView};
use crate::protocol::{parse_line, parsed};
use crate::store::{Response, Store};
use crate::text::{decimal, push_decimal, push_signed_decimal, signed_decimal, texts};

verus! {

/// The lines that show a list: each item on a line of its own, behind its
/// index, counted from zero, and `) `.
pub open spec fn listing(items: Seq<Seq<char>>) -> Seq<char>
    decreases items.len(),
{
    if items.len() == 0 {
        Seq::<char>::empty()
    } else {
        listing(items.drop_last()) + decimal((items.len() - 1) as nat) + ") "@ + items.last()
            + "\n"@
    }
}

/// The text that shows a response.
pub open spec fn rendered(r: ResponseView) -> Seq<char> {
    match r {
        ResponseView::Simple(s) => s + "\n"@,
        ResponseView::Bulk(s) => s + "\n"@,
        ResponseView::Integer(i) => signed_decimal(i as int) + "\n"@,
        ResponseView::List(items) => listing(items),
        ResponseView::Quit => "OK"@ + "\n"@,
        ResponseView::Error(e) => "error: "@ + e + "\n"@,
    }
}

/// The text that tells of a line that is no command.
pub open spec fn refusal(why: Seq<char>) -> Seq<char> {
    "command parsing failed with message: "@ + why + "\n"@
}

/// Shows a response as text.
pub fn render(r: &Response) -> (s: String)
    ensures
        s@ == rendered(r@),
{
    let mut s = String::new();
    match r {
        Response::Simple(text) => {
            s.append(text.as_str());
            s.append("\n");
        },
        Response::Bulk(text) => {
            s.append(text.as_str());
            s.append("\n");
        },
        Response::Integer(i) => {
            push_signed_decimal(&mut s, *i);
            s.append("\n");
        },
        Response::List(items) => {
            let ghost all = texts(items@);
            let mut i: usize = 0;
            while i < items.len()
                invariant
                    i <= items.len(),
                    all == texts(items@),
                    s@ == listing(all.take(i as int)),
                decreases items.len() - i,
            {
                assert(all.take(i + 1).drop_last() =~= all.take(i as int));
                push_decimal(&mut s, i as u128);
                s.append(") ");
                s.append(items[i].as_str());
                s.append("\n");
                i += 1;
            }
            assert(all.take(i as int) =~= all);
        },
        Response::Quit() => {
            s.append("OK");
            s.append("\n");
        },
        Response::Error(text) => {
            s.append("error: ");
            s.append(text.as_str());
            s.append("\n");
        },
    }
    s
}

/// What goes back to the client after one line.
pub struct Turn {
    /// The text to send.
    pub text: String,
    /// Whether the conversation ends with it.
    pub close: bool,
}

/// A store that held `before` and was given `line` at `now` may hold `after`
/// and answer `text`, closing the conversation or not.
///
/// A line that is no command leaves the store alone and is answered with the
/// reason. A command is applied, and its response shown; only `QUIT` closes.
pub open spec fn turn(
    before: Contents,
    line: Seq<char>,
    now: nat,
    after: Contents,
    text: Seq<char>,
    close: bool,
) -> bool {
    match parsed(line) {
        Err(why) => after == before && text == refusal(why) && !close,
        Ok(cmd) => {
            &&& after == state_after(before, cmd, now)
            &&& exists|r: ResponseView|
                {
                    &&& #[trigger] answers(before, cmd, now, r)
                    &&& text == rendered(r)
                    &&& close == (r is Quit)
                }
        },
    }
}

/// The text behind a line that is no command.
fn refuse(why: &String) -> (t: Turn)
    ensures
        t.text@ == refusal(why@),
        !t.close,
{
    let mut text = String::new();
    text.append("command parsing failed with message: ");
    text.append(why.as_str());
    text.append("\n");
    Turn { text, close: false }
}

/// The text behind a response.
fn reply(r: &Response) -> (t: Turn)
    ensures
        t.text@ == rendered(r@),
        t.close == (r@ is Quit),
{
    let close = match r {
        Response::Quit() => true,
        _ => false,
    };
    Turn { text: render(r), close }
}

/// Takes one line at instant `now`.
pub fn respond_at(store: &mut Store, line: &str, now: u64) -> (t: Turn)
    ensures
        turn(old(store)@, line@, now as nat, final(store)@, t.text@, t.close),
        final(store).clock() == old(store).clock(),
{
    match parse_line(line) {
        Err(why) => refuse(&why),
        Ok(cmd) => {
            let r = store.apply_at(cmd, now);
            reply(&r)
        },
    }
}

/// Takes one line at the instant that the store's clock shows, which is not
/// before the instant of any earlier line. A line that is no command does
/// not read the clock.
pub fn respond(store: &mut Store, line: &str) -> (t: Turn)
    ensures
        old(store).clock() <= final(store).clock(),
        turn(old(store)@, line@, final(store).clock(), final(store)@, t.text@, t.close),
        parsed(line@) is Err ==> final(store).clock() == old(store).clock(),
{
    match parse_line(line) {
        Err(why) => refuse(&why),
        Ok(cmd) => {
            let r = store.apply(cmd);
            reply(&r)
        },
    }
}

} // verus!
