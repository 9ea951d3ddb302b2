//! The command line: one request line is split into words, the first word
//! names the command, the others are its arguments. The command runs on the
//! store and answers with a response.

use crate::clock::now_millis;
use crate::decimal::{parse_u64, str_to_u64};
use crate::error::{ErrorView, RedisError, Response, ResponseView};
use crate::model;
use crate::model::Outcome;
use crate::store::{follows, Store, StoreView};
use crate::text::{
    ascii_upper, chars_of, join, join_words, same_text, split_words, to_upper, tokens, trim,
    trim_bounds,
};
use vstd::prelude::*;

verus! {

/// The error of a command that came with `n - 1` arguments where it expects
/// `expected`.
pub open spec fn arity_error(command: Seq<char>, expected: Seq<char>, n: nat) -> ErrorView {
    ErrorView::WrongArguments { command, expected, got: (n - 1) as usize }
}

/// True when the command is refused with the error `e`: the store stays as
/// it is.
pub open spec fn refused(
    before: StoreView,
    after: StoreView,
    reply: ResponseView,
    e: ErrorView,
) -> bool {
    after == before && reply == ResponseView::Error(e)
}

/// True when the command only says `text`: the store stays as it is.
pub open spec fn said(
    before: StoreView,
    after: StoreView,
    reply: ResponseView,
    text: Seq<char>,
) -> bool {
    after == before && reply == ResponseView::SimpleString(text)
}

/// A command that takes one argument and has the outcome `out` when it gets
/// one.
pub open spec fn takes_one(
    before: StoreView,
    parts: Seq<Seq<char>>,
    after: StoreView,
    reply: ResponseView,
    command: Seq<char>,
    out: Outcome,
) -> bool {
    if parts.len() == 2 {
        follows(before, after, reply, out)
    } else {
        refused(before, after, reply, arity_error(command, "1"@, parts.len()))
    }
}

/// A command that takes a key and one value or more, and has the outcome
/// `out` when it gets them.
pub open spec fn takes_many(
    before: StoreView,
    parts: Seq<Seq<char>>,
    after: StoreView,
    reply: ResponseView,
    command: Seq<char>,
    out: Outcome,
) -> bool {
    if parts.len() >= 3 {
        follows(before, after, reply, out)
    } else {
        refused(before, after, reply, arity_error(command, "at least 2"@, parts.len()))
    }
}

/// `SET key value.. [EX seconds]`: the value is the words after the key,
/// joined by single spaces. The last two words are taken as `EX` and a
/// lifetime when there are five words or more and the last but one is `EX` in
/// any case of letters.
pub open spec fn set_step(
    before: StoreView,
    parts: Seq<Seq<char>>,
    now: u64,
    after: StoreView,
    reply: ResponseView,
) -> bool {
    let n = parts.len() as int;
    if n < 3 {
        refused(before, after, reply, arity_error("SET"@, "at least 3"@, parts.len()))
    } else if n >= 5 && to_upper(parts[n - 2]) == "EX"@ {
        match parse_u64(parts[n - 1]) {
            None => refused(before, after, reply, ErrorView::InvalidType("invalid EX ttl"@)),
            Some(secs) => {
                let value = join(parts.subrange(2, n - 2));
                if value.len() == 0 {
                    refused(before, after, reply, ErrorView::InvalidType("empty value"@))
                } else {
                    follows(
                        before,
                        after,
                        reply,
                        model::set(before.keys, parts[1], value, Some(secs), now),
                    )
                }
            },
        }
    } else {
        let value = join(parts.subrange(2, n));
        if value.len() == 0 {
            refused(before, after, reply, ErrorView::InvalidType("empty value"@))
        } else {
            follows(before, after, reply, model::set(before.keys, parts[1], value, None, now))
        }
    }
}

/// What the command spelled by the words `parts` does at the instant `now`:
/// true when it leads from the store `before` to the store `after` and
/// answers `reply`. The first word names the command, in any case of letters.
pub open spec fn step(
    before: StoreView,
    parts: Seq<Seq<char>>,
    now: u64,
    after: StoreView,
    reply: ResponseView,
) -> bool {
    let keys = before.keys;
    if parts.len() == 0 {
        refused(before, after, reply, ErrorView::InvalidCommand("empty command"@))
    } else {
        let name = to_upper(parts[0]);
        if name == "PING"@ {
            if parts.len() == 1 {
                said(before, after, reply, "PONG"@)
            } else {
                refused(before, after, reply, arity_error("PING"@, "0"@, parts.len()))
            }
        } else if name == "QUIT"@ {
            if parts.len() == 1 {
                said(before, after, reply, "BYE"@)
            } else {
                refused(before, after, reply, arity_error("QUIT"@, "0"@, parts.len()))
            }
        } else if name == "SET"@ {
            set_step(before, parts, now, after, reply)
        } else if name == "GET"@ {
            takes_one(before, parts, after, reply, name, model::get(keys, parts[1], now))
        } else if name == "DEL"@ {
            takes_one(before, parts, after, reply, name, model::del(keys, parts[1], now))
        } else if name == "EXISTS"@ {
            takes_one(before, parts, after, reply, name, model::exists_key(keys, parts[1], now))
        } else if name == "TTL"@ {
            takes_one(before, parts, after, reply, name, model::ttl(keys, parts[1], now))
        } else if name == "KEYS"@ {
            if parts.len() == 2 {
                &&& model::keys_outcome(
                    keys,
                    parts[1],
                    now,
                    Outcome { keys: after.keys, reply, record: None },
                )
                &&& after.journal == before.journal
            } else {
                refused(before, after, reply, arity_error(name, "1"@, parts.len()))
            }
        } else if name == "INCR"@ {
            takes_one(before, parts, after, reply, name, model::incr(keys, parts[1], now))
        } else if name == "LPUSH"@ {
            takes_many(
                before,
                parts,
                after,
                reply,
                name,
                model::lpush(keys, parts[1], parts.skip(2), now),
            )
        } else if name == "LPOP"@ {
            takes_one(before, parts, after, reply, name, model::lpop(keys, parts[1], now))
        } else if name == "LLEN"@ {
            takes_one(before, parts, after, reply, name, model::llen(keys, parts[1], now))
        } else if name == "SADD"@ {
            takes_many(
                before,
                parts,
                after,
                reply,
                name,
                model::sadd(keys, parts[1], parts.skip(2), now),
            )
        } else if name == "SREM"@ {
            takes_many(
                before,
                parts,
                after,
                reply,
                name,
                model::srem(keys, parts[1], parts.skip(2), now),
            )
        } else if name == "SCARD"@ {
            takes_one(before, parts, after, reply, name, model::scard(keys, parts[1], now))
        } else {
            refused(before, after, reply, ErrorView::InvalidCommand(name))
        }
    }
}

/// What the request line `line` does at the instant `now`: what the command
/// does that its words spell. The words are those of the line without the
/// white space at its start and at its end.
pub open spec fn line_step(
    before: StoreView,
    line: Seq<char>,
    now: u64,
    after: StoreView,
    reply: ResponseView,
) -> bool {
    step(before, tokens(trim(line)), now, after, reply)
}

/// What is written back for a response, and whether the connection closes
/// after it: the response's line and a line feed; for the line `BYE` the
/// farewell, and the connection closes.
pub open spec fn wire_reply(reply: ResponseView) -> (Seq<char>, bool) {
    if reply.render() == "BYE"@ {
        ("Bye!!!\n"@, true)
    } else {
        (reply.render().push('\n'), false)
    }
}

/// The error of `command` that came with `n - 1` arguments where it expects
/// `expected`.
fn wrong_arguments(command: &str, expected: &str, n: usize) -> (r: Response)
    requires
        n > 0,
    ensures
        r@ == ResponseView::Error(arity_error(command@, expected@, n as nat)),
{
    Response::Error(
        RedisError::WrongArguments {
            command: command.to_owned(),
            expected: expected.to_owned(),
            got: n - 1,
        },
    )
}

/// The error with the text `message` for an argument of the wrong shape.
fn invalid(message: &str) -> (r: Response)
    ensures
        r@ == ResponseView::Error(ErrorView::InvalidType(message@)),
{
    Response::Error(RedisError::InvalidType(message.to_owned()))
}

/// The words `parts[from..]`.
fn rest(parts: &Vec<String>, from: usize) -> (r: Vec<String>)
    requires
        from <= parts.len(),
    ensures
        r.deep_view() == parts.deep_view().skip(from as int),
{
    let mut r: Vec<String> = Vec::new();
    let mut i: usize = from;
    while i < parts.len()
        invariant
            from <= i <= parts.len(),
            r.deep_view() == parts.deep_view().subrange(from as int, i as int),
        decreases parts.len() - i,
    {
        let ghost before = r.deep_view();
        r.push(parts[i].clone());
        proof {
            assert(r.deep_view() =~= before.push(parts.deep_view()[i as int]));
            assert(parts.deep_view().subrange(from as int, i + 1) =~= before.push(
                parts.deep_view()[i as int],
            ));
        }
        i += 1;
    }
    proof {
        assert(parts.deep_view().subrange(from as int, parts.len() as int) =~= parts.deep_view().skip(
            from as int,
        ));
    }
    r
}

/// The words of the request line `input`: those of the line without the
/// white space at its start and at its end.
pub fn split_line(input: &str) -> (parts: Vec<String>)
    ensures
        parts.deep_view() == tokens(trim(input@)),
{
    let v = chars_of(input);
    let (a, b) = trim_bounds(&v);
    split_words(&v, a, b)
}

/// `SET` with its arguments in `parts` (see [`set_step`]).
fn run_set(store: &mut Store, parts: &Vec<String>, now: u64) -> (r: Response)
    requires
        parts.len() > 0,
    ensures
        set_step(old(store)@, parts.deep_view(), now, final(store)@, r@),
{
    let n = parts.len();
    let ghost words = parts.deep_view();
    if n < 3 {
        return wrong_arguments("SET", "at least 3", n);
    }
    let key = parts[1].clone();
    let marked = n >= 5 && same_text(ascii_upper(parts[n - 2].as_str()).as_str(), "EX");
    if marked {
        match str_to_u64(parts[n - 1].as_str()) {
            None => invalid("invalid EX ttl"),
            Some(secs) => {
                let value = join_words(parts, 2, n - 2);
                if value.as_str().is_empty() {
                    invalid("empty value")
                } else {
                    store.set_at(key, value, Some(secs), now)
                }
            },
        }
    } else {
        let value = join_words(parts, 2, n);
        if value.as_str().is_empty() {
            invalid("empty value")
        } else {
            store.set_at(key, value, None, now)
        }
    }
}

/// Runs the command spelled by the words `parts` at the instant `now` (see
/// [`step`]).
pub fn dispatch_at(store: &mut Store, parts: &Vec<String>, now: u64) -> (r: Response)
    ensures
        step(old(store)@, parts.deep_view(), now, final(store)@, r@),
{
    let n = parts.len();
    if n == 0 {
        return Response::Error(RedisError::InvalidCommand("empty command".to_owned()));
    }
    let name = ascii_upper(parts[0].as_str());
    let cmd = name.as_str();
    if same_text(cmd, "PING") {
        if n == 1 {
            Response::SimpleString("PONG".to_owned())
        } else {
            wrong_arguments("PING", "0", n)
        }
    } else if same_text(cmd, "QUIT") {
        if n == 1 {
            Response::SimpleString("BYE".to_owned())
        } else {
            wrong_arguments("QUIT", "0", n)
        }
    } else if same_text(cmd, "SET") {
        run_set(store, parts, now)
    } else if same_text(cmd, "GET") {
        if n == 2 {
            store.get_at(parts[1].as_str(), now)
        } else {
            wrong_arguments(cmd, "1", n)
        }
    } else if same_text(cmd, "DEL") {
        if n == 2 {
            store.del_at(parts[1].as_str(), now)
        } else {
            wrong_arguments(cmd, "1", n)
        }
    } else if same_text(cmd, "EXISTS") {
        if n == 2 {
            store.exists_key_at(parts[1].as_str(), now)
        } else {
            wrong_arguments(cmd, "1", n)
        }
    } else if same_text(cmd, "TTL") {
        if n == 2 {
            store.ttl_at(parts[1].as_str(), now)
        } else {
            wrong_arguments(cmd, "1", n)
        }
    } else if same_text(cmd, "KEYS") {
        if n == 2 {
            store.keys_with_prefix_at(parts[1].as_str(), now)
        } else {
            wrong_arguments(cmd, "1", n)
        }
    } else if same_text(cmd, "INCR") {
        if n == 2 {
            store.incr_at(parts[1].as_str(), now)
        } else {
            wrong_arguments(cmd, "1", n)
        }
    } else if same_text(cmd, "LPUSH") {
        if n >= 3 {
            store.lpush_at(parts[1].as_str(), rest(parts, 2), now)
        } else {
            wrong_arguments(cmd, "at least 2", n)
        }
    } else if same_text(cmd, "LPOP") {
        if n == 2 {
            store.lpop_at(parts[1].as_str(), now)
        } else {
            wrong_arguments(cmd, "1", n)
        }
    } else if same_text(cmd, "LLEN") {
        if n == 2 {
            store.llen_at(parts[1].as_str(), now)
        } else {
            wrong_arguments(cmd, "1", n)
        }
    } else if same_text(cmd, "SADD") {
        if n >= 3 {
            store.sadd_at(parts[1].as_str(), rest(parts, 2), now)
        } else {
            wrong_arguments(cmd, "at least 2", n)
        }
    } else if same_text(cmd, "SREM") {
        if n >= 3 {
            store.srem_at(parts[1].as_str(), rest(parts, 2), now)
        } else {
            wrong_arguments(cmd, "at least 2", n)
        }
    } else if same_text(cmd, "SCARD") {
        if n == 2 {
            store.scard_at(parts[1].as_str(), now)
        } else {
            wrong_arguments(cmd, "1", n)
        }
    } else {
        Response::Error(RedisError::InvalidCommand(name))
    }
}

/// Runs the request line `input` at the instant `now` (see [`line_step`]).
pub fn handle_command_at(store: &mut Store, input: &str, now: u64) -> (r: Response)
    ensures
        line_step(old(store)@, input@, now, final(store)@, r@),
{
    let parts = split_line(input);
    dispatch_at(store, &parts, now)
}

/// Runs the request line `input` at the instant that the system clock shows.
pub fn handle_command(store: &mut Store, input: &str) -> (r: Response)
    ensures
        exists|now: u64| #[trigger] line_step(old(store)@, input@, now, final(store)@, r@),
{
    let now = now_millis();
    handle_command_at(store, input, now)
}

/// What is written back for `response`, and whether the connection closes
/// after it (see [`wire_reply`]).
pub fn reply_line(response: &Response) -> (r: (String, bool))
    ensures
        r.0@ == wire_reply(response@).0,
        r.1 == wire_reply(response@).1,
{
    let mut line = response.to_string();
    if same_text(line.as_str(), "BYE") {
        ("Bye!!!\n".to_owned(), true)
    } else {
        line.push('\n');
        (line, false)
    }
}

} // verus!
