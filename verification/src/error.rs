//! What a command answers: a response, or one of the errors, and the line of
//! text that stands for each on the wire.

use crate::decimal::{decimal, digits, push_digits, push_i64};
use crate::text::append_text;
use vstd::prelude::*;
use vstd::std_specs::convert::FromSpecImpl;

verus! {

/// Why a command was refused.
#[derive(Debug)]
pub enum RedisError {
    /// The command is not known, or the line held none.
    InvalidCommand(String),
    /// The command came with too few or too many arguments.
    WrongArguments { command: String, expected: String, got: usize },
    /// An argument has the wrong shape, or the key holds another kind of value.
    InvalidType(String),
    /// The key is not there.
    KeyNotFound(String),
    /// The value is no integer, or the result would not fit.
    NotInteger(String),
    /// Something failed inside the server.
    Internal(String),
}

/// A [`RedisError`] with each text as its characters.
pub enum ErrorView {
    InvalidCommand(Seq<char>),
    WrongArguments { command: Seq<char>, expected: Seq<char>, got: usize },
    InvalidType(Seq<char>),
    KeyNotFound(Seq<char>),
    NotInteger(Seq<char>),
    Internal(Seq<char>),
}

/// What a command answers.
#[derive(Debug)]
pub enum Response {
    SimpleString(String),
    Error(RedisError),
    Integer(i64),
    BulkString(Option<String>),
    Array(Vec<Response>),
    Nil,
}

/// A [`Response`] with each text as its characters.
pub enum ResponseView {
    SimpleString(Seq<char>),
    Error(ErrorView),
    Integer(i64),
    BulkString(Option<Seq<char>>),
    Array(Seq<ResponseView>),
    Nil,
}

/// The text of every error that says that a key holds another kind of value.
pub open spec fn wrong_type_text() -> Seq<char> {
    "WRONGTYPE Operation against a key holding the wrong kind of value"@
}

impl ErrorView {
    /// The line that stands for the error on the wire.
    pub open spec fn render(self) -> Seq<char> {
        match self {
            ErrorView::InvalidCommand(c) => "ERR unknown command '"@ + c + "'"@,
            ErrorView::WrongArguments { command, expected, got } =>
                "ERR wrong number of arguments for '"@ + command + "' command. Expected "@
                    + expected + ", got "@ + digits(got as nat),
            ErrorView::InvalidType(m) => "ERR "@ + m,
            ErrorView::KeyNotFound(k) => "ERR key '"@ + k + "' not found"@,
            ErrorView::NotInteger(v) => "ERR value '"@ + v + "' is not an integer or out of range"@,
            ErrorView::Internal(m) => "ERR internal error: "@ + m,
        }
    }

    /// The error of an operation on a key that holds another kind of value.
    pub open spec fn wrong_type() -> ErrorView {
        ErrorView::InvalidType(wrong_type_text())
    }
}

/// The lines of `items`, each two neighbours separated by one space.
pub open spec fn render_joined(items: Seq<ResponseView>) -> Seq<char>
    decreases items, 0nat,
{
    if items.len() == 0 {
        Seq::empty()
    } else if items.len() == 1 {
        items[0].render()
    } else {
        render_joined(items.drop_last()) + seq![' '] + items.last().render()
    }
}

impl ResponseView {
    /// The line that stands for the response on the wire.
    pub open spec fn render(self) -> Seq<char>
        decreases self, 1nat,
    {
        match self {
            ResponseView::SimpleString(s) => s,
            ResponseView::Error(e) => e.render(),
            ResponseView::Integer(n) => decimal(n as int),
            ResponseView::BulkString(Some(s)) => s,
            ResponseView::BulkString(None) => "(nil)"@,
            ResponseView::Nil => "(nil)"@,
            ResponseView::Array(items) => if items.len() == 0 {
                "(empty)"@
            } else {
                render_joined(items)
            },
        }
    }

    /// The response that carries the error of a key of another kind.
    pub open spec fn wrong_type() -> ResponseView {
        ResponseView::Error(ErrorView::wrong_type())
    }

    /// The response `OK`.
    pub open spec fn ok() -> ResponseView {
        ResponseView::SimpleString("OK"@)
    }
}

impl View for RedisError {
    type V = ErrorView;

    open spec fn view(&self) -> ErrorView {
        match self {
            RedisError::InvalidCommand(c) => ErrorView::InvalidCommand(c@),
            RedisError::WrongArguments { command, expected, got } => ErrorView::WrongArguments {
                command: command@,
                expected: expected@,
                got: *got,
            },
            RedisError::InvalidType(m) => ErrorView::InvalidType(m@),
            RedisError::KeyNotFound(k) => ErrorView::KeyNotFound(k@),
            RedisError::NotInteger(v) => ErrorView::NotInteger(v@),
            RedisError::Internal(m) => ErrorView::Internal(m@),
        }
    }
}

impl View for Response {
    type V = ResponseView;

    open spec fn view(&self) -> ResponseView
        decreases self,
    {
        match self {
            Response::SimpleString(s) => ResponseView::SimpleString(s@),
            Response::Error(e) => ResponseView::Error(e@),
            Response::Integer(n) => ResponseView::Integer(*n),
            Response::BulkString(Some(s)) => ResponseView::BulkString(Some(s@)),
            Response::BulkString(None) => ResponseView::BulkString(None),
            Response::Array(items) => ResponseView::Array(
                Seq::new(
                    items@.len(),
                    |i: int|
                        if 0 <= i < items@.len() {
                            items@[i]@
                        } else {
                            ResponseView::Nil
                        },
                ),
            ),
            Response::Nil => ResponseView::Nil,
        }
    }
}

impl RedisError {
    /// The error of an operation on a key that holds another kind of value.
    pub fn wrong_type() -> (e: RedisError)
        ensures
            e@ == ErrorView::wrong_type(),
    {
        RedisError::InvalidType(
            "WRONGTYPE Operation against a key holding the wrong kind of value".to_owned(),
        )
    }

    /// The line that stands for the error on the wire.
    pub fn to_string(&self) -> (r: String)
        ensures
            r@ == self@.render(),
    {
        let mut r = String::new();
        match self {
            RedisError::InvalidCommand(c) => {
                append_text(&mut r, "ERR unknown command '");
                append_text(&mut r, c.as_str());
                append_text(&mut r, "'");
            },
            RedisError::WrongArguments { command, expected, got } => {
                append_text(&mut r, "ERR wrong number of arguments for '");
                append_text(&mut r, command.as_str());
                append_text(&mut r, "' command. Expected ");
                append_text(&mut r, expected.as_str());
                append_text(&mut r, ", got ");
                push_digits(&mut r, *got as u64);
            },
            RedisError::InvalidType(m) => {
                append_text(&mut r, "ERR ");
                append_text(&mut r, m.as_str());
            },
            RedisError::KeyNotFound(k) => {
                append_text(&mut r, "ERR key '");
                append_text(&mut r, k.as_str());
                append_text(&mut r, "' not found");
            },
            RedisError::NotInteger(v) => {
                append_text(&mut r, "ERR value '");
                append_text(&mut r, v.as_str());
                append_text(&mut r, "' is not an integer or out of range");
            },
            RedisError::Internal(m) => {
                append_text(&mut r, "ERR internal error: ");
                append_text(&mut r, m.as_str());
            },
        }
        proof {
            assert(r@ =~= self@.render());
        }
        r
    }
}

impl Clone for RedisError {
    /// An error with the same texts and numbers.
    fn clone(&self) -> (r: RedisError)
        ensures
            r@ == self@,
    {
        match self {
            RedisError::InvalidCommand(c) => RedisError::InvalidCommand(c.clone()),
            RedisError::WrongArguments { command, expected, got } => RedisError::WrongArguments {
                command: command.clone(),
                expected: expected.clone(),
                got: *got,
            },
            RedisError::InvalidType(m) => RedisError::InvalidType(m.clone()),
            RedisError::KeyNotFound(k) => RedisError::KeyNotFound(k.clone()),
            RedisError::NotInteger(v) => RedisError::NotInteger(v.clone()),
            RedisError::Internal(m) => RedisError::Internal(m.clone()),
        }
    }
}

impl Response {
    /// The response that carries the error of a key of another kind.
    pub fn wrong_type() -> (r: Response)
        ensures
            r@ == ResponseView::wrong_type(),
    {
        Response::Error(RedisError::wrong_type())
    }

    /// The response `OK`.
    pub fn ok() -> (r: Response)
        ensures
            r@ == ResponseView::ok(),
    {
        Response::SimpleString("OK".to_owned())
    }

    /// The line that stands for the response on the wire.
    pub fn to_string(&self) -> (r: String)
        ensures
            r@ == self@.render(),
        decreases self,
    {
        proof {
            reveal_with_fuel(<Response as View>::view, 2);
        }
        match self {
            Response::SimpleString(s) => s.clone(),
            Response::Error(e) => e.to_string(),
            Response::Integer(n) => {
                let mut r = String::new();
                push_i64(&mut r, *n);
                proof {
                    assert(r@ =~= decimal(*n as int));
                }
                r
            },
            Response::BulkString(Some(s)) => s.clone(),
            Response::BulkString(None) => "(nil)".to_owned(),
            Response::Nil => "(nil)".to_owned(),
            Response::Array(items) => {
                if items.len() == 0 {
                    "(empty)".to_owned()
                } else {
                    let ghost views = self@->Array_0;
                    let mut r = String::new();
                    let mut i: usize = 0;
                    proof {
                        assert(views.take(0) =~= Seq::<ResponseView>::empty());
                    }
                    while i < items.len()
                        invariant
                            i <= items.len(),
                            *self == Response::Array(*items),
                            views.len() == items.len(),
                            forall|k: int| 0 <= k < items.len() ==> #[trigger] views[k] == items@[k]@,
                            r@ == render_joined(views.take(i as int)),
                        decreases items.len() - i,
                    {
                        if i > 0 {
                            r.push(' ');
                        }
                        proof {
                            assert(decreases_to!(*self => self->Array_0));
                            vstd::std_specs::vec::axiom_vec_index_decreases(*items, i as int);
                        }
                        let part = items[i].to_string();
                        append_text(&mut r, part.as_str());
                        proof {
                            let now = views.take(i + 1);
                            assert(now.drop_last() =~= views.take(i as int));
                            assert(now.last() == views[i as int]);
                            if i == 0 {
                                assert(r@ =~= now[0].render());
                            }
                        }
                        i += 1;
                    }
                    proof {
                        assert(views.take(items.len() as int) =~= views);
                    }
                    r
                }
            },
        }
    }
}

impl Clone for Response {
    /// A response with the same texts and numbers.
    fn clone(&self) -> (r: Response)
        ensures
            r@ == self@,
        decreases self,
    {
        proof {
            reveal_with_fuel(<Response as View>::view, 2);
        }
        match self {
            Response::SimpleString(s) => Response::SimpleString(s.clone()),
            Response::Error(e) => Response::Error(e.clone()),
            Response::Integer(n) => Response::Integer(*n),
            Response::BulkString(Some(s)) => Response::BulkString(Some(s.clone())),
            Response::BulkString(None) => Response::BulkString(None),
            Response::Nil => Response::Nil,
            Response::Array(items) => {
                let mut copies: Vec<Response> = Vec::new();
                let mut i: usize = 0;
                while i < items.len()
                    invariant
                        i <= items.len(),
                        *self == Response::Array(*items),
                        copies.len() == i,
                        forall|k: int| 0 <= k < i ==> (#[trigger] copies@[k])@ == items@[k]@,
                    decreases items.len() - i,
                {
                    proof {
                        assert(decreases_to!(*self => self->Array_0));
                        vstd::std_specs::vec::axiom_vec_index_decreases(*items, i as int);
                    }
                    copies.push(items[i].clone());
                    i += 1;
                }
                let r = Response::Array(copies);
                proof {
                    assert(r@->Array_0 =~= self@->Array_0);
                }
                r
            },
        }
    }
}

impl From<RedisError> for Response {
    fn from(error: RedisError) -> (r: Response) {
        Response::Error(error)
    }
}

impl FromSpecImpl<RedisError> for Response {
    open spec fn obeys_from_spec() -> bool {
        true
    }

    open spec fn from_spec(v: RedisError) -> Response {
        Response::Error(v)
    }
}

impl From<String> for Response {
    fn from(s: String) -> (r: Response) {
        Response::SimpleString(s)
    }
}

impl FromSpecImpl<String> for Response {
    open spec fn obeys_from_spec() -> bool {
        true
    }

    open spec fn from_spec(v: String) -> Response {
        Response::SimpleString(v)
    }
}

impl From<&str> for Response {
    fn from(s: &str) -> (r: Response)
        ensures
            r@ == ResponseView::SimpleString(s@),
    {
        Response::SimpleString(s.to_owned())
    }
}

impl FromSpecImpl<&str> for Response {
    /// No `Response` can be named in a contract by the text it is to hold;
    /// what `from` gives is stated by its own `ensures`, over the view.
    open spec fn obeys_from_spec() -> bool {
        false
    }

    open spec fn from_spec(v: &str) -> Response {
        arbitrary()
    }
}

impl From<i64> for Response {
    fn from(i: i64) -> (r: Response) {
        Response::Integer(i)
    }
}

impl FromSpecImpl<i64> for Response {
    open spec fn obeys_from_spec() -> bool {
        true
    }

    open spec fn from_spec(v: i64) -> Response {
        Response::Integer(v)
    }
}

} // verus!
