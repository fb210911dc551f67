//! The command interpreter: from a decoded value to a typed command.

use super::number::{number_of, read_number};
use super::text::lemma_ascii_bytes;
use super::value::{lemma_first_views, views, Value, ValueView};
use vstd::prelude::*;
use vstd::utf8::encode_utf8;

verus! {

/// A request that the server understands.
#[derive(Debug, PartialEq, Eq)]
pub enum Command {
    /// `PING`
    Ping,
    /// `ECHO message`
    Echo(String),
    /// `GET key`
    Get(String),
    /// `SET key value [PX milliseconds]`
    SetKey(String, String, Option<u64>),
}

/// The mathematical content of a [`Command`].
pub enum CommandView {
    Ping,
    Echo(Seq<char>),
    Get(Seq<char>),
    SetKey(Seq<char>, Seq<char>, Option<u64>),
}

impl View for Command {
    type V = CommandView;

    open spec fn view(&self) -> CommandView {
        match self {
            Command::Ping => CommandView::Ping,
            Command::Echo(message) => CommandView::Echo(message@),
            Command::Get(key) => CommandView::Get(key@),
            Command::SetKey(key, value, ttl) => CommandView::SetKey(key@, value@, *ttl),
        }
    }
}

/// Why a value is no command.
#[derive(Debug, Clone, Copy, PartialEq, Eq, Structural)]
pub enum InterpretError {
    /// The value is not an array, or an array without a command name.
    NotACommand,
    /// An item of the array is not a bulk string, or an option's value is
    /// not a number it can take.
    InvalidArgument,
    /// The command, or an option of it, lacks an argument.
    ArityError,
    /// No command has this name.
    UnknownCommand,
}

/// An interpreter's result as mathematics.
pub open spec fn interpreted_view(r: Result<Command, InterpretError>) -> Result<
    CommandView,
    InterpretError,
> {
    match r {
        Ok(command) => Ok(command@),
        Err(e) => Err(e),
    }
}

/// The lower-case form of an ASCII capital, any other byte unchanged.
pub open spec fn ascii_lower(b: u8) -> u8 {
    if 65 <= b <= 90 {
        (b + 32) as u8
    } else {
        b
    }
}

/// True when `text` spells the lower-case ASCII word `word`, in whatever case.
pub open spec fn is_word(text: Seq<char>, word: Seq<char>) -> bool {
    let bytes = encode_utf8(text);
    let spelled = encode_utf8(word);
    bytes.len() == spelled.len() && forall|i: int|
        0 <= i < bytes.len() ==> ascii_lower(#[trigger] bytes[i]) == spelled[i]
}

/// True when every one of `items` is a bulk string.
pub open spec fn all_bulk(items: Seq<ValueView>) -> bool {
    forall|i: int| 0 <= i < items.len() ==> #[trigger] items[i] is BulkString
}

/// The text of a bulk string.
pub open spec fn text_of(item: ValueView) -> Seq<char> {
    item->BulkString_0
}

/// The command that `v` spells. A command is a non-empty array of bulk
/// strings: the name first, in any case, then the arguments. Arguments
/// beyond those that a command takes are ignored.
pub open spec fn interpret(v: ValueView) -> Result<CommandView, InterpretError> {
    match v {
        ValueView::Array(items) => {
            if items.len() == 0 {
                Err(InterpretError::NotACommand)
            } else if !all_bulk(items) {
                Err(InterpretError::InvalidArgument)
            } else if is_word(text_of(items[0]), "ping"@) {
                Ok(CommandView::Ping)
            } else if is_word(text_of(items[0]), "echo"@) {
                if items.len() < 2 {
                    Err(InterpretError::ArityError)
                } else {
                    Ok(CommandView::Echo(text_of(items[1])))
                }
            } else if is_word(text_of(items[0]), "get"@) {
                if items.len() < 2 {
                    Err(InterpretError::ArityError)
                } else {
                    Ok(CommandView::Get(text_of(items[1])))
                }
            } else if is_word(text_of(items[0]), "set"@) {
                interpret_set(items)
            } else {
                Err(InterpretError::UnknownCommand)
            }
        },
        _ => Err(InterpretError::NotACommand),
    }
}

/// The `SET` command that `items` spell: key and value, and after them
/// optionally `PX` and a number of milliseconds from 0 to `i64::MAX`.
pub open spec fn interpret_set(items: Seq<ValueView>) -> Result<CommandView, InterpretError> {
    if items.len() < 3 {
        Err(InterpretError::ArityError)
    } else if items.len() == 3 || !is_word(text_of(items[3]), "px"@) {
        Ok(CommandView::SetKey(text_of(items[1]), text_of(items[2]), None))
    } else if items.len() < 5 {
        Err(InterpretError::ArityError)
    } else {
        match number_of(encode_utf8(text_of(items[4]))) {
            Some(millis) => if millis >= 0 {
                Ok(CommandView::SetKey(text_of(items[1]), text_of(items[2]), Some(millis as u64)))
            } else {
                Err(InterpretError::InvalidArgument)
            },
            None => Err(InterpretError::InvalidArgument),
        }
    }
}

/// The lower-case form of an ASCII capital, any other byte unchanged.
fn to_ascii_lower(b: u8) -> (r: u8)
    ensures
        r == ascii_lower(b),
{
    if 65 <= b && b <= 90 {
        b + 32
    } else {
        b
    }
}

/// Tells whether `text` spells `word`, ignoring ASCII case.
fn spells(text: &str, word: &str) -> (r: bool)
    ensures
        r == is_word(text@, word@),
{
    let bytes: &[u8] = text.as_bytes();
    let spelled: &[u8] = word.as_bytes();
    if bytes.len() != spelled.len() {
        return false;
    }
    let mut i: usize = 0;
    while i < bytes.len()
        invariant
            i <= bytes@.len(),
            bytes@ == encode_utf8(text@),
            spelled@ == encode_utf8(word@),
            bytes@.len() == spelled@.len(),
            forall|j: int| 0 <= j < i ==> ascii_lower(#[trigger] bytes@[j]) == spelled@[j],
        decreases bytes@.len() - i,
    {
        if to_ascii_lower(bytes[i]) != spelled[i] {
            return false;
        }
        i += 1;
    }
    true
}

/// The text of `value` where it is a bulk string.
fn bulk_text(value: &Value) -> (r: Option<&String>)
    ensures
        match r {
            Some(text) => value@ == ValueView::BulkString(text@),
            None => !(value@ is BulkString),
        },
{
    match value {
        Value::BulkString(text) => Some(text),
        _ => None,
    }
}

/// A copy of the text of the bulk string at `index`.
fn argument(values: &Vec<Value>, index: usize) -> (r: String)
    requires
        index < values@.len(),
        all_bulk(views(values@)),
    ensures
        r@ == text_of(views(values@)[index as int]),
{
    proof {
        lemma_first_views(values@, values@.len());
    }
    match bulk_text(&values[index]) {
        Some(text) => text.clone(),
        None => {
            assert(views(values@)[index as int] is BulkString);
            String::new()
        },
    }
}

/// Tells whether the bulk string at `index` spells `word`, ignoring ASCII case.
fn argument_spells(values: &Vec<Value>, index: usize, word: &str) -> (r: bool)
    requires
        index < values@.len(),
        all_bulk(views(values@)),
    ensures
        r == is_word(text_of(views(values@)[index as int]), word@),
{
    proof {
        lemma_first_views(values@, values@.len());
    }
    match bulk_text(&values[index]) {
        Some(text) => spells(text.as_str(), word),
        None => {
            assert(views(values@)[index as int] is BulkString);
            false
        },
    }
}

/// Interprets the arguments of `SET`.
fn set_command(values: &Vec<Value>) -> (r: Result<Command, InterpretError>)
    requires
        values@.len() > 0,
        all_bulk(views(values@)),
    ensures
        interpreted_view(r) == interpret_set(views(values@)),
{
    proof {
        lemma_first_views(values@, values@.len());
    }
    if values.len() < 3 {
        return Err(InterpretError::ArityError);
    }
    if values.len() == 3 || !argument_spells(values, 3, "px") {
        return Ok(Command::SetKey(argument(values, 1), argument(values, 2), None));
    }
    if values.len() < 5 {
        return Err(InterpretError::ArityError);
    }
    let millis: String = argument(values, 4);
    match read_number(millis.as_str().as_bytes()) {
        Some(n) => if n >= 0 {
            Ok(Command::SetKey(argument(values, 1), argument(values, 2), Some(n as u64)))
        } else {
            Err(InterpretError::InvalidArgument)
        },
        None => Err(InterpretError::InvalidArgument),
    }
}

impl Value {
    /// Interprets the value as a command.
    pub fn to_command(&self) -> (r: Result<Command, InterpretError>)
        ensures
            interpreted_view(r) == interpret(self@),
    {
        let values: &Vec<Value> = match self {
            Value::Array(values) => values,
            _ => {
                return Err(InterpretError::NotACommand);
            },
        };
        if values.len() == 0 {
            return Err(InterpretError::NotACommand);
        }
        proof {
            lemma_first_views(values@, values@.len());
        }
        let mut i: usize = 0;
        while i < values.len()
            invariant
                i <= values@.len(),
                0 < values@.len() == views(values@).len(),
                self@ == ValueView::Array(views(values@)),
                forall|j: int| 0 <= j < i ==> #[trigger] views(values@)[j] is BulkString,
            decreases values@.len() - i,
        {
            proof {
                lemma_first_views(values@, values@.len());
            }
            if bulk_text(&values[i]).is_none() {
                assert(!(views(values@)[i as int] is BulkString));
                return Err(InterpretError::InvalidArgument);
            }
            i += 1;
        }
        if argument_spells(values, 0, "ping") {
            Ok(Command::Ping)
        } else if argument_spells(values, 0, "echo") {
            if values.len() < 2 {
                Err(InterpretError::ArityError)
            } else {
                Ok(Command::Echo(argument(values, 1)))
            }
        } else if argument_spells(values, 0, "get") {
            if values.len() < 2 {
                Err(InterpretError::ArityError)
            } else {
                Ok(Command::Get(argument(values, 1)))
            }
        } else if argument_spells(values, 0, "set") {
            set_command(values)
        } else {
            Err(InterpretError::UnknownCommand)
        }
    }
}

/// The bytes of the command names.
proof fn lemma_command_names()
    ensures
        encode_utf8("ping"@) == seq![112u8, 105u8, 110u8, 103u8],
        encode_utf8("echo"@) == seq![101u8, 99u8, 104u8, 111u8],
        encode_utf8("get"@) == seq![103u8, 101u8, 116u8],
        encode_utf8("set"@) == seq![115u8, 101u8, 116u8],
{
    reveal_strlit("ping");
    reveal_strlit("echo");
    reveal_strlit("get");
    reveal_strlit("set");
    lemma_ascii_bytes("ping"@, seq![112u8, 105u8, 110u8, 103u8]);
    lemma_ascii_bytes("echo"@, seq![101u8, 99u8, 104u8, 111u8]);
    lemma_ascii_bytes("get"@, seq![103u8, 101u8, 116u8]);
    lemma_ascii_bytes("set"@, seq![115u8, 101u8, 116u8]);
}

/// A text spells at most one of the command names.
pub proof fn lemma_one_command_name(name: Seq<char>)
    ensures
        !(is_word(name, "ping"@) && is_word(name, "echo"@)),
        !(is_word(name, "ping"@) && is_word(name, "get"@)),
        !(is_word(name, "ping"@) && is_word(name, "set"@)),
        !(is_word(name, "echo"@) && is_word(name, "get"@)),
        !(is_word(name, "echo"@) && is_word(name, "set"@)),
        !(is_word(name, "get"@) && is_word(name, "set"@)),
{
    lemma_command_names();
    let bytes = encode_utf8(name);
    let ping = encode_utf8("ping"@);
    let echo = encode_utf8("echo"@);
    let get = encode_utf8("get"@);
    let set = encode_utf8("set"@);
    assert(ping[0] == 112u8 && echo[0] == 101u8 && get[0] == 103u8 && set[0] == 115u8);
    if bytes.len() > 0 {
        let first = ascii_lower(bytes[0]);
        assert(is_word(name, "ping"@) ==> first == ping[0]);
        assert(is_word(name, "echo"@) ==> first == echo[0]);
        assert(is_word(name, "get"@) ==> first == get[0]);
        assert(is_word(name, "set"@) ==> first == set[0]);
    }
}

/// A value that is not an array is no command.
pub proof fn law_not_an_array(v: ValueView)
    requires
        !(v is Array),
    ensures
        interpret(v) == Err::<CommandView, _>(InterpretError::NotACommand),
{
}

/// An array with an item that is not a bulk string is rejected as an
/// invalid argument, whatever command it names.
pub proof fn law_not_a_bulk_string(items: Seq<ValueView>, i: int)
    requires
        0 <= i < items.len(),
        !(items[i] is BulkString),
    ensures
        interpret(ValueView::Array(items)) == Err::<CommandView, _>(
            InterpretError::InvalidArgument,
        ),
{
}

/// A command with fewer arguments than it takes is rejected for its arity:
/// `ECHO` and `GET` without an argument, `SET` with fewer than two.
pub proof fn law_too_few_arguments(items: Seq<ValueView>)
    requires
        items.len() > 0,
        all_bulk(items),
        ({
            let name = text_of(items[0]);
            ||| items.len() < 2 && is_word(name, "echo"@)
            ||| items.len() < 2 && is_word(name, "get"@)
            ||| items.len() < 3 && is_word(name, "set"@)
        }),
    ensures
        interpret(ValueView::Array(items)) == Err::<CommandView, _>(InterpretError::ArityError),
{
    lemma_one_command_name(text_of(items[0]));
}

} // verus!
