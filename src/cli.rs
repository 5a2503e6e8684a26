use crate::model::{TaskError, TaskState, state_of_text};
use vstd::prelude::*;

verus! {

/// A command given on the command line.
#[derive(PartialEq, Debug)]
pub enum Command {
    List,
    ListState(TaskState),
    Add(String),
    Show(u8),
    Update((u8, String)),
    Delete(u8),
    Mark((u8, String)),
    Unknown,
}

pub open spec fn is_digit(c: char) -> bool {
    '0' <= c <= '9'
}

/// The value of a run of decimal digits.
pub open spec fn digits_value(s: Seq<char>) -> nat
    decreases s.len(),
{
    if s.len() == 0 {
        0
    } else {
        digits_value(s.drop_last()) * 10 + ((s.last() as u32) - ('0' as u32)) as nat
    }
}

/// The digits of an id text: an optional leading `+` is dropped.
pub open spec fn id_digits(s: Seq<char>) -> Seq<char> {
    if s.len() > 0 && s[0] == '+' {
        s.skip(1)
    } else {
        s
    }
}

/// The id that a text gives: one or more decimal digits, after an optional `+`,
/// of value at most 255.
pub open spec fn id_of_text(s: Seq<char>) -> Option<u8> {
    let d = id_digits(s);
    if d.len() > 0 && (forall|i: int| 0 <= i < d.len() ==> is_digit(#[trigger] d[i]))
        && digits_value(d) <= 255 {
        Some(digits_value(d) as u8)
    } else {
        None
    }
}

pub open spec fn id_result(s: Seq<char>) -> Result<u8, TaskError> {
    match id_of_text(s) {
        Some(id) => Ok(id),
        None => Err(TaskError::InvalidArgument),
    }
}

/// The command that the arguments give; the first argument is the program's path.
pub open spec fn command_of(args: Seq<String>) -> Result<Command, TaskError> {
    if args.len() < 2 {
        Err(TaskError::InvalidArgument)
    } else {
        let c = args[1]@;
        if c == "list"@ {
            if args.len() < 3 {
                Ok(Command::List)
            } else {
                match state_of_text(args[2]@) {
                    Some(st) => Ok(Command::ListState(st)),
                    None => Err(TaskError::InvalidArgument),
                }
            }
        } else if c == "add"@ {
            if args.len() < 3 {
                Err(TaskError::InvalidArgument)
            } else {
                Ok(Command::Add(args[2]))
            }
        } else if c == "show"@ || c == "delete"@ {
            if args.len() < 3 {
                Err(TaskError::InvalidArgument)
            } else {
                match id_of_text(args[2]@) {
                    None => Err(TaskError::InvalidArgument),
                    Some(id) => if c == "show"@ {
                        Ok(Command::Show(id))
                    } else {
                        Ok(Command::Delete(id))
                    },
                }
            }
        } else if c == "update"@ || c == "mark"@ {
            if args.len() < 4 {
                Err(TaskError::InvalidArgument)
            } else {
                match id_of_text(args[2]@) {
                    None => Err(TaskError::InvalidArgument),
                    Some(id) => if c == "update"@ {
                        Ok(Command::Update((id, args[3])))
                    } else {
                        Ok(Command::Mark((id, args[3])))
                    },
                }
            }
        } else {
            Ok(Command::Unknown)
        }
    }
}

fn is_word(s: &String, w: &str) -> (r: bool)
    ensures
        r == (s@ == w@),
{
    *s == String::from_str(w)
}

/// The id in the third argument, once there are at least `count` arguments.
fn id_argument(arguments: &Vec<String>, count: usize) -> (r: Result<u8, TaskError>)
    requires
        count >= 3,
    ensures
        r == (if arguments@.len() < count {
            Err(TaskError::InvalidArgument)
        } else {
            id_result(arguments@[2]@)
        }),
{
    match validate_argument_count(count, arguments) {
        Ok(()) => parse_id(arguments[2].as_str()),
        Err(e) => Err(e),
    }
}

impl Command {
    /// Reads a command from the arguments, the first of which is the program's
    /// path. Too few arguments for the command, an id that is not a number from 0
    /// to 255, or an unknown state after `list`, give `InvalidArgument`; an unknown
    /// command gives `Unknown`.
    pub fn parse_from(arguments: &Vec<String>) -> (r: Result<Command, TaskError>)
        ensures
            r == command_of(arguments@),
    {
        proof {
            reveal_strlit("list");
            reveal_strlit("add");
            reveal_strlit("show");
            reveal_strlit("update");
            reveal_strlit("delete");
            reveal_strlit("mark");
            assert("list"@[0] != "show"@[0]);
            assert("list"@[0] != "mark"@[0]);
            assert("show"@[0] != "mark"@[0]);
            assert("update"@[0] != "delete"@[0]);
        }
        if let Err(e) = validate_argument_count(2, arguments) {
            return Err(e);
        }
        let command = &arguments[1];
        if is_word(command, "list") {
            if arguments.len() < 3 {
                Ok(Command::List)
            } else {
                match TaskState::parse(arguments[2].as_str()) {
                    Ok(st) => Ok(Command::ListState(st)),
                    Err(_) => Err(TaskError::InvalidArgument),
                }
            }
        } else if is_word(command, "add") {
            match validate_argument_count(3, arguments) {
                Ok(()) => Ok(Command::Add(arguments[2].clone())),
                Err(e) => Err(e),
            }
        } else if is_word(command, "show") {
            match id_argument(arguments, 3) {
                Ok(id) => Ok(Command::Show(id)),
                Err(e) => Err(e),
            }
        } else if is_word(command, "update") {
            match id_argument(arguments, 4) {
                Ok(id) => Ok(Command::Update((id, arguments[3].clone()))),
                Err(e) => Err(e),
            }
        } else if is_word(command, "delete") {
            match id_argument(arguments, 3) {
                Ok(id) => Ok(Command::Delete(id)),
                Err(e) => Err(e),
            }
        } else if is_word(command, "mark") {
            match id_argument(arguments, 4) {
                Ok(id) => Ok(Command::Mark((id, arguments[3].clone()))),
                Err(e) => Err(e),
            }
        } else {
            Ok(Command::Unknown)
        }
    }
}

/// Fails with `InvalidArgument` when there are fewer arguments than needed.
pub fn validate_argument_count(argument_count: usize, arguments: &Vec<String>) -> (r: Result<
    (),
    TaskError,
>)
    ensures
        r == (if arguments@.len() < argument_count {
            Err(TaskError::InvalidArgument)
        } else {
            Ok(())
        }),
{
    if arguments.len() < argument_count {
        Err(TaskError::InvalidArgument)
    } else {
        Ok(())
    }
}

/// Reads a task id: decimal digits after an optional `+`, at most 255.
pub fn parse_id(argument: &str) -> (r: Result<u8, TaskError>)
    ensures
        r == id_result(argument@),
{
    let n = argument.unicode_len();
    let mut start: usize = 0;
    if n > 0 && argument.get_char(0) == '+' {
        start = 1;
    }
    let ghost d = id_digits(argument@);
    assert(d =~= argument@.skip(start as int));
    if start >= n {
        return Err(TaskError::InvalidArgument);
    }
    let mut value: u32 = 0;
    let mut i: usize = start;
    while i < n
        invariant
            n == argument@.len(),
            d == argument@.skip(start as int),
            d == id_digits(argument@),
            start <= i <= n,
            forall|j: int| 0 <= j < i - start ==> is_digit(#[trigger] d[j]),
            value == (if digits_value(d.take(i - start)) > 256 {
                256
            } else {
                digits_value(d.take(i - start))
            }),
        decreases n - i,
    {
        let c = argument.get_char(i);
        if !('0' <= c && c <= '9') {
            assert(d[i - start] == c);
            assert(!is_digit(d[i - start]));
            return Err(TaskError::InvalidArgument);
        }
        let ghost before = d.take(i - start);
        let ghost after = d.take(i + 1 - start);
        assert(after.drop_last() =~= before);
        assert(after.last() == c);
        let digit: u32 = (c as u32) - ('0' as u32);
        value = value * 10 + digit;
        if value > 256 {
            value = 256;
        }
        i += 1;
    }
    assert(d.take(n - start) =~= d);
    if value > 255 {
        Err(TaskError::InvalidArgument)
    } else {
        Ok(value as u8)
    }
}

} // verus!
