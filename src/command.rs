use vstd::prelude::*;

use crate::error::TodoError;

verus! {

/// `c` is an ASCII decimal digit.
pub open spec fn is_digit(c: char) -> bool {
    '0' <= c && c <= '9'
}

/// Every character of `s` is a decimal digit.
pub open spec fn all_digits(s: Seq<char>) -> bool {
    forall|i: int| 0 <= i < s.len() ==> is_digit(#[trigger] s[i])
}

/// The number that the digits `s` write in decimal.
pub open spec fn decimal_value(s: Seq<char>) -> nat
    decreases s.len(),
{
    if s.len() == 0 {
        0
    } else {
        decimal_value(s.drop_last()) * 10 + ((s.last() as u32) - ('0' as u32)) as nat
    }
}

/// What reading `s` as a position gives: the number, when `s` is one or more
/// decimal digits and the number fits in a `usize`.
pub open spec fn position_result(s: Seq<char>) -> Result<usize, TodoError> {
    if s.len() > 0 && all_digits(s) && decimal_value(s) <= usize::MAX {
        Ok(decimal_value(s) as usize)
    } else {
        Err(TodoError::InvalidPosition)
    }
}

proof fn lemma_decimal_value_grows(s: Seq<char>, k: int)
    requires
        0 <= k <= s.len(),
    ensures
        decimal_value(s.take(k)) <= decimal_value(s),
    decreases s.len(),
{
    if k < s.len() {
        assert(s.drop_last().take(k) == s.take(k));
        lemma_decimal_value_grows(s.drop_last(), k);
    } else {
        assert(s.take(k) == s);
    }
}

/// Reads a position written in decimal digits.
pub fn parse_position(s: &str) -> (r: Result<usize, TodoError>)
    ensures
        r == position_result(s@),
{
    let n = s.unicode_len();
    if n == 0 {
        return Err(TodoError::InvalidPosition);
    }
    let mut v: usize = 0;
    let mut i: usize = 0;
    while i < n
        invariant
            n == s@.len(),
            i <= n,
            all_digits(s@.take(i as int)),
            v == decimal_value(s@.take(i as int)),
        decreases n - i,
    {
        let c = s.get_char(i);
        proof {
            assert(s@.take(i + 1).drop_last() == s@.take(i as int));
        }
        if c < '0' || c > '9' {
            proof {
                assert(!is_digit(s@[i as int]));
            }
            return Err(TodoError::InvalidPosition);
        }
        let d = (c as u32 - '0' as u32) as usize;
        if v > (usize::MAX - d) / 10 {
            proof {
                assert(v * 10 + d > usize::MAX) by (nonlinear_arith)
                    requires
                        v > (usize::MAX - d) / 10,
                        d <= 9,
                ;
                lemma_decimal_value_grows(s@, i + 1);
            }
            return Err(TodoError::InvalidPosition);
        }
        proof {
            assert(v * 10 + d <= usize::MAX) by (nonlinear_arith)
                requires
                    v <= (usize::MAX - d) / 10,
                    d <= 9,
            ;
        }
        v = v * 10 + d;
        i = i + 1;
        proof {
            assert forall|j: int| 0 <= j < i implies is_digit(#[trigger] s@.take(i as int)[j]) by {
                if j < i - 1 {
                    assert(s@.take(i as int)[j] == s@.take(i - 1)[j]);
                }
            }
        }
    }
    proof {
        assert(s@.take(n as int) == s@);
    }
    Ok(v)
}

/// A command of the task list, read from the words of the command line.
#[derive(Debug, PartialEq, Eq)]
pub enum Command {
    /// Append an entry made of the words.
    Add(Vec<String>),
    /// Replace the entry at the position with one made of the words.
    Update(usize, Vec<String>),
    /// Remove the entry at the position.
    Delete(usize),
    /// Mark the entry at the position as done.
    Done(usize),
    /// Print the numbered entries.
    List,
    /// The command name is not known: print how to use the program.
    Usage,
}

/// The position that `args[1]` gives, for a command that needs one.
pub open spec fn position_arg(args: Seq<Seq<char>>) -> Result<usize, TodoError> {
    if args.len() < 2 {
        Err(TodoError::MissingPosition)
    } else {
        position_result(args[1])
    }
}

/// Tells whether `s` is the command name `name`.
fn is_name(s: &String, name: &str) -> (r: bool)
    ensures
        r == (s@ == name@),
{
    *s == String::from_str(name)
}

/// The words of `args` from index `from` on.
fn words_from(args: &Vec<String>, from: usize) -> (r: Vec<String>)
    requires
        from <= args.len(),
    ensures
        r.deep_view() == args.deep_view().skip(from as int),
{
    let mut r: Vec<String> = Vec::new();
    let mut i: usize = from;
    while i < args.len()
        invariant
            from <= i <= args.len(),
            r.deep_view() =~= args.deep_view().subrange(from as int, i as int),
        decreases args.len() - i,
    {
        let w = args[i].clone();
        let ghost before = r.deep_view();
        r.push(w);
        proof {
            assert(r.deep_view() =~= before.push(w@));
        }
        i = i + 1;
    }
    r
}

/// Reads the command from the command line's words after the program's name:
/// a command name, then its position and words.
pub fn parse_command(args: &Vec<String>) -> (r: Result<Command, TodoError>)
    ensures
        args.len() == 0 ==> r == Err::<Command, TodoError>(TodoError::NoCommand),
        args.len() > 0 ==> {
            let a = args.deep_view();
            let name = a[0];
            if name == "add"@ {
                r is Ok && r->Ok_0 is Add && r->Ok_0->Add_0.deep_view() == a.skip(1)
            } else if name == "update"@ {
                match position_arg(a) {
                    Err(e) => r == Err::<Command, TodoError>(e),
                    Ok(pos) => r is Ok && r->Ok_0 is Update && r->Ok_0->Update_0 == pos
                        && r->Ok_0->Update_1.deep_view() == a.skip(2),
                }
            } else if name == "del"@ {
                match position_arg(a) {
                    Err(e) => r == Err::<Command, TodoError>(e),
                    Ok(pos) => r == Ok::<Command, TodoError>(Command::Delete(pos)),
                }
            } else if name == "done"@ {
                match position_arg(a) {
                    Err(e) => r == Err::<Command, TodoError>(e),
                    Ok(pos) => r == Ok::<Command, TodoError>(Command::Done(pos)),
                }
            } else if name == "list"@ {
                r == Ok::<Command, TodoError>(Command::List)
            } else {
                r == Ok::<Command, TodoError>(Command::Usage)
            }
        },
{
    if args.len() == 0 {
        return Err(TodoError::NoCommand);
    }
    let name = &args[0];
    proof {
        reveal_strlit("add");
        reveal_strlit("update");
        reveal_strlit("del");
        reveal_strlit("done");
        reveal_strlit("list");
        assert("add"@[0] == 'a' && "update"@[0] == 'u' && "list"@[0] == 'l');
        assert("del"@[0] == 'd' && "done"@[0] == 'd' && "del"@.len() != "done"@.len());
    }
    if is_name(name, "add") {
        return Ok(Command::Add(words_from(args, 1)));
    }
    let list = is_name(name, "list");
    let update = is_name(name, "update");
    let del = is_name(name, "del");
    let done = is_name(name, "done");
    if list {
        return Ok(Command::List);
    }
    if !update && !del && !done {
        return Ok(Command::Usage);
    }
    if args.len() < 2 {
        return Err(TodoError::MissingPosition);
    }
    let pos = match parse_position(args[1].as_str()) {
        Err(e) => {
            return Err(e);
        },
        Ok(pos) => pos,
    };
    if update {
        Ok(Command::Update(pos, words_from(args, 2)))
    } else if del {
        Ok(Command::Delete(pos))
    } else {
        Ok(Command::Done(pos))
    }
}

} // verus!
