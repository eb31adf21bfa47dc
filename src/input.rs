use vstd::prelude::*;
use crate::text::chars_of;

verus! {

/// The menu's commands.
#[derive(PartialEq, Eq, Structural, Clone, Copy, Debug)]
pub enum Command {
    Add,
    Remove,
    List,
    MarkComplete,
    Save,
    SortByCompletion,
    FilterByDueDate,
    MarkAllComplete,
    Search,
    Exit,
}

pub open spec fn is_digit(c: char) -> bool {
    '0' <= c && c <= '9'
}

pub open spec fn all_digits(s: Seq<char>) -> bool {
    forall|i: int| 0 <= i < s.len() ==> is_digit(#[trigger] s[i])
}

/// The number that a run of decimal digits writes.
pub open spec fn digits_value(s: Seq<char>) -> nat
    decreases s.len(),
{
    if s.len() == 0 {
        0
    } else {
        digits_value(s.drop_last()) * 10 + (s.last() as nat - '0' as nat) as nat
    }
}

/// The number that `s` writes, when it is a non-empty run of decimal digits
/// whose value fits a `usize`.
pub open spec fn number_of(s: Seq<char>) -> Option<usize> {
    if s.len() > 0 && all_digits(s) && digits_value(s) <= usize::MAX {
        Some(digits_value(s) as usize)
    } else {
        None
    }
}

/// The command that a menu number selects.
pub open spec fn command_of(n: usize) -> Option<Command> {
    if n == 1 {
        Some(Command::Add)
    } else if n == 2 {
        Some(Command::Remove)
    } else if n == 3 {
        Some(Command::List)
    } else if n == 4 {
        Some(Command::MarkComplete)
    } else if n == 5 {
        Some(Command::Save)
    } else if n == 6 {
        Some(Command::SortByCompletion)
    } else if n == 7 {
        Some(Command::FilterByDueDate)
    } else if n == 8 {
        Some(Command::MarkAllComplete)
    } else if n == 9 {
        Some(Command::Search)
    } else if n == 10 {
        Some(Command::Exit)
    } else {
        None
    }
}

proof fn lemma_value_grows(s: Seq<char>, j: int)
    requires
        0 <= j <= s.len(),
        all_digits(s),
    ensures
        digits_value(s.subrange(0, j)) <= digits_value(s),
    decreases s.len() - j,
{
    if j < s.len() {
        lemma_value_grows(s, j + 1);
        assert(s.subrange(0, j + 1).drop_last() =~= s.subrange(0, j));
        assert(is_digit(s[j]));
    } else {
        assert(s.subrange(0, j) =~= s);
    }
}

/// The number written in `text`: decimal digits only, no sign or spaces.
pub fn parse_number(text: &str) -> (r: Option<usize>)
    ensures
        r == number_of(text@),
{
    let cs = chars_of(text);
    if cs.len() == 0 {
        return None;
    }
    let mut i: usize = 0;
    while i < cs.len()
        invariant
            i <= cs.len(),
            cs@ == text@,
            forall|q: int| 0 <= q < i ==> is_digit(#[trigger] cs@[q]),
        decreases cs.len() - i,
    {
        if !('0' <= cs[i] && cs[i] <= '9') {
            return None;
        }
        i = i + 1;
    }
    let mut n: usize = 0;
    let mut j: usize = 0;
    while j < cs.len()
        invariant
            j <= cs.len(),
            cs@ == text@,
            all_digits(cs@),
            n as nat == digits_value(cs@.subrange(0, j as int)),
        decreases cs.len() - j,
    {
        let d = (cs[j] as u32 - '0' as u32) as usize;
        assert(cs@.subrange(0, j + 1).drop_last() =~= cs@.subrange(0, j as int));
        if n > (usize::MAX - d) / 10 {
            proof {
                assert(n * 10 + d > usize::MAX) by (nonlinear_arith)
                    requires
                        n > (usize::MAX - d) / 10,
                        d <= 9,
                ;
                lemma_value_grows(cs@, j + 1);
            }
            return None;
        }
        proof {
            assert(n * 10 + d <= usize::MAX) by (nonlinear_arith)
                requires
                    n <= (usize::MAX - d) / 10,
                    d <= 9,
            ;
        }
        n = n * 10 + d;
        j = j + 1;
    }
    assert(cs@.subrange(0, cs@.len() as int) =~= cs@);
    Some(n)
}

/// The command that a menu choice selects, if any.
pub fn parse_command(text: &str) -> (r: Option<Command>)
    ensures
        r == (match number_of(text@) {
            Some(n) => command_of(n),
            None => None,
        }),
{
    match parse_number(text) {
        Some(n) => if n == 1 {
            Some(Command::Add)
        } else if n == 2 {
            Some(Command::Remove)
        } else if n == 3 {
            Some(Command::List)
        } else if n == 4 {
            Some(Command::MarkComplete)
        } else if n == 5 {
            Some(Command::Save)
        } else if n == 6 {
            Some(Command::SortByCompletion)
        } else if n == 7 {
            Some(Command::FilterByDueDate)
        } else if n == 8 {
            Some(Command::MarkAllComplete)
        } else if n == 9 {
            Some(Command::Search)
        } else if n == 10 {
            Some(Command::Exit)
        } else {
            None
        },
        None => None,
    }
}

/// The list position that a task number shown to the user (counted from
/// one) stands for; number zero stands for none.
pub fn index_of_number(n: usize) -> (r: Option<usize>)
    ensures
        r == (if n >= 1 {
            Some((n - 1) as usize)
        } else {
            None::<usize>
        }),
{
    if n >= 1 {
        Some(n - 1)
    } else {
        None
    }
}

} // verus!
