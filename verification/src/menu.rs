//! What the menus decide: which operation a choice stands for, which number
//! a typed text names, and whether a session is logged in.

use vstd::prelude::*;

verus! {

/// A choice in the menu that is shown before login.
#[derive(Clone, Copy, Debug, PartialEq, Eq, Structural)]
pub enum MainChoice {
    Register,
    Login,
    Exit,
    Unknown,
}

/// A choice in the menu that is shown to a logged-in user.
#[derive(Clone, Copy, Debug, PartialEq, Eq, Structural)]
pub enum UserChoice {
    AddTask,
    ViewTasks,
    EditTask,
    DeleteTask,
    MarkCompleted,
    SaveToJson,
    LoadFromJson,
    Logout,
    Unknown,
}

/// Whether a user is logged in, and who.
#[derive(Clone, Copy, Debug, PartialEq, Eq, Structural)]
pub enum Session {
    Anonymous,
    Authenticated { user_id: i32 },
}

/// The text is the one character `c`.
pub open spec fn typed(input: Seq<char>, c: char) -> bool {
    input.len() == 1 && input[0] == c
}

/// The choice that a text typed at the main menu stands for.
pub open spec fn main_choice_of(input: Seq<char>) -> MainChoice {
    if typed(input, '1') {
        MainChoice::Register
    } else if typed(input, '2') {
        MainChoice::Login
    } else if typed(input, '3') {
        MainChoice::Exit
    } else {
        MainChoice::Unknown
    }
}

/// The choice that a text typed at the user menu stands for.
pub open spec fn user_choice_of(input: Seq<char>) -> UserChoice {
    if typed(input, '1') {
        UserChoice::AddTask
    } else if typed(input, '2') {
        UserChoice::ViewTasks
    } else if typed(input, '3') {
        UserChoice::EditTask
    } else if typed(input, '4') {
        UserChoice::DeleteTask
    } else if typed(input, '5') {
        UserChoice::MarkCompleted
    } else if typed(input, '6') {
        UserChoice::SaveToJson
    } else if typed(input, '7') {
        UserChoice::LoadFromJson
    } else if typed(input, '8') {
        UserChoice::Logout
    } else {
        UserChoice::Unknown
    }
}

/// Reads a choice of the main menu: `1` registers, `2` logs in, `3` exits,
/// and anything else is unknown.
pub fn main_menu(input: &str) -> (choice: MainChoice)
    ensures
        choice == main_choice_of(input@),
{
    if input.unicode_len() != 1 {
        return MainChoice::Unknown;
    }
    let c = input.get_char(0);
    if c == '1' {
        MainChoice::Register
    } else if c == '2' {
        MainChoice::Login
    } else if c == '3' {
        MainChoice::Exit
    } else {
        MainChoice::Unknown
    }
}

/// Reads a choice of the user menu: `1` to `8` stand for adding, viewing,
/// editing, deleting and completing a task, saving and loading a document,
/// and logging out, in this order; anything else is unknown.
pub fn user_menu(input: &str) -> (choice: UserChoice)
    ensures
        choice == user_choice_of(input@),
{
    if input.unicode_len() != 1 {
        return UserChoice::Unknown;
    }
    let c = input.get_char(0);
    if c == '1' {
        UserChoice::AddTask
    } else if c == '2' {
        UserChoice::ViewTasks
    } else if c == '3' {
        UserChoice::EditTask
    } else if c == '4' {
        UserChoice::DeleteTask
    } else if c == '5' {
        UserChoice::MarkCompleted
    } else if c == '6' {
        UserChoice::SaveToJson
    } else if c == '7' {
        UserChoice::LoadFromJson
    } else if c == '8' {
        UserChoice::Logout
    } else {
        UserChoice::Unknown
    }
}

impl Session {
    /// The session after a login attempt: logged in as the user that the
    /// attempt gave, and anonymous as before where it gave none.
    pub fn after_login(self, identity: Option<i32>) -> (next: Session)
        ensures
            next == (match identity {
                Some(user_id) => Session::Authenticated { user_id },
                None => self,
            }),
    {
        match identity {
            Some(user_id) => Session::Authenticated { user_id },
            None => self,
        }
    }

    /// The session after a choice of the user menu: anonymous after a
    /// logout, unchanged after anything else.
    pub fn after_choice(self, choice: UserChoice) -> (next: Session)
        ensures
            next == (if choice == UserChoice::Logout {
                Session::Anonymous
            } else {
                self
            }),
    {
        match choice {
            UserChoice::Logout => Session::Anonymous,
            _ => self,
        }
    }
}

/// The value of a decimal digit.
pub open spec fn digit_value(c: char) -> Option<int> {
    if c == '0' {
        Some(0)
    } else if c == '1' {
        Some(1)
    } else if c == '2' {
        Some(2)
    } else if c == '3' {
        Some(3)
    } else if c == '4' {
        Some(4)
    } else if c == '5' {
        Some(5)
    } else if c == '6' {
        Some(6)
    } else if c == '7' {
        Some(7)
    } else if c == '8' {
        Some(8)
    } else if c == '9' {
        Some(9)
    } else {
        None
    }
}

/// The number that a sequence of decimal digits denotes, and `None` where
/// one of the characters is no digit. No digits at all denote 0.
pub open spec fn decimal_value(digits: Seq<char>) -> Option<int>
    decreases digits.len(),
{
    if digits.len() == 0 {
        Some(0)
    } else {
        match (decimal_value(digits.drop_last()), digit_value(digits.last())) {
            (Some(value), Some(digit)) => Some(10 * value + digit),
            _ => None,
        }
    }
}

/// The number that a typed text names: one or more decimal digits, with or
/// without a `+` in front, whose value fits the machine's word. Anything
/// else, the empty text included, names no number.
pub open spec fn task_number_of(text: Seq<char>) -> Option<int> {
    let digits = if text.len() > 0 && text[0] == '+' {
        text.skip(1)
    } else {
        text
    };
    if digits.len() == 0 {
        None
    } else {
        match decimal_value(digits) {
            Some(value) => if value <= usize::MAX {
                Some(value)
            } else {
                None
            },
            None => None,
        }
    }
}

/// Digits that denote a number start with digits that denote a number no
/// greater.
proof fn lemma_decimal_prefix(digits: Seq<char>, k: int)
    requires
        0 <= k <= digits.len(),
    ensures
        decimal_value(digits) matches Some(value) ==> decimal_value(digits.take(k)) matches Some(part)
            && 0 <= part <= value,
    decreases digits.len(),
{
    if k == digits.len() {
        assert(digits.take(k) =~= digits);
        if digits.len() > 0 {
            lemma_decimal_prefix(digits.drop_last(), k - 1);
        }
    } else {
        lemma_decimal_prefix(digits.drop_last(), k);
        assert(digits.drop_last().take(k) =~= digits.take(k));
    }
}

/// The value of a character as a decimal digit.
fn digit_of(c: char) -> (digit: Option<usize>)
    ensures
        match digit {
            Some(d) => digit_value(c) == Some(d as int),
            None => digit_value(c) is None,
        },
{
    if c == '0' {
        Some(0)
    } else if c == '1' {
        Some(1)
    } else if c == '2' {
        Some(2)
    } else if c == '3' {
        Some(3)
    } else if c == '4' {
        Some(4)
    } else if c == '5' {
        Some(5)
    } else if c == '6' {
        Some(6)
    } else if c == '7' {
        Some(7)
    } else if c == '8' {
        Some(8)
    } else if c == '9' {
        Some(9)
    } else {
        None
    }
}

/// Reads the number of a task as the user typed it.
pub fn parse_task_number(text: &str) -> (number: Option<usize>)
    ensures
        match number {
            Some(n) => task_number_of(text@) == Some(n as int),
            None => task_number_of(text@) is None,
        },
{
    let length: usize = text.unicode_len();
    let start: usize = if length > 0 && text.get_char(0) == '+' {
        1
    } else {
        0
    };
    if start == length {
        return None;
    }
    let ghost digits = text@.skip(start as int);
    let mut value: usize = 0;
    let mut i: usize = start;
    assert(digits.take(0) =~= Seq::<char>::empty());
    assert(text@.skip(0) =~= text@);
    while i < length
        invariant
            start <= i <= length,
            start < length,
            length == text@.len(),
            start == (if text@.len() > 0 && text@[0] == '+' {
                1int
            } else {
                0int
            }),
            digits == text@.skip(start as int),
            text@.skip(0) == text@,
            decimal_value(digits.take(i - start)) == Some(value as int),
        decreases length - i,
    {
        let c = text.get_char(i);
        proof {
            lemma_decimal_prefix(digits, i - start + 1);
            assert(digits.take(i - start + 1).drop_last() =~= digits.take(i - start));
            assert(digits.take(i - start + 1).last() == c);
        }
        match digit_of(c) {
            None => {
                return None;
            },
            Some(d) => {
                if value > (usize::MAX - d) / 10 {
                    return None;
                }
                value = value * 10 + d;
            },
        }
        i += 1;
    }
    assert(digits.take(length - start) =~= digits);
    Some(value)
}

} // verus!
