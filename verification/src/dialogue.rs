//! The conversation with the person who asks for a timesheet.

use crate::text::{decimal, decimal_string};
use vstd::prelude::*;
use vstd::string::{StrSliceExecFns, StringExecFns};
use vstd::utf8::is_ascii_chars;

verus! {

/// Where the conversation stands.
#[derive(Clone, Copy, Debug, PartialEq, Eq, Structural)]
pub enum DState {
    /// Nothing has been said yet.
    Start,
    /// The person has been asked for the salary.
    Salary,
}

/// What to do after a message.
#[derive(Clone, Copy, Debug, PartialEq, Eq, Structural)]
pub enum Reply {
    /// Greet the person and ask for the salary.
    Greet,
    /// Build the timesheet for this salary and send it.
    SendTable(u32),
    /// Say that the salary was not understood and ask again.
    AskAgain,
}

/// Whether a character is a decimal digit.
pub open spec fn is_digit(c: char) -> bool {
    '0' <= c <= '9'
}

/// The number that a sequence of decimal digits stands for.
pub open spec fn digits_value(digits: Seq<char>) -> nat
    decreases digits.len(),
{
    if digits.len() == 0 {
        0
    } else {
        (digits_value(digits.drop_last()) * 10 + (digits.last() as nat - '0' as nat)) as nat
    }
}

/// The digits of a text that may begin with a plus sign.
pub open spec fn unsigned_digits(text: Seq<char>) -> Seq<char> {
    if text.len() > 0 && text[0] == '+' {
        text.skip(1)
    } else {
        text
    }
}

/// The salary that a text stands for: the text is one or more decimal
/// digits, with or without a plus sign in front, and the number fits 32
/// bits. Any other text stands for no salary.
pub open spec fn salary_of(text: Seq<char>) -> Option<u32> {
    let digits = unsigned_digits(text);
    if digits.len() > 0 && (forall|i: int| 0 <= i < digits.len() ==> is_digit(#[trigger] digits[i]))
        && digits_value(digits) <= u32::MAX {
        Some(digits_value(digits) as u32)
    } else {
        None
    }
}

/// The number of a sequence of digits is no less than that of any of its
/// beginnings.
proof fn lemma_digits_value_grows(digits: Seq<char>, k: int)
    requires
        0 <= k <= digits.len(),
        forall|i: int| 0 <= i < digits.len() ==> is_digit(#[trigger] digits[i]),
    ensures
        digits_value(digits.take(k)) <= digits_value(digits),
    decreases digits.len() - k,
{
    if k == digits.len() {
        assert(digits.take(k) =~= digits);
    } else {
        lemma_digits_value_grows(digits, k + 1);
        assert(digits.take(k + 1).drop_last() =~= digits.take(k));
        assert(is_digit(digits[k]));
        assert(digits.take(k + 1).last() == digits[k]);
    }
}

/// A text that holds a character beyond ASCII stands for no salary.
proof fn lemma_salary_is_ascii(text: Seq<char>)
    requires
        salary_of(text) is Some,
    ensures
        is_ascii_chars(text),
{
    let digits = unsigned_digits(text);
    assert forall|i: int| 0 <= i < text.len() implies '\0' <= #[trigger] text[i] <= '\u{7f}' by {
        if digits.len() == text.len() {
            assert(is_digit(digits[i]));
        } else if i > 0 {
            assert(is_digit(digits[i - 1]));
            assert(digits[i - 1] == text[i]);
        }
    }
}

/// Reads a salary from a text.
pub fn parse_salary(text: &str) -> (salary: Option<u32>)
    ensures
        salary == salary_of(text@),
{
    if !text.is_ascii() {
        proof {
            if salary_of(text@) is Some {
                lemma_salary_is_ascii(text@);
            }
        }
        return None;
    }
    let len = text.unicode_len();
    let start: usize = if len > 0 && text.get_ascii(0) == 43 {
        1
    } else {
        0
    };
    let ghost digits = unsigned_digits(text@);
    if start == len {
        return None;
    }
    let mut value: u32 = 0;
    let mut i: usize = start;
    assert(digits.take(0) =~= Seq::<char>::empty());
    while i < len
        invariant
            start <= i <= len,
            len == text@.len(),
            text.is_ascii(),
            digits == unsigned_digits(text@),
            digits.len() == len - start,
            forall|k: int| 0 <= k < digits.len() ==> digits[k] == text@[start + k],
            forall|k: int| 0 <= k < i - start ==> is_digit(#[trigger] digits[k]),
            value == digits_value(digits.take(i - start)),
        decreases len - i,
    {
        let byte = text.get_ascii(i);
        let ghost c = text@[i as int];
        proof {
            assert(digits.take(i - start + 1).drop_last() =~= digits.take(i - start));
            assert(digits.take(i - start + 1).last() == c);
            assert('\0' <= c <= '\u{7f}');
        }
        if byte < 48 || byte > 57 {
            assert(!is_digit(digits[i - start]));
            return None;
        }
        let digit: u32 = (byte - 48) as u32;
        let grown = match value.checked_mul(10) {
            Some(tens) => tens.checked_add(digit),
            None => None,
        };
        match grown {
            Some(next) => {
                value = next;
            },
            None => {
                proof {
                    if forall|k: int| 0 <= k < digits.len() ==> is_digit(#[trigger] digits[k]) {
                        lemma_digits_value_grows(digits, i - start + 1);
                    }
                }
                return None;
            },
        }
        i += 1;
    }
    proof {
        assert(digits.take(len - start) =~= digits);
    }
    Some(value)
}

/// What follows a message: the first message is answered with a greeting;
/// after that, a message that is a salary is answered with the timesheet,
/// and any other message with a request to try again.
pub open spec fn next_step(state: DState, text: Option<Seq<char>>) -> (DState, Reply) {
    match state {
        DState::Start => (DState::Salary, Reply::Greet),
        DState::Salary => match text {
            Some(t) => match salary_of(t) {
                Some(salary) => (DState::Salary, Reply::SendTable(salary)),
                None => (DState::Salary, Reply::AskAgain),
            },
            None => (DState::Salary, Reply::AskAgain),
        },
    }
}

/// Decides what follows a message, whose text there may be none of.
pub fn next(state: DState, text: Option<&str>) -> (step: (DState, Reply))
    ensures
        step == next_step(
            state,
            match text {
                Some(t) => Some(t@),
                None => None,
            },
        ),
{
    match state {
        DState::Start => (DState::Salary, Reply::Greet),
        DState::Salary => match text {
            Some(t) => match parse_salary(t) {
                Some(salary) => (DState::Salary, Reply::SendTable(salary)),
                None => (DState::Salary, Reply::AskAgain),
            },
            None => (DState::Salary, Reply::AskAgain),
        },
    }
}

/// The name by which a person is greeted: the user name if there is one,
/// else the number of the account, else a word for anyone.
pub open spec fn shown_name_text(username: Option<Seq<char>>, id: Option<u64>) -> Seq<char> {
    match username {
        Some(name) => name,
        None => match id {
            Some(number) => decimal(number as nat),
            None => "пользователь"@,
        },
    }
}

/// The greeting: it names the person and the year of the timesheet.
pub open spec fn greeting_text(name: Seq<char>, year: u16) -> Seq<char> {
    "Привет "@ + name + "!\nВведи свой оклад ниже что бы получить готовый табель за "@ + decimal(
        year as nat,
    ) + " год."@
}

/// The name of the file in which the timesheet of a year is sent.
pub open spec fn file_name_text(year: u16) -> Seq<char> {
    "tabel_"@ + decimal(year as nat) + ".xlsx"@
}

/// The name by which a person is greeted.
pub fn shown_name(username: Option<&str>, id: Option<u64>) -> (name: String)
    ensures
        name@ == shown_name_text(
            match username {
                Some(n) => Some(n@),
                None => None,
            },
            id,
        ),
{
    match username {
        Some(name) => String::from_str(name),
        None => match id {
            Some(number) => decimal_string(number),
            None => String::from_str("пользователь"),
        },
    }
}

/// The greeting for a person and the year of the timesheet.
pub fn greeting(name: &str, year: u16) -> (text: String)
    ensures
        text@ == greeting_text(name@, year),
{
    let mut text = String::from_str("Привет ");
    text.append(name);
    text.append("!\nВведи свой оклад ниже что бы получить готовый табель за ");
    let year_text = decimal_string(year as u64);
    text.append(year_text.as_str());
    text.append(" год.");
    text
}

/// What is said when a message is not a salary.
pub fn salary_hint() -> (text: String)
    ensures
        text@ == "Некоректно указан оклад! Пример: 30456"@,
{
    String::from_str("Некоректно указан оклад! Пример: 30456")
}

/// The name of the file in which the timesheet of a year is sent.
pub fn file_name(year: u16) -> (name: String)
    ensures
        name@ == file_name_text(year),
{
    let mut name = String::from_str("tabel_");
    let year_text = decimal_string(year as u64);
    name.append(year_text.as_str());
    name.append(".xlsx");
    name
}

} // verus!
