//! Numbers and column names as text.

use vstd::prelude::*;
use vstd::string::StringExecFns;
use vstd::utf8::is_ascii_chars;

verus! {

/// The character for a digit from 0 to 9.
pub open spec fn digit_char(digit: int) -> char {
    if digit == 0 {
        '0'
    } else if digit == 1 {
        '1'
    } else if digit == 2 {
        '2'
    } else if digit == 3 {
        '3'
    } else if digit == 4 {
        '4'
    } else if digit == 5 {
        '5'
    } else if digit == 6 {
        '6'
    } else if digit == 7 {
        '7'
    } else if digit == 8 {
        '8'
    } else {
        '9'
    }
}

/// A number written in decimal, without leading zeros.
pub open spec fn decimal(n: nat) -> Seq<char>
    decreases n,
{
    if n < 10 {
        seq![digit_char(n as int)]
    } else {
        decimal(n / 10).push(digit_char((n % 10) as int))
    }
}

/// A number below ten to the power `digits` has at most `digits` digits.
pub proof fn lemma_decimal_len(n: nat, digits: nat)
    requires
        digits >= 1,
        n < vstd::arithmetic::power::pow(10, digits),
    ensures
        1 <= decimal(n).len() <= digits,
    decreases n,
{
    vstd::arithmetic::power::lemma_pow1(10);
    if n >= 10 {
        assert(digits >= 2) by {
            if digits == 1 {
                assert(vstd::arithmetic::power::pow(10, 1) == 10);
            }
        }
        assert(vstd::arithmetic::power::pow(10, digits) == 10 * vstd::arithmetic::power::pow(
            10,
            (digits - 1) as nat,
        )) by {
            vstd::arithmetic::power::lemma_pow_adds(10, 1, (digits - 1) as nat);
        }
        lemma_decimal_len(n / 10, (digits - 1) as nat);
    }
}

/// A number that fits 64 bits has at most twenty digits.
pub proof fn lemma_decimal_len_u64(n: nat)
    requires
        n <= u64::MAX,
    ensures
        1 <= decimal(n).len() <= 20,
{
    assert(vstd::arithmetic::power::pow(10, 20) == 100_000_000_000_000_000_000) by {
        reveal_with_fuel(vstd::arithmetic::power::pow, 21);
    }
    lemma_decimal_len(n, 20);
}

fn digit_str(digit: u64) -> (text: &'static str)
    requires
        digit < 10,
    ensures
        text@ == seq![digit_char(digit as int)],
{
    proof {
        reveal_strlit("0");
        reveal_strlit("1");
        reveal_strlit("2");
        reveal_strlit("3");
        reveal_strlit("4");
        reveal_strlit("5");
        reveal_strlit("6");
        reveal_strlit("7");
        reveal_strlit("8");
        reveal_strlit("9");
    }
    let text = match digit {
        0 => "0",
        1 => "1",
        2 => "2",
        3 => "3",
        4 => "4",
        5 => "5",
        6 => "6",
        7 => "7",
        8 => "8",
        _ => "9",
    };
    assert(text@ =~= seq![digit_char(digit as int)]);
    text
}

/// Writes a number in decimal.
pub fn decimal_string(n: u64) -> (text: String)
    ensures
        text@ == decimal(n as nat),
    decreases n,
{
    if n < 10 {
        String::from_str(digit_str(n))
    } else {
        let mut text = decimal_string(n / 10);
        text.append(digit_str(n % 10));
        assert(text@ =~= decimal(n as nat));
        text
    }
}

/// The letter of the alphabet at a position from 0 to 25.
pub open spec fn letter_char(index: int) -> char {
    if index == 0 {
        'A'
    } else if index == 1 {
        'B'
    } else if index == 2 {
        'C'
    } else if index == 3 {
        'D'
    } else if index == 4 {
        'E'
    } else if index == 5 {
        'F'
    } else if index == 6 {
        'G'
    } else if index == 7 {
        'H'
    } else if index == 8 {
        'I'
    } else if index == 9 {
        'J'
    } else if index == 10 {
        'K'
    } else if index == 11 {
        'L'
    } else if index == 12 {
        'M'
    } else if index == 13 {
        'N'
    } else if index == 14 {
        'O'
    } else if index == 15 {
        'P'
    } else if index == 16 {
        'Q'
    } else if index == 17 {
        'R'
    } else if index == 18 {
        'S'
    } else if index == 19 {
        'T'
    } else if index == 20 {
        'U'
    } else if index == 21 {
        'V'
    } else if index == 22 {
        'W'
    } else if index == 23 {
        'X'
    } else if index == 24 {
        'Y'
    } else {
        'Z'
    }
}

/// The name of a column, counted from 0: `A` to `Z`, then `AA`, `AB` and so
/// on.
pub open spec fn column_name(col: nat) -> Seq<char>
    decreases col,
{
    if col < 26 {
        seq![letter_char(col as int)]
    } else {
        column_name((col / 26 - 1) as nat).push(letter_char((col % 26) as int))
    }
}

fn letter_str(index: u16) -> (text: &'static str)
    requires
        index < 26,
    ensures
        text@ == seq![letter_char(index as int)],
{
    proof {
        reveal_strlit("A");
        reveal_strlit("B");
        reveal_strlit("C");
        reveal_strlit("D");
        reveal_strlit("E");
        reveal_strlit("F");
        reveal_strlit("G");
        reveal_strlit("H");
        reveal_strlit("I");
        reveal_strlit("J");
        reveal_strlit("K");
        reveal_strlit("L");
        reveal_strlit("M");
        reveal_strlit("N");
        reveal_strlit("O");
        reveal_strlit("P");
        reveal_strlit("Q");
        reveal_strlit("R");
        reveal_strlit("S");
        reveal_strlit("T");
        reveal_strlit("U");
        reveal_strlit("V");
        reveal_strlit("W");
        reveal_strlit("X");
        reveal_strlit("Y");
        reveal_strlit("Z");
    }
    let text = match index {
        0 => "A",
        1 => "B",
        2 => "C",
        3 => "D",
        4 => "E",
        5 => "F",
        6 => "G",
        7 => "H",
        8 => "I",
        9 => "J",
        10 => "K",
        11 => "L",
        12 => "M",
        13 => "N",
        14 => "O",
        15 => "P",
        16 => "Q",
        17 => "R",
        18 => "S",
        19 => "T",
        20 => "U",
        21 => "V",
        22 => "W",
        23 => "X",
        24 => "Y",
        _ => "Z",
    };
    assert(text@ =~= seq![letter_char(index as int)]);
    text
}

/// Writes the name of a column.
pub fn column_name_string(col: u16) -> (text: String)
    ensures
        text@ == column_name(col as nat),
    decreases col,
{
    if col < 26 {
        String::from_str(letter_str(col))
    } else {
        let mut text = column_name_string(col / 26 - 1);
        text.append(letter_str(col % 26));
        assert(text@ =~= column_name(col as nat));
        text
    }
}

/// Two texts in ASCII, one after the other, are a text in ASCII.
pub proof fn lemma_ascii_concat(a: Seq<char>, b: Seq<char>)
    requires
        is_ascii_chars(a),
        is_ascii_chars(b),
    ensures
        is_ascii_chars(a + b),
{
    assert forall|i: int| 0 <= i < (a + b).len() implies '\0' <= #[trigger] (a + b)[i]
        <= '\u{7f}' by {
        if i < a.len() {
            assert((a + b)[i] == a[i]);
        } else {
            assert((a + b)[i] == b[i - a.len()]);
        }
    }
}

/// A number in decimal is a text in ASCII.
pub proof fn lemma_decimal_ascii(n: nat)
    ensures
        is_ascii_chars(decimal(n)),
    decreases n,
{
    if n >= 10 {
        lemma_decimal_ascii(n / 10);
        lemma_ascii_concat(decimal(n / 10), seq![digit_char((n % 10) as int)]);
        assert(decimal(n) =~= decimal(n / 10) + seq![digit_char((n % 10) as int)]);
    }
}

/// The name of a column is a text in ASCII.
pub proof fn lemma_column_name_ascii(col: nat)
    ensures
        is_ascii_chars(column_name(col)),
    decreases col,
{
    if col >= 26 {
        lemma_column_name_ascii((col / 26 - 1) as nat);
        lemma_ascii_concat(
            column_name((col / 26 - 1) as nat),
            seq![letter_char((col % 26) as int)],
        );
        assert(column_name(col) =~= column_name((col / 26 - 1) as nat) + seq![
            letter_char((col % 26) as int),
        ]);
    }
}

} // verus!
