use tabel::dialogue::{
    file_name, greeting, next, parse_salary, salary_hint, shown_name, DState, Reply,
};

#[test]
fn salary_of_digits() {
    assert_eq!(parse_salary("30456"), Some(30_456));
    assert_eq!(parse_salary("0"), Some(0));
    assert_eq!(parse_salary("7"), Some(7));
    assert_eq!(parse_salary("60000"), Some(60_000));
}

#[test]
fn salary_may_begin_with_a_plus_sign_or_zeros() {
    assert_eq!(parse_salary("+5"), Some(5));
    assert_eq!(parse_salary("007"), Some(7));
    assert_eq!(parse_salary("+000"), Some(0));
    assert_eq!(parse_salary(&format!("{}1", "0".repeat(200))), Some(1));
}

#[test]
fn salary_fits_32_bits() {
    assert_eq!(parse_salary("4294967295"), Some(u32::MAX));
    assert_eq!(parse_salary("4294967296"), None);
    assert_eq!(parse_salary("4294967300"), None);
    assert_eq!(parse_salary("42949672950"), None);
    assert_eq!(parse_salary("99999999999999999999999999"), None);
    assert_eq!(parse_salary("+4294967295"), Some(u32::MAX));
}

#[test]
fn salary_is_nothing_but_digits() {
    for text in [
        "", "+", "-", "-5", "++5", "+-5", "5+", " 5", "5 ", "5 000", "5,5", "5.0", "1e3", "0x10",
        "abc", "12a", "a12", "５", "٣", "1_000", "\n5", "5\n", "50000₽", "+ 5",
    ] {
        assert_eq!(parse_salary(text), None);
    }
}

#[test]
fn salary_agrees_with_the_parser_of_the_standard_library() {
    let texts = [
        "", "0", "1", "+1", "-1", "-0", "+0", "00", "10", "4294967295", "4294967296", "429496729",
        "+4294967296", "99999999999", " 1", "1 ", "+", "++1", "1+1", "12345678", "0000000000000",
        "१२३", "1١", "٠", "/", ":", "0/", "9:", "+a", "я", "🍁", "1🍁",
    ];
    for text in texts {
        assert_eq!(parse_salary(text), text.parse::<u32>().ok());
    }
    for n in [0u64, 9, 10, 11, 99, 4_294_967_294, 4_294_967_295, 4_294_967_296, 4_294_967_297] {
        let text = n.to_string();
        assert_eq!(parse_salary(&text), text.parse::<u32>().ok());
    }
}

#[test]
fn first_message_is_answered_with_a_greeting() {
    assert_eq!(next(DState::Start, Some("/start")), (DState::Salary, Reply::Greet));
    assert_eq!(next(DState::Start, Some("30456")), (DState::Salary, Reply::Greet));
    assert_eq!(next(DState::Start, None), (DState::Salary, Reply::Greet));
}

#[test]
fn salary_is_answered_with_the_table() {
    assert_eq!(next(DState::Salary, Some("30456")), (DState::Salary, Reply::SendTable(30_456)));
    assert_eq!(next(DState::Salary, Some("0")), (DState::Salary, Reply::SendTable(0)));
}

#[test]
fn anything_else_is_answered_with_a_request_to_try_again() {
    assert_eq!(next(DState::Salary, Some("much")), (DState::Salary, Reply::AskAgain));
    assert_eq!(next(DState::Salary, Some("")), (DState::Salary, Reply::AskAgain));
    assert_eq!(next(DState::Salary, Some("-1")), (DState::Salary, Reply::AskAgain));
    assert_eq!(next(DState::Salary, None), (DState::Salary, Reply::AskAgain));
}

#[test]
fn person_is_named_by_user_name_then_number_then_a_word_for_anyone() {
    assert_eq!(shown_name(Some("vasya"), Some(42)), "vasya");
    assert_eq!(shown_name(Some("vasya"), None), "vasya");
    assert_eq!(shown_name(None, Some(42)), "42");
    assert_eq!(shown_name(None, Some(u64::MAX)), "18446744073709551615");
    assert_eq!(shown_name(None, Some(0)), "0");
    assert_eq!(shown_name(None, None), "пользователь");
    assert_eq!(shown_name(Some(""), Some(42)), "");
}

#[test]
fn greeting_names_the_person_and_the_year() {
    assert_eq!(
        greeting("vasya", 2024),
        "Привет vasya!\nВведи свой оклад ниже что бы получить готовый табель за 2024 год."
    );
    assert_eq!(
        greeting("", 0),
        "Привет !\nВведи свой оклад ниже что бы получить готовый табель за 0 год."
    );
}

#[test]
fn hint_for_a_salary_that_was_not_understood() {
    assert_eq!(salary_hint(), "Некоректно указан оклад! Пример: 30456");
}

#[test]
fn file_is_named_after_the_year() {
    assert_eq!(file_name(2024), "tabel_2024.xlsx");
    assert_eq!(file_name(65_535), "tabel_65535.xlsx");
    assert_eq!(file_name(0), "tabel_0.xlsx");
}
