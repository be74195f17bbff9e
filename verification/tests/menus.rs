use todo_app::menu::{main_menu, parse_task_number, user_menu, MainChoice, Session, UserChoice};

#[test]
fn main_menu_reads_its_three_choices() {
    assert_eq!(main_menu("1"), MainChoice::Register);
    assert_eq!(main_menu("2"), MainChoice::Login);
    assert_eq!(main_menu("3"), MainChoice::Exit);
    assert_eq!(main_menu("4"), MainChoice::Unknown);
    assert_eq!(main_menu(""), MainChoice::Unknown);
    assert_eq!(main_menu("11"), MainChoice::Unknown);
    assert_eq!(main_menu(" 1"), MainChoice::Unknown);
}

#[test]
fn user_menu_reads_its_eight_choices() {
    assert_eq!(user_menu("1"), UserChoice::AddTask);
    assert_eq!(user_menu("2"), UserChoice::ViewTasks);
    assert_eq!(user_menu("3"), UserChoice::EditTask);
    assert_eq!(user_menu("4"), UserChoice::DeleteTask);
    assert_eq!(user_menu("5"), UserChoice::MarkCompleted);
    assert_eq!(user_menu("6"), UserChoice::SaveToJson);
    assert_eq!(user_menu("7"), UserChoice::LoadFromJson);
    assert_eq!(user_menu("8"), UserChoice::Logout);
    assert_eq!(user_menu("9"), UserChoice::Unknown);
    assert_eq!(user_menu("0"), UserChoice::Unknown);
    assert_eq!(user_menu("exit"), UserChoice::Unknown);
    assert_eq!(user_menu(""), UserChoice::Unknown);
}

#[test]
fn session_goes_from_anonymous_to_authenticated_and_back() {
    let start = Session::Anonymous;
    assert_eq!(start.after_login(None), Session::Anonymous);
    let inside = start.after_login(Some(3));
    assert_eq!(inside, Session::Authenticated { user_id: 3 });
    assert_eq!(inside.after_choice(UserChoice::AddTask), inside);
    assert_eq!(inside.after_choice(UserChoice::Unknown), inside);
    assert_eq!(inside.after_choice(UserChoice::Logout), Session::Anonymous);
}

#[test]
fn parse_task_number_reads_decimal_numbers() {
    assert_eq!(parse_task_number("1"), Some(1));
    assert_eq!(parse_task_number("0"), Some(0));
    assert_eq!(parse_task_number("42"), Some(42));
    assert_eq!(parse_task_number("007"), Some(7));
    assert_eq!(parse_task_number("+5"), Some(5));
}

#[test]
fn parse_task_number_refuses_what_is_no_number() {
    assert_eq!(parse_task_number(""), None);
    assert_eq!(parse_task_number("+"), None);
    assert_eq!(parse_task_number("-1"), None);
    assert_eq!(parse_task_number("++1"), None);
    assert_eq!(parse_task_number("1+"), None);
    assert_eq!(parse_task_number("12a"), None);
    assert_eq!(parse_task_number(" 3"), None);
    assert_eq!(parse_task_number("3 "), None);
    assert_eq!(parse_task_number("1.5"), None);
    assert_eq!(parse_task_number("\u{663}"), None);
}

#[test]
fn parse_task_number_agrees_with_the_standard_parser() {
    let max = usize::MAX.to_string();
    let inputs = [
        "", "+", "-", "0", "+0", "-0", "9", "10", "0010", "+123", "12x", "x12", "1 2",
        "99999999999999999999999999", max.as_str(), "18446744073709551616", "4294967296",
        "+18446744073709551615",
    ];
    for input in inputs {
        assert_eq!(parse_task_number(input), input.parse::<usize>().ok(), "input {:?}", input);
    }
}

#[test]
fn parse_task_number_stops_at_the_word_size() {
    assert_eq!(parse_task_number(&usize::MAX.to_string()), Some(usize::MAX));
    let beyond = format!("{}0", usize::MAX);
    assert_eq!(parse_task_number(&beyond), None);
}
