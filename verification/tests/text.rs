use message_broker::client::{
    accept_message, choose_topic, menu_option, parse_choice, registration_user, MenuOption,
    TopicChoice,
};
use message_broker::text::{trimmed, trimmed_end};

#[test]
fn trimmed_removes_white_space_at_both_ends() {
    assert_eq!(trimmed("  hola mundo \n"), "hola mundo");
    assert_eq!(trimmed("\t\r\n"), "");
    assert_eq!(trimmed("sin"), "sin");
    assert_eq!(trimmed("\u{3000}ancho\u{a0}"), "ancho");
}

#[test]
fn trimmed_end_keeps_leading_white_space() {
    assert_eq!(trimmed_end("  ana \n"), "  ana");
    assert_eq!(trimmed_end("bob"), "bob");
}

#[test]
fn menu_reads_the_four_options() {
    assert_eq!(menu_option("1\n"), MenuOption::Subscribe);
    assert_eq!(menu_option(" 2 "), MenuOption::View);
    assert_eq!(menu_option("+3"), MenuOption::Post);
    assert_eq!(menu_option("004"), MenuOption::Exit);
}

#[test]
fn menu_rejects_anything_else() {
    assert_eq!(menu_option("5"), MenuOption::Invalid);
    assert_eq!(menu_option("0"), MenuOption::Invalid);
    assert_eq!(menu_option("uno"), MenuOption::Invalid);
    assert_eq!(menu_option(""), MenuOption::Invalid);
    assert_eq!(menu_option("-1"), MenuOption::Invalid);
    assert_eq!(menu_option("1 2"), MenuOption::Invalid);
    assert_eq!(menu_option("99999999999"), MenuOption::Invalid);
}

#[test]
fn choice_parses_numbers() {
    assert_eq!(parse_choice(" 3\n"), Some(3));
    assert_eq!(parse_choice("+1"), Some(1));
    assert_eq!(parse_choice("x"), None);
    assert_eq!(parse_choice("+"), None);
    assert_eq!(parse_choice("99999999999999999999999"), None);
}

#[test]
fn choose_topic_counts_from_one() {
    assert_eq!(choose_topic(Some(1), 3), TopicChoice::Chosen(0));
    assert_eq!(choose_topic(Some(3), 3), TopicChoice::Chosen(2));
    assert_eq!(choose_topic(Some(4), 3), TopicChoice::OutOfRange);
    assert_eq!(choose_topic(None, 3), TopicChoice::NotANumber);
    assert_eq!(choose_topic(Some(1), 0), TopicChoice::OutOfRange);
}

#[test]
fn accept_message_needs_content() {
    assert_eq!(accept_message("\n\n"), None);
    assert_eq!(accept_message("\n  hola \n"), Some(String::from("hola")));
}

#[test]
fn registration_user_trims_the_end_only() {
    let u = registration_user("Ana\n", " a1 \n");
    assert_eq!(u.nombre, "Ana");
    assert_eq!(u.id, " a1");
}
