use vstd::prelude::*;
use crate::broker::User;
use crate::text::{
    is_unsigned_text, lemma_unsigned_value_nonneg, parse_u32, parse_usize, trim_end_spec, trim_spec, trim_str, trimmed,
    trimmed_end, unsigned_value,
};

verus! {

/// What the client's main menu does with a line of input.
#[derive(PartialEq, Eq, Structural, Clone, Copy, Debug)]
pub enum MenuOption {
    Subscribe,
    View,
    Post,
    Exit,
    Invalid,
}

/// Whether the trimmed `line` is the unsigned decimal number `n`.
pub open spec fn reads_as(line: Seq<char>, n: int) -> bool {
    is_unsigned_text(trim_spec(line)) && unsigned_value(trim_spec(line)) == n
}

/// The menu option that `line` selects: the numbers 1 to 4, with white
/// space around them allowed, select the four actions; anything else is
/// invalid.
pub open spec fn menu_option_spec(line: Seq<char>) -> MenuOption {
    if reads_as(line, 1) {
        MenuOption::Subscribe
    } else if reads_as(line, 2) {
        MenuOption::View
    } else if reads_as(line, 3) {
        MenuOption::Post
    } else if reads_as(line, 4) {
        MenuOption::Exit
    } else {
        MenuOption::Invalid
    }
}

/// The menu option that a line of input selects.
pub fn menu_option(line: &str) -> (r: MenuOption)
    ensures
        r == menu_option_spec(line@),
{
    proof {
        if is_unsigned_text(trim_spec(line@)) {
            lemma_unsigned_value_nonneg(trim_spec(line@));
        }
    }
    match parse_u32(trim_str(line)) {
        Some(1) => MenuOption::Subscribe,
        Some(2) => MenuOption::View,
        Some(3) => MenuOption::Post,
        Some(4) => MenuOption::Exit,
        _ => MenuOption::Invalid,
    }
}

/// The number that a line of input writes, white space around it allowed,
/// where it writes one that fits in a `usize`.
pub fn parse_choice(line: &str) -> (r: Option<usize>)
    ensures
        r == (if is_unsigned_text(trim_spec(line@)) && unsigned_value(trim_spec(line@)) <= usize::MAX {
            Some(unsigned_value(trim_spec(line@)) as usize)
        } else {
            None::<usize>
        }),
{
    parse_usize(trim_str(line))
}

/// What a choice among `count` listed topics, numbered from 1, selects.
#[derive(PartialEq, Eq, Structural, Clone, Copy, Debug)]
pub enum TopicChoice {
    /// The topic at this position of the list, counting from 0.
    Chosen(usize),
    /// A number past the end of the list.
    OutOfRange,
    /// Not a number.
    NotANumber,
}

/// The topic that the number `choice` selects among `count` listed topics,
/// numbered from 1. The number 0 has no topic before it and is not accepted.
pub fn choose_topic(choice: Option<usize>, count: usize) -> (r: TopicChoice)
    requires
        choice != Some(0usize),
    ensures
        r == match choice {
            None => TopicChoice::NotANumber,
            Some(i) => if i - 1 < count {
                TopicChoice::Chosen((i - 1) as usize)
            } else {
                TopicChoice::OutOfRange
            },
        },
{
    match choice {
        None => TopicChoice::NotANumber,
        Some(i) => {
            let index = i - 1;
            if index < count {
                TopicChoice::Chosen(index)
            } else {
                TopicChoice::OutOfRange
            }
        },
    }
}

/// The content of a message that the user typed: `buffer` trimmed, where
/// anything is left of it.
pub fn accept_message(buffer: &str) -> (r: Option<String>)
    ensures
        match r {
            Some(content) => content@ == trim_spec(buffer@) && content@.len() > 0,
            None => trim_spec(buffer@).len() == 0,
        },
{
    let content = trimmed(buffer);
    if content.as_str().is_empty() {
        None
    } else {
        Some(content)
    }
}

/// The user that a registration asks for, from the lines the user typed for
/// its name and its id: each without its trailing white space.
pub fn registration_user(name_line: &str, id_line: &str) -> (r: User)
    ensures
        r@.id == trim_end_spec(id_line@),
        r@.nombre == trim_end_spec(name_line@),
{
    User { id: trimmed_end(id_line), nombre: trimmed_end(name_line) }
}

} // verus!
