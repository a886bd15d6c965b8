//! The lines that a session is made of: an expression, behind an optional
//! word that says where the result goes or how it is shown.
//!
//! `set ` keeps the result in the variable named by the character that
//! follows; `hex `, `dec `, `oct ` and `bin ` choose the base in which an
//! integer result is shown. The word is taken out of the line wherever it
//! stands in it, not at the start alone.
use crate::chars::{
    char_is_alphanumeric, char_is_space, is_alphanumeric, is_space, string_of,
};
use crate::token::NumberBaseType;
use vstd::prelude::*;
use vstd::string::StrSliceExecFns;

verus! {

/// A line, taken apart.
#[derive(Debug)]
pub struct Command {
    /// The name of the variable that takes the result: one character, or none.
    pub assign: String,
    /// The base in which an integer result is shown.
    pub display: NumberBaseType,
    /// The expression.
    pub expression: String,
}

pub ghost struct CommandView {
    pub assign: Seq<char>,
    pub display: NumberBaseType,
    pub expression: Seq<char>,
}

impl View for Command {
    type V = CommandView;

    open spec fn view(&self) -> CommandView {
        CommandView {
            assign: self.assign@,
            display: self.display,
            expression: self.expression@,
        }
    }
}

/// Whether `text` starts with `word`.
pub open spec fn starts_with(text: Seq<char>, word: Seq<char>) -> bool {
    text.len() >= word.len() && text.take(word.len() as int) == word
}

/// `text` without the occurrences of `word`: they are looked for from the
/// left, and the search goes on behind each one that is found.
pub open spec fn without(text: Seq<char>, word: Seq<char>) -> Seq<char>
    decreases text.len(),
{
    if word.len() == 0 || text.len() < word.len() {
        text
    } else if starts_with(text, word) {
        without(text.skip(word.len() as int), word)
    } else {
        seq![text[0]] + without(text.skip(1), word)
    }
}

/// Whether `c` can name a variable: a letter or a numeric character that is
/// no white space, or an underscore.
pub open spec fn names_variable(c: char) -> bool {
    (!is_space(c) && is_alphanumeric(c)) || c == '_'
}

pub open spec fn word_set() -> Seq<char> {
    seq!['s', 'e', 't', ' ']
}

pub open spec fn word_hex() -> Seq<char> {
    seq!['h', 'e', 'x', ' ']
}

pub open spec fn word_dec() -> Seq<char> {
    seq!['d', 'e', 'c', ' ']
}

pub open spec fn word_oct() -> Seq<char> {
    seq!['o', 'c', 't', ' ']
}

pub open spec fn word_bin() -> Seq<char> {
    seq!['b', 'i', 'n', ' ']
}

/// A line that shows the result of `expression` in base ten and keeps it nowhere.
pub open spec fn plain(expression: Seq<char>) -> CommandView {
    CommandView { assign: Seq::empty(), display: NumberBaseType::Decimal, expression }
}

/// What a line asks for. Behind `set ` the first character that is left, if
/// it can name a variable, is the name, and the expression is what follows
/// it; if it cannot, or nothing is left, nothing is assigned.
pub open spec fn command_of(line: Seq<char>) -> CommandView {
    if starts_with(line, word_set()) {
        let rest = without(line, word_set());
        if rest.len() > 0 && names_variable(rest[0]) {
            CommandView { assign: seq![rest[0]], ..plain(rest.skip(1)) }
        } else {
            plain(rest)
        }
    } else if starts_with(line, word_hex()) {
        CommandView { display: NumberBaseType::Hex, ..plain(without(line, word_hex())) }
    } else if starts_with(line, word_dec()) {
        plain(without(line, word_dec()))
    } else if starts_with(line, word_oct()) {
        CommandView { display: NumberBaseType::Octal, ..plain(without(line, word_oct())) }
    } else if starts_with(line, word_bin()) {
        CommandView { display: NumberBaseType::Binary, ..plain(without(line, word_bin())) }
    } else {
        plain(line)
    }
}

/// Whether `word` stands in `text` at `at`.
fn stands_at(text: &Vec<char>, at: usize, word: &Vec<char>) -> (found: bool)
    requires
        at <= text.len(),
    ensures
        found == starts_with(text@.skip(at as int), word@),
{
    let ghost rest = text@.skip(at as int);
    if text.len() - at < word.len() {
        return false;
    }
    let mut k: usize = 0;
    while k < word.len()
        invariant
            0 <= k <= word.len(),
            at + word.len() <= text.len(),
            rest == text@.skip(at as int),
            forall|j: int| 0 <= j < k ==> rest[j] == word@[j],
        decreases word.len() - k,
    {
        if text[at + k] != word[k] {
            assert(rest.take(word@.len() as int)[k as int] != word@[k as int]);
            return false;
        }
        k += 1;
    }
    assert(rest.take(word@.len() as int) =~= word@);
    true
}

/// Takes every occurrence of `word` out of `text`.
fn remove_all(text: &Vec<char>, word: &Vec<char>) -> (out: Vec<char>)
    ensures
        out@ == without(text@, word@),
{
    let mut out: Vec<char> = Vec::new();
    let mut i: usize = 0;
    if word.len() == 0 {
        return text.clone();
    }
    assert(text@.skip(0) =~= text@);
    assert(out@ + without(text@, word@) =~= without(text@, word@));
    while i < text.len()
        invariant
            0 <= i <= text.len(),
            word.len() > 0,
            out@ + without(text@.skip(i as int), word@) == without(text@, word@),
        decreases text.len() - i,
    {
        let ghost rest = text@.skip(i as int);
        if stands_at(text, i, word) {
            assert(rest.skip(word@.len() as int) =~= text@.skip(i + word@.len()));
            i += word.len();
        } else {
            let ghost before = out@;
            let ghost tail = without(rest.skip(1), word@);
            out.push(text[i]);
            proof {
                assert(rest.skip(1) =~= text@.skip(i + 1));
                if rest.len() < word@.len() {
                    // Too short for the word: the rest stays as it is, and so
                    // does what follows its first character.
                    assert(without(rest, word@) == rest);
                    assert(without(rest.skip(1), word@) == rest.skip(1));
                    assert(rest =~= seq![rest[0]] + rest.skip(1));
                }
                assert(without(rest, word@) == seq![rest[0]] + tail);
                assert(out@ + tail =~= before + (seq![rest[0]] + tail));
            }
            i += 1;
        }
    }
    assert(text@.skip(i as int) =~= Seq::<char>::empty());
    assert(out@ + Seq::<char>::empty() =~= out@);
    out
}

fn char_names_variable(c: char) -> (b: bool)
    ensures
        b == names_variable(c),
{
    (!char_is_space(c) && char_is_alphanumeric(c)) || c == '_'
}

/// The line without `word`, as a command that shows its result in `display`.
fn shown(line: &Vec<char>, word: &Vec<char>, display: NumberBaseType) -> (command: Command)
    ensures
        command@ == (CommandView { display, ..plain(without(line@, word@)) }),
{
    let rest = remove_all(line, word);
    Command { assign: String::new(), display, expression: string_of(&rest) }
}

impl Command {
    /// Takes a line apart.
    pub fn parse(line: &String) -> (command: Command)
        ensures
            command@ == command_of(line@),
    {
        let source = line.as_str();
        let len = source.unicode_len();
        let mut chars: Vec<char> = Vec::new();
        let mut i: usize = 0;
        while i < len
            invariant
                source@ == line@,
                len == line@.len(),
                0 <= i <= len,
                chars@ == line@.take(i as int),
            decreases len - i,
        {
            chars.push(source.get_char(i));
            assert(chars@ =~= line@.take(i + 1));
            i += 1;
        }
        assert(chars@ =~= line@);
        let set = vec!['s', 'e', 't', ' '];
        let hex = vec!['h', 'e', 'x', ' '];
        let dec = vec!['d', 'e', 'c', ' '];
        let oct = vec!['o', 'c', 't', ' '];
        let bin = vec!['b', 'i', 'n', ' '];
        assert(set@ =~= word_set() && hex@ =~= word_hex() && dec@ =~= word_dec() && oct@
            =~= word_oct() && bin@ =~= word_bin());
        assert(chars@.skip(0) =~= chars@);
        if stands_at(&chars, 0, &set) {
            let rest = remove_all(&chars, &set);
            if rest.len() > 0 && char_names_variable(rest[0]) {
                let mut name: Vec<char> = Vec::new();
                name.push(rest[0]);
                let mut expression: Vec<char> = Vec::new();
                let mut k: usize = 1;
                while k < rest.len()
                    invariant
                        1 <= k <= rest.len(),
                        expression@ == rest@.subrange(1, k as int),
                    decreases rest.len() - k,
                {
                    expression.push(rest[k]);
                    assert(expression@ =~= rest@.subrange(1, k + 1));
                    k += 1;
                }
                assert(expression@ =~= rest@.skip(1));
                assert(name@ =~= seq![rest@[0]]);
                Command {
                    assign: string_of(&name),
                    display: NumberBaseType::Decimal,
                    expression: string_of(&expression),
                }
            } else {
                Command {
                    assign: String::new(),
                    display: NumberBaseType::Decimal,
                    expression: string_of(&rest),
                }
            }
        } else if stands_at(&chars, 0, &hex) {
            shown(&chars, &hex, NumberBaseType::Hex)
        } else if stands_at(&chars, 0, &dec) {
            shown(&chars, &dec, NumberBaseType::Decimal)
        } else if stands_at(&chars, 0, &oct) {
            shown(&chars, &oct, NumberBaseType::Octal)
        } else if stands_at(&chars, 0, &bin) {
            shown(&chars, &bin, NumberBaseType::Binary)
        } else {
            Command {
                assign: String::new(),
                display: NumberBaseType::Decimal,
                expression: string_of(&chars),
            }
        }
    }
}

} // verus!
