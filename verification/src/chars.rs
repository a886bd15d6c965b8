//! Character classes of the expression language and case mapping.
//!
//! ASCII characters are classified here; for the others the Unicode tables of
//! the standard library decide.
use vstd::prelude::*;

verus! {

/// Whether `char::is_whitespace` holds of `c` (the Unicode property `White_Space`).
pub uninterp spec fn unicode_whitespace(c: char) -> bool;

/// Whether `char::is_alphabetic` holds of `c` (the Unicode property `Alphabetic`).
pub uninterp spec fn unicode_alphabetic(c: char) -> bool;

/// Whether `char::is_numeric` holds of `c` (the Unicode general categories `Nd`, `Nl`, `No`).
pub uninterp spec fn unicode_numeric(c: char) -> bool;

/// The lowercase mapping of `c`: the characters that `char::to_lowercase` yields, in order.
pub uninterp spec fn unicode_lowercase(c: char) -> Seq<char>;

/// The uppercase mapping of `c`: the characters that `char::to_uppercase` yields, in order.
pub uninterp spec fn unicode_uppercase(c: char) -> Seq<char>;

/// `char::is_whitespace` is a function of the character alone; its result is
/// given the name `unicode_whitespace`.
pub assume_specification[ char::is_whitespace ](c: char) -> (b: bool)
    ensures
        b == unicode_whitespace(c),
;

/// `char::is_alphabetic` is a function of the character alone; its result is
/// given the name `unicode_alphabetic`.
pub assume_specification[ char::is_alphabetic ](c: char) -> (b: bool)
    ensures
        b == unicode_alphabetic(c),
;

/// `char::is_numeric` is a function of the character alone; its result is
/// given the name `unicode_numeric`.
pub assume_specification[ char::is_numeric ](c: char) -> (b: bool)
    ensures
        b == unicode_numeric(c),
;

/// Calls `char::to_lowercase` and collects the characters that its iterator
/// yields. The mapping is a function of the character alone and is given the
/// name `unicode_lowercase`; it holds one character or more.
#[verifier::external_body]
fn lowercase_mapping(c: char) -> (mapping: Vec<char>)
    ensures
        mapping@ == unicode_lowercase(c),
        mapping@.len() >= 1,
{
    c.to_lowercase().collect()
}

/// Calls `char::to_uppercase` and collects the characters that its iterator
/// yields. The mapping is a function of the character alone and is given the
/// name `unicode_uppercase`; it holds one character or more.
#[verifier::external_body]
fn uppercase_mapping(c: char) -> (mapping: Vec<char>)
    ensures
        mapping@ == unicode_uppercase(c),
        mapping@.len() >= 1,
{
    c.to_uppercase().collect()
}

/// Calls `String::push`, which appends the character to the end of the string.
#[verifier::external_body]
fn push_char(text: &mut String, c: char)
    ensures
        final(text)@ == old(text)@.push(c),
{
    text.push(c)
}

/// The string that holds the characters of `chars`, in order.
pub fn string_of(chars: &Vec<char>) -> (text: String)
    ensures
        text@ == chars@,
{
    let mut text = String::new();
    let mut i: usize = 0;
    while i < chars.len()
        invariant
            0 <= i <= chars.len(),
            text@ == chars@.take(i as int),
        decreases chars.len() - i,
    {
        push_char(&mut text, chars[i]);
        assert(chars@.take(i as int).push(chars@[i as int]) =~= chars@.take(i as int + 1));
        i += 1;
    }
    assert(chars@.take(i as int) =~= chars@);
    text
}

pub open spec fn is_ascii(c: char) -> bool {
    c <= '\x7f'
}

pub open spec fn is_ascii_digit(c: char) -> bool {
    '0' <= c <= '9'
}

pub open spec fn is_ascii_letter(c: char) -> bool {
    'a' <= c <= 'z' || 'A' <= c <= 'Z'
}

/// White space: blank, tab, line feed, vertical tab, form feed and carriage
/// return, and beyond ASCII whatever Unicode calls white space.
pub open spec fn is_space(c: char) -> bool {
    if is_ascii(c) {
        c == ' ' || '\x09' <= c <= '\x0d'
    } else {
        unicode_whitespace(c)
    }
}

/// A letter: `a` to `z` and `A` to `Z`, and beyond ASCII whatever Unicode calls alphabetic.
pub open spec fn is_letter(c: char) -> bool {
    if is_ascii(c) {
        is_ascii_letter(c)
    } else {
        unicode_alphabetic(c)
    }
}

/// A numeric character: `0` to `9`, and beyond ASCII whatever Unicode calls numeric.
pub open spec fn is_number_char(c: char) -> bool {
    if is_ascii(c) {
        is_ascii_digit(c)
    } else {
        unicode_numeric(c)
    }
}

pub open spec fn is_alphanumeric(c: char) -> bool {
    is_letter(c) || is_number_char(c)
}

/// One of the characters that operators are written with.
pub open spec fn is_operator_char(c: char) -> bool {
    c == '+' || c == '-' || c == '*' || c == '/' || c == '%' || c == '&' || c == '|' || c == '^'
        || c == '<' || c == '>' || c == '='
}

/// A character that ends a literal or an identifier without belonging to it.
pub open spec fn is_terminator(c: char) -> bool {
    is_operator_char(c) || is_space(c) || c == '(' || c == ')'
}

/// The lowercase form of `c`: for `A` to `Z` the letter 32 code points up,
/// for the rest of ASCII `c` itself, and beyond ASCII the first character of
/// the lowercase mapping that Unicode gives.
pub open spec fn lowercase_of(c: char) -> char {
    if 'A' <= c <= 'Z' {
        ((c as u32) + 32) as char
    } else if is_ascii(c) {
        c
    } else {
        unicode_lowercase(c).first()
    }
}

/// The uppercase form of `c`: for `a` to `z` the letter 32 code points down,
/// for the rest of ASCII `c` itself, and beyond ASCII the first character of
/// the uppercase mapping that Unicode gives.
pub open spec fn uppercase_of(c: char) -> char {
    if 'a' <= c <= 'z' {
        ((c as u32) - 32) as char
    } else if is_ascii(c) {
        c
    } else {
        unicode_uppercase(c).first()
    }
}

pub trait AsLowerCase {
    spec fn lower(&self) -> char;

    fn as_lowercase(&self) -> (lower: char)
        ensures
            lower == self.lower(),
    ;
}

pub trait AsUpperCase {
    spec fn upper(&self) -> char;

    fn as_uppercase(&self) -> (upper: char)
        ensures
            upper == self.upper(),
    ;
}

impl AsLowerCase for char {
    open spec fn lower(&self) -> char {
        lowercase_of(*self)
    }

    fn as_lowercase(&self) -> (lower: char) {
        let c = *self;
        if 'A' <= c && c <= 'Z' {
            ((c as u8) + 32) as char
        } else if c <= '\x7f' {
            c
        } else {
            let mapping = lowercase_mapping(c);
            mapping[0]
        }
    }
}

impl AsUpperCase for char {
    open spec fn upper(&self) -> char {
        uppercase_of(*self)
    }

    fn as_uppercase(&self) -> (upper: char) {
        let c = *self;
        if 'a' <= c && c <= 'z' {
            ((c as u8) - 32) as char
        } else if c <= '\x7f' {
            c
        } else {
            let mapping = uppercase_mapping(c);
            mapping[0]
        }
    }
}

pub fn char_is_space(c: char) -> (b: bool)
    ensures
        b == is_space(c),
{
    if c <= '\x7f' {
        c == ' ' || ('\x09' <= c && c <= '\x0d')
    } else {
        c.is_whitespace()
    }
}

pub fn char_is_letter(c: char) -> (b: bool)
    ensures
        b == is_letter(c),
{
    if c <= '\x7f' {
        ('a' <= c && c <= 'z') || ('A' <= c && c <= 'Z')
    } else {
        c.is_alphabetic()
    }
}

pub fn char_is_number(c: char) -> (b: bool)
    ensures
        b == is_number_char(c),
{
    if c <= '\x7f' {
        '0' <= c && c <= '9'
    } else {
        c.is_numeric()
    }
}

pub fn char_is_alphanumeric(c: char) -> (b: bool)
    ensures
        b == is_alphanumeric(c),
{
    char_is_letter(c) || char_is_number(c)
}

pub fn char_is_operator(c: char) -> (b: bool)
    ensures
        b == is_operator_char(c),
{
    c == '+' || c == '-' || c == '*' || c == '/' || c == '%' || c == '&' || c == '|' || c == '^'
        || c == '<' || c == '>' || c == '='
}

pub fn char_is_terminator(c: char) -> (b: bool)
    ensures
        b == is_terminator(c),
{
    char_is_operator(c) || char_is_space(c) || c == '(' || c == ')'
}

} // verus!
