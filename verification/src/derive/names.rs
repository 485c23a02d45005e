//! The constants that hold the names of fields and prefixes in generated code.

use vstd::prelude::*;
use vstd::string::*;

use crate::derive::field::NameStyle;

verus! {

/// Whether a character is a letter or a digit.
pub uninterp spec fn alphanumeric(c: char) -> bool;

/// `char::is_alphanumeric` tells whether a character is a letter or a digit by the tables of
/// Unicode.
pub assume_specification[ char::is_alphanumeric ](c: char) -> (res: bool)
    ensures
        res == alphanumeric(c),
;

/// The word for a style in the names of constants.
pub open spec fn style_word(style: NameStyle) -> Seq<char> {
    match style {
        NameStyle::Preserve => "Preserve"@,
        NameStyle::PascalCase => "Pascal"@,
        NameStyle::SnakeCase => "Snake"@,
        NameStyle::KebabCase => "Kebab"@,
        NameStyle::ScreamingSnakeCase => "ScreamingSnake"@,
    }
}

impl NameStyle {
    /// The word for the style in the names of constants.
    pub fn to_word(self) -> (word: &'static str)
        ensures
            word@ == style_word(self),
    {
        match self {
            NameStyle::Preserve => "Preserve",
            NameStyle::PascalCase => "Pascal",
            NameStyle::SnakeCase => "Snake",
            NameStyle::KebabCase => "Kebab",
            NameStyle::ScreamingSnakeCase => "ScreamingSnake",
        }
    }
}

/// The letters and digits of a text.
pub open spec fn letters_and_digits(s: Seq<char>) -> Seq<char>
    decreases s.len(),
{
    if s.len() == 0 {
        Seq::empty()
    } else {
        let init = letters_and_digits(s.drop_last());
        if alphanumeric(s.last()) {
            init.push(s.last())
        } else {
            init
        }
    }
}

/// The name of the constant for a text in a style; `base` is the text in PascalCase.
pub open spec fn constant_name(base: Seq<char>, style: NameStyle) -> Seq<char> {
    letters_and_digits(base) + style_word(style)
}

/// A constant: its name and its value.
#[derive(Debug)]
pub struct ConstStr {
    pub ident: String,
    pub value: String,
}

/// The constants for a text in each of the styles that a namespace chooses from.
#[derive(Debug)]
pub struct InflectPlan {
    pub preserve: ConstStr,
    pub pascal: ConstStr,
    pub snake: ConstStr,
    pub kebab: ConstStr,
}

/// The letters and digits of a text.
fn identifier_base(s: &str) -> (res: String)
    ensures
        res@ == letters_and_digits(s@),
{
    let mut res = String::new();
    for c in it: s.chars()
        invariant
            it.seq() == s@,
            res@ == letters_and_digits(s@.take(it.index())),
    {
        proof {
            let t = s@.take(it.index() + 1);
            assert(t.drop_last() =~= s@.take(it.index()));
        }
        if c.is_alphanumeric() {
            res.push(c);
        }
    }
    assert(s@.take(s@.len() as int) =~= s@);
    res
}

/// The constant for a text in a style.
fn constant(base: &str, style: NameStyle, value: String) -> (c: ConstStr)
    ensures
        c.ident@ == constant_name(base@, style),
        c.value == value,
{
    let mut ident = identifier_base(base);
    ident.append(style.to_word());
    ConstStr { ident, value }
}

/// Plans the constants for a text in each style; `base` is the text in PascalCase.
pub fn make_inflect_base(
    base: &str,
    preserve: String,
    pascal: String,
    snake: String,
    kebab: String,
) -> (plan: InflectPlan)
    ensures
        plan.preserve.ident@ == constant_name(base@, NameStyle::Preserve),
        plan.preserve.value == preserve,
        plan.pascal.ident@ == constant_name(base@, NameStyle::PascalCase),
        plan.pascal.value == pascal,
        plan.snake.ident@ == constant_name(base@, NameStyle::SnakeCase),
        plan.snake.value == snake,
        plan.kebab.ident@ == constant_name(base@, NameStyle::KebabCase),
        plan.kebab.value == kebab,
{
    InflectPlan {
        preserve: constant(base, NameStyle::Preserve, preserve),
        pascal: constant(base, NameStyle::PascalCase, pascal),
        snake: constant(base, NameStyle::SnakeCase, snake),
        kebab: constant(base, NameStyle::KebabCase, kebab),
    }
}

/// Plans the constant for a prefix that is the same in each style; `base` is the prefix in
/// PascalCase.
pub fn make_exact_prefix(base: &str, exact_prefix: String) -> (c: ConstStr)
    ensures
        c.ident@ == constant_name(base@, NameStyle::Preserve),
        c.value == exact_prefix,
{
    constant(base, NameStyle::Preserve, exact_prefix)
}

/// The constants for one text in different styles have different names.
pub proof fn constants_have_different_names(base: Seq<char>, a: NameStyle, b: NameStyle)
    requires
        a != b,
    ensures
        constant_name(base, a) != constant_name(base, b),
{
    reveal_strlit("Preserve");
    reveal_strlit("Pascal");
    reveal_strlit("Snake");
    reveal_strlit("Kebab");
    reveal_strlit("ScreamingSnake");
    let n = letters_and_digits(base).len() as int;
    let x = constant_name(base, a);
    let y = constant_name(base, b);
    assert(x.len() == n + style_word(a).len());
    assert(y.len() == n + style_word(b).len());
    if style_word(a).len() == style_word(b).len() {
        assert(x[n] == style_word(a)[0]);
        assert(y[n] == style_word(b)[0]);
    }
}

} // verus!
