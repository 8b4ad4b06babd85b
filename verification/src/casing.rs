//! The closed set of string-case strategies that element names and
//! attribute keys may be rewritten with. The conversions themselves are
//! done by the `heck` crate; each is a pure function of its input, so
//! each gets an uninterpreted name that the builder's contracts speak of.

use vstd::prelude::*;

verus! {

/// A case strategy for XML names. Title Case is not a member: XML names
/// cannot contain spaces, so it is rejected at the type level.
#[derive(Clone, Copy, Debug, PartialEq, Eq, Structural)]
pub enum XMLCase {
    KebabCase,
    LowerCamelCase,
    ShoutyKebabCase,
    ShoutySnakeCase,
    SnakeCase,
    TrainCase,
    UpperCamelCase,
}

pub uninterp spec fn kebab_of(s: Seq<char>) -> Seq<char>;

pub uninterp spec fn lower_camel_of(s: Seq<char>) -> Seq<char>;

pub uninterp spec fn shouty_kebab_of(s: Seq<char>) -> Seq<char>;

pub uninterp spec fn shouty_snake_of(s: Seq<char>) -> Seq<char>;

pub uninterp spec fn snake_of(s: Seq<char>) -> Seq<char>;

pub uninterp spec fn train_of(s: Seq<char>) -> Seq<char>;

pub uninterp spec fn upper_camel_of(s: Seq<char>) -> Seq<char>;

/// Relies on `heck::ToKebabCase::to_kebab_case` for `str`: the result
/// depends on the input characters alone.
#[verifier::external_body]
fn to_kebab(s: &str) -> (r: String)
    ensures
        r@ == kebab_of(s@),
{
    heck::ToKebabCase::to_kebab_case(s)
}

/// Relies on `heck::ToLowerCamelCase::to_lower_camel_case` for `str`:
/// the result depends on the input characters alone.
#[verifier::external_body]
fn to_lower_camel(s: &str) -> (r: String)
    ensures
        r@ == lower_camel_of(s@),
{
    heck::ToLowerCamelCase::to_lower_camel_case(s)
}

/// Relies on `heck::ToShoutyKebabCase::to_shouty_kebab_case` for `str`:
/// the result depends on the input characters alone.
#[verifier::external_body]
fn to_shouty_kebab(s: &str) -> (r: String)
    ensures
        r@ == shouty_kebab_of(s@),
{
    heck::ToShoutyKebabCase::to_shouty_kebab_case(s)
}

/// Relies on `heck::ToShoutySnakeCase::to_shouty_snake_case` for `str`:
/// the result depends on the input characters alone.
#[verifier::external_body]
fn to_shouty_snake(s: &str) -> (r: String)
    ensures
        r@ == shouty_snake_of(s@),
{
    heck::ToShoutySnakeCase::to_shouty_snake_case(s)
}

/// Relies on `heck::ToSnakeCase::to_snake_case` for `str`: the result
/// depends on the input characters alone.
#[verifier::external_body]
fn to_snake(s: &str) -> (r: String)
    ensures
        r@ == snake_of(s@),
{
    heck::ToSnakeCase::to_snake_case(s)
}

/// Relies on `heck::ToTrainCase::to_train_case` for `str`: the result
/// depends on the input characters alone.
#[verifier::external_body]
fn to_train(s: &str) -> (r: String)
    ensures
        r@ == train_of(s@),
{
    heck::ToTrainCase::to_train_case(s)
}

/// Relies on `heck::ToUpperCamelCase::to_upper_camel_case` for `str`:
/// the result depends on the input characters alone.
#[verifier::external_body]
fn to_upper_camel(s: &str) -> (r: String)
    ensures
        r@ == upper_camel_of(s@),
{
    heck::ToUpperCamelCase::to_upper_camel_case(s)
}

/// What `conv_case` returns: the conversion named by the chosen
/// strategy, applied to the input.
pub open spec fn conv_case_spec(s: Seq<char>, case: XMLCase) -> Seq<char> {
    match case {
        XMLCase::KebabCase => kebab_of(s),
        XMLCase::LowerCamelCase => lower_camel_of(s),
        XMLCase::ShoutyKebabCase => shouty_kebab_of(s),
        XMLCase::ShoutySnakeCase => shouty_snake_of(s),
        XMLCase::SnakeCase => snake_of(s),
        XMLCase::TrainCase => train_of(s),
        XMLCase::UpperCamelCase => upper_camel_of(s),
    }
}

/// Rewrites a name with the chosen case strategy.
pub fn conv_case(input: &str, case: XMLCase) -> (r: String)
    ensures
        r@ == conv_case_spec(input@, case),
{
    match case {
        XMLCase::KebabCase => to_kebab(input),
        XMLCase::LowerCamelCase => to_lower_camel(input),
        XMLCase::ShoutyKebabCase => to_shouty_kebab(input),
        XMLCase::ShoutySnakeCase => to_shouty_snake(input),
        XMLCase::SnakeCase => to_snake(input),
        XMLCase::TrainCase => to_train(input),
        XMLCase::UpperCamelCase => to_upper_camel(input),
    }
}

} // verus!
