//! A person read from text of the form `name,age`.

use core::num::ParseIntError;
use vstd::prelude::*;

verus! {

/// The error of the standard library's integer parsing, carried through
/// unopened.
#[verifier::external_type_specification]
#[verifier::external_body]
pub struct ExParseIntError(core::num::ParseIntError);

/// A person with a name and an age.
#[derive(Debug, PartialEq)]
pub struct Person {
    pub name: String,
    pub age: usize,
}

/// Why a text does not denote a person.
#[derive(Debug, PartialEq)]
pub enum ParsePersonError {
    /// The text is empty.
    Empty,
    /// The text does not hold exactly two fields.
    BadLen,
    /// The name is empty.
    NoName,
    /// The age is no number that fits.
    ParseInt(ParseIntError),
}

/// The fields of `s`: the stretches between its commas, of which there is
/// one more than there are commas.
pub open spec fn comma_separated(s: Seq<char>) -> Seq<Seq<char>>
    decreases s.len(),
{
    if s.len() == 0 {
        seq![Seq::empty()]
    } else {
        let rest = comma_separated(s.drop_first());
        if s[0] == ',' {
            seq![Seq::empty()] + rest
        } else {
            rest.update(0, seq![s[0]] + rest[0])
        }
    }
}

/// The number that a run of decimal digits denotes.
pub open spec fn digits_value(digits: Seq<char>) -> nat
    decreases digits.len(),
{
    if digits.len() == 0 {
        0
    } else {
        digits_value(digits.drop_last()) * 10 + (digits.last() as nat - '0' as nat) as nat
    }
}

/// The number that `s` denotes as a `usize`: an optional `+`, then one or
/// more decimal digits whose value fits.
pub open spec fn decimal(s: Seq<char>) -> Option<usize> {
    let digits = if s.len() > 0 && s[0] == '+' {
        s.drop_first()
    } else {
        s
    };
    if digits.len() > 0 && (forall|i: int| 0 <= i < digits.len() ==> '0' <= #[trigger] digits[i] <= '9')
        && digits_value(digits) <= usize::MAX {
        Some(digits_value(digits) as usize)
    } else {
        None
    }
}

/// `s` denotes a person: a name that is not empty, a comma, and an age.
pub open spec fn denotes_person(s: Seq<char>) -> bool {
    &&& comma_separated(s).len() == 2
    &&& comma_separated(s)[0].len() > 0
    &&& decimal(comma_separated(s)[1]) is Some
}

/// `r` is what reading `s` as a person gives: the person that `s` denotes,
/// or the first fault found, in this order: the text is empty; it does not
/// hold exactly two fields; the name is empty; the age is no number that
/// fits.
pub open spec fn reads_as(s: Seq<char>, r: Result<Person, ParsePersonError>) -> bool {
    match r {
        Ok(p) => denotes_person(s) && p.name@ == comma_separated(s)[0] && p.age == decimal(
            comma_separated(s)[1],
        )->0,
        Err(ParsePersonError::Empty) => s.len() == 0,
        Err(ParsePersonError::BadLen) => s.len() > 0 && comma_separated(s).len() != 2,
        Err(ParsePersonError::NoName) => s.len() > 0 && comma_separated(s).len() == 2
            && comma_separated(s)[0].len() == 0,
        Err(ParsePersonError::ParseInt(_)) => s.len() > 0 && comma_separated(s).len() == 2
            && comma_separated(s)[0].len() > 0 && decimal(comma_separated(s)[1]) is None,
    }
}

/// `str::split` on a comma, collected: the substrings between the commas
/// of `s`, in order. A text without a comma, the empty one too, gives one
/// field.
#[verifier::external_body]
fn split_on_commas(s: &str) -> (parts: Vec<&str>)
    ensures
        parts@.len() == comma_separated(s@).len(),
        forall|i: int| 0 <= i < parts@.len() ==> (#[trigger] parts@[i])@ == comma_separated(s@)[i],
{
    s.split(',').collect()
}

/// `str::parse::<usize>`: succeeds exactly on an optional `+` followed by
/// decimal digits whose value fits a `usize`, and gives that value.
#[verifier::external_body]
fn parse_usize(s: &str) -> (r: Result<usize, ParseIntError>)
    ensures
        r is Ok <==> decimal(s@) is Some,
        r is Ok ==> r->Ok_0 == decimal(s@)->0,
{
    s.parse::<usize>()
}

impl Default for Person {
    /// John, aged 30.
    fn default() -> (p: Person)
        ensures
            p.name@ == "John"@,
            p.age == 30,
    {
        Person { name: "John".to_owned(), age: 30 }
    }
}

impl Person {
    /// The person that `s` denotes, or John, aged 30, when it denotes
    /// none.
    pub fn from(s: &str) -> (p: Person)
        ensures
            denotes_person(s@) ==> p.name@ == comma_separated(s@)[0] && p.age == decimal(
                comma_separated(s@)[1],
            )->0,
            !denotes_person(s@) ==> p.name@ == "John"@ && p.age == 30,
    {
        if s.is_empty() {
            return Person::default();
        }
        let parts: Vec<&str> = split_on_commas(s);
        if parts.len() < 2 {
            return Person::default();
        }
        let name = parts[0];
        if name.is_empty() {
            return Person::default();
        }
        let age_str = parts[1];
        match parse_usize(age_str) {
            Ok(age) => {
                if parts.len() > 2 {
                    return Person::default();
                }
                Person { name: name.to_owned(), age }
            },
            Err(_) => Person::default(),
        }
    }

    /// The person that `s` denotes, or the first reason why it denotes
    /// none.
    pub fn from_str(s: &str) -> (r: Result<Person, ParsePersonError>)
        ensures
            reads_as(s@, r),
    {
        if s.is_empty() {
            return Err(ParsePersonError::Empty);
        }
        let parts: Vec<&str> = split_on_commas(s);
        if parts.len() != 2 {
            return Err(ParsePersonError::BadLen);
        }
        let name = parts[0];
        if name.is_empty() {
            return Err(ParsePersonError::NoName);
        }
        let age_str = parts[1];
        match parse_usize(age_str) {
            Ok(age) => Ok(Person { name: name.to_owned(), age }),
            Err(e) => Err(ParsePersonError::ParseInt(e)),
        }
    }
}

impl core::str::FromStr for Person {
    type Err = ParsePersonError;

    /// As [`Person::from_str`], for `str::parse`.
    fn from_str(s: &str) -> (r: Result<Person, ParsePersonError>)
        ensures
            reads_as(s@, r),
    {
        Person::from_str(s)
    }
}

} // verus!
