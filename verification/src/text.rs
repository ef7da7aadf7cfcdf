//! Small operations on text.

use crate::model::{number_token, raw_token};
use std::borrow::Cow;
use vstd::prelude::*;

verus! {

/// Whether two strings hold the same characters.
///
/// This is `str`'s equality of the standard library, which compares the two
/// strings character by character.
#[verifier::external_body]
pub(crate) fn str_eq(a: &str, b: &str) -> (same: bool)
    ensures
        same == (a@ == b@),
{
    a == b
}

/// The key that marks an object as the capsule of a numeric literal.
pub fn number_token_text() -> (token: &'static str)
    ensures
        token@ == number_token(),
{
    "$dtype::private::Number"
}

/// The key that marks an object as the capsule of an untouched sub-document.
pub fn raw_token_text() -> (token: &'static str)
    ensures
        token@ == raw_token(),
{
    "$dtype::private::RawValue"
}

/// The text of a string that is borrowed or owned.
pub fn cow_str<'a, 'de>(text: &'a Cow<'de, str>) -> (s: &'a str)
    ensures
        s@ == text@,
{
    match text {
        Cow::Borrowed(s) => s,
        Cow::Owned(s) => s.as_str(),
    }
}

/// An owned string with the text of one that is borrowed or owned. Only a
/// borrowed one is copied.
pub fn cow_into_owned<'de>(text: Cow<'de, str>) -> (s: String)
    ensures
        s@ == text@,
{
    match text {
        Cow::Borrowed(s) => s.to_owned(),
        Cow::Owned(s) => s,
    }
}

/// The same elements in the opposite order.
pub fn reversed<T>(items: Vec<T>) -> (r: Vec<T>)
    ensures
        r@ == items@.reverse(),
{
    let ghost all = items@;
    let mut items = items;
    let mut r: Vec<T> = Vec::new();
    while items.len() > 0
        invariant
            items@.len() + r@.len() == all.len(),
            items@ == all.take(items@.len() as int),
            forall|j: int| 0 <= j < r@.len() ==> r@[j] == all[all.len() - 1 - j],
        decreases items@.len(),
    {
        let v = items.pop().unwrap();
        r.push(v);
    }
    assert(r@ =~= all.reverse());
    r
}

} // verus!
