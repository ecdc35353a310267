//! Placeholder values for fixtures: each supported type names the value that
//! stands in for it under a given state.

use std::rc::Rc;
use vstd::prelude::*;

verus! {

/// A type that can supply a placeholder value for a fixture.
///
/// The state chooses among the shapes of a type that has several: state 0
/// gives the present or successful shape, state 1 the failed one.
pub trait Mockable: Sized {
    /// The states for which the type has a placeholder.
    spec fn has_mock(state: isize) -> bool;

    /// Whether `value` is the placeholder for `state`.
    spec fn is_mock(state: isize, value: Self) -> bool;

    /// The placeholder for `state`.
    fn mock(state: isize) -> (value: Self)
        requires
            Self::has_mock(state),
        ensures
            Self::is_mock(state, value),
    ;
}

impl Mockable for () {
    open spec fn has_mock(state: isize) -> bool {
        true
    }

    open spec fn is_mock(state: isize, value: ()) -> bool {
        true
    }

    fn mock(_state: isize) -> (value: ()) {
        ()
    }
}

impl Mockable for char {
    open spec fn has_mock(state: isize) -> bool {
        true
    }

    open spec fn is_mock(state: isize, value: char) -> bool {
        value == '\0'
    }

    fn mock(_state: isize) -> (value: char) {
        '\0'
    }
}

impl Mockable for isize {
    open spec fn has_mock(state: isize) -> bool {
        true
    }

    open spec fn is_mock(state: isize, value: isize) -> bool {
        value == 0
    }

    fn mock(_state: isize) -> (value: isize) {
        0
    }
}

impl Mockable for i8 {
    open spec fn has_mock(state: isize) -> bool {
        true
    }

    open spec fn is_mock(state: isize, value: i8) -> bool {
        value == 0
    }

    fn mock(_state: isize) -> (value: i8) {
        0
    }
}

impl Mockable for usize {
    open spec fn has_mock(state: isize) -> bool {
        true
    }

    open spec fn is_mock(state: isize, value: usize) -> bool {
        value == 0
    }

    fn mock(_state: isize) -> (value: usize) {
        0
    }
}

impl Mockable for u8 {
    open spec fn has_mock(state: isize) -> bool {
        true
    }

    open spec fn is_mock(state: isize, value: u8) -> bool {
        value == 0
    }

    fn mock(_state: isize) -> (value: u8) {
        0
    }
}

impl Mockable for String {
    open spec fn has_mock(state: isize) -> bool {
        true
    }

    open spec fn is_mock(state: isize, value: String) -> bool {
        value@ == Seq::<char>::empty()
    }

    fn mock(_state: isize) -> (value: String) {
        String::new()
    }
}

impl<T: Mockable> Mockable for Box<T> {
    open spec fn has_mock(state: isize) -> bool {
        T::has_mock(state)
    }

    open spec fn is_mock(state: isize, value: Box<T>) -> bool {
        T::is_mock(state, *value)
    }

    fn mock(state: isize) -> (value: Box<T>) {
        Box::new(T::mock(state))
    }
}

impl<T: Mockable> Mockable for Rc<T> {
    open spec fn has_mock(state: isize) -> bool {
        T::has_mock(state)
    }

    open spec fn is_mock(state: isize, value: Rc<T>) -> bool {
        T::is_mock(state, *value)
    }

    fn mock(state: isize) -> (value: Rc<T>) {
        Rc::new(T::mock(state))
    }
}

impl<T: Mockable> Mockable for Vec<T> {
    open spec fn has_mock(state: isize) -> bool {
        T::has_mock(state)
    }

    open spec fn is_mock(state: isize, value: Vec<T>) -> bool {
        value@.len() == 1 && T::is_mock(state, value@[0])
    }

    fn mock(state: isize) -> (value: Vec<T>) {
        let mut v: Vec<T> = Vec::new();
        v.push(T::mock(state));
        v
    }
}

impl<T: Mockable> Mockable for Option<T> {
    open spec fn has_mock(state: isize) -> bool {
        state == 0 ==> T::has_mock(state)
    }

    open spec fn is_mock(state: isize, value: Option<T>) -> bool {
        match value {
            Some(inner) => state == 0 && T::is_mock(state, inner),
            None => state != 0,
        }
    }

    fn mock(state: isize) -> (value: Option<T>) {
        if state == 0 {
            Some(T::mock(state))
        } else {
            None
        }
    }
}

impl<T: Mockable, U: Mockable> Mockable for Result<T, U> {
    /// Only the states 0 and 1 name a shape of a `Result`.
    open spec fn has_mock(state: isize) -> bool {
        ||| state == 0 && T::has_mock(state)
        ||| state == 1 && U::has_mock(state)
    }

    open spec fn is_mock(state: isize, value: Result<T, U>) -> bool {
        match value {
            Ok(inner) => state == 0 && T::is_mock(state, inner),
            Err(inner) => state == 1 && U::is_mock(state, inner),
        }
    }

    fn mock(state: isize) -> (value: Result<T, U>) {
        if state == 0 {
            Ok(T::mock(state))
        } else if state == 1 {
            Err(U::mock(state))
        } else {
            unreached()
        }
    }
}

/// Calls `std::io::Error::other` with `desc` as the error's message.
/// Trusted: the error that comes back is `io_error_other` of the message,
/// a function of the message alone.
#[verifier::external_body]
fn other_io_error(desc: &str) -> (error: std::io::Error)
    ensures
        error == io_error_other(desc@),
{
    std::io::Error::other(desc)
}

impl Mockable for std::io::Error {
    open spec fn has_mock(state: isize) -> bool {
        true
    }

    /// The placeholder is the error of kind `Other` that carries the message
    /// "mock error".
    open spec fn is_mock(state: isize, value: std::io::Error) -> bool {
        value == io_error_other("mock error"@)
    }

    /// An error of kind `Other` with the message "mock error".
    fn mock(_state: isize) -> (value: std::io::Error) {
        other_io_error("mock error")
    }
}

/// `std::io::Error`, carried through as an opaque value.
#[verifier::external_type_specification]
#[verifier::external_body]
pub struct ExIoError(std::io::Error);

/// The error that `std::io::Error::other` returns for the message `desc`:
/// an error of kind `Other` whose text is `desc`. Nothing more is said of it
/// here.
pub uninterp spec fn io_error_other(desc: Seq<char>) -> std::io::Error;

} // verus!
