//! What the models of the entity collection decide.

use vstd::prelude::*;

verus! {

/// Why an event could not be made from the fields given.
#[derive(Clone, Copy, Debug, PartialEq, Eq, Structural)]
pub enum EventError {
    /// The fields could not be converted into a JSON value.
    NotSerializable,
    /// The fields converted into a JSON value that is not a map.
    NotAMap,
}

impl EventError {
    /// What the error says.
    pub fn message(&self) -> (text: &'static str)
        ensures
            text@ == match *self {
                EventError::NotSerializable => "event fields can't be converted into json value"@,
                EventError::NotAMap => "event field is not a map"@,
            },
    {
        match self {
            EventError::NotSerializable => "event fields can't be converted into json value",
            EventError::NotAMap => "event field is not a map",
        }
    }
}

/// The fields of an event, given what converting them into a JSON value
/// came to: the map, if the value is one; else the error that says what is
/// wrong with them.
pub fn event_fields<M, E>(converted: Result<Option<M>, E>) -> (result: Result<M, EventError>)
    ensures
        match converted {
            Ok(Some(map)) => result == Ok::<M, EventError>(map),
            Ok(None) => result == Err::<M, EventError>(EventError::NotAMap),
            Err(_) => result == Err::<M, EventError>(EventError::NotSerializable),
        },
{
    match converted {
        Ok(Some(map)) => Ok(map),
        Ok(None) => Err(EventError::NotAMap),
        Err(_) => Err(EventError::NotSerializable),
    }
}

} // verus!
