//! Errors reported to clients of the request API, and the envelope that
//! carries a reply.

use crate::uuid::{hyphenated, Uuid};
use vstd::prelude::*;
use vstd::string::StringExecFns;

verus! {

/// An error reported to a client: human-readable lines, the most general
/// first.
#[derive(Debug, Clone, PartialEq, Eq)]
pub struct ApiError {
    pub error: Vec<String>,
}

/// What a request handler returns.
pub type ApiResult<T> = Result<T, ApiError>;

/// A reply body that knows whether it reports success.
pub trait Response {
    /// Whether the body reports success.
    spec fn successful(&self) -> bool;

    fn is_successful(&self) -> (ok: bool)
        ensures
            ok == self.successful(),
    ;
}

/// The envelope of every reply: the body, whether it reports success, and
/// the time at which it was produced, as text.
#[derive(Debug, Clone)]
pub struct ResponseObject<T> {
    pub data: T,
    pub success: bool,
    pub time: String,
}

impl View for ApiError {
    type V = Seq<Seq<char>>;

    /// The lines of the error, each as a sequence of characters.
    open spec fn view(&self) -> Seq<Seq<char>> {
        Seq::new(self.error@.len(), |i: int| self.error@[i]@)
    }
}

impl Response for ApiError {
    open spec fn successful(&self) -> bool {
        false
    }

    fn is_successful(&self) -> (ok: bool) {
        false
    }
}

impl<T: Response> ResponseObject<T> {
    /// Wraps a body; the success flag is the body's own verdict.
    pub fn new(data: T, time: String) -> (result: Self)
        ensures
            result.data == data,
            result.success == data.successful(),
            result.time == time,
    {
        let success = data.is_successful();
        ResponseObject { data, success, time }
    }
}

impl ApiError {
    /// Wraps the given lines as they are.
    pub fn new(error: Vec<String>) -> (result: Self)
        ensures
            result.error == error,
    {
        Self { error }
    }

    /// The error inside a reply envelope stamped with `time`; the envelope
    /// reports failure.
    pub fn packed(self, time: String) -> (result: ResponseObject<Self>)
        ensures
            result.data == self,
            !result.success,
            result.time == time,
    {
        ResponseObject::new(self, time)
    }

    /// The token could not be accepted at all.
    pub fn bad_token() -> (result: Self)
        ensures
            result@ == seq!["Bad token"@, "It's either expired or in bad shape"@],
    {
        Self::new(
            vec!["Bad token".to_owned(), "It's either expired or in bad shape".to_owned()],
        )
    }

    /// The token is genuine but does not grant the request.
    pub fn unauthorized() -> (result: Self)
        ensures
            result@ == seq![
                "Unauthorized"@,
                "Token is valid but cannot be used with this user_id"@,
                "Either because it requires admin privilege or your token does not belongs to you"@,
            ],
    {
        Self::new(
            vec![
                "Unauthorized".to_owned(),
                "Token is valid but cannot be used with this user_id".to_owned(),
                "Either because it requires admin privilege or your token does not belongs to you".to_owned(),
            ],
        )
    }

    /// The password did not match.
    pub fn wrong_password() -> (result: Self)
        ensures
            result@ == seq!["Wrong password"@],
    {
        Self::new(vec!["Wrong password".to_owned()])
    }

    /// The one line `<what> with ID` followed by the identifier between
    /// backquotes.
    pub open spec fn missing(prefix: Seq<char>, id: Uuid) -> Seq<Seq<char>> {
        seq![prefix + hyphenated(id.value) + "`"@]
    }

    fn not_found(prefix: &str, id: &Uuid) -> (result: Self)
        ensures
            result@ == Self::missing(prefix@, *id),
    {
        let mut line = prefix.to_owned();
        let text = id.to_text();
        line.append(text.as_str());
        line.append("`");
        Self::new(vec![line])
    }

    /// No user has the identifier `user_id`.
    pub fn user_not_found(user_id: &Uuid) -> (result: Self)
        ensures
            result@ == Self::missing("Cannot find user with ID `"@, *user_id),
    {
        Self::not_found("Cannot find user with ID `", user_id)
    }

    /// No entity has the identifier `entity_id`.
    pub fn entity_not_found(entity_id: &Uuid) -> (result: Self)
        ensures
            result@ == Self::missing("Cannot find entity with ID `"@, *entity_id),
    {
        Self::not_found("Cannot find entity with ID `", entity_id)
    }

    /// No task has the identifier `task_id`.
    pub fn task_not_found(task_id: &Uuid) -> (result: Self)
        ensures
            result@ == Self::missing("Cannot find task with ID `"@, *task_id),
    {
        Self::not_found("Cannot find task with ID `", task_id)
    }

    /// The request itself was at fault; `error` says how.
    pub fn bad_request(error: &str) -> (result: Self)
        ensures
            result@ == seq!["Bad request"@, error@],
    {
        Self::new(vec!["Bad request".to_owned(), error.to_owned()])
    }

    /// Something failed on the server's side; no detail is given away.
    pub fn internal_error() -> (result: Self)
        ensures
            result@ == seq!["Internal Error"@],
    {
        Self::new(vec!["Internal Error".to_owned()])
    }
}

} // verus!
