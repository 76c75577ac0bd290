//! The decisions of the request handlers: which privilege a token carries,
//! and which error answers a lookup that found nothing, a write that
//! touched nothing, or a value that could not be encoded.

use crate::rpc::error::{ApiError, ApiResult};
use crate::uuid::Uuid;
use vstd::prelude::*;
use vstd::string::StringExecFns;

verus! {

/// What a token allows its bearer to do.
#[derive(Clone, Copy, Debug, PartialEq, Eq, Structural)]
pub enum Privilege {
    User,
    Admin,
}

/// The privilege of a token issued to a user: that of an administrator for
/// an administrator, that of a user for anyone else.
pub open spec fn privilege_of(is_admin: bool) -> Privilege {
    if is_admin {
        Privilege::Admin
    } else {
        Privilege::User
    }
}

/// The privilege of a token issued to a user.
pub fn token_privilege(is_admin: bool) -> (privilege: Privilege)
    ensures
        privilege == privilege_of(is_admin),
{
    if is_admin {
        Privilege::Admin
    } else {
        Privilege::User
    }
}

/// What a token says of its bearer, if the token is genuine and current;
/// else the error that says that it is not.
pub fn claims_or_bad_token<T>(claims: Option<T>) -> (result: ApiResult<T>)
    ensures
        match claims {
            Some(found) => result == Ok::<T, ApiError>(found),
            None => result is Err && result->Err_0@ == seq![
                "Bad token"@,
                "It's either expired or in bad shape"@,
            ],
        },
{
    match claims {
        Some(found) => Ok(found),
        None => Err(ApiError::bad_token()),
    }
}

/// Lets only an administrator pass.
pub fn ensure_admin(privilege: Privilege) -> (result: ApiResult<()>)
    ensures
        privilege == Privilege::Admin ==> result == Ok::<(), ApiError>(()),
        privilege != Privilege::Admin ==> result is Err && result->Err_0@ == seq![
            "Unauthorized"@,
            "Token is valid but cannot be used with this user_id"@,
            "Either because it requires admin privilege or your token does not belongs to you"@,
        ],
{
    match privilege {
        Privilege::Admin => Ok(()),
        Privilege::User => Err(ApiError::unauthorized()),
    }
}

/// Lets only a bot pass: the requests that act for users of a messenger
/// are a bot's to make.
pub fn ensure_bot(is_bot: bool) -> (result: ApiResult<()>)
    ensures
        is_bot ==> result == Ok::<(), ApiError>(()),
        !is_bot ==> result is Err && result->Err_0@ == seq![
            "Unauthorized"@,
            "Token is valid but cannot be used with this user_id"@,
            "Either because it requires admin privilege or your token does not belongs to you"@,
        ],
{
    if is_bot {
        Ok(())
    } else {
        Err(ApiError::unauthorized())
    }
}

/// The entity that a lookup by `entity_id` found, or the error that says
/// that there is none.
pub fn entity_or_not_found<T>(found: Option<T>, entity_id: &Uuid) -> (result: ApiResult<T>)
    ensures
        match found {
            Some(entity) => result == Ok::<T, ApiError>(entity),
            None => result is Err && result->Err_0@ == ApiError::missing(
                "Cannot find entity with ID `"@,
                *entity_id,
            ),
        },
{
    match found {
        Some(entity) => Ok(entity),
        None => Err(ApiError::entity_not_found(entity_id)),
    }
}

/// The task that a lookup by `task_id` found, or the error that says that
/// there is none.
pub fn task_or_not_found<T>(found: Option<T>, task_id: &Uuid) -> (result: ApiResult<T>)
    ensures
        match found {
            Some(task) => result == Ok::<T, ApiError>(task),
            None => result is Err && result->Err_0@ == ApiError::missing(
                "Cannot find task with ID `"@,
                *task_id,
            ),
        },
{
    match found {
        Some(task) => Ok(task),
        None => Err(ApiError::task_not_found(task_id)),
    }
}

/// The user that a lookup by `user_id` found, or the error that says that
/// there is none.
pub fn user_or_not_found<T>(found: Option<T>, user_id: &Uuid) -> (result: ApiResult<T>)
    ensures
        match found {
            Some(user) => result == Ok::<T, ApiError>(user),
            None => result is Err && result->Err_0@ == ApiError::missing(
                "Cannot find user with ID `"@,
                *user_id,
            ),
        },
{
    match found {
        Some(user) => Ok(user),
        None => Err(ApiError::user_not_found(user_id)),
    }
}

/// The one line that says that a messenger knows no such user.
pub open spec fn missing_by_im(im: Seq<char>, im_payload: Seq<char>) -> Seq<Seq<char>> {
    seq!["Cannot find user of `"@ + im + "` known as `"@ + im_payload + "`"@]
}

/// The user that a lookup by messenger and name found, or the error that
/// says that the messenger knows no such user.
pub fn user_or_not_found_by_im<T>(found: Option<T>, im: &str, im_payload: &str) -> (result:
    ApiResult<T>)
    ensures
        match found {
            Some(user) => result == Ok::<T, ApiError>(user),
            None => result is Err && result->Err_0@ == missing_by_im(im@, im_payload@),
        },
{
    match found {
        Some(user) => Ok(user),
        None => {
            let mut line = "Cannot find user of `".to_owned();
            line.append(im);
            line.append("` known as `");
            line.append(im_payload);
            line.append("`");
            let error = ApiError::new(vec![line]);
            assert(error@ =~= missing_by_im(im@, im_payload@));
            Err(error)
        },
    }
}

/// The outcome of adding a task to an entity: the task, if the update of
/// the entity modified a document; else the entity does not exist.
pub fn task_attached<T>(task: T, modified_count: u64, entity_id: &Uuid) -> (result: ApiResult<T>)
    ensures
        modified_count != 0 ==> result == Ok::<T, ApiError>(task),
        modified_count == 0 ==> result is Err && result->Err_0@ == ApiError::missing(
            "Cannot find entity with ID `"@,
            *entity_id,
        ),
{
    if modified_count == 0 {
        Err(ApiError::entity_not_found(entity_id))
    } else {
        Ok(task)
    }
}

/// The value that was encoded for storage, or the complaint that the
/// request held something that cannot be encoded.
pub fn encoded_or_bad_request<T, E>(encoded: Result<T, E>, complaint: &str) -> (result: ApiResult<
    T,
>)
    ensures
        match encoded {
            Ok(value) => result == Ok::<T, ApiError>(value),
            Err(_) => result is Err && result->Err_0@ == seq!["Bad request"@, complaint@],
        },
{
    match encoded {
        Ok(value) => Ok(value),
        Err(_) => Err(ApiError::bad_request(complaint)),
    }
}

/// The token that was issued, or an internal error that tells the client
/// nothing of why none was.
pub fn issued_or_internal_error<T, E>(issued: Result<T, E>) -> (result: ApiResult<T>)
    ensures
        match issued {
            Ok(token) => result == Ok::<T, ApiError>(token),
            Err(_) => result is Err && result->Err_0@ == seq!["Internal Error"@],
        },
{
    match issued {
        Ok(token) => Ok(token),
        Err(_) => Err(ApiError::internal_error()),
    }
}

} // verus!
