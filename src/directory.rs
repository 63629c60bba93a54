//! Reading the directory's answers: the identity behind a token, and the
//! records of room members and room messages, with their defaults.

use vstd::prelude::*;
use crate::events::{MessageAuthor, RoomMessage, RoomUser};
use crate::ws::Identity;

verus! {

/// A connection may only be verified when it presents a token.
pub fn token_present(token: &String) -> (r: bool)
    ensures
        r == (token@.len() > 0),
{
    token.as_str().unicode_len() > 0
}

/// The 32-bit account id that an answer's 64-bit `id` stands for: its low
/// 32 bits, as a cast keeps them.
pub fn account_id(id: i64) -> (r: i32)
    ensures
        r == id as i32,
{
    id as i32
}

/// `o`, or `d` when it is absent.
pub fn or_default(o: Option<String>, d: String) -> (r: String)
    ensures
        r@ == (match o {
            Some(s) => s@,
            None => d@,
        }),
{
    match o {
        Some(s) => s,
        None => d,
    }
}

/// The identity in a token-verification answer. Unless `valid` is present
/// and true there is none. A missing id reads as 0, a missing username as
/// `Anonymous`, and a missing display name as the username.
pub fn identity_from_answer(
    valid: Option<bool>,
    user_id: Option<i64>,
    username: Option<String>,
    display_name: Option<String>,
    avatar_url: Option<String>,
) -> (r: Option<Identity>)
    ensures
        valid != Some(true) ==> r is None,
        valid == Some(true) ==> (r matches Some(id) && id.db_user_id == (match user_id {
            Some(v) => v as i32,
            None => 0,
        }) && id.username@ == (match username {
            Some(u) => u@,
            None => "Anonymous"@,
        }) && id.display_name@ == (match display_name {
            Some(d) => d@,
            None => id.username@,
        }) && id.avatar_url == avatar_url),
{
    match valid {
        Some(true) => {},
        _ => {
            return None;
        },
    }
    let db_user_id = match user_id {
        Some(v) => account_id(v),
        None => 0,
    };
    let username = or_default(username, String::from_str("Anonymous"));
    let display_name = match display_name {
        Some(d) => d,
        None => username.clone(),
    };
    Some(Identity { db_user_id, username, display_name, avatar_url })
}

/// A member record of the directory's room-member list. Without a username
/// there is none; a missing display name reads as the username and a
/// missing status as `online`.
pub fn room_user_from_fields(
    username: Option<String>,
    display_name: Option<String>,
    avatar_url: Option<String>,
    status: Option<String>,
) -> (r: Option<RoomUser>)
    ensures
        username is None ==> r is None,
        username matches Some(u) ==> (r matches Some(ru) && ru.username@ == u@
            && ru.display_name@ == (match display_name {
            Some(d) => d@,
            None => u@,
        }) && ru.avatar_url == avatar_url && ru.status@ == (match status {
            Some(s) => s@,
            None => "online"@,
        })),
{
    let username = match username {
        Some(u) => u,
        None => {
            return None;
        },
    };
    let display_name = match display_name {
        Some(d) => d,
        None => username.clone(),
    };
    let status = or_default(status, String::from_str("online"));
    Some(RoomUser { username, display_name, avatar_url, status })
}

/// A message record of the directory's room history. Without an id,
/// content, creation time, author id or author username there is none; a
/// missing type reads as `text` and a missing author display name as the
/// author's username.
pub fn room_message_from_fields(
    id: Option<i64>,
    content: Option<String>,
    created_at: Option<String>,
    edited_at: Option<String>,
    message_type: Option<String>,
    author_id: Option<i64>,
    author_username: Option<String>,
    author_display_name: Option<String>,
    author_avatar_url: Option<String>,
) -> (r: Option<RoomMessage>)
    ensures
        (id is None || content is None || created_at is None || author_id is None
            || author_username is None) ==> r is None,
        id matches Some(i) ==> content matches Some(c) ==> created_at matches Some(t)
            ==> author_id matches Some(a) ==> author_username matches Some(u) ==> (r matches Some(m)
            && m.id == i as i32 && m.content@ == c@ && m.created_at@ == t@ && m.edited_at
            == edited_at && m.message_type@ == (match message_type {
            Some(k) => k@,
            None => "text"@,
        }) && m.user.id == a as i32 && m.user.username@ == u@ && m.user.display_name@ == (
        match author_display_name {
            Some(d) => d@,
            None => u@,
        }) && m.user.avatar_url == author_avatar_url),
{
    let (i, c, t, a, u) = match (id, content, created_at, author_id, author_username) {
        (Some(i), Some(c), Some(t), Some(a), Some(u)) => (i, c, t, a, u),
        _ => {
            return None;
        },
    };
    let display_name = match author_display_name {
        Some(d) => d,
        None => u.clone(),
    };
    Some(
        RoomMessage {
            id: account_id(i),
            content: c,
            created_at: t,
            edited_at,
            message_type: or_default(message_type, String::from_str("text")),
            user: MessageAuthor {
                id: account_id(a),
                username: u,
                display_name,
                avatar_url: author_avatar_url,
            },
        },
    )
}

} // verus!
