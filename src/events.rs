//! The wire vocabulary: events a client sends, events the relay sends, and
//! the records they carry.

use vstd::prelude::*;

verus! {

/// An event sent by a client.
#[derive(Debug, PartialEq, Eq)]
pub enum ClientEvent {
    JoinRoom(String),
    SendMessage(String),
    LeaveRoom(String),
    ChangeDisplayname { display_name: String },
    PrivateMessage { payload: String, target_username: String },
    ServerBroadcast { payload: String },
    RoomBroadcast { payload: String, room_name: String },
    GetUsernameFromDisplayname(String),
    Pong,
    GetRoomList,
    GetRoomUsers(String),
    UpdateStatus(String),
    SubscribeToProfile { user_id: i32 },
    UnsubscribeFromProfile { user_id: i32 },
}

/// A room and how many sessions are in it.
#[derive(Debug, PartialEq, Eq)]
pub struct RoomListEntry {
    pub name: String,
    pub count: usize,
}

/// One member of a room as listed to clients.
#[derive(Debug, PartialEq, Eq)]
pub struct RoomUser {
    pub username: String,
    pub display_name: String,
    pub avatar_url: Option<String>,
    pub status: String,
}

/// The author of a stored room message.
#[derive(Debug, PartialEq, Eq)]
pub struct MessageAuthor {
    pub id: i32,
    pub username: String,
    pub display_name: String,
    pub avatar_url: Option<String>,
}

/// A stored room message.
#[derive(Debug, PartialEq, Eq)]
pub struct RoomMessage {
    pub id: i32,
    pub content: String,
    pub created_at: String,
    pub edited_at: Option<String>,
    pub message_type: String,
    pub user: MessageAuthor,
}

/// An event sent by the relay to a client.
#[derive(Debug, PartialEq, Eq)]
pub enum ServerEvent {
    IdentityAnnounced { payload: String },
    SendMessage {
        payload: String,
        from_id: u128,
        from_username: String,
        from_display_name: String,
        created_at: String,
        edited_at: Option<String>,
    },
    RoomUpdate { room_name: String, users: Vec<RoomUser> },
    PrivateMessage {
        from_id: u128,
        from_username: String,
        from_display_name: String,
        payload: String,
        created_at: String,
        edited_at: Option<String>,
    },
    Error { code: String, message: String },
    DisplaynameChanged { old_name: String, new_name: String },
    UserJoined { room_name: String, username: String },
    UserLeft { room_name: String, username: String },
    RoomList { rooms: Vec<RoomListEntry> },
    UserStatusChanged { username: String, status: String },
    LoadRoomMessages { room_name: String, messages: Vec<RoomMessage> },
    UserStatusUpdate { status: String },
    RecieveUsername { username: String },
    Ping,
}

impl ServerEvent {
    /// The event carries no list.
    pub open spec fn is_flat(self) -> bool {
        match self {
            ServerEvent::RoomUpdate { .. } => false,
            ServerEvent::RoomList { .. } => false,
            ServerEvent::LoadRoomMessages { .. } => false,
            _ => true,
        }
    }

    /// A copy of an event that carries no list.
    pub fn duplicate(&self) -> (r: ServerEvent)
        requires
            self.is_flat(),
        ensures
            r == *self,
    {
        match self {
            ServerEvent::IdentityAnnounced { payload } => ServerEvent::IdentityAnnounced {
                payload: payload.clone(),
            },
            ServerEvent::SendMessage {
                payload,
                from_id,
                from_username,
                from_display_name,
                created_at,
                edited_at,
            } => ServerEvent::SendMessage {
                payload: payload.clone(),
                from_id: *from_id,
                from_username: from_username.clone(),
                from_display_name: from_display_name.clone(),
                created_at: created_at.clone(),
                edited_at: clone_opt(edited_at),
            },
            ServerEvent::PrivateMessage {
                from_id,
                from_username,
                from_display_name,
                payload,
                created_at,
                edited_at,
            } => ServerEvent::PrivateMessage {
                from_id: *from_id,
                from_username: from_username.clone(),
                from_display_name: from_display_name.clone(),
                payload: payload.clone(),
                created_at: created_at.clone(),
                edited_at: clone_opt(edited_at),
            },
            ServerEvent::Error { code, message } => ServerEvent::Error {
                code: code.clone(),
                message: message.clone(),
            },
            ServerEvent::DisplaynameChanged { old_name, new_name } => ServerEvent::DisplaynameChanged {
                old_name: old_name.clone(),
                new_name: new_name.clone(),
            },
            ServerEvent::UserJoined { room_name, username } => ServerEvent::UserJoined {
                room_name: room_name.clone(),
                username: username.clone(),
            },
            ServerEvent::UserLeft { room_name, username } => ServerEvent::UserLeft {
                room_name: room_name.clone(),
                username: username.clone(),
            },
            ServerEvent::UserStatusChanged { username, status } => ServerEvent::UserStatusChanged {
                username: username.clone(),
                status: status.clone(),
            },
            ServerEvent::UserStatusUpdate { status } => ServerEvent::UserStatusUpdate {
                status: status.clone(),
            },
            ServerEvent::RecieveUsername { username } => ServerEvent::RecieveUsername {
                username: username.clone(),
            },
            ServerEvent::Ping => ServerEvent::Ping,
            _ => {
                proof {
                    assert(false);
                }
                ServerEvent::Ping
            },
        }
    }
}

/// A copy of `o`.
pub fn clone_opt(o: &Option<String>) -> (r: Option<String>)
    ensures
        r == *o,
{
    match o {
        Some(s) => Some(s.clone()),
        None => None,
    }
}

} // verus!
