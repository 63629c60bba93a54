//! Routing: what each inbound event does to the registries, and the
//! deliveries and directory requests it yields.

use vstd::prelude::*;
use crate::events::{clone_opt, ClientEvent, RoomListEntry, RoomMessage, RoomUser, ServerEvent};
use crate::outside::{lowered, lowercase, random_session_id, trim, trimmed, uuid_text, uuid_text_of, utc_now_rfc3339};
use crate::state::{has_room as has_room_of, lemma_same_ids, lists, same_sessions, vec_without, AppState, UserInfo};

verus! {

/// One thing the relay asks its surroundings to do.
#[derive(Debug, PartialEq, Eq)]
pub enum Action {
    /// Enqueue `event` on the outbound channel of session `target`.
    Deliver { target: u128, event: ServerEvent },
    /// Ask the directory to store a room message.
    PersistMessage { room_name: String, user_id: i32, content: String },
    /// Ask the directory to store an account's status.
    PersistStatus { user_id: i32, status: String },
    /// Ask the directory to change an account's display name.
    UpdateDisplayname { user_id: i32, display_name: String },
    /// Fetch a room's history for session `target`.
    FetchRoomMessages { target: u128, room_name: String },
    /// Fetch a room's member list for session `target`.
    FetchRoomMembers { target: u128, room_name: String },
}

/// `a` enqueues an event on the channel of session `t`.
pub open spec fn delivers_to(a: Action, t: u128) -> bool {
    match a {
        Action::Deliver { target, .. } => target == t,
        _ => false,
    }
}

/// Some action of `out` enqueues an event on the channel of session `t`.
pub open spec fn delivered(out: Seq<Action>, t: u128) -> bool {
    exists|q: int| 0 <= q < out.len() && #[trigger] delivers_to(out[q], t)
}

/// `u` lists session `s` as it stands.
pub open spec fn describes(u: RoomUser, s: UserInfo) -> bool {
    &&& u.username@ == s.username@
    &&& u.display_name@ == s.display_name@
    &&& u.avatar_url == s.avatar_url
    &&& u.status@ == s.status@
}

/// `u` lists the session `id` of `st` as it stands.
pub open spec fn describes_session(u: RoomUser, st: AppState, id: u128) -> bool {
    exists|i: int|
        0 <= i < st.users.len() && st.users@[i].session_id == id && #[trigger] describes(
            u,
            st.users@[i],
        )
}

/// `u` lists some member of room `room` of `st`.
pub open spec fn member_entry(u: RoomUser, st: AppState, room: Seq<char>) -> bool {
    exists|x: u128| st.in_room(room, x) && #[trigger] describes_session(u, st, x)
}

/// Some entry of `users` lists `s`.
pub open spec fn listed(users: Seq<RoomUser>, s: UserInfo) -> bool {
    exists|j: int| 0 <= j < users.len() && #[trigger] describes(users[j], s)
}

/// `users` lists the members of room `room` of `st`, one entry per member,
/// and no one else.
#[verifier::opaque]
pub open spec fn lists_room(users: Seq<RoomUser>, st: AppState, room: Seq<char>) -> bool {
    &&& users.len() == st.room_size(room)
    &&& forall|j: int| 0 <= j < users.len() ==> member_entry(#[trigger] users[j], st, room)
    &&& forall|i: int|
        0 <= i < st.users.len() && #[trigger] st.in_room(room, st.users@[i].session_id) ==> listed(
            users,
            st.users@[i],
        )
}

/// `a` enqueues on `t`'s channel an update of room `room` that lists its
/// members in `st`.
pub open spec fn room_update_to(a: Action, t: u128, st: AppState, room: Seq<char>) -> bool {
    match a {
        Action::Deliver { target, event: ServerEvent::RoomUpdate { room_name, users } } => target
            == t && room_name@ == room && lists_room(users@, st, room),
        _ => false,
    }
}

/// The session whose channel `a` enqueues on (0 for a directory request).
pub open spec fn target_of(a: Action) -> u128 {
    match a {
        Action::Deliver { target, .. } => target,
        _ => 0,
    }
}

/// `e` is an update of room `room` that lists its members in `st`.
pub open spec fn is_room_listing(e: ServerEvent, st: AppState, room: Seq<char>) -> bool {
    match e {
        ServerEvent::RoomUpdate { room_name, users } => room_name@ == room && lists_room(
            users@,
            st,
            room,
        ),
        _ => false,
    }
}

/// `out` is one room update of `room`, as in `st`, for each member, and
/// nothing else.
pub open spec fn room_update_fanout(out: Seq<Action>, st: AppState, room: Seq<char>) -> bool {
    &&& forall|q: int|
        0 <= q < out.len() ==> st.in_room(room, target_of(#[trigger] out[q])) && room_update_to(
            out[q],
            target_of(out[q]),
            st,
            room,
        )
    &&& forall|t: u128| st.in_room(room, t) ==> delivered(out, t)
    &&& forall|q: int, p: int|
        0 <= q < p < out.len() ==> target_of(#[trigger] out[q]) != target_of(#[trigger] out[p])
}

/// The entry of room `room` listing the members in `st`.
pub fn room_users(room: &String, st: &AppState) -> (r: Vec<RoomUser>)
    requires
        st.wf(),
    ensures
        lists_room(r@, *st, room@),
{
    let members = st.room_members(room);
    let mut r: Vec<RoomUser> = Vec::new();
    let mut j: usize = 0;
    while j < members.len()
        invariant
            st.wf(),
            j <= members.len(),
            r.len() == j,
            forall|x: u128| members@.contains(x) <==> st.in_room(room@, x),
            forall|q: int| 0 <= q < j ==> describes_session(#[trigger] r@[q], *st, members@[q]),
        decreases members.len() - j,
    {
        let m = members[j];
        proof {
            assert(members@.contains(m));
            let kk = choose|kk: int|
                0 <= kk < st.rooms.len() && #[trigger] st.rooms@[kk].name@ == room@
                    && st.rooms@[kk].members@.contains(m);
        }
        let i = match st.find_user(m) {
            Some(i) => i,
            None => {
                proof {
                    assert(false);
                }
                return r;
            },
        };
        let u = &st.users[i];
        let ghost r0 = r@;
        r.push(
            RoomUser {
                username: u.username.clone(),
                display_name: u.display_name.clone(),
                avatar_url: clone_opt(&u.avatar_url),
                status: u.status.clone(),
            },
        );
        proof {
            assert(describes(r@[j as int], st.users@[i as int]));
            assert forall|q: int| 0 <= q < j + 1 implies describes_session(
                #[trigger] r@[q],
                *st,
                members@[q],
            ) by {
                if q < j {
                    assert(r@[q] == r0[q]);
                }
            }
        }
        j = j + 1;
    }
    proof {
        reveal(lists_room);
        assert forall|q: int| 0 <= q < r.len() implies member_entry(#[trigger] r@[q], *st, room@) by {
            assert(describes_session(r@[q], *st, members@[q]));
            assert(members@.contains(members@[q]));
        }
        assert forall|i: int|
            0 <= i < st.users.len() && #[trigger] st.in_room(room@, st.users@[i].session_id) implies listed(
                r@,
                st.users@[i],
            ) by {
            let x = st.users@[i].session_id;
            assert(members@.contains(x));
            let q = choose|q: int| 0 <= q < members.len() && members@[q] == x;
            assert(describes_session(r@[q], *st, members@[q]));
            let i2 = choose|i2: int|
                0 <= i2 < st.users.len() && st.users@[i2].session_id == members@[q]
                    && #[trigger] describes(r@[q], st.users@[i2]);
            if i2 != i {
                if i2 < i {
                    assert(st.users@[i2].session_id != st.users@[i].session_id);
                } else {
                    assert(st.users@[i].session_id != st.users@[i2].session_id);
                }
            }
            assert(describes(r@[q], st.users@[i]));
        }
    }
    r
}

/// The event that `a` enqueues (a ping for a directory request).
pub open spec fn event_of(a: Action) -> ServerEvent {
    match a {
        Action::Deliver { event, .. } => event,
        _ => ServerEvent::Ping,
    }
}

/// `out` enqueues exactly one event on the channel of each session that
/// `to` holds of, and on no other; each event satisfies `ev`.
pub open spec fn fanout(
    out: Seq<Action>,
    to: spec_fn(u128) -> bool,
    ev: spec_fn(ServerEvent) -> bool,
) -> bool {
    &&& forall|q: int|
        0 <= q < out.len() ==> (#[trigger] out[q] is Deliver) && to(target_of(out[q])) && ev(
            event_of(out[q]),
        )
    &&& forall|t: u128| to(t) ==> delivered(out, t)
    &&& forall|q: int, p: int|
        0 <= q < p < out.len() ==> target_of(#[trigger] out[q]) != target_of(#[trigger] out[p])
}

/// One delivery of `ev` to each of `targets`, in order.
pub fn deliver_all(targets: &Vec<u128>, ev: &ServerEvent) -> (r: Vec<Action>)
    requires
        ev.is_flat(),
    ensures
        r.len() == targets.len(),
        forall|q: int|
            0 <= q < r.len() ==> #[trigger] r@[q] == (Action::Deliver { target: targets@[q], event: *ev }),
{
    let mut r: Vec<Action> = Vec::new();
    let mut j: usize = 0;
    while j < targets.len()
        invariant
            ev.is_flat(),
            j <= targets.len(),
            r.len() == j,
            forall|q: int|
                0 <= q < j ==> #[trigger] r@[q] == (Action::Deliver { target: targets@[q], event: *ev }),
        decreases targets.len() - j,
    {
        r.push(Action::Deliver { target: targets[j], event: ev.duplicate() });
        j = j + 1;
    }
    r
}

/// Deliveries of `ev` to each of `targets` make a fan-out to the sessions
/// that `targets` holds.
pub proof fn lemma_deliver_all_fanout(
    out: Seq<Action>,
    targets: Seq<u128>,
    ev: ServerEvent,
    to: spec_fn(u128) -> bool,
    evp: spec_fn(ServerEvent) -> bool,
)
    requires
        out.len() == targets.len(),
        forall|q: int|
            0 <= q < out.len() ==> #[trigger] out[q] == (Action::Deliver { target: targets[q], event: ev }),
        forall|t: u128| targets.contains(t) <==> to(t),
        targets.no_duplicates(),
        evp(ev),
    ensures
        fanout(out, to, evp),
{
    assert forall|t: u128| to(t) implies delivered(out, t) by {
        assert(targets.contains(t));
        let q = choose|q: int| 0 <= q < targets.len() && targets[q] == t;
        assert(delivers_to(out[q], t));
    }
    assert forall|q: int| 0 <= q < out.len() implies (#[trigger] out[q] is Deliver) && to(
        target_of(out[q]),
    ) && evp(event_of(out[q])) by {
        assert(targets.contains(targets[q]));
    }
}

/// Every member of the room gets its listing from a room-update fan-out.
pub proof fn lemma_room_fanout_got(out: Seq<Action>, st: AppState, room: Seq<char>, t: u128)
    requires
        room_update_fanout(out, st, room),
        st.in_room(room, t),
    ensures
        got(out, t, |e: ServerEvent| is_room_listing(e, st, room)),
{
    assert(delivered(out, t));
    let q = choose|q: int| 0 <= q < out.len() && #[trigger] delivers_to(out[q], t);
    assert(room_update_to(out[q], target_of(out[q]), st, room));
    assert(is_room_listing(event_of(out[q]), st, room));
}

/// Every session of a fan-out gets an event of it.
pub proof fn lemma_fanout_got(
    out: Seq<Action>,
    to: spec_fn(u128) -> bool,
    ev: spec_fn(ServerEvent) -> bool,
    t: u128,
)
    requires
        fanout(out, to, ev),
        to(t),
    ensures
        got(out, t, ev),
{
    assert(delivered(out, t));
    let q = choose|q: int| 0 <= q < out.len() && #[trigger] delivers_to(out[q], t);
    assert(ev(event_of(out[q])));
}

/// What was delivered stays delivered when actions come before it.
pub proof fn lemma_got_prepends(a: Seq<Action>, b: Seq<Action>, t: u128, p: spec_fn(ServerEvent) -> bool)
    requires
        got(b, t, p),
    ensures
        got(a + b, t, p),
{
    let q = choose|q: int| 0 <= q < b.len() && #[trigger] delivers_to(b[q], t) && p(event_of(b[q]));
    assert((a + b)[a.len() + q] == b[q]);
}

/// Sends every member of room `room_name` the room's current member list.
#[verifier::rlimit(40)]
pub fn broadcast_room_update(room_name: &String, state: &AppState) -> (r: Vec<Action>)
    requires
        state.wf(),
    ensures
        room_update_fanout(r@, *state, room_name@),
{
    let members = state.room_members(room_name);
    let mut r: Vec<Action> = Vec::new();
    let mut j: usize = 0;
    while j < members.len()
        invariant
            state.wf(),
            j <= members.len(),
            r.len() == j,
            members@.no_duplicates(),
            forall|x: u128| members@.contains(x) <==> state.in_room(room_name@, x),
            forall|q: int|
                0 <= q < j ==> target_of(#[trigger] r@[q]) == members@[q] && room_update_to(
                    r@[q],
                    members@[q],
                    *state,
                    room_name@,
                ),
        decreases members.len() - j,
    {
        let users = room_users(room_name, state);
        let ghost r0 = r@;
        r.push(
            Action::Deliver {
                target: members[j],
                event: ServerEvent::RoomUpdate { room_name: room_name.clone(), users },
            },
        );
        proof {
            assert forall|q: int| 0 <= q < j + 1 implies target_of(#[trigger] r@[q]) == members@[q]
                && room_update_to(r@[q], members@[q], *state, room_name@) by {
                if q < j {
                    assert(r@[q] == r0[q]);
                }
            }
        }
        j = j + 1;
    }
    proof {
        assert forall|t: u128| state.in_room(room_name@, t) implies delivered(r@, t) by {
            assert(members@.contains(t));
            let q = choose|q: int| 0 <= q < members.len() && members@[q] == t;
            assert(delivers_to(r@[q], t));
        }
        assert forall|q: int| 0 <= q < r.len() implies state.in_room(
            room_name@,
            target_of(#[trigger] r@[q]),
        ) by {
            assert(members@.contains(members@[q]));
        }
        assert forall|q: int, p: int| 0 <= q < p < r.len() implies target_of(#[trigger] r@[q])
            != target_of(#[trigger] r@[p]) by {
            assert(members@[q] != members@[p]);
        }
    }
    r
}

/// The username of session `id`, or `Unknown` when it is not live.
pub fn username_or_unknown(state: &AppState, id: u128) -> (r: String)
    requires
        state.wf(),
    ensures
        r@ == state.username_of(id),
{
    match state.find_user(id) {
        Some(i) => {
            proof {
                state.lemma_index_of(i as int);
            }
            state.users[i].username.clone()
        },
        None => String::from_str("Unknown"),
    }
}

/// `e` says that `username` joined room `room`.
pub open spec fn is_user_joined(e: ServerEvent, room: Seq<char>, username: Seq<char>) -> bool {
    match e {
        ServerEvent::UserJoined { room_name, username: u } => room_name@ == room && u@ == username,
        _ => false,
    }
}

/// Tells every member of room `room_name`, the joiner included, that
/// session `user_id` joined it.
pub fn broadcast_user_joined(room_name: &String, user_id: u128, state: &AppState) -> (r: Vec<Action>)
    requires
        state.wf(),
    ensures
        fanout(
            r@,
            (|t: u128| state.in_room(room_name@, t)),
            (|e: ServerEvent| is_user_joined(e, room_name@, state.username_of(user_id))),
        ),
{
    let username = username_or_unknown(state, user_id);
    let ev = ServerEvent::UserJoined { room_name: room_name.clone(), username };
    let members = state.room_members(room_name);
    let r = deliver_all(&members, &ev);
    proof {
        lemma_deliver_all_fanout(
            r@,
            members@,
            ev,
            |t: u128| state.in_room(room_name@, t),
            |e: ServerEvent| is_user_joined(e, room_name@, state.username_of(user_id)),
        );
    }
    r
}

/// Sessions `a` and `b` are members of a common room.
pub open spec fn shares_room(st: AppState, a: u128, b: u128) -> bool {
    exists|r: Seq<char>| #[trigger] st.in_room(r, a) && st.in_room(r, b)
}

/// `e` is a presence update carrying `status`.
pub open spec fn is_status_update(e: ServerEvent, status: Seq<char>) -> bool {
    match e {
        ServerEvent::UserStatusUpdate { status: s } => s@ == status,
        _ => false,
    }
}

/// `e` says that `username` now has `status`.
pub open spec fn is_status_changed(e: ServerEvent, username: Seq<char>, status: Seq<char>) -> bool {
    match e {
        ServerEvent::UserStatusChanged { username: u, status: s } => u@ == username && s@ == status,
        _ => false,
    }
}

/// Some action of `out` enqueues on `t`'s channel an event that `p` holds of.
pub open spec fn got(out: Seq<Action>, t: u128, p: spec_fn(ServerEvent) -> bool) -> bool {
    exists|q: int| 0 <= q < out.len() && #[trigger] delivers_to(out[q], t) && p(event_of(out[q]))
}

/// What was delivered stays delivered when more actions follow.
pub proof fn lemma_got_extends(a: Seq<Action>, b: Seq<Action>, t: u128, p: spec_fn(ServerEvent) -> bool)
    requires
        got(a, t, p),
    ensures
        got(a + b, t, p),
{
    let q = choose|q: int| 0 <= q < a.len() && #[trigger] delivers_to(a[q], t) && p(event_of(a[q]));
    assert((a + b)[q] == a[q]);
}

/// The two kinds of presence delivery that a status change of session
/// `id` to `status` makes in `st`: an update to each subscriber of its
/// account, and a change notice to each other member of its rooms.
pub open spec fn presence_delivery(a: Action, st: AppState, id: u128, status: Seq<char>) -> bool {
    &&& a is Deliver
    &&& {
        ||| is_status_update(event_of(a), status) && st.subscribed(
            st.session(id).db_user_id,
            target_of(a),
        )
        ||| is_status_changed(event_of(a), st.session(id).username@, status) && target_of(a) != id
            && shares_room(st, id, target_of(a))
    }
}

/// Sets the status of session `id` to `status` and tells the subscribers
/// of its account (`user_status_update`) and every other member of each of
/// its rooms (`user_status_changed`). Nothing happens when `id` is not live.
pub fn broadcast_status_update(user_id: u128, new_status: &String, state: &mut AppState) -> (r: Vec<
    Action,
>)
    requires
        old(state).wf(),
    ensures
        final(state).wf(),
        final(state).rooms == old(state).rooms,
        final(state).profile_subscribers == old(state).profile_subscribers,
        final(state).users.len() == old(state).users.len(),
        forall|j: int|
            0 <= j < old(state).users.len() && old(state).users@[j].session_id != user_id
                ==> final(state).users@[j] == old(state).users@[j],
        !old(state).live(user_id) ==> r.len() == 0,
        old(state).live(user_id) ==> ({
            let u0 = old(state).session(user_id);
            let u1 = final(state).session(user_id);
            &&& final(state).live(user_id)
            &&& u1.status@ == new_status@
            &&& u1.username@ == u0.username@
            &&& u1.display_name@ == u0.display_name@
            &&& u1.db_user_id == u0.db_user_id
            &&& u1.rooms == u0.rooms
            &&& u1.avatar_url == u0.avatar_url
            &&& u1.joined_at == u0.joined_at
            &&& u1.last_heartbeat == u0.last_heartbeat
        }),
        forall|q: int|
            0 <= q < r.len() ==> presence_delivery(#[trigger] r@[q], *old(state), user_id, new_status@),
        forall|t: u128|
            old(state).live(user_id) && old(state).subscribed(
                old(state).session(user_id).db_user_id,
                t,
            ) ==> got(r@, t, |e: ServerEvent| is_status_update(e, new_status@)),
        forall|t: u128|
            old(state).live(user_id) && t != user_id && shares_room(*old(state), user_id, t) ==> got(
                r@,
                t,
                |e: ServerEvent|
                    is_status_changed(e, old(state).session(user_id).username@, new_status@),
            ),
        old(state).live(user_id) ==> exists|k: int|
            0 <= k <= r.len() && fanout(
                r@.subrange(0, k),
                |t: u128| old(state).subscribed(old(state).session(user_id).db_user_id, t),
                |e: ServerEvent| is_status_update(e, new_status@),
            ) && forall|q: int|
                k <= q < r.len() ==> is_status_changed(
                    event_of(#[trigger] r@[q]),
                    old(state).session(user_id).username@,
                    new_status@,
                ),
{
    let ghost s0 = *state;
    let i = match state.find_user(user_id) {
        Some(i) => i,
        None => {
            return Vec::new();
        },
    };
    proof {
        s0.lemma_index_of(i as int);
    }
    let ghost u0 = s0.users@[i as int];
    let account = state.users[i].db_user_id;
    let subs = state.subscribers_of(account);
    let ev1 = ServerEvent::UserStatusUpdate { status: new_status.clone() };
    let mut out = deliver_all(&subs, &ev1);
    let ghost p0 = out@;
    proof {
        lemma_deliver_all_fanout(
            out@,
            subs@,
            ev1,
            |t: u128| s0.subscribed(account, t),
            |e: ServerEvent| is_status_update(e, new_status@),
        );
        assert forall|t: u128| s0.subscribed(account, t) implies got(
            out@,
            t,
            |e: ServerEvent| is_status_update(e, new_status@),
        ) by {
            assert(subs@.contains(t));
            let q = choose|q: int| 0 <= q < subs.len() && subs@[q] == t;
            assert(delivers_to(out@[q], t));
        }
        assert forall|q: int| 0 <= q < out.len() implies presence_delivery(
            #[trigger] out@[q],
            s0,
            user_id,
            new_status@,
        ) by {
            assert(subs@.contains(subs@[q]));
        }
    }
    state.set_status(user_id, new_status);
    proof {
        state.lemma_index_of(i as int);
        assert(state.rooms == s0.rooms);
        assert forall|r: Seq<char>, x: u128| #[trigger] state.in_room(r, x) == s0.in_room(r, x) by {}
    }
    let username = state.users[i].username.clone();
    let ev2 = ServerEvent::UserStatusChanged { username, status: new_status.clone() };
    let mut t: usize = 0;
    while t < state.users[i].rooms.len()
        invariant
            state.wf(),
            i < state.users.len(),
            state.users@[i as int].session_id == user_id,
            state.users@[i as int].rooms == u0.rooms,
            s0.wf(),
            i < s0.users.len(),
            s0.users@[i as int] == u0,
            u0.session_id == user_id,
            state.rooms == s0.rooms,
            forall|r: Seq<char>, x: u128| #[trigger] state.in_room(r, x) == s0.in_room(r, x),
            is_status_changed(ev2, s0.session(user_id).username@, new_status@),
            ev2.is_flat(),
            t <= u0.rooms.len(),
            out@.len() >= p0.len(),
            out@.subrange(0, p0.len() as int) == p0,
            forall|q: int|
                p0.len() <= q < out.len() ==> is_status_changed(
                    event_of(#[trigger] out@[q]),
                    s0.session(user_id).username@,
                    new_status@,
                ),
            forall|q: int|
                0 <= q < out.len() ==> presence_delivery(#[trigger] out@[q], s0, user_id, new_status@),
            forall|x: u128|
                s0.subscribed(account, x) ==> got(
                    out@,
                    x,
                    |e: ServerEvent| is_status_update(e, new_status@),
                ),
            forall|x: u128, q: int|
                0 <= q < t && #[trigger] s0.in_room(u0.rooms@[q]@, x) && x != user_id ==> got(
                    out@,
                    x,
                    |e: ServerEvent| is_status_changed(e, s0.session(user_id).username@, new_status@),
                ),
        decreases u0.rooms.len() - t,
    {
        let members = state.room_members(&state.users[i].rooms[t]);
        let targets = vec_without(&members, user_id);
        let mut batch = deliver_all(&targets, &ev2);
        let ghost out0 = out@;
        let ghost rname = u0.rooms@[t as int]@;
        proof {
            assert(u0.rooms@[t as int]@ == rname);
            assert(has_room_of(s0.users@[i as int], rname));
            assert(s0.in_room(rname, s0.users@[i as int].session_id));
            assert forall|q: int| 0 <= q < batch.len() implies presence_delivery(
                #[trigger] batch@[q],
                s0,
                user_id,
                new_status@,
            ) by {
                assert(targets@.contains(targets@[q]));
                assert(s0.in_room(rname, targets@[q]));
            }
        }
        let ghost batch_v = batch@;
        out.append(&mut batch);
        proof {
            let b = out@.subrange(out0.len() as int, out@.len() as int);
            assert(out@ == out0 + b);
            assert(out@.subrange(0, p0.len() as int) == out0.subrange(0, p0.len() as int));
            assert forall|q: int| p0.len() <= q < out.len() implies is_status_changed(
                event_of(#[trigger] out@[q]),
                s0.session(user_id).username@,
                new_status@,
            ) by {
                if q >= out0.len() {
                    assert(out@[q] == b[q - out0.len()]);
                    assert(b[q - out0.len()] == batch_v[q - out0.len()]);
                }
            }
            assert forall|q: int| 0 <= q < out.len() implies presence_delivery(
                #[trigger] out@[q],
                s0,
                user_id,
                new_status@,
            ) by {
                if q < out0.len() {
                    assert(out@[q] == out0[q]);
                } else {
                    assert(out@[q] == b[q - out0.len()]);
                }
            }
            assert forall|x: u128| s0.subscribed(account, x) implies got(
                out@,
                x,
                |e: ServerEvent| is_status_update(e, new_status@),
            ) by {
                lemma_got_extends(out0, b, x, |e: ServerEvent| is_status_update(e, new_status@));
            }
            assert forall|x: u128, q: int|
                0 <= q < t + 1 && #[trigger] s0.in_room(u0.rooms@[q]@, x) && x != user_id implies got(
                out@,
                x,
                |e: ServerEvent| is_status_changed(e, s0.session(user_id).username@, new_status@),
            ) by {
                let p = |e: ServerEvent| is_status_changed(e, s0.session(user_id).username@, new_status@);
                if q < t {
                    lemma_got_extends(out0, b, x, p);
                } else {
                    assert(targets@.contains(x));
                    let w = choose|w: int| 0 <= w < targets.len() && targets@[w] == x;
                    assert(out@[out0.len() + w] == b[w]);
                    assert(delivers_to(out@[out0.len() + w], x));
                }
            }
        }
        t = t + 1;
    }
    proof {
        assert forall|x: u128| x != user_id && shares_room(s0, user_id, x) implies got(
            out@,
            x,
            |e: ServerEvent| is_status_changed(e, s0.session(user_id).username@, new_status@),
        ) by {
            let r = choose|r: Seq<char>| #[trigger] s0.in_room(r, user_id) && s0.in_room(r, x);
            assert(has_room_of(u0, r));
            let q = choose|q: int| 0 <= q < u0.rooms.len() && #[trigger] u0.rooms@[q]@ == r;
            assert(s0.in_room(u0.rooms@[q]@, x));
        }
    }
    out
}

/// What `disconnect` does: its result and its effect.
pub open spec fn teardown_post(s0: AppState, s1: AppState, user_id: u128, r: Seq<Action>) -> bool {
    &&& (!s1.live(user_id))
    &&& (forall|x: u128| #[trigger] s1.live(x) <==> (s0.live(x) && x != user_id))
    &&& (forall|rm: Seq<char>, x: u128| #[trigger] s1.in_room(rm, x) <==> (s0.in_room(rm, x) && x != user_id))
    &&& (forall|a: i32, x: u128| #[trigger] s1.subscribed(a, x) <==> (s0.subscribed(a, x) && x != user_id))
    &&& (!s0.live(user_id) ==> r.len() == 0 && s1 == s0)
    &&& (s0.live(user_id) ==> r.len() > 0 && r.last() == (Action::PersistStatus { user_id: s0.session(user_id).db_user_id, status: r.last()->PersistStatus_status, }) && r.last()->PersistStatus_status@ == "offline"@)
    &&& (forall|q: int| 0 <= q < r.len() - 1 ==> (#[trigger] r[q]) is Deliver)
    &&& (s0.live(user_id) ==> s1.users@ == s0.users@.remove( s0.index_of(user_id), ))
    &&& (forall|rm: Seq<char>, x: u128| s0.in_room(rm, user_id) && #[trigger] s1.in_room(rm, x) ==> got( r, x, |e: ServerEvent| is_room_listing(e, s1, rm), ))
    &&& (forall|t: u128| s0.live(user_id) && s0.subscribed( s0.session(user_id).db_user_id, t, ) ==> got(r, t, |e: ServerEvent| is_status_update(e, "offline"@)))
    &&& (s0.live(user_id) ==> exists|k: int|
        0 <= k <= r.len() && fanout(
            r.subrange(0, k),
            |t: u128| s0.subscribed(s0.session(user_id).db_user_id, t),
            |e: ServerEvent| is_status_update(e, "offline"@),
        ) && forall|q: int| k <= q < r.len() ==> !(event_of(#[trigger] r[q]) is UserStatusUpdate))
    &&& (forall|t: u128| s0.live(user_id) && t != user_id && shares_room(s0, user_id, t) ==> got( r, t, |e: ServerEvent| is_status_changed(e, s0.session(user_id).username@, "offline"@), ))
}

/// Runs the teardown of session `user_id`: tells its subscribers and room
/// peers that it is offline, removes it from the registry, from every room
/// (sending each room's remaining members the new member list) and from
/// every subscription, and asks the directory to store the offline status.
/// A second call for the same session finds it gone and does nothing.
pub fn disconnect(user_id: u128, state: &mut AppState) -> (r: Vec<Action>)
    requires
        old(state).wf(),
    ensures
        final(state).wf(),
        teardown_post(*old(state), *final(state), user_id, r@),
{
    let ghost s0 = *state;
    let i = match state.find_user(user_id) {
        Some(i) => i,
        None => {
            return Vec::new();
        },
    };
    proof {
        s0.lemma_index_of(i as int);
    }
    let account = state.users[i].db_user_id;
    let offline = String::from_str("offline");
    let mut out = broadcast_status_update(user_id, &offline, state);
    let ghost out1 = out@;
    let ghost smid = *state;
    proof {
        assert forall|rm: Seq<char>, x: u128| #[trigger] smid.in_room(rm, x) == s0.in_room(rm, x) by {}
    }
    let rooms = state.remove_session(user_id);
    let ghost sfin = *state;
    let mut t: usize = 0;
    while t < rooms.len()
        invariant
            state.wf(),
            *state == sfin,
            forall|q: int, x: u128|
                0 <= q < t && #[trigger] state.in_room(rooms@[q]@, x) ==> got(
                    out@,
                    x,
                    |e: ServerEvent| is_room_listing(e, sfin, rooms@[q]@),
                ),
            t <= rooms.len(),
            forall|q: int|
                out1.len() <= q < out.len() ==> (event_of(#[trigger] out@[q]) is RoomUpdate),
            out@.len() >= out1.len(),
            out@.subrange(0, out1.len() as int) == out1,
            forall|q: int| 0 <= q < out.len() ==> (#[trigger] out@[q]) is Deliver,
        decreases rooms.len() - t,
    {
        let mut batch = broadcast_room_update(&rooms[t], state);
        let ghost out0 = out@;
        let ghost bv = batch@;
        out.append(&mut batch);
        proof {
            assert(out@.subrange(0, out1.len() as int) == out0.subrange(0, out1.len() as int));
            assert forall|q: int| 0 <= q < out.len() implies (#[trigger] out@[q]) is Deliver by {
                if q < out0.len() {
                    assert(out@[q] == out0[q]);
                } else {
                    assert(out@[q] == bv[q - out0.len()]);
                    assert(room_update_to(bv[q - out0.len()], target_of(bv[q - out0.len()]), *state, rooms@[t as int]@));
                }
            }
            assert(out@ == out0 + bv);
            assert forall|q: int| out1.len() <= q < out.len() implies (event_of(#[trigger] out@[q]) is RoomUpdate) by {
                if q >= out0.len() {
                    assert(out@[q] == bv[q - out0.len()]);
                    assert(room_update_to(bv[q - out0.len()], target_of(bv[q - out0.len()]), *state, rooms@[t as int]@));
                } else {
                    assert(out@[q] == out0[q]);
                }
            }
            assert forall|q: int, x: u128|
                0 <= q < t + 1 && #[trigger] state.in_room(rooms@[q]@, x) implies got(
                    out@,
                    x,
                    |e: ServerEvent| is_room_listing(e, sfin, rooms@[q]@),
                ) by {
                let p = |e: ServerEvent| is_room_listing(e, sfin, rooms@[q]@);
                if q < t {
                    lemma_got_extends(out0, bv, x, p);
                } else {
                    lemma_room_fanout_got(bv, sfin, rooms@[q]@, x);
                    lemma_got_prepends(out0, bv, x, p);
                }
            }
        }
        t = t + 1;
    }
    let ghost out2 = out@;
    out.push(Action::PersistStatus { user_id: account, status: offline });
    proof {
        let tail = out@.subrange(out1.len() as int, out@.len() as int);
        assert(out@ == out1 + tail);
        assert forall|x: u128|
            s0.subscribed(account, x) implies got(out@, x, |e: ServerEvent| is_status_update(e, "offline"@)) by {
            lemma_got_extends(out1, tail, x, |e: ServerEvent| is_status_update(e, "offline"@));
        }
        assert forall|x: u128| x != user_id && shares_room(s0, user_id, x) implies got(
            out@,
            x,
            |e: ServerEvent| is_status_changed(e, s0.session(user_id).username@, "offline"@),
        ) by {
            lemma_got_extends(
                out1,
                tail,
                x,
                |e: ServerEvent| is_status_changed(e, s0.session(user_id).username@, "offline"@),
            );
        }
        assert forall|q: int| 0 <= q < out.len() - 1 implies (#[trigger] out@[q]) is Deliver by {
            assert(out@[q] == out2[q]);
        }
        let last = seq![out@.last()];
        assert(out@ == out2 + last);
        assert forall|rm: Seq<char>, x: u128|
            s0.in_room(rm, user_id) && #[trigger] sfin.in_room(rm, x) implies got(
            out@,
            x,
            |e: ServerEvent| is_room_listing(e, sfin, rm),
        ) by {
            assert(smid.in_room(rm, user_id));
            assert(lists(rooms@, rm));
            let q = choose|q: int| 0 <= q < rooms.len() && #[trigger] rooms@[q]@ == rm;
            assert(state.in_room(rooms@[q]@, x));
            lemma_got_extends(out2, last, x, |e: ServerEvent| is_room_listing(e, sfin, rm));
        }
        let k = choose|k: int|
            0 <= k <= out1.len() && fanout(
                out1.subrange(0, k),
                |t: u128| s0.subscribed(s0.session(user_id).db_user_id, t),
                |e: ServerEvent| is_status_update(e, "offline"@),
            ) && forall|q: int|
                k <= q < out1.len() ==> is_status_changed(
                    event_of(#[trigger] out1[q]),
                    s0.session(user_id).username@,
                    "offline"@,
                );
        assert(out@.subrange(0, k) == out1.subrange(0, k));
        assert forall|q: int| k <= q < out.len() implies !(event_of(#[trigger] out@[q]) is UserStatusUpdate) by {
            if q < out1.len() {
                assert(out@[q] == out1[q]);
                assert(is_status_changed(event_of(out1[q]), s0.session(user_id).username@, "offline"@));
            } else if q < out2.len() {
                assert(out@[q] == out2[q]);
            }
        }
        // The other sessions' records are as they were.
        let i2 = choose|i2: int|
            0 <= i2 < smid.users.len() && smid.users@[i2].session_id == user_id
                && sfin.users@ == smid.users@.remove(i2);
        if i2 != i {
            if i2 < i {
                assert(smid.users@[i2].session_id != smid.users@[i as int].session_id);
            } else {
                assert(smid.users@[i as int].session_id != smid.users@[i2].session_id);
            }
        }
        assert(smid.users@.remove(i as int) =~= s0.users@.remove(i as int));
    }
    out
}

/// The request that stores `status` for the account of session `user_id`
/// (account 0 when the session is not live).
pub fn persist_status_to_db(user_id: u128, status: &String, state: &AppState) -> (r: Action)
    requires
        state.wf(),
    ensures
        r == (Action::PersistStatus {
            user_id: if state.live(user_id) { state.session(user_id).db_user_id } else { 0 },
            status: r->PersistStatus_status,
        }),
        r->PersistStatus_status@ == status@,
{
    let account = match state.find_user(user_id) {
        Some(i) => {
            proof {
                state.lemma_index_of(i as int);
            }
            state.users[i].db_user_id
        },
        None => 0,
    };
    Action::PersistStatus { user_id: account, status: status.clone() }
}

/// The error event `code` / `message`, for session `target`.
pub fn send_error(target: u128, code: &str, message: &str) -> (r: Action)
    ensures
        r matches Action::Deliver { target: t, event: ServerEvent::Error { code: c, message: m } }
            && t == target && c@ == code@ && m@ == message@,
{
    Action::Deliver {
        target,
        event: ServerEvent::Error { code: code.to_string(), message: message.to_string() },
    }
}

/// The username and display name of session `id`, or `Unknown` for both
/// when it is not live.
pub fn sender_names(state: &AppState, id: u128) -> (r: (String, String))
    requires
        state.wf(),
    ensures
        r.0@ == state.username_of(id),
        r.1@ == state.display_name_of(id),
{
    match state.find_user(id) {
        Some(i) => {
            proof {
                state.lemma_index_of(i as int);
            }
            (state.users[i].username.clone(), state.users[i].display_name.clone())
        },
        None => (String::from_str("Unknown"), String::from_str("Unknown")),
    }
}

/// `e` is a chat message with text `payload` from session `id` of `st`,
/// stamped `created_at`.
pub open spec fn is_message_from(
    e: ServerEvent,
    st: AppState,
    id: u128,
    payload: Seq<char>,
    created_at: Seq<char>,
) -> bool {
    match e {
        ServerEvent::SendMessage {
            payload: p,
            from_id,
            from_username,
            from_display_name,
            created_at: c,
            edited_at,
        } => p@ == payload && from_id == id && from_username@ == st.username_of(id)
            && from_display_name@ == st.display_name_of(id) && c@ == created_at && edited_at is None,
        _ => false,
    }
}

/// The stamped chat message from session `id`.
fn stamped_message(state: &AppState, id: u128, payload: &String, created_at: &String) -> (r:
    ServerEvent)
    requires
        state.wf(),
    ensures
        is_message_from(r, *state, id, payload@, created_at@),
        r.is_flat(),
{
    let (from_username, from_display_name) = sender_names(state, id);
    ServerEvent::SendMessage {
        payload: payload.clone(),
        from_id: id,
        from_username,
        from_display_name,
        created_at: created_at.clone(),
        edited_at: None,
    }
}

/// What `handle_send_message` does: its result and its effect.
pub open spec fn send_message_post(st: AppState, id: u128, message: String, created_at: String, r: Seq<Action>) -> bool {
    &&& (r.len() == 1)
    &&& (target_of(r[0]) == id)
    &&& (r[0] is Deliver)
    &&& (is_message_from(event_of(r[0]), st, id, message@, created_at@))
}

/// A chat message, stamped with its sender and `created_at`, goes back to
/// the sender's own channel alone.
pub fn handle_send_message(state: &AppState, id: u128, message: &String, created_at: &String) -> (r:
    Vec<Action>)
    requires
        state.wf(),
    ensures
        send_message_post(*state, id, *message, *created_at, r@),
{
    let ev = stamped_message(state, id, message, created_at);
    let mut r: Vec<Action> = Vec::new();
    r.push(Action::Deliver { target: id, event: ev });
    r
}

/// What `handle_server_broadcast` does: its result and its effect.
pub open spec fn server_broadcast_post(st: AppState, id: u128, payload: String, created_at: String, r: Seq<Action>) -> bool {
    &&& (fanout( r, (|t: u128| st.live(t) && t != id), (|e: ServerEvent| is_message_from(e, st, id, payload@, created_at@)), ))
    &&& (!delivered(r, id))
}

/// A chat message, stamped with its sender and `created_at`, goes to every
/// other live session; never to the sender.
pub fn handle_server_broadcast(
    state: &AppState,
    id: u128,
    payload: &String,
    created_at: &String,
) -> (r: Vec<Action>)
    requires
        state.wf(),
    ensures
        server_broadcast_post(*state, id, *payload, *created_at, r@),
{
    let ev = stamped_message(state, id, payload, created_at);
    let all = state.session_ids();
    let targets = vec_without(&all, id);
    proof {
        assert forall|t: u128| all@.contains(t) <==> state.live(t) by {
            if state.live(t) {
                let j = choose|j: int| 0 <= j < state.users.len() && #[trigger] state.users@[j].session_id == t;
                assert(all@[j] == t);
            }
            if all@.contains(t) {
                let j = choose|j: int| 0 <= j < all.len() && all@[j] == t;
                assert(state.users@[j].session_id == t);
            }
        }
        assert(all@.no_duplicates()) by {
            assert forall|a: int, b: int| 0 <= a < b < all.len() implies all@[a] != all@[b] by {
                assert(state.users@[a].session_id != state.users@[b].session_id);
            }
        }
    }
    let r = deliver_all(&targets, &ev);
    proof {
        lemma_deliver_all_fanout(
            r@,
            targets@,
            ev,
            |t: u128| state.live(t) && t != id,
            |e: ServerEvent| is_message_from(e, *state, id, payload@, created_at@),
        );
        lemma_fanout_excludes(r@, |t: u128| state.live(t) && t != id, |e: ServerEvent| is_message_from(e, *state, id, payload@, created_at@), id);
    }
    r
}

/// A fan-out to sessions that exclude `x` delivers nothing to `x`.
pub proof fn lemma_fanout_excludes(
    out: Seq<Action>,
    to: spec_fn(u128) -> bool,
    ev: spec_fn(ServerEvent) -> bool,
    x: u128,
)
    requires
        fanout(out, to, ev),
        !to(x),
    ensures
        !delivered(out, x),
{
    if delivered(out, x) {
        let q = choose|q: int| 0 <= q < out.len() && #[trigger] delivers_to(out[q], x);
        assert(to(target_of(out[q])));
    }
}

/// What `handle_room_broadcast` does: its result and its effect.
pub open spec fn room_broadcast_post(st: AppState, id: u128, payload: String, room_name: String, created_at: String, r: Seq<Action>) -> bool {
    &&& (r.len() >= 1)
    &&& (r[0] == (Action::PersistMessage { room_name: r[0]->PersistMessage_room_name, user_id: if st.live(id) { st.session(id).db_user_id } else { 0 }, content: r[0]->PersistMessage_content, }))
    &&& (r[0]->PersistMessage_room_name@ == room_name@)
    &&& (r[0]->PersistMessage_content@ == payload@)
    &&& (fanout( r.drop_first(), (|t: u128| st.in_room(room_name@, t) && t != id), (|e: ServerEvent| is_message_from(e, st, id, payload@, created_at@)), ))
    &&& (!delivered(r, id))
}

/// A chat message to room `room_name`: the directory is asked to store it,
/// then it goes to every other member of the room; never to the sender.
pub fn handle_room_broadcast(
    state: &AppState,
    id: u128,
    payload: &String,
    room_name: &String,
    created_at: &String,
) -> (r: Vec<Action>)
    requires
        state.wf(),
    ensures
        room_broadcast_post(*state, id, *payload, *room_name, *created_at, r@),
{
    let ev = stamped_message(state, id, payload, created_at);
    let db_id: i32 = match state.find_user(id) {
        Some(i) => {
            proof {
                state.lemma_index_of(i as int);
            }
            state.users[i].db_user_id
        },
        None => 0,
    };
    let members = state.room_members(room_name);
    let targets = vec_without(&members, id);
    let mut batch = deliver_all(&targets, &ev);
    proof {
        lemma_deliver_all_fanout(
            batch@,
            targets@,
            ev,
            |t: u128| state.in_room(room_name@, t) && t != id,
            |e: ServerEvent| is_message_from(e, *state, id, payload@, created_at@),
        );
        lemma_fanout_excludes(batch@, |t: u128| state.in_room(room_name@, t) && t != id, |e: ServerEvent| is_message_from(e, *state, id, payload@, created_at@), id);
    }
    let ghost bv = batch@;
    let mut r: Vec<Action> = Vec::new();
    r.push(Action::PersistMessage { room_name: room_name.clone(), user_id: db_id, content: payload.clone() });
    r.append(&mut batch);
    proof {
        assert(r@.drop_first() == bv);
        if delivered(r@, id) {
            let q = choose|q: int| 0 <= q < r.len() && #[trigger] delivers_to(r@[q], id);
            assert(q > 0);
            assert(delivers_to(bv[q - 1], id));
        }
    }
    r
}

/// `a` is the error `code` / `message` for session `t`.
pub open spec fn is_error_to(a: Action, t: u128, code: Seq<char>, message: Seq<char>) -> bool {
    match a {
        Action::Deliver { target, event: ServerEvent::Error { code: c, message: m } } => target == t
            && c@ == code && m@ == message,
        _ => false,
    }
}

/// Some live session of `st` has username `name`.
pub open spec fn username_live(st: AppState, name: Seq<char>) -> bool {
    exists|j: int| 0 <= j < st.users.len() && #[trigger] st.users@[j].username@ == name
}

/// What `handle_private_message` does: its result and its effect.
pub open spec fn private_message_post(st: AppState, id: u128, payload: String, target_username: String, created_at: String, r: Seq<Action>) -> bool {
    &&& (r.len() == 1)
    &&& (trimmed(payload@).len() == 0 ==> is_error_to( r[0], id, "400"@, "You cannot send an empty message"@, ))
    &&& (trimmed(payload@).len() != 0 && st.username_of(id) == target_username@ ==> is_error_to( r[0], id, "400"@, "You cannot send a private message to yourself"@, ))
    &&& (trimmed(payload@).len() != 0 && st.username_of(id) != target_username@ && !username_live( st, target_username@, ) ==> is_error_to(r[0], id, "400"@, "User is offline or not found"@))
    &&& (trimmed(payload@).len() != 0 && st.username_of(id) != target_username@ && username_live( st, target_username@, ) ==> ({ let t = target_of(r[0]); &&& r[0] is Deliver &&& t != id &&& st.live(t) &&& st.session(t).username@ == target_username@ &&& event_of(r[0]) matches ServerEvent::PrivateMessage { from_id, from_username, from_display_name, payload: p, created_at: c, edited_at, } && from_id == id && from_username@ == st.username_of(id) && from_display_name@ == st.display_name_of(id) && p@ == payload@ && c@ == created_at@ && edited_at is None }))
}

/// A direct message from session `id` to the session named
/// `target_username`. A blank text, a message to oneself, or a name that no
/// live session has yields an error to the sender alone; otherwise the
/// stamped message goes to the first session with that name alone, which is
/// never the sender.
pub fn handle_private_message(
    state: &AppState,
    id: u128,
    payload: &String,
    target_username: &String,
    created_at: &String,
) -> (r: Vec<Action>)
    requires
        state.wf(),
    ensures
        private_message_post(*state, id, *payload, *target_username, *created_at, r@),
{
    let mut r: Vec<Action> = Vec::new();
    let trimmed_payload = trim(payload.as_str());
    if trimmed_payload.unicode_len() == 0 {
        r.push(send_error(id, "400", "You cannot send an empty message"));
        return r;
    }
    let (from_username, from_display_name) = sender_names(state, id);
    if from_username == *target_username {
        r.push(send_error(id, "400", "You cannot send a private message to yourself"));
        return r;
    }
    match state.find_by_username(target_username) {
        Some(j) => {
            proof {
                state.lemma_index_of(j as int);
                if state.users@[j as int].session_id == id {
                    assert(state.username_of(id) == target_username@);
                }
            }
            r.push(
                Action::Deliver {
                    target: state.users[j].session_id,
                    event: ServerEvent::PrivateMessage {
                        from_id: id,
                        from_username,
                        from_display_name,
                        payload: payload.clone(),
                        created_at: created_at.clone(),
                        edited_at: None,
                    },
                },
            );
        },
        None => {
            r.push(send_error(id, "400", "User is offline or not found"));
        },
    }
    r
}

/// `a` is a request for the history of room `room` for session `t`.
pub open spec fn is_history_request(a: Action, t: u128, room: Seq<char>) -> bool {
    match a {
        Action::FetchRoomMessages { target, room_name } => target == t && room_name@ == room,
        _ => false,
    }
}

/// What `handle_join_room` does: its result and its effect.
pub open spec fn join_room_post(s0: AppState, s1: AppState, id: u128, room_name: String, r: Seq<Action>) -> bool {
    &&& (forall|rm: Seq<char>, x: u128| #[trigger] s1.in_room(rm, x) <==> (s0.in_room(rm, x) || (s0.live(id) && rm == room_name@ && x == id)))
    &&& (forall|x: u128| #[trigger] s1.live(x) == s0.live(x))
    &&& (!s0.live(id) ==> r.len() == 0)
    &&& (s0.live(id) ==> s1.session(id).status@ == "online"@)
    &&& (s0.live(id) ==> r.len() > 0 && is_history_request(r.last(), id, room_name@))
    &&& (s0.live(id) ==> forall|t: u128|
        #[trigger] s1.in_room(room_name@, t) ==> got(r, t, |e: ServerEvent| is_room_listing(e, s1, room_name@))
            && got(r, t, |e: ServerEvent| is_user_joined(e, room_name@, s1.username_of(id))))
}

/// Session `id` joins room `room_name` (both sides of the index) and goes
/// online; its presence is announced, every member (the joiner included)
/// gets the room's member list and a join notice, and the room's history is
/// requested for the joiner. Nothing happens when `id` is not live.
pub fn handle_join_room(state: &mut AppState, id: u128, room_name: &String) -> (r: Vec<Action>)
    requires
        old(state).wf(),
    ensures
        final(state).wf(),
        join_room_post(*old(state), *final(state), id, *room_name, r@),
{
    let ghost s0 = *state;
    let i = match state.find_user(id) {
        Some(i) => i,
        None => {
            return Vec::new();
        },
    };
    state.join_room(room_name, id);
    let ghost s1 = *state;
    proof {
        lemma_same_ids(s1, s0);
    }
    let online = String::from_str("online");
    let mut out = broadcast_status_update(id, &online, state);
    proof {
        state.lemma_index_of(i as int);
        assert forall|rm: Seq<char>, x: u128| #[trigger] state.in_room(rm, x) == s1.in_room(rm, x) by {}
        lemma_same_ids(*state, s1);
    }
    let mut updates = broadcast_room_update(room_name, state);
    let ghost uv = updates@;
    let ghost o0 = out@;
    out.append(&mut updates);
    let mut joined = broadcast_user_joined(room_name, id, state);
    let ghost jv = joined@;
    let ghost o1 = out@;
    out.append(&mut joined);
    let ghost o2 = out@;
    out.push(Action::FetchRoomMessages { target: id, room_name: room_name.clone() });
    proof {
        let tail = seq![out@.last()];
        assert(o1 == o0 + uv);
        assert(o2 == o1 + jv);
        assert(out@ == o2 + tail);
        let pl = |e: ServerEvent| is_room_listing(e, *state, room_name@);
        let pj = |e: ServerEvent| is_user_joined(e, room_name@, state.username_of(id));
        assert forall|t: u128| state.in_room(room_name@, t) implies got(out@, t, pl) && got(
            out@,
            t,
            pj,
        ) by {
            lemma_room_fanout_got(uv, *state, room_name@, t);
            lemma_got_prepends(o0, uv, t, pl);
            lemma_got_extends(o1, jv, t, pl);
            lemma_got_extends(o2, tail, t, pl);
            lemma_fanout_got(jv, |x: u128| state.in_room(room_name@, x), pj, t);
            lemma_got_prepends(o1, jv, t, pj);
            lemma_got_extends(o2, tail, t, pj);
        }
    }
    out
}

/// What `handle_leave_room` does: its result and its effect.
pub open spec fn leave_room_post(s0: AppState, s1: AppState, id: u128, room_name: String, r: Seq<Action>) -> bool {
    &&& (forall|rm: Seq<char>, x: u128| #[trigger] s1.in_room(rm, x) <==> (s0.in_room(rm, x) && !(rm == room_name@ && x == id)))
    &&& (forall|x: u128| #[trigger] s1.live(x) == s0.live(x))
    &&& (room_update_fanout(r, s1, room_name@))
    &&& (same_sessions(s0, s1))
    &&& (s1.profile_subscribers@ == s0.profile_subscribers@)
}

/// Session `id` leaves room `room_name` (both sides of the index; the room
/// goes once empty) and the remaining members get the new member list.
/// Leaving twice has the effect of leaving once.
pub fn handle_leave_room(state: &mut AppState, id: u128, room_name: &String) -> (r: Vec<Action>)
    requires
        old(state).wf(),
    ensures
        final(state).wf(),
        leave_room_post(*old(state), *final(state), id, *room_name, r@),
{
    let ghost s0 = *state;
    state.leave_room(room_name, id);
    proof {
        lemma_same_ids(*state, s0);
    }
    broadcast_room_update(room_name, state)
}

/// Every room of the index with its member count, in index order.
pub fn room_list(state: &AppState) -> (r: Vec<RoomListEntry>)
    requires
        state.wf(),
    ensures
        r.len() == state.rooms.len(),
        forall|k: int|
            0 <= k < r.len() ==> #[trigger] r@[k].name@ == state.rooms@[k].name@ && r@[k].count
                == state.rooms@[k].members.len(),
{
    let mut r: Vec<RoomListEntry> = Vec::new();
    let mut k: usize = 0;
    while k < state.rooms.len()
        invariant
            k <= state.rooms.len(),
            r.len() == k,
            forall|q: int|
                0 <= q < k ==> #[trigger] r@[q].name@ == state.rooms@[q].name@ && r@[q].count
                    == state.rooms@[q].members.len(),
        decreases state.rooms.len() - k,
    {
        r.push(
            RoomListEntry { name: state.rooms[k].name.clone(), count: state.rooms[k].members.len() },
        );
        k = k + 1;
    }
    r
}

/// What `handle_get_room_list` does: its result and its effect.
pub open spec fn room_list_post(st: AppState, id: u128, r: Seq<Action>) -> bool {
    &&& (r.len() == 1)
    &&& (r[0] matches Action::Deliver { target, event: ServerEvent::RoomList { rooms } } && target == id && rooms.len() == st.rooms.len() && forall|k: int| 0 <= k < rooms.len() ==> #[trigger] rooms@[k].name@ == st.rooms@[k].name@ && rooms@[k].count == st.rooms@[k].members.len())
}

/// The room list goes to the requester alone.
pub fn handle_get_room_list(state: &AppState, id: u128) -> (r: Vec<Action>)
    requires
        state.wf(),
    ensures
        room_list_post(*state, id, r@),
{
    let rooms = room_list(state);
    let mut r: Vec<Action> = Vec::new();
    r.push(Action::Deliver { target: id, event: ServerEvent::RoomList { rooms } });
    r
}

/// What `handle_get_username_from_displayname` does: its result and its effect.
pub open spec fn username_lookup_post(st: AppState, id: u128, name: String, r: Seq<Action>) -> bool {
    &&& (r.len() == 1)
    &&& (r[0] matches Action::Deliver { target, event: ServerEvent::RecieveUsername { username } } && target == id && (if exists|j: int| 0 <= j < st.users.len() && #[trigger] st.users@[j].display_name@ == name@ { exists|j: int| 0 <= j < st.users.len() && #[trigger] st.users@[j].display_name@ == name@ && username@ == st.users@[j].username@ } else { username@ == "Unknown"@ }))
}

/// The username of the first session whose display name is `name`, or
/// `Unknown`, goes to the requester alone.
pub fn handle_get_username_from_displayname(state: &AppState, id: u128, name: &String) -> (r: Vec<
    Action,
>)
    requires
        state.wf(),
    ensures
        username_lookup_post(*state, id, *name, r@),
{
    let username = match state.find_by_display_name(name) {
        Some(j) => state.users[j].username.clone(),
        None => String::from_str("Unknown"),
    };
    let mut r: Vec<Action> = Vec::new();
    r.push(Action::Deliver { target: id, event: ServerEvent::RecieveUsername { username } });
    r
}

/// What `handle_get_room_users` does: its result and its effect.
pub open spec fn room_users_post(id: u128, room_name: String, r: Seq<Action>) -> bool {
    &&& (r.len() == 1)
    &&& (r[0] matches Action::FetchRoomMembers { target, room_name: n } && target == id && n@ == room_name@)
}

/// A request for room `room_name`'s member list from the directory, for
/// the requester.
pub fn handle_get_room_users(id: u128, room_name: &String) -> (r: Vec<Action>)
    ensures
        room_users_post(id, *room_name, r@),
{
    let mut r: Vec<Action> = Vec::new();
    r.push(Action::FetchRoomMembers { target: id, room_name: room_name.clone() });
    r
}

/// `s` names one of the four statuses once lowercased.
pub open spec fn valid_status(s: Seq<char>) -> bool {
    let l = lowered(s);
    l == "online"@ || l == "away"@ || l == "busy"@ || l == "offline"@
}

/// Whether the already lowercased `l` is one of the four status names.
pub fn is_status_name(l: &String) -> (r: bool)
    ensures
        r == (l@ == "online"@ || l@ == "away"@ || l@ == "busy"@ || l@ == "offline"@),
{
    let online = String::from_str("online");
    let away = String::from_str("away");
    let busy = String::from_str("busy");
    let offline = String::from_str("offline");
    *l == online || *l == away || *l == busy || *l == offline
}

/// Whether `status` names one of the four statuses, in any case.
pub fn is_valid_status(status: &String) -> (r: bool)
    ensures
        r == valid_status(status@),
{
    let l = lowercase(status.as_str());
    is_status_name(&l)
}

/// What `handle_update_status` does: its result and its effect.
pub open spec fn update_status_post(s0: AppState, s1: AppState, id: u128, status: String, r: Seq<Action>) -> bool {
    &&& (forall|x: u128| #[trigger] s1.live(x) == s0.live(x))
    &&& (!valid_status(status@) ==> s1 == s0 && r.len() == 1 && is_error_to( r[0], id, "400"@, "Invalid status. Use: online, away, busy, offline"@, ))
    &&& (valid_status(status@) && !s0.live(id) ==> r.len() == 0)
    &&& (valid_status(status@) && s0.live(id) ==> s1.session(id).status@ == status@ && r.len() > 0 && r.last() == (Action::PersistStatus { user_id: s0.session(id).db_user_id, status: r.last()->PersistStatus_status, }) && r.last()->PersistStatus_status@ == status@)
    &&& (valid_status(status@) ==> forall|q: int| 0 <= q < r.len() - 1 ==> presence_delivery(#[trigger] r[q], s0, id, status@))
    &&& (valid_status(status@) ==> forall|t: u128| s0.live(id) && t != id && shares_room(s0, id, t) ==> got( r, t, |e: ServerEvent| is_status_changed(e, s0.session(id).username@, status@), ))
    &&& (valid_status(status@) ==> forall|t: u128| s0.live(id) && s0.subscribed(s0.session(id).db_user_id, t) ==> got(r, t, |e: ServerEvent| is_status_update(e, status@)))
    &&& (valid_status(status@) && s0.live(id) ==> exists|k: int|
        0 <= k <= r.len() && fanout(
            r.subrange(0, k),
            |t: u128| s0.subscribed(s0.session(id).db_user_id, t),
            |e: ServerEvent| is_status_update(e, status@),
        ) && forall|q: int| k <= q < r.len() ==> !(event_of(#[trigger] r[q]) is UserStatusUpdate))
}

/// A status change of session `id`: refused with an error to the sender
/// unless the status names one of the four, in any case; otherwise it is
/// set as given, announced to the account's subscribers and the session's
/// room peers, and the directory is asked to store it.
pub fn handle_update_status(state: &mut AppState, id: u128, status: &String) -> (r: Vec<Action>)
    requires
        old(state).wf(),
    ensures
        final(state).wf(),
        update_status_post(*old(state), *final(state), id, *status, r@),
{
    let ghost s0 = *state;
    if !is_valid_status(status) {
        let mut r: Vec<Action> = Vec::new();
        r.push(send_error(id, "400", "Invalid status. Use: online, away, busy, offline"));
        return r;
    }
    let i = match state.find_user(id) {
        Some(i) => i,
        None => {
            return Vec::new();
        },
    };
    proof {
        s0.lemma_index_of(i as int);
    }
    let account = state.users[i].db_user_id;
    let mut out = broadcast_status_update(id, status, state);
    proof {
        assert forall|x: u128| #[trigger] state.live(x) == s0.live(x) by {
            if state.live(x) {
                let j = choose|j: int| 0 <= j < state.users.len() && #[trigger] state.users@[j].session_id == x;
                if s0.users@[j].session_id != id {
                    assert(s0.users@[j] == state.users@[j]);
                }
            }
            if s0.live(x) {
                let j = choose|j: int| 0 <= j < s0.users.len() && #[trigger] s0.users@[j].session_id == x;
                if x != id {
                    assert(s0.users@[j] == state.users@[j]);
                }
            }
        }
    }
    let ghost o0 = out@;
    proof {
        state.lemma_index_of(i as int);
    }
    out.push(persist_status_to_db(id, status, state));
    proof {
        let tail = seq![out@.last()];
        assert(out@ == o0 + tail);
        assert forall|t: u128| t != id && shares_room(s0, id, t) implies got(
            out@,
            t,
            |e: ServerEvent| is_status_changed(e, s0.session(id).username@, status@),
        ) by {
            lemma_got_extends(o0, tail, t, |e: ServerEvent| is_status_changed(e, s0.session(id).username@, status@));
        }
        assert forall|t: u128| s0.subscribed(account, t) implies got(
            out@,
            t,
            |e: ServerEvent| is_status_update(e, status@),
        ) by {
            lemma_got_extends(o0, tail, t, |e: ServerEvent| is_status_update(e, status@));
        }
        let k = choose|k: int|
            0 <= k <= o0.len() && fanout(
                o0.subrange(0, k),
                |t: u128| s0.subscribed(s0.session(id).db_user_id, t),
                |e: ServerEvent| is_status_update(e, status@),
            ) && forall|q: int|
                k <= q < o0.len() ==> is_status_changed(
                    event_of(#[trigger] o0[q]),
                    s0.session(id).username@,
                    status@,
                );
        assert(out@.subrange(0, k) == o0.subrange(0, k));
        assert forall|q: int| k <= q < out.len() implies !(event_of(#[trigger] out@[q]) is UserStatusUpdate) by {
            if q < o0.len() {
                assert(out@[q] == o0[q]);
                assert(is_status_changed(event_of(o0[q]), s0.session(id).username@, status@));
            }
        }
        assert forall|q: int| 0 <= q < out.len() - 1 implies presence_delivery(
            #[trigger] out@[q],
            s0,
            id,
            status@,
        ) by {
            assert(out@[q] == o0[q]);
        }
    }
    out
}

/// What `handle_subscribe` does: its result and its effect.
pub open spec fn subscribe_post(s0: AppState, s1: AppState, id: u128, account: i32, r: Seq<Action>) -> bool {
    &&& (s1.users == s0.users)
    &&& (s1.rooms == s0.rooms)
    &&& (forall|a: i32, x: u128| #[trigger] s1.subscribed(a, x) <==> (s0.subscribed(a, x) || (s0.live(id) && a == account && x == id)))
    &&& (r.len() == 1)
    &&& (r[0] matches Action::Deliver { target, event: ServerEvent::UserStatusUpdate { status } } && target == id && (if exists|j: int| 0 <= j < s0.users.len() && #[trigger] s0.users@[j].db_user_id == account { exists|j: int| 0 <= j < s0.users.len() && #[trigger] s0.users@[j].db_user_id == account && status@ == s0.users@[j].status@ } else { status@ == "offline"@ }))
}

/// Session `id` follows the presence of `account` and at once gets the
/// status of the first live session of that account, or `offline`.
pub fn handle_subscribe(state: &mut AppState, id: u128, account: i32) -> (r: Vec<Action>)
    requires
        old(state).wf(),
    ensures
        final(state).wf(),
        subscribe_post(*old(state), *final(state), id, account, r@),
{
    state.subscribe(account, id);
    let status = match state.find_by_account(account) {
        Some(j) => state.users[j].status.clone(),
        None => String::from_str("offline"),
    };
    let mut r: Vec<Action> = Vec::new();
    r.push(Action::Deliver { target: id, event: ServerEvent::UserStatusUpdate { status } });
    r
}

/// What `handle_unsubscribe` does: its result and its effect.
pub open spec fn unsubscribe_post(s0: AppState, s1: AppState, id: u128, account: i32) -> bool {
    &&& (s1.users == s0.users)
    &&& (s1.rooms == s0.rooms)
    &&& (forall|a: i32, x: u128| #[trigger] s1.subscribed(a, x) <==> (s0.subscribed(a, x) && !(a == account && x == id)))
}

/// Session `id` stops following the presence of `account`. Doing it twice
/// has the effect of once.
pub fn handle_unsubscribe(state: &mut AppState, id: u128, account: i32)
    requires
        old(state).wf(),
    ensures
        final(state).wf(),
        unsubscribe_post(*old(state), *final(state), id, account),
{
    state.unsubscribe(account, id);
}

/// What `handle_pong` does: its result and its effect.
pub open spec fn pong_post(s0: AppState, s1: AppState, id: u128, now: u64) -> bool {
    &&& (s1.rooms == s0.rooms)
    &&& (s1.profile_subscribers == s0.profile_subscribers)
    &&& (forall|x: u128| #[trigger] s1.live(x) == s0.live(x))
    &&& (s0.live(id) ==> s1.session(id).last_heartbeat == now)
}

/// Records `now` as the last heartbeat of session `id`.
pub fn handle_pong(state: &mut AppState, id: u128, now: u64)
    requires
        old(state).wf(),
    ensures
        final(state).wf(),
        pong_post(*old(state), *final(state), id, now),
{
    let ghost s0 = *state;
    state.touch_heartbeat(id, now);
    proof {
        lemma_same_ids(*state, s0);
        if s0.live(id) {
            let j = s0.index_of(id);
            s0.lemma_index_of(j);
            state.lemma_index_of(j);
        }
    }
}

/// `e` says a display name changed from `old_name` to `new_name`.
pub open spec fn is_name_changed(e: ServerEvent, old_name: Seq<char>, new_name: Seq<char>) -> bool {
    match e {
        ServerEvent::DisplaynameChanged { old_name: o, new_name: n } => o@ == old_name && n@
            == new_name,
        _ => false,
    }
}

/// What `handle_change_displayname` does: its result and its effect.
pub open spec fn change_displayname_post(s0: AppState, s1: AppState, id: u128, display_name: String, r: Seq<Action>) -> bool {
    &&& (s1.rooms == s0.rooms)
    &&& (s1.profile_subscribers == s0.profile_subscribers)
    &&& (forall|x: u128| #[trigger] s1.live(x) == s0.live(x))
    &&& (trimmed(display_name@).len() == 0 ==> s1 == s0 && r.len() == 1 && is_error_to(r[0], id, "400"@, "Display name cannot be empty"@))
    &&& (trimmed(display_name@).len() != 0 && (!s0.live(id) || s0.session( id, ).display_name@ == display_name@) ==> s1 == s0 && r.len() == 0)
    &&& (trimmed(display_name@).len() != 0 && s0.live(id) && s0.session( id, ).display_name@ != display_name@ ==> ({ let old_name = s0.session(id).display_name@; let account = s0.session(id).db_user_id; &&& s1.session(id).display_name@ == display_name@ &&& r.len() >= 2 &&& r[0] matches Action::UpdateDisplayname { user_id, display_name: n } && user_id == account && n@ == display_name@ &&& target_of(r.last()) == id && r.last() is Deliver && is_name_changed( event_of(r.last()), old_name, display_name@, ) &&& forall|t: u128| s0.subscribed(account, t) ==> got( r, t, |e: ServerEvent| is_name_changed(e, old_name, display_name@), ) &&& forall|rm: Seq<char>, t: u128| s0.in_room(rm, id) && #[trigger] s0.in_room(rm, t) ==> got( r, t, |e: ServerEvent| is_room_listing(e, s1, rm), ) }))
}

/// A display-name change of session `id`. A blank name yields an error to
/// the sender; an unknown session or an unchanged name does nothing.
/// Otherwise the directory is asked to store the name, the session takes
/// it, the account's subscribers hear of it, every member of each of the
/// session's rooms gets the room's member list, and the sender hears of it
/// last.
pub fn handle_change_displayname(state: &mut AppState, id: u128, display_name: &String) -> (r: Vec<
    Action,
>)
    requires
        old(state).wf(),
    ensures
        final(state).wf(),
        change_displayname_post(*old(state), *final(state), id, *display_name, r@),
{
    let ghost s0 = *state;
    let mut r: Vec<Action> = Vec::new();
    let trimmed_name = trim(display_name.as_str());
    if trimmed_name.unicode_len() == 0 {
        r.push(send_error(id, "400", "Display name cannot be empty"));
        return r;
    }
    let i = match state.find_user(id) {
        Some(i) => i,
        None => {
            return r;
        },
    };
    proof {
        s0.lemma_index_of(i as int);
    }
    if state.users[i].display_name == *display_name {
        return r;
    }
    let account = state.users[i].db_user_id;
    let old_name = state.users[i].display_name.clone();
    r.push(Action::UpdateDisplayname { user_id: account, display_name: display_name.clone() });
    state.set_display_name(id, display_name);
    let ghost s1 = *state;
    proof {
        state.lemma_index_of(i as int);
        lemma_same_ids(*state, s0);
        assert forall|rm: Seq<char>, x: u128| #[trigger] state.in_room(rm, x) == s0.in_room(rm, x) by {}
        assert forall|a: i32, x: u128| #[trigger] state.subscribed(a, x) == s0.subscribed(a, x) by {}
    }
    let subs = state.subscribers_of(account);
    let ev = ServerEvent::DisplaynameChanged { old_name: old_name.clone(), new_name: display_name.clone() };
    let mut batch = deliver_all(&subs, &ev);
    let ghost r0 = r@;
    let ghost bv = batch@;
    r.append(&mut batch);
    proof {
        assert(r@ == r0 + bv);
        assert forall|t: u128| s0.subscribed(account, t) implies got(
            r@,
            t,
            |e: ServerEvent| is_name_changed(e, old_name@, display_name@),
        ) by {
            assert(subs@.contains(t));
            let q = choose|q: int| 0 <= q < subs.len() && subs@[q] == t;
            assert(r@[1 + q] == bv[q]);
            assert(delivers_to(r@[1 + q], t));
        }
    }
    let mut t: usize = 0;
    while t < state.users[i].rooms.len()
        invariant
            *state == s1,
            state.wf(),
            s0.wf(),
            i < state.users.len(),
            i < s0.users.len(),
            state.users@[i as int].session_id == id,
            s0.users@[i as int].session_id == id,
            state.users@[i as int].rooms == s0.users@[i as int].rooms,
            forall|rm: Seq<char>, x: u128| #[trigger] state.in_room(rm, x) == s0.in_room(rm, x),
            t <= s0.users@[i as int].rooms.len(),
            r.len() >= 1,
            r@[0] == r0[0],
            forall|x: u128|
                s0.subscribed(account, x) ==> got(
                    r@,
                    x,
                    |e: ServerEvent| is_name_changed(e, old_name@, display_name@),
                ),
            forall|x: u128, q: int|
                0 <= q < t && #[trigger] s0.in_room(s0.users@[i as int].rooms@[q]@, x) ==> got(
                    r@,
                    x,
                    |e: ServerEvent| is_room_listing(e, s1, s0.users@[i as int].rooms@[q]@),
                ),
        decreases s0.users@[i as int].rooms.len() - t,
    {
        let mut batch = broadcast_room_update(&state.users[i].rooms[t], state);
        let ghost ra = r@;
        let ghost bv = batch@;
        let ghost rname = s0.users@[i as int].rooms@[t as int]@;
        r.append(&mut batch);
        proof {
            assert(r@ == ra + bv);
            assert forall|x: u128| s0.subscribed(account, x) implies got(
                r@,
                x,
                |e: ServerEvent| is_name_changed(e, old_name@, display_name@),
            ) by {
                lemma_got_extends(ra, bv, x, |e: ServerEvent| is_name_changed(e, old_name@, display_name@));
            }
            assert forall|x: u128, q: int|
                0 <= q < t + 1 && #[trigger] s0.in_room(s0.users@[i as int].rooms@[q]@, x) implies got(
                r@,
                x,
                |e: ServerEvent| is_room_listing(e, s1, s0.users@[i as int].rooms@[q]@),
            ) by {
                if q < t {
                    lemma_got_extends(ra, bv, x, |e: ServerEvent| is_room_listing(e, s1, s0.users@[i as int].rooms@[q]@));
                } else {
                    assert(state.in_room(rname, x));
                    assert(delivered(bv, x));
                    let w = choose|w: int| 0 <= w < bv.len() && #[trigger] delivers_to(bv[w], x);
                    assert(room_update_to(bv[w], target_of(bv[w]), *state, rname));
                    assert(is_room_listing(event_of(bv[w]), s1, rname));
                    assert(r@[ra.len() + w] == bv[w]);
                    assert(delivers_to(r@[ra.len() + w], x));
                }
            }
        }
        t = t + 1;
    }
    let ghost r2 = r@;
    r.push(
        Action::Deliver {
            target: id,
            event: ServerEvent::DisplaynameChanged { old_name, new_name: display_name.clone() },
        },
    );
    proof {
        let tail = seq![r@.last()];
        assert(r@ == r2 + tail);
        assert forall|x: u128| s0.subscribed(account, x) implies got(
            r@,
            x,
            |e: ServerEvent| is_name_changed(e, old_name@, display_name@),
        ) by {
            lemma_got_extends(r2, tail, x, |e: ServerEvent| is_name_changed(e, old_name@, display_name@));
        }
        assert forall|rm: Seq<char>, x: u128|
            s0.in_room(rm, id) && #[trigger] s0.in_room(rm, x) implies got(
            r@,
            x,
            |e: ServerEvent| is_room_listing(e, s1, rm),
        ) by {
            assert(has_room_of(s0.users@[i as int], rm));
            let q = choose|q: int|
                0 <= q < s0.users@[i as int].rooms.len() && #[trigger] s0.users@[i as int].rooms@[q]@ == rm;
            assert(s0.in_room(s0.users@[i as int].rooms@[q]@, x));
            lemma_got_extends(r2, tail, x, |e: ServerEvent| is_room_listing(e, s1, rm));
        }
    }
    r
}

/// What routing `event` from session `id` does, chat messages stamped
/// `created_at` and heartbeats timed `now`: nothing at all for a session
/// that is not live, and otherwise the effect and result of the event's
/// handler; the events that only read the registries leave them as they
/// were.
pub open spec fn routed(
    event: ClientEvent,
    s0: AppState,
    s1: AppState,
    id: u128,
    created_at: String,
    now: u64,
    r: Seq<Action>,
) -> bool {
    if !s0.live(id) {
        s1 == s0 && r.len() == 0
    } else {
        match event {
            ClientEvent::JoinRoom(room) => join_room_post(s0, s1, id, room, r),
            ClientEvent::SendMessage(m) => s1 == s0 && send_message_post(s0, id, m, created_at, r),
            ClientEvent::LeaveRoom(room) => leave_room_post(s0, s1, id, room, r),
            ClientEvent::ChangeDisplayname { display_name } => change_displayname_post(
                s0,
                s1,
                id,
                display_name,
                r,
            ),
            ClientEvent::PrivateMessage { payload, target_username } => s1 == s0
                && private_message_post(s0, id, payload, target_username, created_at, r),
            ClientEvent::ServerBroadcast { payload } => s1 == s0 && server_broadcast_post(
                s0,
                id,
                payload,
                created_at,
                r,
            ),
            ClientEvent::RoomBroadcast { payload, room_name } => s1 == s0 && room_broadcast_post(
                s0,
                id,
                payload,
                room_name,
                created_at,
                r,
            ),
            ClientEvent::GetUsernameFromDisplayname(name) => s1 == s0 && username_lookup_post(
                s0,
                id,
                name,
                r,
            ),
            ClientEvent::Pong => r.len() == 0 && pong_post(s0, s1, id, now),
            ClientEvent::GetRoomList => s1 == s0 && room_list_post(s0, id, r),
            ClientEvent::GetRoomUsers(room) => s1 == s0 && room_users_post(id, room, r),
            ClientEvent::UpdateStatus(status) => update_status_post(s0, s1, id, status, r),
            ClientEvent::SubscribeToProfile { user_id: account } => subscribe_post(
                s0,
                s1,
                id,
                account,
                r,
            ),
            ClientEvent::UnsubscribeFromProfile { user_id: account } => r.len() == 0
                && unsubscribe_post(s0, s1, id, account),
        }
    }
}

/// Routes one inbound event of session `user_id`, stamping chat messages
/// with `created_at`; `now` is the monotonic time in milliseconds. A
/// session that is no longer live is ignored.
pub fn route_client_event(
    event: ClientEvent,
    state: &mut AppState,
    user_id: u128,
    created_at: &String,
    now: u64,
) -> (r: Vec<Action>)
    requires
        old(state).wf(),
    ensures
        final(state).wf(),
        forall|x: u128| #[trigger] final(state).live(x) == old(state).live(x),
        routed(event, *old(state), *final(state), user_id, *created_at, now, r@),
{
    let ghost s0 = *state;
    if state.find_user(user_id).is_none() {
        return Vec::new();
    }
    match event {
        ClientEvent::JoinRoom(room_name) => handle_join_room(state, user_id, &room_name),
        ClientEvent::SendMessage(message) => handle_send_message(state, user_id, &message, created_at),
        ClientEvent::LeaveRoom(room_name) => handle_leave_room(state, user_id, &room_name),
        ClientEvent::PrivateMessage { payload, target_username } => handle_private_message(
            state,
            user_id,
            &payload,
            &target_username,
            created_at,
        ),
        ClientEvent::ServerBroadcast { payload } => handle_server_broadcast(
            state,
            user_id,
            &payload,
            created_at,
        ),
        ClientEvent::RoomBroadcast { payload, room_name } => handle_room_broadcast(
            state,
            user_id,
            &payload,
            &room_name,
            created_at,
        ),
        ClientEvent::GetRoomList => handle_get_room_list(state, user_id),
        ClientEvent::ChangeDisplayname { display_name } => handle_change_displayname(
            state,
            user_id,
            &display_name,
        ),
        ClientEvent::GetUsernameFromDisplayname(name) => handle_get_username_from_displayname(
            state,
            user_id,
            &name,
        ),
        ClientEvent::Pong => {
            handle_pong(state, user_id, now);
            Vec::new()
        },
        ClientEvent::GetRoomUsers(room_name) => handle_get_room_users(user_id, &room_name),
        ClientEvent::UpdateStatus(status) => handle_update_status(state, user_id, &status),
        ClientEvent::SubscribeToProfile { user_id: account } => handle_subscribe(
            state,
            user_id,
            account,
        ),
        ClientEvent::UnsubscribeFromProfile { user_id: account } => {
            handle_unsubscribe(state, user_id, account);
            Vec::new()
        },
    }
}

/// Routes one inbound event of session `user_id`, stamping chat messages
/// with the current UTC time, whatever that time reads; `now` is the
/// monotonic time in milliseconds.
pub fn handle_client_event(event: ClientEvent, state: &mut AppState, user_id: u128, now: u64) -> (r:
    Vec<Action>)
    requires
        old(state).wf(),
    ensures
        final(state).wf(),
        forall|x: u128| #[trigger] final(state).live(x) == old(state).live(x),
        exists|c: String| routed(event, *old(state), *final(state), user_id, c, now, r@),
{
    let created_at = utc_now_rfc3339();
    let r = route_client_event(event, state, user_id, &created_at, now);
    proof {
        assert(routed(event, *old(state), *state, user_id, created_at, now, r@));
    }
    r
}

/// The profile that the directory vouches for when a token is verified.
pub struct Identity {
    pub db_user_id: i32,
    pub username: String,
    pub display_name: String,
    pub avatar_url: Option<String>,
}

/// Registers a verified identity under a fresh random session id, online
/// and in no room, as of `now`. The new id was never registered before. The
/// draw can only be refused when some id was registered before; then
/// nothing changes and the result is `None`.
pub fn register(state: &mut AppState, identity: Identity, now: u64) -> (r: Option<u128>)
    requires
        old(state).wf(),
    ensures
        final(state).wf(),
        r is None ==> *final(state) == *old(state) && (old(state).users.len() > 0 || old(
            state,
        ).issued.len() > 0),
        r matches Some(id) ==> ({
            let u = final(state).session(id);
            &&& !old(state).live(id)
            &&& !old(state).issued@.contains(id)
            &&& final(state).issued@ == old(state).issued@.push(id)
            &&& final(state).live(id)
            &&& final(state).users@ == old(state).users@.push(u)
            &&& final(state).rooms == old(state).rooms
            &&& final(state).profile_subscribers == old(state).profile_subscribers
            &&& u.session_id == id
            &&& u.db_user_id == identity.db_user_id
            &&& u.username@ == identity.username@
            &&& u.display_name@ == identity.display_name@
            &&& u.avatar_url == identity.avatar_url
            &&& u.status@ == "online"@
            &&& u.rooms.len() == 0
            &&& u.joined_at == now
            &&& u.last_heartbeat == now
        }),
{
    let id = random_session_id();
    let Identity { db_user_id, username, display_name, avatar_url } = identity;
    if state.insert_session(id, db_user_id, username, display_name, avatar_url, now) {
        proof {
            state.lemma_index_of(state.users.len() - 1);
        }
        Some(id)
    } else {
        proof {
            if old(state).live(id) {
                let j = choose|j: int| 0 <= j < old(state).users.len() && #[trigger] old(state).users@[j].session_id == id;
            }
        }
        None
    }
}

/// The actions that bring a freshly registered session `id` online: its
/// presence is announced, the directory is asked to store it, and the
/// session is told its own id.
pub fn welcome(state: &mut AppState, id: u128) -> (r: Vec<Action>)
    requires
        old(state).wf(),
    ensures
        final(state).wf(),
        forall|x: u128| #[trigger] final(state).live(x) == old(state).live(x),
        old(state).live(id) ==> r.len() >= 2,
        old(state).live(id) ==> (r@.last() matches Action::Deliver {
            target,
            event: ServerEvent::IdentityAnnounced { payload },
        } && target == id && payload@ == uuid_text_of(id)),
        old(state).live(id) ==> (r@[r.len() - 2] matches Action::PersistStatus { user_id, status }
            && user_id == old(state).session(id).db_user_id && status@ == "online"@),
        forall|t: u128|
            old(state).live(id) && old(state).subscribed(old(state).session(id).db_user_id, t)
                ==> got(r@, t, |e: ServerEvent| is_status_update(e, "online"@)),
        forall|t: u128|
            old(state).live(id) && t != id && shares_room(*old(state), id, t) ==> got(
                r@,
                t,
                |e: ServerEvent| is_status_changed(e, old(state).session(id).username@, "online"@),
            ),
{
    let ghost s0 = *state;
    let i = match state.find_user(id) {
        Some(i) => i,
        None => {
            return Vec::new();
        },
    };
    proof {
        s0.lemma_index_of(i as int);
    }
    let account = state.users[i].db_user_id;
    let online = String::from_str("online");
    let mut out = broadcast_status_update(id, &online, state);
    proof {
        lemma_same_ids(*state, s0);
    }
    let ghost o0 = out@;
    out.push(Action::PersistStatus { user_id: account, status: online });
    let ghost o1 = out@;
    out.push(Action::Deliver { target: id, event: ServerEvent::IdentityAnnounced { payload: uuid_text(id) } });
    proof {
        let p1 = |e: ServerEvent| is_status_update(e, "online"@);
        let p2 = |e: ServerEvent| is_status_changed(e, s0.session(id).username@, "online"@);
        assert(o1 == o0 + seq![o1.last()]);
        assert(out@ == o1 + seq![out@.last()]);
        assert forall|t: u128| s0.subscribed(s0.session(id).db_user_id, t) implies got(out@, t, p1) by {
            lemma_got_extends(o0, seq![o1.last()], t, p1);
            lemma_got_extends(o1, seq![out@.last()], t, p1);
        }
        assert forall|t: u128| t != id && shares_room(s0, id, t) implies got(out@, t, p2) by {
            lemma_got_extends(o0, seq![o1.last()], t, p2);
            lemma_got_extends(o1, seq![out@.last()], t, p2);
        }
    }
    out
}

/// What came of a request to the directory whose reply carries `T`.
pub enum Fetched<T> {
    /// A success status and a readable body.
    Found(T),
    /// A success status and a body that could not be read.
    Unreadable,
    /// A status other than success.
    Refused,
    /// No answer.
    Unreachable,
}

/// The event for the requester once room `room_name`'s history request
/// ended: the messages, a 404 or 500 error, or nothing for a body that
/// could not be read.
pub fn fetch_room_messages(room_name: &String, outcome: Fetched<Vec<RoomMessage>>) -> (r: Option<
    ServerEvent,
>)
    ensures
        match outcome {
            Fetched::Found(m) => r matches Some(ServerEvent::LoadRoomMessages { room_name: n, messages })
                && n@ == room_name@ && messages@ == m@,
            Fetched::Unreadable => r is None,
            Fetched::Refused => r matches Some(ServerEvent::Error { code, message }) && code@
                == "404"@ && message@ == "Room not found"@,
            Fetched::Unreachable => r matches Some(ServerEvent::Error { code, message }) && code@
                == "500"@ && message@ == "Failed to fetch messages"@,
        },
{
    match outcome {
        Fetched::Found(messages) => Some(
            ServerEvent::LoadRoomMessages { room_name: room_name.clone(), messages },
        ),
        Fetched::Unreadable => None,
        Fetched::Refused => Some(
            ServerEvent::Error { code: "404".to_string(), message: "Room not found".to_string() },
        ),
        Fetched::Unreachable => Some(
            ServerEvent::Error {
                code: "500".to_string(),
                message: "Failed to fetch messages".to_string(),
            },
        ),
    }
}

/// The event for the requester once room `room_name`'s member-list request
/// ended: the members, a 404 or 500 error, or nothing for a body that could
/// not be read.
pub fn fetch_and_send_room_members(room_name: &String, outcome: Fetched<Vec<RoomUser>>) -> (r:
    Option<ServerEvent>)
    ensures
        match outcome {
            Fetched::Found(u) => r matches Some(ServerEvent::RoomUpdate { room_name: n, users })
                && n@ == room_name@ && users@ == u@,
            Fetched::Unreadable => r is None,
            Fetched::Refused => r matches Some(ServerEvent::Error { code, message }) && code@
                == "404"@ && message@ == "Room not found"@,
            Fetched::Unreachable => r matches Some(ServerEvent::Error { code, message }) && code@
                == "500"@ && message@ == "Failed to fetch room users"@,
        },
{
    match outcome {
        Fetched::Found(users) => Some(ServerEvent::RoomUpdate { room_name: room_name.clone(), users }),
        Fetched::Unreadable => None,
        Fetched::Refused => Some(
            ServerEvent::Error { code: "404".to_string(), message: "Room not found".to_string() },
        ),
        Fetched::Unreachable => Some(
            ServerEvent::Error {
                code: "500".to_string(),
                message: "Failed to fetch room users".to_string(),
            },
        ),
    }
}

} // verus!
