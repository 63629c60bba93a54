//! The session registry, the room index and the subscription index, kept
//! mutually consistent by the mutators of [`AppState`].

use vstd::prelude::*;

verus! {

/// One live, authenticated connection.
pub struct UserInfo {
    pub session_id: u128,
    pub db_user_id: i32,
    pub username: String,
    pub display_name: String,
    pub avatar_url: Option<String>,
    pub status: String,
    pub rooms: Vec<String>,
    pub joined_at: u64,
    pub last_heartbeat: u64,
}

/// A room of the room index: a name and its member sessions.
pub struct Room {
    pub name: String,
    pub members: Vec<u128>,
}

/// An entry of the subscription index: an account and the sessions that
/// follow its presence.
pub struct Subscription {
    pub account: i32,
    pub sessions: Vec<u128>,
}

/// The three registries of the relay.
pub struct AppState {
    pub users: Vec<UserInfo>,
    pub rooms: Vec<Room>,
    pub profile_subscribers: Vec<Subscription>,
    /// Every session id ever registered, so that none is used twice.
    pub issued: Vec<u128>,
}

/// Some string of `v` reads `r`.
pub open spec fn lists(v: Seq<String>, r: Seq<char>) -> bool {
    exists|t: int| 0 <= t < v.len() && #[trigger] v[t]@ == r
}

/// `u` lists room `r` among its rooms.
pub open spec fn has_room(u: UserInfo, r: Seq<char>) -> bool {
    lists(u.rooms@, r)
}

impl AppState {
    /// A session with this id is registered.
    pub open spec fn live(self, id: u128) -> bool {
        exists|i: int| 0 <= i < self.users.len() && #[trigger] self.users@[i].session_id == id
    }

    /// The registry position of live session `id`.
    pub open spec fn index_of(self, id: u128) -> int {
        choose|i: int| 0 <= i < self.users.len() && self.users@[i].session_id == id
    }

    /// The record of live session `id`.
    pub open spec fn session(self, id: u128) -> UserInfo {
        self.users@[self.index_of(id)]
    }

    /// The username of session `id`, or `Unknown` when it is not live.
    pub open spec fn username_of(self, id: u128) -> Seq<char> {
        if self.live(id) {
            self.session(id).username@
        } else {
            "Unknown"@
        }
    }

    /// The display name of session `id`, or `Unknown` when it is not live.
    pub open spec fn display_name_of(self, id: u128) -> Seq<char> {
        if self.live(id) {
            self.session(id).display_name@
        } else {
            "Unknown"@
        }
    }

    /// The room index lists `id` as a member of room `r`.
    pub open spec fn in_room(self, r: Seq<char>, id: u128) -> bool {
        exists|k: int|
            0 <= k < self.rooms.len() && #[trigger] self.rooms@[k].name@ == r
                && self.rooms@[k].members@.contains(id)
    }

    /// How many members room `r` has (0 when it has no entry).
    pub open spec fn room_size(self, r: Seq<char>) -> nat {
        if self.room_exists(r) {
            self.rooms@[choose|k: int| 0 <= k < self.rooms.len() && #[trigger] self.rooms@[k].name@ == r].members@.len()
        } else {
            0
        }
    }

    /// The room index holds an entry for room `r`.
    pub open spec fn room_exists(self, r: Seq<char>) -> bool {
        exists|k: int| 0 <= k < self.rooms.len() && #[trigger] self.rooms@[k].name@ == r
    }

    /// `id` is among the subscribers of `account`.
    pub open spec fn subscribed(self, account: i32, id: u128) -> bool {
        exists|k: int|
            0 <= k < self.profile_subscribers.len()
                && #[trigger] self.profile_subscribers@[k].account == account
                && self.profile_subscribers@[k].sessions@.contains(id)
    }

    /// The subscription index holds an entry for `account`.
    pub open spec fn has_subscribers(self, account: i32) -> bool {
        exists|k: int|
            0 <= k < self.profile_subscribers.len()
                && #[trigger] self.profile_subscribers@[k].account == account
    }

    pub open spec fn users_wf(self) -> bool {
        forall|i: int, j: int|
            0 <= i < j < self.users.len() ==> #[trigger] self.users@[i].session_id
                != #[trigger] self.users@[j].session_id
    }

    pub open spec fn rooms_wf(self) -> bool {
        &&& forall|k: int, l: int|
            0 <= k < l < self.rooms.len() ==> #[trigger] self.rooms@[k].name@ != #[trigger] self.rooms@[l].name@
        &&& forall|k: int|
            0 <= k < self.rooms.len() ==> (#[trigger] self.rooms@[k]).members.len() > 0
                && self.rooms@[k].members@.no_duplicates()
        &&& forall|k: int, m: u128|
            0 <= k < self.rooms.len() && #[trigger] self.rooms@[k].members@.contains(m)
                ==> self.live(m)
    }

    pub open spec fn subs_wf(self) -> bool {
        &&& forall|k: int, l: int|
            0 <= k < l < self.profile_subscribers.len() ==> #[trigger] self.profile_subscribers@[k].account
                != #[trigger] self.profile_subscribers@[l].account
        &&& forall|k: int|
            0 <= k < self.profile_subscribers.len() ==> (
            #[trigger] self.profile_subscribers@[k]).sessions.len() > 0
                && self.profile_subscribers@[k].sessions@.no_duplicates()
        &&& forall|k: int, m: u128|
            0 <= k < self.profile_subscribers.len()
                && #[trigger] self.profile_subscribers@[k].sessions@.contains(m) ==> self.live(m)
    }

    /// Each session's room set is exactly the set of rooms whose members
    /// include it.
    pub open spec fn consistent(self) -> bool {
        forall|i: int, r: Seq<char>|
            #![trigger has_room(self.users@[i], r)]
            #![trigger self.in_room(r, self.users@[i].session_id)]
            0 <= i < self.users.len() ==> (has_room(self.users@[i], r) <==> self.in_room(
                r,
                self.users@[i].session_id,
            ))
    }

    pub open spec fn wf(self) -> bool {
        &&& self.users_wf()
        &&& self.rooms_wf()
        &&& self.subs_wf()
        &&& self.consistent()
    }

    /// A live session's position in the registry is the one that holds it.
    pub proof fn lemma_index_of(self, i: int)
        requires
            self.users_wf(),
            0 <= i < self.users.len(),
        ensures
            self.live(self.users@[i].session_id),
            self.index_of(self.users@[i].session_id) == i,
            self.session(self.users@[i].session_id) == self.users@[i],
    {
        let id = self.users@[i].session_id;
        assert(self.live(id));
        let j = self.index_of(id);
        if j != i {
            if j < i {
                assert(self.users@[j].session_id != self.users@[i].session_id);
            } else {
                assert(self.users@[i].session_id != self.users@[j].session_id);
            }
        }
    }

    /// The registries with nothing in them.
    pub fn new() -> (r: AppState)
        ensures
            r.wf(),
            r.users.len() == 0,
            r.rooms.len() == 0,
            r.profile_subscribers.len() == 0,
            r.issued.len() == 0,
    {
        AppState {
            users: Vec::new(),
            rooms: Vec::new(),
            profile_subscribers: Vec::new(),
            issued: Vec::new(),
        }
    }

    /// The index of the session `id` in the registry.
    pub fn find_user(&self, id: u128) -> (r: Option<usize>)
        ensures
            match r {
                Some(i) => i < self.users.len() && self.users@[i as int].session_id == id,
                None => !self.live(id),
            },
    {
        let mut i: usize = 0;
        while i < self.users.len()
            invariant
                i <= self.users.len(),
                forall|j: int| 0 <= j < i ==> self.users@[j].session_id != id,
            decreases self.users.len() - i,
        {
            if self.users[i].session_id == id {
                return Some(i);
            }
            i = i + 1;
        }
        None
    }

    /// Adds `id` to the members of room `room` in the room index alone,
    /// creating the entry if the room has none.
    fn add_member(&mut self, room: &String, id: u128)
        requires
            old(self).rooms_wf(),
            old(self).live(id),
        ensures
            final(self).rooms_wf(),
            final(self).users == old(self).users,
            final(self).profile_subscribers == old(self).profile_subscribers,
            forall|r: Seq<char>, x: u128|
                #[trigger] final(self).in_room(r, x) <==> (old(self).in_room(r, x) || (r == room@
                    && x == id)),
            forall|r: Seq<char>|
                #[trigger] final(self).room_exists(r) <==> (old(self).room_exists(r) || r == room@),
    {
        let ghost s0 = *self;
        match self.find_room(room) {
            Some(k) => {
                if !vec_contains(&self.rooms[k].members, id) {
                    self.rooms[k].members.push(id);
                    let ghost s1 = *self;
                    proof {
                        let m0 = s0.rooms@[k as int].members@;
                        let m1 = s1.rooms@[k as int].members@;
                        assert(m1 == m0.push(id));
                        assert(s1.rooms@[k as int].name == s0.rooms@[k as int].name);
                        assert forall|y: u128| m1.contains(y) <==> (m0.contains(y) || y == id) by {
                            if m1.contains(y) {
                                let t = choose|t: int| 0 <= t < m1.len() && m1[t] == y;
                                if t < m0.len() {
                                    assert(m0[t] == y);
                                }
                            }
                            if m0.contains(y) {
                                let t = choose|t: int| 0 <= t < m0.len() && m0[t] == y;
                                assert(m1[t] == y);
                            }
                            if y == id {
                                assert(m1[m0.len() as int] == y);
                            }
                        }
                        assert(forall|kk: int|
                            0 <= kk < s0.rooms.len() && kk != k ==> s1.rooms@[kk] == s0.rooms@[kk]);
                        assert forall|r: Seq<char>, x: u128|
                            #[trigger] s1.in_room(r, x) <==> (s0.in_room(r, x) || (r == room@ && x
                                == id)) by {
                            if s1.in_room(r, x) {
                                let kk = choose|kk: int|
                                    0 <= kk < s1.rooms.len() && #[trigger] s1.rooms@[kk].name@ == r
                                        && s1.rooms@[kk].members@.contains(x);
                                if kk != k {
                                    assert(s0.rooms@[kk] == s1.rooms@[kk]);
                                } else if x != id {
                                    assert(m0.contains(x));
                                    assert(s0.rooms@[k as int].name@ == r);
                                }
                            }
                            if s0.in_room(r, x) {
                                let kk = choose|kk: int|
                                    0 <= kk < s0.rooms.len() && #[trigger] s0.rooms@[kk].name@ == r
                                        && s0.rooms@[kk].members@.contains(x);
                                if kk != k {
                                    assert(s0.rooms@[kk] == s1.rooms@[kk]);
                                } else {
                                    assert(m1.contains(x));
                                }
                            }
                            if r == room@ && x == id {
                                assert(m1.contains(id));
                                assert(s1.rooms@[k as int].name@ == r);
                            }
                        }
                        assert forall|r: Seq<char>|
                            #[trigger] s1.room_exists(r) <==> s0.room_exists(r) by {
                            if s1.room_exists(r) {
                                let kk = choose|kk: int|
                                    0 <= kk < s1.rooms.len() && #[trigger] s1.rooms@[kk].name@ == r;
                                assert(s0.rooms@[kk].name@ == r);
                            }
                            if s0.room_exists(r) {
                                let kk = choose|kk: int|
                                    0 <= kk < s0.rooms.len() && #[trigger] s0.rooms@[kk].name@ == r;
                                assert(s1.rooms@[kk].name@ == r);
                            }
                        }
                        assert(s1.rooms_wf()) by {
                            assert forall|kk: int, m: u128|
                                0 <= kk < s1.rooms.len() && #[trigger] s1.rooms@[kk].members@.contains(
                                    m,
                                ) implies s1.live(m) by {
                                if kk != k {
                                    assert(s0.rooms@[kk] == s1.rooms@[kk]);
                                } else if m != id {
                                    assert(m0.contains(m));
                                }
                            }
                            assert forall|a: int, b: int|
                                0 <= a < b < m1.len() implies m1[a] != m1[b] by {
                                if b == m0.len() {
                                    assert(m0[a] == m1[a]);
                                }
                            }
                        }
                    }
                }
            },
            None => {
                let mut m: Vec<u128> = Vec::new();
                m.push(id);
                self.rooms.push(Room { name: room.clone(), members: m });
                let ghost s1 = *self;
                proof {
                    let n = s0.rooms.len() as int;
                    assert(s1.rooms@[n].members@ == seq![id]);
                    assert(forall|y: u128| s1.rooms@[n].members@.contains(y) ==> y == id);
                    assert(s1.rooms@[n].members@[0] == id);
                    assert(forall|kk: int| 0 <= kk < n ==> s1.rooms@[kk] == s0.rooms@[kk]);
                    assert forall|r: Seq<char>, x: u128|
                        #[trigger] s1.in_room(r, x) <==> (s0.in_room(r, x) || (r == room@ && x == id)) by {
                        if s1.in_room(r, x) {
                            let kk = choose|kk: int|
                                0 <= kk < s1.rooms.len() && #[trigger] s1.rooms@[kk].name@ == r
                                    && s1.rooms@[kk].members@.contains(x);
                            if kk < n {
                                assert(s0.rooms@[kk] == s1.rooms@[kk]);
                            }
                        }
                        if s0.in_room(r, x) {
                            let kk = choose|kk: int|
                                0 <= kk < s0.rooms.len() && #[trigger] s0.rooms@[kk].name@ == r
                                    && s0.rooms@[kk].members@.contains(x);
                            assert(s0.rooms@[kk] == s1.rooms@[kk]);
                        }
                        if r == room@ && x == id {
                            assert(s1.rooms@[n].name@ == r);
                        }
                    }
                    assert forall|r: Seq<char>|
                        #[trigger] s1.room_exists(r) <==> (s0.room_exists(r) || r == room@) by {
                        if s1.room_exists(r) {
                            let kk = choose|kk: int|
                                0 <= kk < s1.rooms.len() && #[trigger] s1.rooms@[kk].name@ == r;
                            if kk < n {
                                assert(s0.rooms@[kk].name@ == r);
                            }
                        }
                        if s0.room_exists(r) {
                            let kk = choose|kk: int|
                                0 <= kk < s0.rooms.len() && #[trigger] s0.rooms@[kk].name@ == r;
                            assert(s1.rooms@[kk].name@ == r);
                        }
                        if r == room@ {
                            assert(s1.rooms@[n].name@ == r);
                        }
                    }
                    assert(s1.rooms_wf()) by {
                        assert forall|a: int, b: int|
                            0 <= a < b < s1.rooms.len() implies #[trigger] s1.rooms@[a].name@
                            != #[trigger] s1.rooms@[b].name@ by {
                            if b == n {
                                assert(s0.rooms@[a].name@ == s1.rooms@[a].name@);
                                assert(s0.room_exists(s1.rooms@[a].name@));
                            }
                        }
                    }
                }
            },
        }
    }

    /// Removes `id` from the members of room `room` in the room index alone,
    /// and deletes the room's entry once no member is left.
    fn remove_member(&mut self, room: &String, id: u128)
        requires
            old(self).rooms_wf(),
        ensures
            final(self).rooms_wf(),
            final(self).users == old(self).users,
            final(self).profile_subscribers == old(self).profile_subscribers,
            forall|r: Seq<char>, x: u128|
                #[trigger] final(self).in_room(r, x) <==> (old(self).in_room(r, x) && !(r == room@
                    && x == id)),
            forall|r: Seq<char>|
                r != room@ ==> (#[trigger] final(self).room_exists(r) <==> old(self).room_exists(r)),
    {
        let ghost s0 = *self;
        match self.find_room(room) {
            None => {
                proof {
                    assert forall|r: Seq<char>, x: u128|
                        #[trigger] s0.in_room(r, x) implies r != room@ by {
                        let kk = choose|kk: int|
                            0 <= kk < s0.rooms.len() && #[trigger] s0.rooms@[kk].name@ == r
                                && s0.rooms@[kk].members@.contains(x);
                        assert(s0.room_exists(r));
                    }
                }
            },
            Some(k) => {
                let nm = vec_without(&self.rooms[k].members, id);
                let ghost m0 = s0.rooms@[k as int].members@;
                if nm.len() == 0 {
                    self.rooms.remove(k);
                    let ghost s1 = *self;
                    proof {
                        assert(s1.rooms@ == s0.rooms@.remove(k as int));
                        assert(forall|y: u128| m0.contains(y) ==> y == id) by {
                            assert forall|y: u128| m0.contains(y) implies y == id by {
                                if y != id {
                                    assert(nm@.contains(y));
                                }
                            }
                        }
                        assert forall|kk: int|
                            0 <= kk < s1.rooms.len() implies #[trigger] s1.rooms@[kk] == (if kk < k {
                                s0.rooms@[kk]
                            } else {
                                s0.rooms@[kk + 1]
                            }) by {}
                        assert forall|r: Seq<char>, x: u128|
                            #[trigger] s1.in_room(r, x) <==> (s0.in_room(r, x) && !(r == room@ && x
                                == id)) by {
                            if s1.in_room(r, x) {
                                let kk = choose|kk: int|
                                    0 <= kk < s1.rooms.len() && #[trigger] s1.rooms@[kk].name@ == r
                                        && s1.rooms@[kk].members@.contains(x);
                                let ko = if kk < k { kk } else { kk + 1 };
                                assert(s0.rooms@[ko] == s1.rooms@[kk]);
                                assert(s0.rooms@[ko].name@ == r);
                                assert(ko != k);
                            }
                            if s0.in_room(r, x) && !(r == room@ && x == id) {
                                let kk = choose|kk: int|
                                    0 <= kk < s0.rooms.len() && #[trigger] s0.rooms@[kk].name@ == r
                                        && s0.rooms@[kk].members@.contains(x);
                                if kk == k {
                                    assert(m0.contains(x));
                                }
                                let kn = if kk < k { kk } else { kk - 1 };
                                assert(s1.rooms@[kn] == s0.rooms@[kk]);
                            }
                        }
                        assert forall|r: Seq<char>|
                            r != room@ implies (#[trigger] s1.room_exists(r) <==> s0.room_exists(
                                r,
                            )) by {
                            if s1.room_exists(r) {
                                let kk = choose|kk: int|
                                    0 <= kk < s1.rooms.len() && #[trigger] s1.rooms@[kk].name@ == r;
                                let ko = if kk < k { kk } else { kk + 1 };
                                assert(s0.rooms@[ko].name@ == r);
                            }
                            if s0.room_exists(r) {
                                let kk = choose|kk: int|
                                    0 <= kk < s0.rooms.len() && #[trigger] s0.rooms@[kk].name@ == r;
                                let kn = if kk < k { kk } else { kk - 1 };
                                assert(s1.rooms@[kn].name@ == r);
                            }
                        }
                        assert(s1.rooms_wf()) by {
                            assert forall|a: int, b: int|
                                0 <= a < b < s1.rooms.len() implies #[trigger] s1.rooms@[a].name@
                                != #[trigger] s1.rooms@[b].name@ by {
                                let ao = if a < k { a } else { a + 1 };
                                let bo = if b < k { b } else { b + 1 };
                                assert(s0.rooms@[ao].name@ != s0.rooms@[bo].name@);
                            }
                            assert forall|kk: int, m: u128|
                                0 <= kk < s1.rooms.len() && #[trigger] s1.rooms@[kk].members@.contains(
                                    m,
                                ) implies s1.live(m) by {
                                let ko = if kk < k { kk } else { kk + 1 };
                                assert(s0.rooms@[ko].members@.contains(m));
                            }
                            assert forall|kk: int| 0 <= kk < s1.rooms.len() implies (
                            #[trigger] s1.rooms@[kk]).members.len() > 0
                                && s1.rooms@[kk].members@.no_duplicates() by {
                                let ko = if kk < k { kk } else { kk + 1 };
                                assert(s0.rooms@[ko] == s1.rooms@[kk]);
                            }
                        }
                    }
                } else {
                    self.rooms[k].members = nm;
                    let ghost s1 = *self;
                    proof {
                        let m1 = s1.rooms@[k as int].members@;
                        assert(s1.rooms@[k as int].name == s0.rooms@[k as int].name);
                        assert(forall|kk: int|
                            0 <= kk < s0.rooms.len() && kk != k ==> s1.rooms@[kk] == s0.rooms@[kk]);
                        assert forall|r: Seq<char>, x: u128|
                            #[trigger] s1.in_room(r, x) <==> (s0.in_room(r, x) && !(r == room@ && x
                                == id)) by {
                            if s1.in_room(r, x) {
                                let kk = choose|kk: int|
                                    0 <= kk < s1.rooms.len() && #[trigger] s1.rooms@[kk].name@ == r
                                        && s1.rooms@[kk].members@.contains(x);
                                if kk != k {
                                    assert(s0.rooms@[kk] == s1.rooms@[kk]);
                                    assert(s0.rooms@[kk].name@ != s0.rooms@[k as int].name@);
                                } else {
                                    assert(m0.contains(x));
                                }
                            }
                            if s0.in_room(r, x) && !(r == room@ && x == id) {
                                let kk = choose|kk: int|
                                    0 <= kk < s0.rooms.len() && #[trigger] s0.rooms@[kk].name@ == r
                                        && s0.rooms@[kk].members@.contains(x);
                                if kk != k {
                                    assert(s0.rooms@[kk] == s1.rooms@[kk]);
                                } else {
                                    assert(m1.contains(x));
                                }
                            }
                        }
                        assert forall|r: Seq<char>| #[trigger] s1.room_exists(r) <==> s0.room_exists(r) by {
                            if s1.room_exists(r) {
                                let kk = choose|kk: int|
                                    0 <= kk < s1.rooms.len() && #[trigger] s1.rooms@[kk].name@ == r;
                                assert(s0.rooms@[kk].name@ == r);
                            }
                            if s0.room_exists(r) {
                                let kk = choose|kk: int|
                                    0 <= kk < s0.rooms.len() && #[trigger] s0.rooms@[kk].name@ == r;
                                assert(s1.rooms@[kk].name@ == r);
                            }
                        }
                        assert(s1.rooms_wf()) by {
                            assert forall|kk: int, m: u128|
                                0 <= kk < s1.rooms.len() && #[trigger] s1.rooms@[kk].members@.contains(
                                    m,
                                ) implies s1.live(m) by {
                                if kk != k {
                                    assert(s0.rooms@[kk] == s1.rooms@[kk]);
                                } else {
                                    assert(m0.contains(m));
                                }
                            }
                        }
                    }
                }
            },
        }
    }

    /// Takes `room` out of the room set of the session at index `i` alone.
    fn remove_room_from_user(&mut self, i: usize, room: &String)
        requires
            i < old(self).users.len(),
        ensures
            final(self).rooms == old(self).rooms,
            final(self).profile_subscribers == old(self).profile_subscribers,
            final(self).users.len() == old(self).users.len(),
            forall|j: int|
                0 <= j < old(self).users.len() && j != i ==> final(self).users@[j] == old(
                    self,
                ).users@[j],
            same_profile(old(self).users@[i as int], final(self).users@[i as int]),
            forall|r: Seq<char>|
                has_room(final(self).users@[i as int], r) <==> (has_room(
                    old(self).users@[i as int],
                    r,
                ) && r != room@),
    {
        let ghost u0 = self.users@[i as int];
        let mut kept: Vec<String> = Vec::new();
        let mut t: usize = 0;
        while t < self.users[i].rooms.len()
            invariant
                i < self.users.len(),
                self.users@[i as int] == u0,
                t <= u0.rooms.len(),
                forall|r: Seq<char>|
                    #[trigger] lists(kept@, r) <==> (lists(u0.rooms@.subrange(0, t as int), r) && r
                        != room@),
            decreases u0.rooms.len() - t,
        {
            let ghost k0 = kept@;
            let ghost pre = u0.rooms@.subrange(0, t as int);
            let ghost post = u0.rooms@.subrange(0, t + 1);
            if self.users[i].rooms[t] != *room {
                kept.push(self.users[i].rooms[t].clone());
            }
            proof {
                assert forall|r: Seq<char>|
                    #[trigger] lists(kept@, r) <==> (lists(post, r) && r != room@) by {
                    assert(lists(k0, r) <==> (lists(pre, r) && r != room@));
                    if lists(kept@, r) {
                        let q = choose|q: int| 0 <= q < kept.len() && #[trigger] kept@[q]@ == r;
                        if q < k0.len() {
                            assert(k0[q]@ == r);
                            let w = choose|w: int| 0 <= w < pre.len() && #[trigger] pre[w]@ == r;
                            assert(post[w]@ == r);
                        } else {
                            assert(post[t as int]@ == r);
                        }
                    }
                    if lists(post, r) && r != room@ {
                        let q = choose|q: int| 0 <= q < post.len() && #[trigger] post[q]@ == r;
                        if q < t {
                            assert(pre[q]@ == r);
                            let w = choose|w: int| 0 <= w < k0.len() && #[trigger] k0[w]@ == r;
                            assert(kept@[w]@ == r);
                        } else {
                            assert(kept@[k0.len() as int]@ == r);
                        }
                    }
                }
            }
            t = t + 1;
        }
        proof {
            assert(u0.rooms@.subrange(0, u0.rooms.len() as int) == u0.rooms@);
        }
        self.users[i].rooms = kept;
    }

    /// Adds `room` to the room set of the session at index `i` alone.
    fn add_room_to_user(&mut self, i: usize, room: &String)
        requires
            i < old(self).users.len(),
        ensures
            final(self).rooms == old(self).rooms,
            final(self).profile_subscribers == old(self).profile_subscribers,
            final(self).users.len() == old(self).users.len(),
            forall|j: int|
                0 <= j < old(self).users.len() && j != i ==> final(self).users@[j] == old(
                    self,
                ).users@[j],
            same_profile(old(self).users@[i as int], final(self).users@[i as int]),
            forall|r: Seq<char>|
                has_room(final(self).users@[i as int], r) <==> (has_room(
                    old(self).users@[i as int],
                    r,
                ) || r == room@),
    {
        let ghost u0 = self.users@[i as int];
        if !names_room(&self.users[i].rooms, room) {
            self.users[i].rooms.push(room.clone());
            proof {
                let u1 = self.users@[i as int];
                assert(u1.rooms@ == u0.rooms@.push(*room));
                assert forall|r: Seq<char>| has_room(u1, r) <==> (has_room(u0, r) || r == room@) by {
                    if has_room(u1, r) {
                        let t = choose|t: int| 0 <= t < u1.rooms.len() && #[trigger] u1.rooms@[t]@ == r;
                        if t < u0.rooms.len() {
                            assert(u0.rooms@[t]@ == r);
                        }
                    }
                    if has_room(u0, r) {
                        let t = choose|t: int| 0 <= t < u0.rooms.len() && #[trigger] u0.rooms@[t]@ == r;
                        assert(u1.rooms@[t]@ == r);
                    }
                    if r == room@ {
                        assert(u1.rooms@[u0.rooms.len() as int]@ == r);
                    }
                }
            }
        }
    }

    /// Adds session `id` to room `room`, creating the room if it has no
    /// entry, and adds the room to the session's own room set. Nothing
    /// changes when no session `id` is registered.
    pub fn join_room(&mut self, room: &String, id: u128)
        requires
            old(self).wf(),
        ensures
            final(self).wf(),
            same_sessions(*old(self), *final(self)),
            final(self).profile_subscribers@ == old(self).profile_subscribers@,
            forall|r: Seq<char>, x: u128|
                #[trigger] final(self).in_room(r, x) <==> (old(self).in_room(r, x) || (old(
                    self,
                ).live(id) && r == room@ && x == id)),
            forall|r: Seq<char>|
                #[trigger] final(self).room_exists(r) <==> (old(self).room_exists(r) || (old(
                    self,
                ).live(id) && r == room@)),
    {
        let ghost s0 = *self;
        let i = match self.find_user(id) {
            Some(i) => i,
            None => {
                return;
            },
        };
        self.add_member(room, id);
        let ghost s1 = *self;
        self.add_room_to_user(i, room);
        proof {
            assert(self.rooms == s1.rooms);
            assert forall|r: Seq<char>| #[trigger] self.room_exists(r) == s1.room_exists(r) by {}
            assert forall|r: Seq<char>, x: u128| #[trigger] self.in_room(r, x) == s1.in_room(r, x) by {}
        }
        proof {
            assert(forall|j: int| 0 <= j < s0.users.len() && j != i ==> self.users@[j] == s0.users@[j]);
            assert(forall|m: u128| self.live(m) <==> s0.live(m)) by {
                lemma_same_ids(*self, s0);
            }
            assert forall|j: int, r: Seq<char>| 0 <= j < self.users.len() implies (has_room(
                self.users@[j],
                r,
            ) <==> self.in_room(r, self.users@[j].session_id)) by {
                assert(s0.in_room(r, s0.users@[j].session_id) <==> has_room(s0.users@[j], r));
                if j != i {
                    assert(self.users@[j] == s0.users@[j]);
                } else {
                    assert(has_room(self.users@[j], r) <==> (has_room(s0.users@[j], r) || r == room@));
                    assert(s1.in_room(r, id) <==> (s0.in_room(r, id) || r == room@));
                }
            }
        }
    }

    /// Takes session `id` out of room `room` and the room out of the
    /// session's own room set; the room's entry goes once it has no member.
    /// Leaving a room one is not in changes nothing.
    pub fn leave_room(&mut self, room: &String, id: u128)
        requires
            old(self).wf(),
        ensures
            final(self).wf(),
            same_sessions(*old(self), *final(self)),
            final(self).profile_subscribers@ == old(self).profile_subscribers@,
            forall|r: Seq<char>, x: u128|
                #[trigger] final(self).in_room(r, x) <==> (old(self).in_room(r, x) && !(r == room@
                    && x == id)),
            forall|r: Seq<char>|
                r != room@ ==> (#[trigger] final(self).room_exists(r) <==> old(self).room_exists(r)),
    {
        let ghost s0 = *self;
        self.remove_member(room, id);
        let ghost s1 = *self;
        proof {
            assert forall|m: u128| s1.live(m) <==> s0.live(m) by {}
        }
        match self.find_user(id) {
            None => {
                proof {
                    assert forall|j: int, r: Seq<char>| 0 <= j < s1.users.len() implies (has_room(
                        s1.users@[j],
                        r,
                    ) <==> s1.in_room(r, s1.users@[j].session_id)) by {
                        assert(s0.in_room(r, s0.users@[j].session_id) <==> has_room(s0.users@[j], r));
                    }
                }
            },
            Some(i) => {
                self.remove_room_from_user(i, room);
                proof {
                    assert(self.rooms == s1.rooms);
                    assert forall|r: Seq<char>| #[trigger] self.room_exists(r) == s1.room_exists(r) by {}
                    assert forall|r: Seq<char>, x: u128|
                        #[trigger] self.in_room(r, x) == s1.in_room(r, x) by {}
                    assert forall|m: u128| self.live(m) <==> s0.live(m) by {
                        if self.live(m) {
                            let j = choose|j: int|
                                0 <= j < self.users.len() && #[trigger] self.users@[j].session_id == m;
                            assert(s0.users@[j].session_id == m);
                        }
                        if s0.live(m) {
                            let j = choose|j: int|
                                0 <= j < s0.users.len() && #[trigger] s0.users@[j].session_id == m;
                            assert(self.users@[j].session_id == m);
                        }
                    }
                    assert forall|j: int, r: Seq<char>| 0 <= j < self.users.len() implies (has_room(
                        self.users@[j],
                        r,
                    ) <==> self.in_room(r, self.users@[j].session_id)) by {
                        assert(s0.in_room(r, s0.users@[j].session_id) <==> has_room(s0.users@[j], r));
                        if j != i {
                            assert(self.users@[j] == s0.users@[j]);
                        }
                    }
                }
            },
        }
    }

    /// Adds `id` to the subscribers of `account` in the subscription index
    /// alone, creating the entry if the account has none.
    fn add_subscriber(&mut self, account: i32, id: u128)
        requires
            old(self).subs_wf(),
            old(self).live(id),
        ensures
            final(self).subs_wf(),
            final(self).users == old(self).users,
            final(self).rooms == old(self).rooms,
            forall|r: i32, x: u128|
                #[trigger] final(self).subscribed(r, x) <==> (old(self).subscribed(r, x) || (r == account
                    && x == id)),
            forall|r: i32|
                #[trigger] final(self).has_subscribers(r) <==> (old(self).has_subscribers(r) || r == account),
    {
        let ghost s0 = *self;
        match self.find_subscription(account) {
            Some(k) => {
                if !vec_contains(&self.profile_subscribers[k].sessions, id) {
                    self.profile_subscribers[k].sessions.push(id);
                    let ghost s1 = *self;
                    proof {
                        let m0 = s0.profile_subscribers@[k as int].sessions@;
                        let m1 = s1.profile_subscribers@[k as int].sessions@;
                        assert(m1 == m0.push(id));
                        assert(s1.profile_subscribers@[k as int].account == s0.profile_subscribers@[k as int].account);
                        assert forall|y: u128| m1.contains(y) <==> (m0.contains(y) || y == id) by {
                            if m1.contains(y) {
                                let t = choose|t: int| 0 <= t < m1.len() && m1[t] == y;
                                if t < m0.len() {
                                    assert(m0[t] == y);
                                }
                            }
                            if m0.contains(y) {
                                let t = choose|t: int| 0 <= t < m0.len() && m0[t] == y;
                                assert(m1[t] == y);
                            }
                            if y == id {
                                assert(m1[m0.len() as int] == y);
                            }
                        }
                        assert(forall|kk: int|
                            0 <= kk < s0.profile_subscribers.len() && kk != k ==> s1.profile_subscribers@[kk] == s0.profile_subscribers@[kk]);
                        assert forall|r: i32, x: u128|
                            #[trigger] s1.subscribed(r, x) <==> (s0.subscribed(r, x) || (r == account && x
                                == id)) by {
                            if s1.subscribed(r, x) {
                                let kk = choose|kk: int|
                                    0 <= kk < s1.profile_subscribers.len() && #[trigger] s1.profile_subscribers@[kk].account == r
                                        && s1.profile_subscribers@[kk].sessions@.contains(x);
                                if kk != k {
                                    assert(s0.profile_subscribers@[kk] == s1.profile_subscribers@[kk]);
                                } else if x != id {
                                    assert(m0.contains(x));
                                    assert(s0.profile_subscribers@[k as int].account == r);
                                }
                            }
                            if s0.subscribed(r, x) {
                                let kk = choose|kk: int|
                                    0 <= kk < s0.profile_subscribers.len() && #[trigger] s0.profile_subscribers@[kk].account == r
                                        && s0.profile_subscribers@[kk].sessions@.contains(x);
                                if kk != k {
                                    assert(s0.profile_subscribers@[kk] == s1.profile_subscribers@[kk]);
                                } else {
                                    assert(m1.contains(x));
                                }
                            }
                            if r == account && x == id {
                                assert(m1.contains(id));
                                assert(s1.profile_subscribers@[k as int].account == r);
                            }
                        }
                        assert forall|r: i32|
                            #[trigger] s1.has_subscribers(r) <==> s0.has_subscribers(r) by {
                            if s1.has_subscribers(r) {
                                let kk = choose|kk: int|
                                    0 <= kk < s1.profile_subscribers.len() && #[trigger] s1.profile_subscribers@[kk].account == r;
                                assert(s0.profile_subscribers@[kk].account == r);
                            }
                            if s0.has_subscribers(r) {
                                let kk = choose|kk: int|
                                    0 <= kk < s0.profile_subscribers.len() && #[trigger] s0.profile_subscribers@[kk].account == r;
                                assert(s1.profile_subscribers@[kk].account == r);
                            }
                        }
                        assert(s1.subs_wf()) by {
                            assert forall|kk: int, m: u128|
                                0 <= kk < s1.profile_subscribers.len() && #[trigger] s1.profile_subscribers@[kk].sessions@.contains(
                                    m,
                                ) implies s1.live(m) by {
                                if kk != k {
                                    assert(s0.profile_subscribers@[kk] == s1.profile_subscribers@[kk]);
                                } else if m != id {
                                    assert(m0.contains(m));
                                }
                            }
                            assert forall|a: int, b: int|
                                0 <= a < b < m1.len() implies m1[a] != m1[b] by {
                                if b == m0.len() {
                                    assert(m0[a] == m1[a]);
                                }
                            }
                        }
                    }
                }
            },
            None => {
                let mut m: Vec<u128> = Vec::new();
                m.push(id);
                self.profile_subscribers.push(Subscription { account, sessions: m });
                let ghost s1 = *self;
                proof {
                    let n = s0.profile_subscribers.len() as int;
                    assert(s1.profile_subscribers@[n].sessions@ == seq![id]);
                    assert(forall|y: u128| s1.profile_subscribers@[n].sessions@.contains(y) ==> y == id);
                    assert(s1.profile_subscribers@[n].sessions@[0] == id);
                    assert(forall|kk: int| 0 <= kk < n ==> s1.profile_subscribers@[kk] == s0.profile_subscribers@[kk]);
                    assert forall|r: i32, x: u128|
                        #[trigger] s1.subscribed(r, x) <==> (s0.subscribed(r, x) || (r == account && x == id)) by {
                        if s1.subscribed(r, x) {
                            let kk = choose|kk: int|
                                0 <= kk < s1.profile_subscribers.len() && #[trigger] s1.profile_subscribers@[kk].account == r
                                    && s1.profile_subscribers@[kk].sessions@.contains(x);
                            if kk < n {
                                assert(s0.profile_subscribers@[kk] == s1.profile_subscribers@[kk]);
                            }
                        }
                        if s0.subscribed(r, x) {
                            let kk = choose|kk: int|
                                0 <= kk < s0.profile_subscribers.len() && #[trigger] s0.profile_subscribers@[kk].account == r
                                    && s0.profile_subscribers@[kk].sessions@.contains(x);
                            assert(s0.profile_subscribers@[kk] == s1.profile_subscribers@[kk]);
                        }
                        if r == account && x == id {
                            assert(s1.profile_subscribers@[n].account == r);
                        }
                    }
                    assert forall|r: i32|
                        #[trigger] s1.has_subscribers(r) <==> (s0.has_subscribers(r) || r == account) by {
                        if s1.has_subscribers(r) {
                            let kk = choose|kk: int|
                                0 <= kk < s1.profile_subscribers.len() && #[trigger] s1.profile_subscribers@[kk].account == r;
                            if kk < n {
                                assert(s0.profile_subscribers@[kk].account == r);
                            }
                        }
                        if s0.has_subscribers(r) {
                            let kk = choose|kk: int|
                                0 <= kk < s0.profile_subscribers.len() && #[trigger] s0.profile_subscribers@[kk].account == r;
                            assert(s1.profile_subscribers@[kk].account == r);
                        }
                        if r == account {
                            assert(s1.profile_subscribers@[n].account == r);
                        }
                    }
                    assert(s1.subs_wf()) by {
                        assert forall|a: int, b: int|
                            0 <= a < b < s1.profile_subscribers.len() implies #[trigger] s1.profile_subscribers@[a].account
                            != #[trigger] s1.profile_subscribers@[b].account by {
                            if b == n {
                                assert(s0.profile_subscribers@[a].account == s1.profile_subscribers@[a].account);
                                assert(s0.has_subscribers(s1.profile_subscribers@[a].account));
                            }
                        }
                    }
                }
            },
        }
    }

    /// Removes `id` from the subscribers of `account`, and deletes the
    /// account's entry once no subscriber is left.
    fn remove_subscriber(&mut self, account: i32, id: u128)
        requires
            old(self).subs_wf(),
        ensures
            final(self).subs_wf(),
            final(self).users == old(self).users,
            final(self).rooms == old(self).rooms,
            forall|r: i32, x: u128|
                #[trigger] final(self).subscribed(r, x) <==> (old(self).subscribed(r, x) && !(r == account
                    && x == id)),
            forall|r: i32|
                r != account ==> (#[trigger] final(self).has_subscribers(r) <==> old(self).has_subscribers(r)),
    {
        let ghost s0 = *self;
        match self.find_subscription(account) {
            None => {
                proof {
                    assert forall|r: i32, x: u128|
                        #[trigger] s0.subscribed(r, x) implies r != account by {
                        let kk = choose|kk: int|
                            0 <= kk < s0.profile_subscribers.len() && #[trigger] s0.profile_subscribers@[kk].account == r
                                && s0.profile_subscribers@[kk].sessions@.contains(x);
                        assert(s0.has_subscribers(r));
                    }
                }
            },
            Some(k) => {
                let nm = vec_without(&self.profile_subscribers[k].sessions, id);
                let ghost m0 = s0.profile_subscribers@[k as int].sessions@;
                if nm.len() == 0 {
                    self.profile_subscribers.remove(k);
                    let ghost s1 = *self;
                    proof {
                        assert(s1.profile_subscribers@ == s0.profile_subscribers@.remove(k as int));
                        assert(forall|y: u128| m0.contains(y) ==> y == id) by {
                            assert forall|y: u128| m0.contains(y) implies y == id by {
                                if y != id {
                                    assert(nm@.contains(y));
                                }
                            }
                        }
                        assert forall|kk: int|
                            0 <= kk < s1.profile_subscribers.len() implies #[trigger] s1.profile_subscribers@[kk] == (if kk < k {
                                s0.profile_subscribers@[kk]
                            } else {
                                s0.profile_subscribers@[kk + 1]
                            }) by {}
                        assert forall|r: i32, x: u128|
                            #[trigger] s1.subscribed(r, x) <==> (s0.subscribed(r, x) && !(r == account && x
                                == id)) by {
                            if s1.subscribed(r, x) {
                                let kk = choose|kk: int|
                                    0 <= kk < s1.profile_subscribers.len() && #[trigger] s1.profile_subscribers@[kk].account == r
                                        && s1.profile_subscribers@[kk].sessions@.contains(x);
                                let ko = if kk < k { kk } else { kk + 1 };
                                assert(s0.profile_subscribers@[ko] == s1.profile_subscribers@[kk]);
                                assert(s0.profile_subscribers@[ko].account == r);
                                assert(ko != k);
                            }
                            if s0.subscribed(r, x) && !(r == account && x == id) {
                                let kk = choose|kk: int|
                                    0 <= kk < s0.profile_subscribers.len() && #[trigger] s0.profile_subscribers@[kk].account == r
                                        && s0.profile_subscribers@[kk].sessions@.contains(x);
                                if kk == k {
                                    assert(m0.contains(x));
                                }
                                let kn = if kk < k { kk } else { kk - 1 };
                                assert(s1.profile_subscribers@[kn] == s0.profile_subscribers@[kk]);
                            }
                        }
                        assert forall|r: i32|
                            r != account implies (#[trigger] s1.has_subscribers(r) <==> s0.has_subscribers(
                                r,
                            )) by {
                            if s1.has_subscribers(r) {
                                let kk = choose|kk: int|
                                    0 <= kk < s1.profile_subscribers.len() && #[trigger] s1.profile_subscribers@[kk].account == r;
                                let ko = if kk < k { kk } else { kk + 1 };
                                assert(s0.profile_subscribers@[ko].account == r);
                            }
                            if s0.has_subscribers(r) {
                                let kk = choose|kk: int|
                                    0 <= kk < s0.profile_subscribers.len() && #[trigger] s0.profile_subscribers@[kk].account == r;
                                let kn = if kk < k { kk } else { kk - 1 };
                                assert(s1.profile_subscribers@[kn].account == r);
                            }
                        }
                        assert(s1.subs_wf()) by {
                            assert forall|a: int, b: int|
                                0 <= a < b < s1.profile_subscribers.len() implies #[trigger] s1.profile_subscribers@[a].account
                                != #[trigger] s1.profile_subscribers@[b].account by {
                                let ao = if a < k { a } else { a + 1 };
                                let bo = if b < k { b } else { b + 1 };
                                assert(s0.profile_subscribers@[ao].account != s0.profile_subscribers@[bo].account);
                            }
                            assert forall|kk: int, m: u128|
                                0 <= kk < s1.profile_subscribers.len() && #[trigger] s1.profile_subscribers@[kk].sessions@.contains(
                                    m,
                                ) implies s1.live(m) by {
                                let ko = if kk < k { kk } else { kk + 1 };
                                assert(s0.profile_subscribers@[ko].sessions@.contains(m));
                            }
                            assert forall|kk: int| 0 <= kk < s1.profile_subscribers.len() implies (
                            #[trigger] s1.profile_subscribers@[kk]).sessions.len() > 0
                                && s1.profile_subscribers@[kk].sessions@.no_duplicates() by {
                                let ko = if kk < k { kk } else { kk + 1 };
                                assert(s0.profile_subscribers@[ko] == s1.profile_subscribers@[kk]);
                            }
                        }
                    }
                } else {
                    self.profile_subscribers[k].sessions = nm;
                    let ghost s1 = *self;
                    proof {
                        let m1 = s1.profile_subscribers@[k as int].sessions@;
                        assert(s1.profile_subscribers@[k as int].account == s0.profile_subscribers@[k as int].account);
                        assert(forall|kk: int|
                            0 <= kk < s0.profile_subscribers.len() && kk != k ==> s1.profile_subscribers@[kk] == s0.profile_subscribers@[kk]);
                        assert forall|r: i32, x: u128|
                            #[trigger] s1.subscribed(r, x) <==> (s0.subscribed(r, x) && !(r == account && x
                                == id)) by {
                            if s1.subscribed(r, x) {
                                let kk = choose|kk: int|
                                    0 <= kk < s1.profile_subscribers.len() && #[trigger] s1.profile_subscribers@[kk].account == r
                                        && s1.profile_subscribers@[kk].sessions@.contains(x);
                                if kk != k {
                                    assert(s0.profile_subscribers@[kk] == s1.profile_subscribers@[kk]);
                                    assert(s0.profile_subscribers@[kk].account != s0.profile_subscribers@[k as int].account);
                                } else {
                                    assert(m0.contains(x));
                                }
                            }
                            if s0.subscribed(r, x) && !(r == account && x == id) {
                                let kk = choose|kk: int|
                                    0 <= kk < s0.profile_subscribers.len() && #[trigger] s0.profile_subscribers@[kk].account == r
                                        && s0.profile_subscribers@[kk].sessions@.contains(x);
                                if kk != k {
                                    assert(s0.profile_subscribers@[kk] == s1.profile_subscribers@[kk]);
                                } else {
                                    assert(m1.contains(x));
                                }
                            }
                        }
                        assert forall|r: i32| #[trigger] s1.has_subscribers(r) <==> s0.has_subscribers(r) by {
                            if s1.has_subscribers(r) {
                                let kk = choose|kk: int|
                                    0 <= kk < s1.profile_subscribers.len() && #[trigger] s1.profile_subscribers@[kk].account == r;
                                assert(s0.profile_subscribers@[kk].account == r);
                            }
                            if s0.has_subscribers(r) {
                                let kk = choose|kk: int|
                                    0 <= kk < s0.profile_subscribers.len() && #[trigger] s0.profile_subscribers@[kk].account == r;
                                assert(s1.profile_subscribers@[kk].account == r);
                            }
                        }
                        assert(s1.subs_wf()) by {
                            assert forall|kk: int, m: u128|
                                0 <= kk < s1.profile_subscribers.len() && #[trigger] s1.profile_subscribers@[kk].sessions@.contains(
                                    m,
                                ) implies s1.live(m) by {
                                if kk != k {
                                    assert(s0.profile_subscribers@[kk] == s1.profile_subscribers@[kk]);
                                } else {
                                    assert(m0.contains(m));
                                }
                            }
                        }
                    }
                }
            },
        }
    }

    /// The index of the entry of `account` in the subscription index.
    pub fn find_subscription(&self, account: i32) -> (r: Option<usize>)
        ensures
            match r {
                Some(k) => k < self.profile_subscribers.len()
                    && self.profile_subscribers@[k as int].account == account,
                None => !self.has_subscribers(account),
            },
    {
        let mut k: usize = 0;
        while k < self.profile_subscribers.len()
            invariant
                k <= self.profile_subscribers.len(),
                forall|j: int| 0 <= j < k ==> self.profile_subscribers@[j].account != account,
            decreases self.profile_subscribers.len() - k,
        {
            if self.profile_subscribers[k].account == account {
                return Some(k);
            }
            k = k + 1;
        }
        None
    }

    /// Records session `id` as a subscriber of `account`'s presence.
    /// Subscribing twice has the effect of once; nothing changes when no
    /// session `id` is registered.
    pub fn subscribe(&mut self, account: i32, id: u128)
        requires
            old(self).wf(),
        ensures
            final(self).wf(),
            final(self).users == old(self).users,
            final(self).rooms == old(self).rooms,
            forall|a: i32, x: u128|
                #[trigger] final(self).subscribed(a, x) <==> (old(self).subscribed(a, x) || (old(
                    self,
                ).live(id) && a == account && x == id)),
            forall|a: i32|
                #[trigger] final(self).has_subscribers(a) <==> (old(self).has_subscribers(a) || (old(
                    self,
                ).live(id) && a == account)),
    {
        let ghost s0 = *self;
        if self.find_user(id).is_none() {
            return;
        }
        self.add_subscriber(account, id);
        proof {
            assert forall|r: Seq<char>, x: u128| #[trigger] self.in_room(r, x) == s0.in_room(r, x) by {}
            assert forall|m: u128| #[trigger] self.live(m) == s0.live(m) by {}
        }
    }

    /// Takes session `id` off the subscribers of `account`; the account's
    /// entry goes once it has no subscriber. Unsubscribing twice has the
    /// effect of once.
    pub fn unsubscribe(&mut self, account: i32, id: u128)
        requires
            old(self).wf(),
        ensures
            final(self).wf(),
            final(self).users == old(self).users,
            final(self).rooms == old(self).rooms,
            forall|a: i32, x: u128|
                #[trigger] final(self).subscribed(a, x) <==> (old(self).subscribed(a, x) && !(a
                    == account && x == id)),
            forall|a: i32|
                a != account ==> (#[trigger] final(self).has_subscribers(a) <==> old(
                    self,
                ).has_subscribers(a)),
    {
        let ghost s0 = *self;
        self.remove_subscriber(account, id);
        proof {
            assert forall|r: Seq<char>, x: u128| #[trigger] self.in_room(r, x) == s0.in_room(r, x) by {}
            assert forall|m: u128| #[trigger] self.live(m) == s0.live(m) by {}
        }
    }

    /// Registers a new session under `session_id`, online and in no room.
    /// An id that is live, or was ever registered, is refused, and nothing
    /// changes.
    pub fn insert_session(
        &mut self,
        session_id: u128,
        db_user_id: i32,
        username: String,
        display_name: String,
        avatar_url: Option<String>,
        now: u64,
    ) -> (r: bool)
        requires
            old(self).wf(),
        ensures
            final(self).wf(),
            r == (!old(self).live(session_id) && !old(self).issued@.contains(session_id)),
            !r ==> *final(self) == *old(self),
            r ==> final(self).issued@ == old(self).issued@.push(session_id),
            r ==> final(self).users@ == old(self).users@.push(final(self).users@.last()),
            r ==> final(self).rooms == old(self).rooms,
            r ==> final(self).profile_subscribers == old(self).profile_subscribers,
            r ==> ({
                let u = final(self).users@.last();
                &&& u.session_id == session_id
                &&& u.db_user_id == db_user_id
                &&& u.username@ == username@
                &&& u.display_name@ == display_name@
                &&& u.avatar_url == avatar_url
                &&& u.status@ == "online"@
                &&& u.rooms.len() == 0
                &&& u.joined_at == now
                &&& u.last_heartbeat == now
            }),
    {
        if self.find_user(session_id).is_some() || vec_contains(&self.issued, session_id) {
            return false;
        }
        self.issued.push(session_id);
        let ghost s0 = *self;
        let u = UserInfo {
            session_id,
            db_user_id,
            username,
            display_name,
            avatar_url,
            status: String::from_str("online"),
            rooms: Vec::new(),
            joined_at: now,
            last_heartbeat: now,
        };
        self.users.push(u);
        proof {
            let n = s0.users.len() as int;
            assert(forall|j: int| 0 <= j < n ==> self.users@[j] == s0.users@[j]);
            assert(self.rooms == s0.rooms);
            assert(self.rooms@ == s0.rooms@);
            assert forall|m: u128| s0.live(m) implies #[trigger] self.live(m) by {
                let j = choose|j: int| 0 <= j < s0.users.len() && #[trigger] s0.users@[j].session_id == m;
                assert(self.users@[j].session_id == m);
            }
            assert forall|r: Seq<char>, x: u128| #[trigger] self.in_room(r, x) == s0.in_room(r, x) by {}
            assert forall|j: int, r: Seq<char>| 0 <= j < self.users.len() implies (has_room(
                self.users@[j],
                r,
            ) <==> self.in_room(r, self.users@[j].session_id)) by {
                if j < n {
                    assert(s0.in_room(r, s0.users@[j].session_id) <==> has_room(s0.users@[j], r));
                } else {
                    assert(!has_room(self.users@[j], r));
                    if s0.in_room(r, session_id) {
                        let kk = choose|kk: int|
                            0 <= kk < s0.rooms.len() && #[trigger] s0.rooms@[kk].name@ == r
                                && s0.rooms@[kk].members@.contains(session_id);
                        assert(s0.live(session_id));
                    }
                }
            }
            assert forall|a: int, b: int| 0 <= a < b < self.users.len() implies #[trigger] self.users@[a].session_id
                != #[trigger] self.users@[b].session_id by {
                if b == n {
                    assert(s0.users@[a].session_id == self.users@[a].session_id);
                }
            }
        }
        true
    }

    /// Detaches session `id`: takes it out of every room (deleting rooms
    /// left empty) and off every subscription, removes it from the
    /// registry, and returns the rooms it was in. Removing an id that is
    /// not live changes nothing and returns no room.
    pub fn remove_session(&mut self, id: u128) -> (rooms: Vec<String>)
        requires
            old(self).wf(),
        ensures
            final(self).wf(),
            !final(self).live(id),
            forall|x: u128| #[trigger] final(self).live(x) <==> (old(self).live(x) && x != id),
            forall|r: Seq<char>, x: u128|
                #[trigger] final(self).in_room(r, x) <==> (old(self).in_room(r, x) && x != id),
            forall|a: i32, x: u128|
                #[trigger] final(self).subscribed(a, x) <==> (old(self).subscribed(a, x) && x != id),
            forall|r: Seq<char>| #[trigger] lists(rooms@, r) <==> old(self).in_room(r, id),
            !old(self).live(id) ==> *final(self) == *old(self),
            old(self).live(id) ==> exists|i: int|
                0 <= i < old(self).users.len() && old(self).users@[i].session_id == id
                    && final(self).users@ == old(self).users@.remove(i),
    {
        let ghost s0 = *self;
        let i = match self.find_user(id) {
            Some(i) => i,
            None => {
                proof {
                    assert forall|r: Seq<char>| !s0.in_room(r, id) by {
                        if s0.in_room(r, id) {
                            let kk = choose|kk: int|
                                0 <= kk < s0.rooms.len() && #[trigger] s0.rooms@[kk].name@ == r
                                    && s0.rooms@[kk].members@.contains(id);
                        }
                    }
                }
                return Vec::new();
            },
        };
        // The session's rooms, copied before the indices change.
        let mut rooms: Vec<String> = Vec::new();
        let mut t: usize = 0;
        while t < self.users[i].rooms.len()
            invariant
                *self == s0,
                i < self.users.len(),
                t <= self.users@[i as int].rooms.len(),
                rooms@.len() == t,
                forall|q: int| 0 <= q < t ==> #[trigger] rooms@[q]@ == self.users@[i as int].rooms@[q]@,
            decreases self.users@[i as int].rooms.len() - t,
        {
            rooms.push(self.users[i].rooms[t].clone());
            t = t + 1;
        }
        proof {
            assert forall|r: Seq<char>| #[trigger] lists(rooms@, r) <==> s0.in_room(r, id) by {
                assert(has_room(s0.users@[i as int], r) <==> s0.in_room(r, id));
                if lists(rooms@, r) {
                    let q = choose|q: int| 0 <= q < rooms.len() && #[trigger] rooms@[q]@ == r;
                    assert(s0.users@[i as int].rooms@[q]@ == r);
                }
                if has_room(s0.users@[i as int], r) {
                    let q = choose|q: int|
                        0 <= q < s0.users@[i as int].rooms.len() && #[trigger] s0.users@[i as int].rooms@[q]@ == r;
                    assert(rooms@[q]@ == r);
                }
            }
        }
        // Out of every room.
        let mut t: usize = 0;
        while t < rooms.len()
            invariant
                self.rooms_wf(),
                self.users == s0.users,
                self.profile_subscribers == s0.profile_subscribers,
                t <= rooms.len(),
                forall|r: Seq<char>| #[trigger] lists(rooms@, r) <==> s0.in_room(r, id),
                forall|r: Seq<char>, x: u128|
                    #[trigger] self.in_room(r, x) <==> (s0.in_room(r, x) && !(x == id && lists(
                        rooms@.subrange(0, t as int),
                        r,
                    ))),
            decreases rooms.len() - t,
        {
            let ghost s1 = *self;
            self.remove_member(&rooms[t], id);
            proof {
                let pre = rooms@.subrange(0, t as int);
                let post = rooms@.subrange(0, t + 1);
                assert forall|r: Seq<char>| lists(post, r) <==> (lists(pre, r) || r == rooms@[t as int]@) by {
                    if lists(post, r) {
                        let q = choose|q: int| 0 <= q < post.len() && #[trigger] post[q]@ == r;
                        if q < t {
                            assert(pre[q]@ == r);
                        }
                    }
                    if lists(pre, r) {
                        let q = choose|q: int| 0 <= q < pre.len() && #[trigger] pre[q]@ == r;
                        assert(post[q]@ == r);
                    }
                    if r == rooms@[t as int]@ {
                        assert(post[t as int]@ == r);
                    }
                }
                assert forall|r: Seq<char>, x: u128|
                    #[trigger] self.in_room(r, x) <==> (s0.in_room(r, x) && !(x == id && lists(post, r))) by {
                    assert(s1.in_room(r, x) <==> (s0.in_room(r, x) && !(x == id && lists(pre, r))));
                }
            }
            t = t + 1;
        }
        proof {
            assert(rooms@.subrange(0, rooms.len() as int) == rooms@);
            assert forall|r: Seq<char>, x: u128|
                #[trigger] self.in_room(r, x) <==> (s0.in_room(r, x) && x != id) by {}
        }
        // Off every subscription.
        let ghost sr = *self;
        let mut accounts: Vec<i32> = Vec::new();
        let mut k: usize = 0;
        while k < self.profile_subscribers.len()
            invariant
                *self == sr,
                self.profile_subscribers == s0.profile_subscribers,
                k <= self.profile_subscribers.len(),
                accounts@.len() == k,
                forall|q: int| 0 <= q < k ==> #[trigger] accounts@[q] == self.profile_subscribers@[q].account,
            decreases self.profile_subscribers.len() - k,
        {
            accounts.push(self.profile_subscribers[k].account);
            k = k + 1;
        }
        let ghost s2 = *self;
        let mut k: usize = 0;
        while k < accounts.len()
            invariant
                self.subs_wf(),
                self.users == s0.users,
                self.rooms == s2.rooms,
                k <= accounts.len(),
                accounts@.len() == s0.profile_subscribers.len(),
                forall|q: int| 0 <= q < accounts.len() ==> #[trigger] accounts@[q] == s0.profile_subscribers@[q].account,
                forall|a: i32, x: u128|
                    #[trigger] self.subscribed(a, x) <==> (s0.subscribed(a, x) && !(x == id
                        && accounts@.subrange(0, k as int).contains(a))),
            decreases accounts.len() - k,
        {
            let ghost s1 = *self;
            self.remove_subscriber(accounts[k], id);
            proof {
                let pre = accounts@.subrange(0, k as int);
                let post = accounts@.subrange(0, k + 1);
                assert(post == pre.push(accounts@[k as int]));
                assert forall|a: i32| post.contains(a) <==> (pre.contains(a) || a == accounts@[k as int]) by {
                    if post.contains(a) {
                        let q = choose|q: int| 0 <= q < post.len() && post[q] == a;
                        if q < k {
                            assert(pre[q] == a);
                        }
                    }
                    if pre.contains(a) {
                        let q = choose|q: int| 0 <= q < pre.len() && pre[q] == a;
                        assert(post[q] == a);
                    }
                    if a == accounts@[k as int] {
                        assert(post[k as int] == a);
                    }
                }
                assert forall|a: i32, x: u128|
                    #[trigger] self.subscribed(a, x) <==> (s0.subscribed(a, x) && !(x == id && post.contains(a))) by {
                    assert(s1.subscribed(a, x) <==> (s0.subscribed(a, x) && !(x == id && pre.contains(a))));
                }
            }
            k = k + 1;
        }
        proof {
            assert(accounts@.subrange(0, accounts.len() as int) == accounts@);
            assert forall|a: i32, x: u128|
                #[trigger] self.subscribed(a, x) <==> (s0.subscribed(a, x) && x != id) by {
                if s0.subscribed(a, x) && x == id {
                    let kk = choose|kk: int|
                        0 <= kk < s0.profile_subscribers.len()
                            && #[trigger] s0.profile_subscribers@[kk].account == a
                            && s0.profile_subscribers@[kk].sessions@.contains(x);
                    assert(accounts@[kk] == a);
                }
            }
        }
        // Out of the registry.
        let ghost s3 = *self;
        self.users.remove(i);
        proof {
            let n = s0.users.len() as int;
            assert(self.users@ == s0.users@.remove(i as int));
            assert forall|j: int| 0 <= j < self.users.len() implies #[trigger] self.users@[j] == (if j < i {
                s0.users@[j]
            } else {
                s0.users@[j + 1]
            }) by {}
            assert forall|x: u128| #[trigger] self.live(x) <==> (s0.live(x) && x != id) by {
                if self.live(x) {
                    let j = choose|j: int| 0 <= j < self.users.len() && #[trigger] self.users@[j].session_id == x;
                    let jo = if j < i { j } else { j + 1 };
                    assert(s0.users@[jo].session_id == x);
                }
                if s0.live(x) && x != id {
                    let j = choose|j: int| 0 <= j < s0.users.len() && #[trigger] s0.users@[j].session_id == x;
                    let jn = if j < i { j } else { j - 1 };
                    assert(self.users@[jn].session_id == x);
                }
            }
            assert(self.rooms == s3.rooms);
            assert(s3.rooms == sr.rooms);
            assert forall|r: Seq<char>, x: u128| #[trigger] self.in_room(r, x) == sr.in_room(r, x) by {}
            assert forall|r: Seq<char>, x: u128| #[trigger] self.in_room(r, x) <==> (s0.in_room(r, x) && x != id) by {
                assert(sr.in_room(r, x) <==> (s0.in_room(r, x) && x != id));
            }
            assert forall|a: i32, x: u128| #[trigger] self.subscribed(a, x) == s3.subscribed(a, x) by {}
            assert(self.users_wf()) by {
                assert forall|a: int, b: int| 0 <= a < b < self.users.len() implies #[trigger] self.users@[a].session_id
                    != #[trigger] self.users@[b].session_id by {
                    let ao = if a < i { a } else { a + 1 };
                    let bo = if b < i { b } else { b + 1 };
                    assert(s0.users@[ao].session_id != s0.users@[bo].session_id);
                }
            }
            assert(self.rooms_wf()) by {
                assert forall|kk: int, m: u128|
                    0 <= kk < self.rooms.len() && #[trigger] self.rooms@[kk].members@.contains(m) implies self.live(m) by {
                    assert(self.in_room(self.rooms@[kk].name@, m));
                    assert(s0.in_room(self.rooms@[kk].name@, m) && m != id);
                    let k0 = choose|k0: int|
                        0 <= k0 < s0.rooms.len() && #[trigger] s0.rooms@[k0].name@ == self.rooms@[kk].name@
                            && s0.rooms@[k0].members@.contains(m);
                }
            }
            assert(self.subs_wf()) by {
                assert forall|kk: int, m: u128|
                    0 <= kk < self.profile_subscribers.len()
                        && #[trigger] self.profile_subscribers@[kk].sessions@.contains(m) implies self.live(m) by {
                    assert(s3.subscribed(self.profile_subscribers@[kk].account, m));
                    assert(s0.subscribed(self.profile_subscribers@[kk].account, m) && m != id);
                    let k0 = choose|k0: int|
                        0 <= k0 < s0.profile_subscribers.len()
                            && #[trigger] s0.profile_subscribers@[k0].account == self.profile_subscribers@[kk].account
                            && s0.profile_subscribers@[k0].sessions@.contains(m);
                }
            }
            assert forall|j: int, r: Seq<char>| 0 <= j < self.users.len() implies (has_room(
                self.users@[j],
                r,
            ) <==> self.in_room(r, self.users@[j].session_id)) by {
                let jo = if j < i { j } else { j + 1 };
                assert(self.users@[j] == s0.users@[jo]);
                assert(s0.in_room(r, s0.users@[jo].session_id) <==> has_room(s0.users@[jo], r));
                assert(s0.users@[jo].session_id != id);
            }
        }
        rooms
    }

    /// Sets the status of session `id` to `status`.
    /// Nothing changes when no session `id` is registered.
    pub fn set_status(&mut self, id: u128, status: &String)
        requires
            old(self).wf(),
        ensures
            final(self).wf(),
            final(self).rooms == old(self).rooms,
            final(self).profile_subscribers == old(self).profile_subscribers,
            final(self).users.len() == old(self).users.len(),
            forall|j: int|
                0 <= j < old(self).users.len() && old(self).users@[j].session_id != id
                    ==> final(self).users@[j] == old(self).users@[j],
            forall|j: int|
                0 <= j < old(self).users.len() && old(self).users@[j].session_id == id ==> ({
                    let u0 = old(self).users@[j];
                    let u1 = final(self).users@[j];
                    &&& u1.status@ == status@ && u1.username@ == u0.username@ && u1.display_name@ == u0.display_name@ && u1.db_user_id == u0.db_user_id && u1.last_heartbeat == u0.last_heartbeat
                    &&& u1.session_id == u0.session_id
                    &&& u1.rooms == u0.rooms
                    &&& u1.avatar_url == u0.avatar_url
                    &&& u1.joined_at == u0.joined_at
                }),
    {
        let ghost s0 = *self;
        match self.find_user(id) {
            None => {},
            Some(i) => {
                self.users[i].status = status.clone();
                proof {
                    assert(forall|j: int| 0 <= j < s0.users.len() && j != i ==> self.users@[j] == s0.users@[j]);
                    assert forall|j: int| 0 <= j < s0.users.len() && s0.users@[j].session_id == id implies j == i by {
                        if j != i {
                            if j < i {
                                assert(s0.users@[j].session_id != s0.users@[i as int].session_id);
                            } else {
                                assert(s0.users@[i as int].session_id != s0.users@[j].session_id);
                            }
                        }
                    }
                    assert(self.rooms == s0.rooms);
                    assert forall|r: Seq<char>, x: u128| #[trigger] self.in_room(r, x) == s0.in_room(r, x) by {}
                    lemma_same_ids(*self, s0);
                    assert forall|j: int, r: Seq<char>| 0 <= j < self.users.len() implies (has_room(
                        self.users@[j],
                        r,
                    ) <==> self.in_room(r, self.users@[j].session_id)) by {
                        assert(s0.in_room(r, s0.users@[j].session_id) <==> has_room(s0.users@[j], r));
                    }
                }
            },
        }
    }

    /// Sets the display name of session `id` to `name`.
    /// Nothing changes when no session `id` is registered.
    pub fn set_display_name(&mut self, id: u128, name: &String)
        requires
            old(self).wf(),
        ensures
            final(self).wf(),
            final(self).rooms == old(self).rooms,
            final(self).profile_subscribers == old(self).profile_subscribers,
            final(self).users.len() == old(self).users.len(),
            forall|j: int|
                0 <= j < old(self).users.len() && old(self).users@[j].session_id != id
                    ==> final(self).users@[j] == old(self).users@[j],
            forall|j: int|
                0 <= j < old(self).users.len() && old(self).users@[j].session_id == id ==> ({
                    let u0 = old(self).users@[j];
                    let u1 = final(self).users@[j];
                    &&& u1.display_name@ == name@ && u1.username@ == u0.username@ && u1.status@ == u0.status@ && u1.db_user_id == u0.db_user_id && u1.last_heartbeat == u0.last_heartbeat
                    &&& u1.session_id == u0.session_id
                    &&& u1.rooms == u0.rooms
                    &&& u1.avatar_url == u0.avatar_url
                    &&& u1.joined_at == u0.joined_at
                }),
    {
        let ghost s0 = *self;
        match self.find_user(id) {
            None => {},
            Some(i) => {
                self.users[i].display_name = name.clone();
                proof {
                    assert(forall|j: int| 0 <= j < s0.users.len() && j != i ==> self.users@[j] == s0.users@[j]);
                    assert forall|j: int| 0 <= j < s0.users.len() && s0.users@[j].session_id == id implies j == i by {
                        if j != i {
                            if j < i {
                                assert(s0.users@[j].session_id != s0.users@[i as int].session_id);
                            } else {
                                assert(s0.users@[i as int].session_id != s0.users@[j].session_id);
                            }
                        }
                    }
                    assert(self.rooms == s0.rooms);
                    assert forall|r: Seq<char>, x: u128| #[trigger] self.in_room(r, x) == s0.in_room(r, x) by {}
                    lemma_same_ids(*self, s0);
                    assert forall|j: int, r: Seq<char>| 0 <= j < self.users.len() implies (has_room(
                        self.users@[j],
                        r,
                    ) <==> self.in_room(r, self.users@[j].session_id)) by {
                        assert(s0.in_room(r, s0.users@[j].session_id) <==> has_room(s0.users@[j], r));
                    }
                }
            },
        }
    }

    /// Records `now` as the last heartbeat of session `id`.
    /// Nothing changes when no session `id` is registered.
    pub fn touch_heartbeat(&mut self, id: u128, now: u64)
        requires
            old(self).wf(),
        ensures
            final(self).wf(),
            final(self).rooms == old(self).rooms,
            final(self).profile_subscribers == old(self).profile_subscribers,
            final(self).users.len() == old(self).users.len(),
            forall|j: int|
                0 <= j < old(self).users.len() && old(self).users@[j].session_id != id
                    ==> final(self).users@[j] == old(self).users@[j],
            forall|j: int|
                0 <= j < old(self).users.len() && old(self).users@[j].session_id == id ==> ({
                    let u0 = old(self).users@[j];
                    let u1 = final(self).users@[j];
                    &&& u1.last_heartbeat == now && u1.username@ == u0.username@ && u1.status@ == u0.status@ && u1.display_name@ == u0.display_name@ && u1.db_user_id == u0.db_user_id
                    &&& u1.session_id == u0.session_id
                    &&& u1.rooms == u0.rooms
                    &&& u1.avatar_url == u0.avatar_url
                    &&& u1.joined_at == u0.joined_at
                }),
    {
        let ghost s0 = *self;
        match self.find_user(id) {
            None => {},
            Some(i) => {
                self.users[i].last_heartbeat = now;
                proof {
                    assert(forall|j: int| 0 <= j < s0.users.len() && j != i ==> self.users@[j] == s0.users@[j]);
                    assert forall|j: int| 0 <= j < s0.users.len() && s0.users@[j].session_id == id implies j == i by {
                        if j != i {
                            if j < i {
                                assert(s0.users@[j].session_id != s0.users@[i as int].session_id);
                            } else {
                                assert(s0.users@[i as int].session_id != s0.users@[j].session_id);
                            }
                        }
                    }
                    assert(self.rooms == s0.rooms);
                    assert forall|r: Seq<char>, x: u128| #[trigger] self.in_room(r, x) == s0.in_room(r, x) by {}
                    lemma_same_ids(*self, s0);
                    assert forall|j: int, r: Seq<char>| 0 <= j < self.users.len() implies (has_room(
                        self.users@[j],
                        r,
                    ) <==> self.in_room(r, self.users@[j].session_id)) by {
                        assert(s0.in_room(r, s0.users@[j].session_id) <==> has_room(s0.users@[j], r));
                    }
                }
            },
        }
    }

    /// The members of room `room`: empty when the room has no entry.
    pub fn room_members(&self, room: &String) -> (r: Vec<u128>)
        requires
            self.wf(),
        ensures
            forall|x: u128| r@.contains(x) <==> self.in_room(room@, x),
            r@.no_duplicates(),
            r.len() == 0 <==> !self.room_exists(room@),
            r.len() == self.room_size(room@),
    {
        match self.find_room(room) {
            None => {
                proof {
                    assert forall|x: u128| !self.in_room(room@, x) by {
                        if self.in_room(room@, x) {
                            let kk = choose|kk: int|
                                0 <= kk < self.rooms.len() && #[trigger] self.rooms@[kk].name@ == room@
                                    && self.rooms@[kk].members@.contains(x);
                        }
                    }
                }
                Vec::new()
            },
            Some(k) => {
                let r = self.rooms[k].members.clone();
                proof {
                    assert(r@ == self.rooms@[k as int].members@);
                    assert(self.room_exists(room@));
                    let kc = choose|kc: int| 0 <= kc < self.rooms.len() && #[trigger] self.rooms@[kc].name@ == room@;
                    if kc != k {
                        if kc < k {
                            assert(self.rooms@[kc].name@ != self.rooms@[k as int].name@);
                        } else {
                            assert(self.rooms@[k as int].name@ != self.rooms@[kc].name@);
                        }
                    }
                    assert forall|x: u128| self.in_room(room@, x) implies r@.contains(x) by {
                        let kk = choose|kk: int|
                            0 <= kk < self.rooms.len() && #[trigger] self.rooms@[kk].name@ == room@
                                && self.rooms@[kk].members@.contains(x);
                        if kk != k {
                            if kk < k {
                                assert(self.rooms@[kk].name@ != self.rooms@[k as int].name@);
                            } else {
                                assert(self.rooms@[k as int].name@ != self.rooms@[kk].name@);
                            }
                        }
                    }
                }
                r
            },
        }
    }

    /// The subscribers of `account`: empty when the account has no entry.
    pub fn subscribers_of(&self, account: i32) -> (r: Vec<u128>)
        requires
            self.wf(),
        ensures
            forall|x: u128| r@.contains(x) <==> self.subscribed(account, x),
            r@.no_duplicates(),
    {
        match self.find_subscription(account) {
            None => {
                proof {
                    assert forall|x: u128| !self.subscribed(account, x) by {
                        if self.subscribed(account, x) {
                            let kk = choose|kk: int|
                                0 <= kk < self.profile_subscribers.len()
                                    && #[trigger] self.profile_subscribers@[kk].account == account
                                    && self.profile_subscribers@[kk].sessions@.contains(x);
                        }
                    }
                }
                Vec::new()
            },
            Some(k) => {
                let r = self.profile_subscribers[k].sessions.clone();
                proof {
                    assert(r@ == self.profile_subscribers@[k as int].sessions@);
                    assert forall|x: u128| self.subscribed(account, x) implies r@.contains(x) by {
                        let kk = choose|kk: int|
                            0 <= kk < self.profile_subscribers.len()
                                && #[trigger] self.profile_subscribers@[kk].account == account
                                && self.profile_subscribers@[kk].sessions@.contains(x);
                        if kk != k {
                            if kk < k {
                                assert(self.profile_subscribers@[kk].account != self.profile_subscribers@[k as int].account);
                            } else {
                                assert(self.profile_subscribers@[k as int].account != self.profile_subscribers@[kk].account);
                            }
                        }
                    }
                }
                r
            },
        }
    }

    /// The ids of all live sessions, in registry order.
    pub fn session_ids(&self) -> (r: Vec<u128>)
        ensures
            r.len() == self.users.len(),
            forall|j: int| 0 <= j < r.len() ==> #[trigger] r@[j] == self.users@[j].session_id,
    {
        let mut r: Vec<u128> = Vec::new();
        let mut j: usize = 0;
        while j < self.users.len()
            invariant
                j <= self.users.len(),
                r.len() == j,
                forall|q: int| 0 <= q < j ==> #[trigger] r@[q] == self.users@[q].session_id,
            decreases self.users.len() - j,
        {
            r.push(self.users[j].session_id);
            j = j + 1;
        }
        r
    }

    /// The first session, in registry order, whose username is `name`.
    pub fn find_by_username(&self, name: &String) -> (r: Option<usize>)
        ensures
            match r {
                Some(i) => i < self.users.len() && self.users@[i as int].username@ == name@
                    && forall|j: int| 0 <= j < i ==> self.users@[j].username@ != name@,
                None => forall|j: int| 0 <= j < self.users.len() ==> self.users@[j].username@ != name@,
            },
    {
        let mut i: usize = 0;
        while i < self.users.len()
            invariant
                i <= self.users.len(),
                forall|j: int| 0 <= j < i ==> self.users@[j].username@ != name@,
            decreases self.users.len() - i,
        {
            if self.users[i].username == *name {
                return Some(i);
            }
            i = i + 1;
        }
        None
    }

    /// The first session, in registry order, whose display name is `name`.
    pub fn find_by_display_name(&self, name: &String) -> (r: Option<usize>)
        ensures
            match r {
                Some(i) => i < self.users.len() && self.users@[i as int].display_name@ == name@
                    && forall|j: int| 0 <= j < i ==> self.users@[j].display_name@ != name@,
                None => forall|j: int|
                    0 <= j < self.users.len() ==> self.users@[j].display_name@ != name@,
            },
    {
        let mut i: usize = 0;
        while i < self.users.len()
            invariant
                i <= self.users.len(),
                forall|j: int| 0 <= j < i ==> self.users@[j].display_name@ != name@,
            decreases self.users.len() - i,
        {
            if self.users[i].display_name == *name {
                return Some(i);
            }
            i = i + 1;
        }
        None
    }

    /// The first session, in registry order, of account `account`.
    pub fn find_by_account(&self, account: i32) -> (r: Option<usize>)
        ensures
            match r {
                Some(i) => i < self.users.len() && self.users@[i as int].db_user_id == account
                    && forall|j: int| 0 <= j < i ==> self.users@[j].db_user_id != account,
                None => forall|j: int| 0 <= j < self.users.len() ==> self.users@[j].db_user_id != account,
            },
    {
        let mut i: usize = 0;
        while i < self.users.len()
            invariant
                i <= self.users.len(),
                forall|j: int| 0 <= j < i ==> self.users@[j].db_user_id != account,
            decreases self.users.len() - i,
        {
            if self.users[i].db_user_id == account {
                return Some(i);
            }
            i = i + 1;
        }
        None
    }

    /// The index of room `name` in the room index.
    pub fn find_room(&self, name: &String) -> (r: Option<usize>)
        ensures
            match r {
                Some(k) => k < self.rooms.len() && self.rooms@[k as int].name@ == name@,
                None => !self.room_exists(name@),
            },
    {
        let mut k: usize = 0;
        while k < self.rooms.len()
            invariant
                k <= self.rooms.len(),
                forall|j: int| 0 <= j < k ==> self.rooms@[j].name@ != name@,
            decreases self.rooms.len() - k,
        {
            if self.rooms[k].name == *name {
                return Some(k);
            }
            k = k + 1;
        }
        None
    }
}

/// `a` and `b` agree on everything but their room sets.
pub open spec fn same_profile(a: UserInfo, b: UserInfo) -> bool {
    &&& a.session_id == b.session_id
    &&& a.db_user_id == b.db_user_id
    &&& a.username@ == b.username@
    &&& a.display_name@ == b.display_name@
    &&& a.avatar_url == b.avatar_url
    &&& a.status@ == b.status@
    &&& a.joined_at == b.joined_at
    &&& a.last_heartbeat == b.last_heartbeat
}

/// `a` and `b` hold the same sessions, in the same order, with the same
/// profiles.
pub open spec fn same_sessions(a: AppState, b: AppState) -> bool {
    &&& a.users.len() == b.users.len()
    &&& forall|i: int| 0 <= i < a.users.len() ==> same_profile(#[trigger] a.users@[i], b.users@[i])
}

/// Whether the room list `rooms` names room `name`.
pub fn names_room(rooms: &Vec<String>, name: &String) -> (r: bool)
    ensures
        r == exists|t: int| 0 <= t < rooms.len() && #[trigger] rooms@[t]@ == name@,
{
    let mut t: usize = 0;
    while t < rooms.len()
        invariant
            t <= rooms.len(),
            forall|j: int| 0 <= j < t ==> rooms@[j]@ != name@,
        decreases rooms.len() - t,
    {
        if rooms[t] == *name {
            return true;
        }
        t = t + 1;
    }
    false
}

/// Two registries that hold the same session ids, position by position,
/// have the same live sessions.
pub proof fn lemma_same_ids(a: AppState, b: AppState)
    requires
        a.users.len() == b.users.len(),
        forall|j: int| 0 <= j < a.users.len() ==> a.users@[j].session_id == b.users@[j].session_id,
    ensures
        forall|x: u128| #[trigger] a.live(x) == b.live(x),
{
    assert forall|x: u128| #[trigger] a.live(x) == b.live(x) by {
        if a.live(x) {
            let j = choose|j: int| 0 <= j < a.users.len() && #[trigger] a.users@[j].session_id == x;
            assert(b.users@[j].session_id == x);
        }
        if b.live(x) {
            let j = choose|j: int| 0 <= j < b.users.len() && #[trigger] b.users@[j].session_id == x;
            assert(a.users@[j].session_id == x);
        }
    }
}

/// In a well-formed registry each session's room set is exactly the set of
/// rooms whose member set in the room index holds the session.
pub proof fn lemma_rooms_agree(st: AppState, i: int)
    requires
        st.wf(),
        0 <= i < st.users.len(),
    ensures
        forall|r: Seq<char>|
            has_room(st.users@[i], r) <==> #[trigger] st.in_room(r, st.users@[i].session_id),
{
}

/// In a well-formed registry a room has an entry exactly while it has a
/// member: no empty room is kept.
pub proof fn lemma_no_empty_room(st: AppState, r: Seq<char>)
    requires
        st.wf(),
    ensures
        st.room_exists(r) <==> exists|x: u128| #[trigger] st.in_room(r, x),
{
    if st.room_exists(r) {
        let k = choose|k: int| 0 <= k < st.rooms.len() && #[trigger] st.rooms@[k].name@ == r;
        let x = st.rooms@[k].members@[0];
        assert(st.rooms@[k].members@.contains(x));
        assert(st.in_room(r, x));
    }
}

/// When session `id` was the last member of `room` and leaves it (by
/// `leave_room`, or by teardown), the room has no entry afterwards.
pub proof fn lemma_last_leave_deletes_room(before: AppState, after: AppState, room: Seq<char>, id: u128)
    requires
        before.wf(),
        after.wf(),
        forall|x: u128| #[trigger] before.in_room(room, x) ==> x == id,
        forall|x: u128| #[trigger] after.in_room(room, x) ==> (before.in_room(room, x) && x != id),
    ensures
        !after.room_exists(room),
{
    lemma_no_empty_room(after, room);
    if after.room_exists(room) {
        let x = choose|x: u128| #[trigger] after.in_room(room, x);
        assert(before.in_room(room, x));
    }
}

/// Leaving a room a second time observes the same room index as leaving it
/// once: the second leave changes no membership and no room's entry.
pub proof fn lemma_leave_twice(s0: AppState, s1: AppState, s2: AppState, room: Seq<char>, id: u128)
    requires
        s1.wf(),
        s2.wf(),
        forall|r: Seq<char>, x: u128|
            #[trigger] s1.in_room(r, x) <==> (s0.in_room(r, x) && !(r == room && x == id)),
        forall|r: Seq<char>, x: u128|
            #[trigger] s2.in_room(r, x) <==> (s1.in_room(r, x) && !(r == room && x == id)),
        forall|r: Seq<char>| r != room ==> (#[trigger] s2.room_exists(r) <==> s1.room_exists(r)),
    ensures
        forall|r: Seq<char>, x: u128| #[trigger] s2.in_room(r, x) == s1.in_room(r, x),
        forall|r: Seq<char>| #[trigger] s2.room_exists(r) == s1.room_exists(r),
{
    lemma_no_empty_room(s1, room);
    lemma_no_empty_room(s2, room);
    assert forall|x: u128| #[trigger] s2.in_room(room, x) == s1.in_room(room, x) by {}
    if s1.room_exists(room) {
        let x = choose|x: u128| #[trigger] s1.in_room(room, x);
        assert(s2.in_room(room, x));
    }
    if s2.room_exists(room) {
        let x = choose|x: u128| #[trigger] s2.in_room(room, x);
        assert(s1.in_room(room, x));
    }
}

/// Unsubscribing a second time observes the same subscription index as
/// unsubscribing once.
pub proof fn lemma_unsubscribe_twice(s0: AppState, s1: AppState, s2: AppState, account: i32, id: u128)
    requires
        forall|a: i32, x: u128|
            #[trigger] s1.subscribed(a, x) <==> (s0.subscribed(a, x) && !(a == account && x == id)),
        forall|a: i32, x: u128|
            #[trigger] s2.subscribed(a, x) <==> (s1.subscribed(a, x) && !(a == account && x == id)),
    ensures
        forall|a: i32, x: u128| #[trigger] s2.subscribed(a, x) == s1.subscribed(a, x),
{
}

/// Whether `v` holds `x`.
pub fn vec_contains(v: &Vec<u128>, x: u128) -> (r: bool)
    ensures
        r == v@.contains(x),
{
    let mut i: usize = 0;
    while i < v.len()
        invariant
            i <= v.len(),
            forall|j: int| 0 <= j < i ==> v@[j] != x,
        decreases v.len() - i,
    {
        if v[i] == x {
            return true;
        }
        i = i + 1;
    }
    false
}

/// `v` with every occurrence of `x` left out, in the same order.
pub fn vec_without(v: &Vec<u128>, x: u128) -> (r: Vec<u128>)
    ensures
        forall|y: u128| r@.contains(y) <==> (v@.contains(y) && y != x),
        v@.no_duplicates() ==> r@.no_duplicates(),
        r.len() <= v.len(),
        !v@.contains(x) ==> r@ == v@,
{
    let mut r: Vec<u128> = Vec::new();
    let mut i: usize = 0;
    while i < v.len()
        invariant
            i <= v.len(),
            r.len() <= i,
            forall|y: u128| r@.contains(y) <==> (v@.subrange(0, i as int).contains(y) && y != x),
            v@.no_duplicates() ==> r@.no_duplicates(),
            !v@.contains(x) ==> r@ == v@.subrange(0, i as int),
        decreases v.len() - i,
    {
        let y = v[i];
        let ghost pre = v@.subrange(0, i as int);
        let ghost post = v@.subrange(0, i + 1);
        let ghost r0 = r@;
        proof {
            assert(post == pre.push(y));
            assert forall|z: u128| post.contains(z) <==> (pre.contains(z) || z == y) by {
                if post.contains(z) {
                    let t = choose|t: int| 0 <= t < post.len() && post[t] == z;
                    if t < pre.len() {
                        assert(pre[t] == z);
                    }
                }
                if pre.contains(z) {
                    let t = choose|t: int| 0 <= t < pre.len() && pre[t] == z;
                    assert(post[t] == z);
                }
                if z == y {
                    assert(post[i as int] == z);
                }
            }
        }
        if y != x {
            r.push(y);
            proof {
                assert(r@ == r0.push(y));
                assert forall|z: u128| r@.contains(z) <==> (r0.contains(z) || z == y) by {
                    if r@.contains(z) {
                        let t = choose|t: int| 0 <= t < r@.len() && r@[t] == z;
                        if t < r0.len() {
                            assert(r0[t] == z);
                        }
                    }
                    if r0.contains(z) {
                        let t = choose|t: int| 0 <= t < r0.len() && r0[t] == z;
                        assert(r@[t] == z);
                    }
                    if z == y {
                        assert(r@[r0.len() as int] == z);
                    }
                }
                if v@.no_duplicates() {
                    assert(!pre.contains(y)) by {
                        if pre.contains(y) {
                            let t = choose|t: int| 0 <= t < pre.len() && pre[t] == y;
                            assert(v@[t] == v@[i as int]);
                        }
                    }
                    assert(!r0.contains(y));
                    assert forall|a: int, b: int| 0 <= a < b < r@.len() implies r@[a] != r@[b] by {
                        if b == r0.len() {
                            assert(r0[a] == r@[a]);
                        }
                    }
                }
            }
        }
        assert forall|z: u128| r@.contains(z) <==> (post.contains(z) && z != x) by {
            assert(r0.contains(z) <==> (pre.contains(z) && z != x));
            if y == x {
                assert(r@ == r0);
            }
        }
        i = i + 1;
    }
    proof {
        assert(v@.subrange(0, v.len() as int) == v@);
    }
    r
}

} // verus!
