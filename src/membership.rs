//! What the directory's operations keep true of the sessions placed in it.
use vstd::prelude::*;
use crate::rooms::{
    Directory, all_occupied, change_spec, join_spec, leave_spec, lists_rooms, members_or_empty,
    rename_room_spec, rename_user_spec,
};
use crate::table::keys_of;

verus! {

/// `user` is a member of `room` and of no other room.
pub open spec fn placed(m: Directory, user: Seq<char>, room: Seq<char>) -> bool {
    &&& m.contains_key(room)
    &&& m[room].contains(user)
    &&& forall|other: Seq<char>|
        other != room && #[trigger] m.contains_key(other) ==> !m[other].contains(user)
}

/// Each session (user name to room name) is a member of exactly its room,
/// and every member of a room is a session.
pub open spec fn all_placed(m: Directory, sessions: Map<Seq<char>, Seq<char>>) -> bool {
    &&& forall|u: Seq<char>| #[trigger] sessions.contains_key(u) ==> placed(m, u, sessions[u])
    &&& forall|r: Seq<char>, u: Seq<char>|
        #[trigger] m.contains_key(r) && #[trigger] m[r].contains(u) ==> sessions.contains_key(u)
}

/// A new session joining a room is placed there, and every other session
/// stays where it was.
pub proof fn lemma_join_places(
    m: Directory,
    sessions: Map<Seq<char>, Seq<char>>,
    user: Seq<char>,
    room: Seq<char>,
)
    requires
        all_placed(m, sessions),
        !sessions.contains_key(user),
    ensures
        all_placed(join_spec(m, room, user), sessions.insert(user, room)),
{
    let n = join_spec(m, room, user);
    let s = sessions.insert(user, room);
    assert forall|u: Seq<char>| #[trigger] s.contains_key(u) implies placed(n, u, s[u]) by {
        if u != user {
            assert(placed(m, u, sessions[u]));
            assert forall|other: Seq<char>|
                other != s[u] && #[trigger] n.contains_key(other) implies !n[other].contains(u) by {
                if other != room {
                    assert(m.contains_key(other));
                }
            }
        } else {
            assert forall|other: Seq<char>|
                other != room && #[trigger] n.contains_key(other) implies !n[other].contains(u) by {
                assert(m.contains_key(other));
                if m[other].contains(u) {
                    assert(sessions.contains_key(u));
                }
            }
        }
    }
    assert forall|r: Seq<char>, u: Seq<char>|
        #[trigger] n.contains_key(r) && #[trigger] n[r].contains(u) implies s.contains_key(u) by {
        if u != user {
            if r == room {
                assert(members_or_empty(m, room).contains(u));
                assert(m.contains_key(room));
            }
            assert(m.contains_key(r) && m[r].contains(u));
        }
    }
}

/// A session that leaves its room is a member of no room, and every other
/// session stays where it was.
pub proof fn lemma_leave_unplaces(
    m: Directory,
    sessions: Map<Seq<char>, Seq<char>>,
    user: Seq<char>,
)
    requires
        all_placed(m, sessions),
        sessions.contains_key(user),
    ensures
        all_placed(leave_spec(m, sessions[user], user), sessions.remove(user)),
        forall|r: Seq<char>| #[trigger]
            leave_spec(m, sessions[user], user).contains_key(r) ==> !leave_spec(
                m,
                sessions[user],
                user,
            )[r].contains(user),
{
    let room = sessions[user];
    let n = leave_spec(m, room, user);
    let s = sessions.remove(user);
    assert(placed(m, user, room));
    assert forall|u: Seq<char>| #[trigger] s.contains_key(u) implies placed(n, u, s[u]) by {
        assert(placed(m, u, sessions[u]));
        if u != user && sessions[u] == room {
            assert(m[room].remove(user).contains(u));
        }
        assert forall|other: Seq<char>|
            other != s[u] && #[trigger] n.contains_key(other) implies !n[other].contains(u) by {
            assert(m.contains_key(other));
        }
    }
    assert forall|r: Seq<char>, u: Seq<char>|
        #[trigger] n.contains_key(r) && #[trigger] n[r].contains(u) implies s.contains_key(u) by {
        assert(m.contains_key(r) && m[r].contains(u));
    }
    assert forall|r: Seq<char>| #[trigger] n.contains_key(r) implies !n[r].contains(user) by {
        assert(m.contains_key(r));
    }
}

/// A session that moves to another room is placed there, and every other
/// session stays where it was.
pub proof fn lemma_change_places(
    m: Directory,
    sessions: Map<Seq<char>, Seq<char>>,
    user: Seq<char>,
    to: Seq<char>,
)
    requires
        all_placed(m, sessions),
        sessions.contains_key(user),
    ensures
        all_placed(change_spec(m, sessions[user], to, user), sessions.insert(user, to)),
{
    lemma_leave_unplaces(m, sessions, user);
    let mid = leave_spec(m, sessions[user], user);
    lemma_join_places(mid, sessions.remove(user), user, to);
    assert(sessions.remove(user).insert(user, to) =~= sessions.insert(user, to));
}

/// A session renamed to a free name is placed where it was, under its new
/// name, and every other session stays where it was.
pub proof fn lemma_rename_user_places(
    m: Directory,
    sessions: Map<Seq<char>, Seq<char>>,
    old: Seq<char>,
    new: Seq<char>,
)
    requires
        all_placed(m, sessions),
        sessions.contains_key(old),
        !sessions.contains_key(new),
    ensures
        all_placed(
            rename_user_spec(m, sessions[old], old, new),
            sessions.remove(old).insert(new, sessions[old]),
        ),
{
    let room = sessions[old];
    let mid = leave_spec(m, room, old);
    lemma_leave_unplaces(m, sessions, old);
    assert(placed(m, old, room));
    let n = rename_user_spec(m, room, old, new);
    let s = sessions.remove(old).insert(new, room);
    assert forall|u: Seq<char>| #[trigger] s.contains_key(u) implies placed(n, u, s[u]) by {
        if u != new {
            assert(placed(m, u, sessions[u]));
            assert forall|other: Seq<char>|
                other != s[u] && #[trigger] n.contains_key(other) implies !n[other].contains(u) by {
                assert(m.contains_key(other));
            }
            if sessions[u] == room {
                assert(m[room].remove(old).insert(new).contains(u));
            }
        } else {
            assert forall|other: Seq<char>|
                other != room && #[trigger] n.contains_key(other) implies !n[other].contains(u) by {
                assert(m.contains_key(other));
                if m[other].contains(u) {
                    assert(sessions.contains_key(u));
                }
            }
        }
    }
    assert forall|r: Seq<char>, u: Seq<char>|
        #[trigger] n.contains_key(r) && #[trigger] n[r].contains(u) implies s.contains_key(u) by {
        if u != new {
            assert(m.contains_key(r) && m[r].contains(u));
            if u == old {
                assert(r != room);
            }
        }
    }
}

/// Renaming a room to a free name moves its sessions with it, and every
/// other session stays where it was.
pub proof fn lemma_rename_room_places(
    m: Directory,
    sessions: Map<Seq<char>, Seq<char>>,
    old: Seq<char>,
    new: Seq<char>,
)
    requires
        all_placed(m, sessions),
        m.contains_key(old),
        !m.contains_key(new),
    ensures
        all_placed(
            rename_room_spec(m, old, new),
            Map::new(
                |u: Seq<char>| sessions.contains_key(u),
                |u: Seq<char>|
                    if sessions[u] == old {
                        new
                    } else {
                        sessions[u]
                    },
            ),
        ),
{
    let n = rename_room_spec(m, old, new);
    let s = Map::new(
        |u: Seq<char>| sessions.contains_key(u),
        |u: Seq<char>|
            if sessions[u] == old {
                new
            } else {
                sessions[u]
            },
    );
    assert forall|u: Seq<char>| #[trigger] s.contains_key(u) implies placed(n, u, s[u]) by {
        assert(placed(m, u, sessions[u]));
        assert forall|other: Seq<char>|
            other != s[u] && #[trigger] n.contains_key(other) implies !n[other].contains(u) by {
            if other == new {
                assert(m.contains_key(old));
            } else {
                assert(m.contains_key(other));
            }
        }
    }
    assert forall|r: Seq<char>, u: Seq<char>|
        #[trigger] n.contains_key(r) && #[trigger] n[r].contains(u) implies s.contains_key(u) by {
        if r == new {
            assert(m.contains_key(old) && m[old].contains(u));
        } else {
            assert(m.contains_key(r) && m[r].contains(u));
        }
    }
}

/// When the last member of a room leaves, no listing of the directory shows
/// the room, and the directory keeps no empty room.
pub proof fn lemma_last_leaver_unlists(
    m: Directory,
    room: Seq<char>,
    user: Seq<char>,
    listing: Seq<(Seq<char>, usize)>,
)
    requires
        all_occupied(m),
        m.contains_key(room),
        m[room].remove(user) == Set::<Seq<char>>::empty(),
        lists_rooms(listing, leave_spec(m, room, user)),
    ensures
        !keys_of(listing).contains(room),
        all_occupied(leave_spec(m, room, user)),
{
}

/// Leaving a room one is not in changes nothing; so a second `leave` right
/// after a first changes nothing either.
pub proof fn lemma_leave_idempotent(m: Directory, room: Seq<char>, user: Seq<char>)
    requires
        all_occupied(m),
    ensures
        !members_or_empty(m, room).contains(user) ==> leave_spec(m, room, user) == m,
        leave_spec(leave_spec(m, room, user), room, user) == leave_spec(m, room, user),
{
    if m.contains_key(room) && !m[room].contains(user) {
        assert(m[room].remove(user) =~= m[room]);
        assert(m.insert(room, m[room]) =~= m);
    }
    let n = leave_spec(m, room, user);
    if n.contains_key(room) {
        assert(!n[room].contains(user));
        assert(n[room].remove(user) =~= n[room]);
        assert(n.insert(room, n[room]) =~= n);
    }
}

} // verus!
