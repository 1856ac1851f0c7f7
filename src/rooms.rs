//! The room directory: which rooms exist, who is in each, and each room's
//! broadcast channel.
use vstd::prelude::*;
use crate::message::ChatMessage;
use crate::names::Names;
use crate::text::{lemma_lex_total, lemma_lex_transitive, lex_lt, text_precedes};
use crate::table::{keys_of, lemma_to_map_index, lemma_to_map_absent, lemma_to_map_push,
    lemma_to_map_remove, lemma_to_map_update, to_map};
use tokio::sync::broadcast::Sender;

verus! {

/// `tokio::sync::broadcast::Sender`, carried opaquely.
#[verifier::external_type_specification]
#[verifier::external_body]
#[verifier::reject_recursive_types(T)]
pub struct ExSender<T>(Sender<T>);

/// How many messages a room's channel holds for a member that lags behind.
pub const CHANNEL_CAPACITY: usize = 32;

/// Relies on `tokio::sync::broadcast::channel`: a new channel holding up to
/// `capacity` messages; its receiving end is dropped at once. It panics on a
/// capacity of 0 or above `usize::MAX / 2`.
#[verifier::external_body]
fn open_channel(capacity: usize) -> Sender<ChatMessage>
    requires
        0 < capacity <= usize::MAX / 2,
{
    tokio::sync::broadcast::channel(capacity).0
}

/// Relies on `Clone` for `tokio::sync::broadcast::Sender`: another handle on
/// the same channel (the sender is one shared pointer to the channel, and
/// cloning copies that pointer).
#[verifier::external_body]
fn share(tx: &Sender<ChatMessage>) -> (r: Sender<ChatMessage>)
    ensures
        r == *tx,
{
    tx.clone()
}

/// Why a directory operation was refused.
#[derive(Clone, Copy, Debug, PartialEq, Eq, Structural)]
pub enum DirectoryError {
    /// The room, or the member in it, does not exist.
    NotFound,
    /// The new room name is taken.
    Conflict,
}

/// Room name to the set of its members.
pub type Directory = Map<Seq<char>, Set<Seq<char>>>;

/// The members of `room`, or none where it does not exist.
pub open spec fn members_or_empty(m: Directory, room: Seq<char>) -> Set<Seq<char>> {
    if m.contains_key(room) {
        m[room]
    } else {
        Set::empty()
    }
}

/// `user` joins `room`, which is created if it does not exist.
pub open spec fn join_spec(m: Directory, room: Seq<char>, user: Seq<char>) -> Directory {
    m.insert(room, members_or_empty(m, room).insert(user))
}

/// `user` leaves `room`; a room left with no member is removed.
pub open spec fn leave_spec(m: Directory, room: Seq<char>, user: Seq<char>) -> Directory {
    if !m.contains_key(room) {
        m
    } else if m[room].remove(user) == Set::<Seq<char>>::empty() {
        m.remove(room)
    } else {
        m.insert(room, m[room].remove(user))
    }
}

/// `user` leaves `from` and joins `to`.
pub open spec fn change_spec(m: Directory, from: Seq<char>, to: Seq<char>, user: Seq<char>) -> Directory {
    join_spec(leave_spec(m, from, user), to, user)
}

/// Member `old` of `room` is now called `new`.
pub open spec fn rename_user_spec(
    m: Directory,
    room: Seq<char>,
    old: Seq<char>,
    new: Seq<char>,
) -> Directory {
    m.insert(room, m[room].remove(old).insert(new))
}

/// Room `old` is now called `new`, with the same members.
pub open spec fn rename_room_spec(m: Directory, old: Seq<char>, new: Seq<char>) -> Directory {
    m.remove(old).insert(new, m[old])
}

/// Every room has a member.
pub open spec fn all_occupied(m: Directory) -> bool {
    forall|k: Seq<char>| #[trigger] m.contains_key(k) ==> m[k] != Set::<Seq<char>>::empty()
}

/// A room name and its member count.
pub type RoomCount = (Seq<char>, usize);

/// `a` is listed before `b`: more members first, then by name.
pub open spec fn ranks_before(a: RoomCount, b: RoomCount) -> bool {
    a.1 > b.1 || (a.1 == b.1 && lex_lt(a.0, b.0))
}

/// Each entry is listed before every later one.
pub open spec fn ranked(s: Seq<RoomCount>) -> bool {
    forall|i: int, j: int| 0 <= i < j < s.len() ==> ranks_before(s[i], s[j])
}

/// The text and count of each listed room.
pub open spec fn listing_view(v: Seq<(String, usize)>) -> Seq<RoomCount> {
    v.map_values(|e: (String, usize)| (e.0@, e.1))
}

/// `s` lists each room of `m` once, with its member count.
pub open spec fn lists_rooms(s: Seq<RoomCount>, m: Directory) -> bool {
    &&& forall|k: Seq<char>| m.contains_key(k) <==> keys_of(s).contains(k)
    &&& forall|i: int| 0 <= i < s.len() ==> (#[trigger] s[i]).1 == m[s[i].0].len()
}

/// Of two entries with different names, one ranks before the other.
pub proof fn lemma_ranks_total(a: RoomCount, b: RoomCount)
    requires
        a.0 != b.0,
    ensures
        ranks_before(a, b) || ranks_before(b, a),
{
    lemma_lex_total(a.0, b.0);
}

/// Ranking is transitive.
pub proof fn lemma_ranks_transitive(a: RoomCount, b: RoomCount, c: RoomCount)
    requires
        ranks_before(a, b),
        ranks_before(b, c),
    ensures
        ranks_before(a, c),
{
    if a.1 == b.1 && b.1 == c.1 {
        lemma_lex_transitive(a.0, b.0, c.0);
    }
}

fn rank_precedes(a: &(String, usize), b: &(String, usize)) -> (r: bool)
    ensures
        r == ranks_before((a.0@, a.1), (b.0@, b.1)),
{
    a.1 > b.1 || (a.1 == b.1 && text_precedes(a.0.as_str(), b.0.as_str()))
}

/// One room: its broadcast channel and its members.
pub struct Room {
    tx: Sender<ChatMessage>,
    users: Names,
}

impl Room {
    /// The members.
    pub closed spec fn members(&self) -> Set<Seq<char>> {
        self.users@
    }

    /// The member set is well formed.
    pub closed spec fn wf(&self) -> bool {
        self.users.wf()
    }

    /// A room with a fresh channel and no member.
    pub fn new() -> (r: Room)
        ensures
            r.wf(),
            r.members() == Set::<Seq<char>>::empty(),
    {
        Room { tx: open_channel(CHANNEL_CAPACITY), users: Names::new() }
    }
}

/// All rooms, by name.
pub struct Rooms {
    table: Vec<(String, Room)>,
}

/// The name and members of a directory entry.
pub closed spec fn entry_view(e: (String, Room)) -> (Seq<char>, Set<Seq<char>>) {
    (e.0@, e.1.users@)
}

impl View for Rooms {
    type V = Directory;

    closed spec fn view(&self) -> Directory {
        to_map(self.entries())
    }
}

impl Rooms {
    closed spec fn entries(&self) -> Seq<(Seq<char>, Set<Seq<char>>)> {
        self.table@.map_values(|e: (String, Room)| entry_view(e))
    }

    closed spec fn channel_entries(&self) -> Seq<(Seq<char>, Sender<ChatMessage>)> {
        self.table@.map_values(|e: (String, Room)| (e.0@, e.1.tx))
    }

    /// Each room's broadcast channel, by room name.
    pub closed spec fn channels(&self) -> Map<Seq<char>, Sender<ChatMessage>> {
        to_map(self.channel_entries())
    }

    proof fn lemma_same_keys(&self)
        ensures
            keys_of(self.channel_entries()) == keys_of(self.entries()),
    {
        assert(keys_of(self.channel_entries()) =~= keys_of(self.entries()));
    }

    proof fn lemma_channel_at(&self, i: int)
        requires
            self.wf(),
            0 <= i < self.table@.len(),
        ensures
            self.channels().contains_key(self.table@[i].0@),
            self.channels()[self.table@[i].0@] == self.table@[i].1.tx,
            self.channels().remove(self.table@[i].0@).insert(self.table@[i].0@, self.table@[i].1.tx)
                == self.channels(),
    {
        self.lemma_same_keys();
        assert(self.channel_entries()[i] == (self.table@[i].0@, self.table@[i].1.tx));
        lemma_to_map_index(self.channel_entries(), i);
        assert(self.channels().remove(self.table@[i].0@).insert(self.table@[i].0@, self.table@[i].1.tx)
            =~= self.channels());
    }

    /// The rooms with a channel are the rooms of the directory.
    pub proof fn lemma_channels_dom(&self)
        ensures
            self.channels().dom() == self@.dom(),
    {
        self.lemma_same_keys();
        assert(self.channels().dom() =~= self@.dom());
    }

    /// Room names are unique, and every room has members, each once.
    pub closed spec fn wf(&self) -> bool {
        &&& keys_of(self.entries()).no_duplicates()
        &&& forall|i: int|
            0 <= i < self.table@.len() ==> {
                &&& (#[trigger] self.table@[i]).1.users.wf()
                &&& self.table@[i].1.users@ != Set::<Seq<char>>::empty()
            }
    }

    /// A well-formed directory has no empty room: each member set is finite
    /// and has at least one member.
    pub proof fn lemma_occupied(&self)
        requires
            self.wf(),
        ensures
            all_occupied(self@),
            forall|k: Seq<char>| #[trigger] self@.contains_key(k) ==> self@[k].finite() && self@[k].len() >= 1,
    {
        assert forall|k: Seq<char>| #[trigger] self@.contains_key(k) implies self@[k]
            != Set::<Seq<char>>::empty() by {
            let j = choose|j: int|
                0 <= j < keys_of(self.entries()).len() && keys_of(self.entries())[j] == k;
            lemma_to_map_index(self.entries(), j);
            assert(self.entries()[j] == entry_view(self.table@[j]));
        }
        assert forall|k: Seq<char>| #[trigger] self@.contains_key(k) implies self@[k].finite()
            && self@[k].len() >= 1 by {
            let j = choose|j: int|
                0 <= j < keys_of(self.entries()).len() && keys_of(self.entries())[j] == k;
            lemma_to_map_index(self.entries(), j);
            assert(self.entries()[j] == entry_view(self.table@[j]));
            self.table@[j].1.users.lemma_finite();
            if self@[k].len() == 0 {
                self@[k].lemma_len0_is_empty();
            }
        }
    }

    /// An empty directory.
    pub fn new() -> (r: Rooms)
        ensures
            r.wf(),
            r@ == Directory::empty(),
    {
        let r = Rooms { table: Vec::new() };
        assert(r.entries() =~= seq![]);
        assert(r@ =~= Directory::empty());
        r
    }

    fn find(&self, name: &str) -> (r: Option<usize>)
        requires
            self.wf(),
        ensures
            match r {
                Some(i) => i < self.table@.len() && self.table@[i as int].0@ == name@
                    && self@.contains_key(name@) && self@[name@] == self.table@[i as int].1.users@,
                None => !self@.contains_key(name@),
            },
    {
        let key = String::from_str(name);
        let mut i: usize = 0;
        while i < self.table.len()
            invariant
                self.wf(),
                i <= self.table@.len(),
                key@ == name@,
                forall|j: int| 0 <= j < i ==> self.table@[j].0@ != name@,
            decreases self.table.len() - i,
        {
            if self.table[i].0 == key {
                proof {
                    lemma_to_map_index(self.entries(), i as int);
                    assert(self.entries()[i as int] == entry_view(self.table@[i as int]));
                }
                return Some(i);
            }
            i = i + 1;
        }
        proof {
            assert forall|j: int| 0 <= j < self.entries().len() implies self.entries()[j].0
                != name@ by {
                assert(self.entries()[j] == entry_view(self.table@[j]));
            }
            lemma_to_map_absent(self.entries(), name@);
        }
        None
    }
    proof fn lemma_update_entry(before: Rooms, after: Rooms, i: int, e: (String, Room))
        requires
            before.wf(),
            0 <= i < before.table@.len(),
            after.table@ == before.table@.update(i, e),
            e.0@ == before.table@[i].0@ || !before@.contains_key(e.0@),
            e.1.users.wf(),
            e.1.users@ != Set::<Seq<char>>::empty(),
        ensures
            after.wf(),
            after@ == before@.remove(before.table@[i].0@).insert(e.0@, e.1.users@),
            after.channels() == before.channels().remove(before.table@[i].0@).insert(e.0@, e.1.tx),
    {
        let e0 = before.entries();
        before.lemma_same_keys();
        after.lemma_same_keys();
        assert(after.channel_entries() =~= before.channel_entries().update(i, (e.0@, e.1.tx)));
        assert(before.channel_entries()[i] == (before.table@[i].0@, before.table@[i].1.tx));
        lemma_to_map_update(before.channel_entries(), i, e.0@, e.1.tx);
        assert(after.entries() =~= e0.update(i, (e.0@, e.1.users@)));
        assert(e0[i] == entry_view(before.table@[i]));
        if e.0@ != before.table@[i].0@ && keys_of(e0).contains(e.0@) {
            let j = choose|j: int| 0 <= j < keys_of(e0).len() && keys_of(e0)[j] == e.0@;
            lemma_to_map_index(e0, j);
        }
        lemma_to_map_update(e0, i, e.0@, e.1.users@);
        assert forall|j: int| 0 <= j < after.table@.len() implies (#[trigger] after.table@[j]).1.users.wf()
            && after.table@[j].1.users@ != Set::<Seq<char>>::empty() by {
            if j != i {
                assert(after.table@[j] == before.table@[j]);
            }
        }
    }

    proof fn lemma_remove_entry(before: Rooms, after: Rooms, i: int)
        requires
            before.wf(),
            0 <= i < before.table@.len(),
            after.table@ == before.table@.remove(i),
        ensures
            after.wf(),
            after@ == before@.remove(before.table@[i].0@),
            after.channels() == before.channels().remove(before.table@[i].0@),
    {
        let e0 = before.entries();
        before.lemma_same_keys();
        assert(after.channel_entries() =~= before.channel_entries().remove(i));
        assert(before.channel_entries()[i] == (before.table@[i].0@, before.table@[i].1.tx));
        lemma_to_map_remove(before.channel_entries(), i);
        assert(after.entries() =~= e0.remove(i));
        assert(e0[i] == entry_view(before.table@[i]));
        lemma_to_map_remove(e0, i);
        assert forall|j: int| 0 <= j < after.table@.len() implies (#[trigger] after.table@[j]).1.users.wf()
            && after.table@[j].1.users@ != Set::<Seq<char>>::empty() by {
            if j < i {
                assert(after.table@[j] == before.table@[j]);
            } else {
                assert(after.table@[j] == before.table@[j + 1]);
            }
        }
    }

    proof fn lemma_push_entry(before: Rooms, after: Rooms, e: (String, Room))
        requires
            before.wf(),
            after.table@ == before.table@.push(e),
            !before@.contains_key(e.0@),
            e.1.users.wf(),
            e.1.users@ != Set::<Seq<char>>::empty(),
        ensures
            after.wf(),
            after@ == before@.insert(e.0@, e.1.users@),
            after.channels() == before.channels().insert(e.0@, e.1.tx),
    {
        let e0 = before.entries();
        before.lemma_same_keys();
        assert(after.channel_entries() =~= before.channel_entries().push((e.0@, e.1.tx)));
        assert(after.entries() =~= e0.push((e.0@, e.1.users@)));
        if keys_of(e0).contains(e.0@) {
            let j = choose|j: int| 0 <= j < keys_of(e0).len() && keys_of(e0)[j] == e.0@;
            lemma_to_map_index(e0, j);
        }
        lemma_to_map_push(e0, e.0@, e.1.users@);
        lemma_to_map_push(before.channel_entries(), e.0@, e.1.tx);
        assert forall|j: int| 0 <= j < after.table@.len() implies (#[trigger] after.table@[j]).1.users.wf()
            && after.table@[j].1.users@ != Set::<Seq<char>>::empty() by {
            if j < before.table@.len() {
                assert(after.table@[j] == before.table@[j]);
            }
        }
    }

    /// Adds `user_name` to `room_name`, creating the room if it does not
    /// exist; returns a handle on the room's channel.
    pub fn join(&mut self, room_name: &str, user_name: &str) -> (r: Sender<ChatMessage>)
        requires
            old(self).wf(),
        ensures
            final(self).wf(),
            final(self)@ == join_spec(old(self)@, room_name@, user_name@),
            old(self)@.contains_key(room_name@) ==> final(self).channels() == old(self).channels(),
            !old(self)@.contains_key(room_name@) ==> final(self).channels().remove(room_name@)
                == old(self).channels(),
            final(self).channels().contains_key(room_name@),
            r == final(self).channels()[room_name@],
    {
        let ghost before = *self;
        match self.find(room_name) {
            Some(i) => {
                let (n, mut room) = self.table.remove(i);
                let _ = room.users.insert(String::from_str(user_name));
                let tx = share(&room.tx);
                proof {
                    assert(room.users@.contains(user_name@));
                }
                let ghost e = (n, room);
                self.table.insert(i, (n, room));
                proof {
                    assert(self.table@ =~= before.table@.update(i as int, e));
                    Rooms::lemma_update_entry(before, *self, i as int, e);
                    before.lemma_channel_at(i as int);
                    assert(self@ =~= join_spec(before@, room_name@, user_name@));
                }
                tx
            },
            None => {
                let mut room = Room::new();
                let _ = room.users.insert(String::from_str(user_name));
                let tx = share(&room.tx);
                proof {
                    assert(room.users@.contains(user_name@));
                }
                let key = String::from_str(room_name);
                let ghost e = (key, room);
                self.table.push((key, room));
                proof {
                    Rooms::lemma_push_entry(before, *self, e);
                    assert(room.users@ =~= Set::<Seq<char>>::empty().insert(user_name@));
                    before.lemma_channels_dom();
                    assert(!before.channels().contains_key(room_name@));
                    assert(self.channels().remove(room_name@) =~= before.channels());
                }
                tx
            },
        }
    }

    /// Removes `user_name` from `room_name`, and the room itself when no
    /// member is left. Nothing happens where the room does not exist.
    pub fn leave(&mut self, room_name: &str, user_name: &str)
        requires
            old(self).wf(),
        ensures
            final(self).wf(),
            final(self)@ == leave_spec(old(self)@, room_name@, user_name@),
            final(self).channels() == if final(self)@.contains_key(room_name@) {
                old(self).channels()
            } else {
                old(self).channels().remove(room_name@)
            },
    {
        let ghost before = *self;
        match self.find(room_name) {
            Some(i) => {
                let (n, mut room) = self.table.remove(i);
                let _ = room.users.remove(&String::from_str(user_name));
                if room.users.len() == 0 {
                    proof {
                        Rooms::lemma_remove_entry(before, *self, i as int);
                        assert(!self@.contains_key(room_name@));
                    }
                } else {
                    let ghost e = (n, room);
                    self.table.insert(i, (n, room));
                    proof {
                        assert(self.table@ =~= before.table@.update(i as int, e));
                        Rooms::lemma_update_entry(before, *self, i as int, e);
                        before.lemma_channel_at(i as int);
                        assert(self@ =~= leave_spec(before@, room_name@, user_name@));
                    }
                }
            },
            None => {
                proof {
                    self.lemma_channels_dom();
                    assert(self.channels().remove(room_name@) =~= self.channels());
                }
            },
        }
    }
    /// Moves `user_name` from `prev_room` to `next_room`; returns a handle on
    /// the new room's channel.
    pub fn change(&mut self, prev_room: &str, next_room: &str, user_name: &str) -> (r: Sender<
        ChatMessage,
    >)
        requires
            old(self).wf(),
        ensures
            final(self).wf(),
            final(self)@ == change_spec(old(self)@, prev_room@, next_room@, user_name@),
            final(self).channels().contains_key(next_room@),
            r == final(self).channels()[next_room@],
            forall|k: Seq<char>|
                k != next_room@ && #[trigger] final(self).channels().contains_key(k)
                    ==> old(self).channels().contains_key(k)
                    && final(self).channels()[k] == old(self).channels()[k],
            next_room@ != prev_room@ && old(self)@.contains_key(next_room@)
                ==> final(self).channels()[next_room@] == old(self).channels()[next_room@],
    {
        let ghost c0 = self.channels();
        self.leave(prev_room, user_name);
        let ghost c1 = self.channels();
        let ghost had_next = self@.contains_key(next_room@);
        let r = self.join(next_room, user_name);
        proof {
            let c2 = self.channels();
            assert forall|k: Seq<char>|
                k != next_room@ && #[trigger] c2.contains_key(k) implies c0.contains_key(k)
                && c2[k] == c0[k] by {
                if !had_next {
                    assert(c2.remove(next_room@).contains_key(k));
                    assert(c2.remove(next_room@)[k] == c2[k]);
                }
                assert(c1.contains_key(k) && c1[k] == c2[k]);
                if c1 != c0 {
                    assert(c0.remove(prev_room@).contains_key(k));
                }
            }
            if next_room@ != prev_room@ && old(self)@.contains_key(next_room@) {
                assert(had_next);
                if c1 != c0 {
                    assert(c0.remove(prev_room@)[next_room@] == c0[next_room@]);
                }
            }
        }
        r
    }

    /// The room that has `user_name` as a member, if any.
    pub fn room_of(&self, user_name: &str) -> (r: Option<String>)
        requires
            self.wf(),
        ensures
            match r {
                Some(room) => self@.contains_key(room@) && self@[room@].contains(user_name@),
                None => forall|k: Seq<char>| #[trigger]
                    self@.contains_key(k) ==> !self@[k].contains(user_name@),
            },
    {
        let key = String::from_str(user_name);
        let mut i: usize = 0;
        while i < self.table.len()
            invariant
                self.wf(),
                i <= self.table@.len(),
                key@ == user_name@,
                forall|j: int| 0 <= j < i ==> !(#[trigger] self.table@[j]).1.users@.contains(user_name@),
            decreases self.table.len() - i,
        {
            if self.table[i].1.users.contains(&key) {
                proof {
                    lemma_to_map_index(self.entries(), i as int);
                    assert(self.entries()[i as int] == entry_view(self.table@[i as int]));
                }
                return Some(self.table[i].0.clone());
            }
            i = i + 1;
        }
        proof {
            assert forall|k: Seq<char>| #[trigger] self@.contains_key(k) implies !self@[k].contains(
                user_name@,
            ) by {
                let j = choose|j: int|
                    0 <= j < keys_of(self.entries()).len() && keys_of(self.entries())[j] == k;
                lemma_to_map_index(self.entries(), j);
                assert(self.entries()[j] == entry_view(self.table@[j]));
            }
        }
        None
    }

    /// Whether a room named `room_name` exists.
    pub fn contains(&self, room_name: &str) -> (r: bool)
        requires
            self.wf(),
        ensures
            r == self@.contains_key(room_name@),
    {
        self.find(room_name).is_some()
    }

    /// Member `old_name` of `room_name` takes the name `new_name`.
    pub fn change_name(&mut self, room_name: &str, old_name: &str, new_name: &str) -> (r: Result<
        (),
        DirectoryError,
    >)
        requires
            old(self).wf(),
        ensures
            final(self).wf(),
            r is Ok <==> old(self)@.contains_key(room_name@) && old(self)@[room_name@].contains(
                old_name@,
            ),
            r is Ok ==> final(self)@ == rename_user_spec(
                old(self)@,
                room_name@,
                old_name@,
                new_name@,
            ),
            final(self).channels() == old(self).channels(),
            r is Err ==> r == Err::<(), DirectoryError>(DirectoryError::NotFound) && *final(self)
                == *old(self),
    {
        let ghost before = *self;
        match self.find(room_name) {
            Some(i) => {
                let old_key = String::from_str(old_name);
                if !self.table[i].1.users.contains(&old_key) {
                    return Err(DirectoryError::NotFound);
                }
                let (n, mut room) = self.table.remove(i);
                let _ = room.users.remove(&old_key);
                let _ = room.users.insert(String::from_str(new_name));
                proof {
                    assert(room.users@.contains(new_name@));
                }
                let ghost e = (n, room);
                self.table.insert(i, (n, room));
                proof {
                    assert(self.table@ =~= before.table@.update(i as int, e));
                    Rooms::lemma_update_entry(before, *self, i as int, e);
                    before.lemma_channel_at(i as int);
                    assert(self@ =~= rename_user_spec(before@, room_name@, old_name@, new_name@));
                }
                Ok(())
            },
            None => Err(DirectoryError::NotFound),
        }
    }

    /// Room `old_name` takes the name `new_name`, keeping its channel and
    /// members. Refused with `NotFound` where `old_name` does not exist, and
    /// otherwise with `Conflict` where `new_name` does.
    pub fn change_room_name(&mut self, old_name: &str, new_name: &str) -> (r: Result<
        (),
        DirectoryError,
    >)
        requires
            old(self).wf(),
        ensures
            final(self).wf(),
            !old(self)@.contains_key(old_name@) ==> r == Err::<(), DirectoryError>(
                DirectoryError::NotFound,
            ),
            old(self)@.contains_key(old_name@) && old(self)@.contains_key(new_name@) ==> r == Err::<
                (),
                DirectoryError,
            >(DirectoryError::Conflict),
            r is Ok <==> old(self)@.contains_key(old_name@) && !old(self)@.contains_key(new_name@),
            r is Ok ==> final(self)@ == rename_room_spec(old(self)@, old_name@, new_name@),
            r is Ok ==> final(self).channels() == old(self).channels().remove(old_name@).insert(
                new_name@,
                old(self).channels()[old_name@],
            ),
            r is Err ==> *final(self) == *old(self),
    {
        let ghost before = *self;
        match self.find(old_name) {
            None => Err(DirectoryError::NotFound),
            Some(i) => {
                if self.find(new_name).is_some() {
                    return Err(DirectoryError::Conflict);
                }
                let (_, room) = self.table.remove(i);
                let key = String::from_str(new_name);
                let ghost e = (key, room);
                self.table.insert(i, (key, room));
                proof {
                    assert(self.table@ =~= before.table@.update(i as int, e));
                    Rooms::lemma_update_entry(before, *self, i as int, e);
                    before.lemma_channel_at(i as int);
                    assert(self@ =~= rename_room_spec(before@, old_name@, new_name@));
                }
                Ok(())
            },
        }
    }

    /// The members of `room_name`, each once, in no particular order; none
    /// where the room does not exist.
    pub fn list_users(&self, room_name: &str) -> (r: Vec<String>)
        requires
            self.wf(),
        ensures
            crate::text::views(r@).no_duplicates(),
            crate::text::views(r@).to_set() == members_or_empty(self@, room_name@),
    {
        match self.find(room_name) {
            Some(i) => self.table[i].1.users.get_existing(),
            None => {
                let r: Vec<String> = Vec::new();
                assert(crate::text::views(r@) =~= seq![]);
                assert(crate::text::views(r@).to_set() =~= Set::<Seq<char>>::empty());
                r
            },
        }
    }
    /// Every room with its member count, by member count from most to
    /// fewest, then by name.
    pub fn get_existing(&self) -> (r: Vec<(String, usize)>)
        requires
            self.wf(),
        ensures
            ranked(listing_view(r@)),
            lists_rooms(listing_view(r@), self@),
            forall|i: int| 0 <= i < r@.len() ==> (#[trigger] r@[i]).1 >= 1,
    {
        let ghost es = self.entries();
        let mut out: Vec<(String, usize)> = Vec::new();
        let mut i: usize = 0;
        while i < self.table.len()
            invariant
                self.wf(),
                es == self.entries(),
                i <= self.table@.len(),
                ranked(listing_view(out@)),
                forall|j: int|
                    0 <= j < out@.len() ==> self@.contains_key(#[trigger] listing_view(out@)[j].0)
                        && listing_view(out@)[j].1 == self@[listing_view(out@)[j].0].len(),
                forall|k: Seq<char>|
                    keys_of(listing_view(out@)).contains(k) <==> keys_of(es).take(i as int).contains(k),
            decreases self.table.len() - i,
        {
            let name = self.table[i].0.clone();
            let count = self.table[i].1.users.len();
            let x = (name, count);
            let ghost xv = (x.0@, x.1);
            let ghost lv = listing_view(out@);
            proof {
                assert(es[i as int] == entry_view(self.table@[i as int]));
                lemma_to_map_index(es, i as int);
                assert(keys_of(es)[i as int] == xv.0);
                assert forall|j: int| 0 <= j < lv.len() implies lv[j].0 != xv.0 by {
                    assert(keys_of(lv)[j] == lv[j].0);
                    assert(keys_of(lv).contains(lv[j].0));
                    let t = choose|t: int| 0 <= t < keys_of(es).take(i as int).len() && keys_of(es).take(i as int)[t] == lv[j].0;
                    assert(keys_of(es)[t] == lv[j].0);
                }
            }
            let mut p: usize = 0;
            let mut done = false;
            while !done && p < out.len()
                invariant
                    p <= out@.len(),
                    lv == listing_view(out@),
                    xv == (x.0@, x.1),
                    forall|j: int| 0 <= j < p ==> ranks_before(lv[j], xv),
                    forall|j: int| 0 <= j < lv.len() ==> lv[j].0 != xv.0,
                    done ==> p < lv.len() && ranks_before(xv, lv[p as int]),
                decreases out.len() - p, if done { 0int } else { 1int },
            {
                assert(lv[p as int] == (out@[p as int].0@, out@[p as int].1));
                if rank_precedes(&x, &out[p]) {
                    done = true;
                } else {
                    proof {
                        lemma_ranks_total(xv, lv[p as int]);
                    }
                    p = p + 1;
                }
            }
            out.insert(p, x);
            proof {
                let nv = listing_view(out@);
                assert(nv =~= lv.insert(p as int, xv));
                assert forall|a: int, b: int| 0 <= a < b < nv.len() implies ranks_before(nv[a], nv[b]) by {
                    if b < p {
                    } else if b == p {
                    } else if a < p {
                        assert(nv[a] == lv[a] && nv[b] == lv[b - 1]);
                    } else if a == p {
                        if b - 1 > p {
                            lemma_ranks_transitive(xv, lv[p as int], lv[b - 1]);
                        }
                    } else {
                    }
                }
                assert forall|k: Seq<char>| keys_of(nv).contains(k) <==> keys_of(es).take(i + 1).contains(k) by {
                    assert(keys_of(es).take(i + 1) =~= keys_of(es).take(i as int).push(xv.0));
                    assert(keys_of(nv) =~= keys_of(lv).insert(p as int, xv.0));
                    if keys_of(nv).contains(k) {
                        let t = choose|t: int| 0 <= t < keys_of(nv).len() && keys_of(nv)[t] == k;
                        if t < p {
                            assert(keys_of(lv)[t] == k);
                        } else if t > p {
                            assert(keys_of(lv)[t - 1] == k);
                        }
                    }
                    if keys_of(lv).contains(k) {
                        let t = choose|t: int| 0 <= t < keys_of(lv).len() && keys_of(lv)[t] == k;
                        if t < p {
                            assert(keys_of(nv)[t] == k);
                        } else {
                            assert(keys_of(nv)[t + 1] == k);
                        }
                    }
                    assert(keys_of(nv)[p as int] == xv.0);
                    let ka = keys_of(es).take(i + 1);
                    let kb = keys_of(es).take(i as int);
                    if ka.contains(k) {
                        let t = choose|t: int| 0 <= t < ka.len() && ka[t] == k;
                        if t < i {
                            assert(kb[t] == k);
                        }
                    }
                    if kb.contains(k) {
                        let t = choose|t: int| 0 <= t < kb.len() && kb[t] == k;
                        assert(ka[t] == k);
                    }
                    assert(ka[i as int] == xv.0);
                }
            }
            i = i + 1;
        }
        proof {
            assert(keys_of(es).take(i as int) =~= keys_of(es));
            let lv = listing_view(out@);
            assert forall|j: int| 0 <= j < lv.len() implies (#[trigger] lv[j]).1 == self@[lv[j].0].len() by {}
            self.lemma_occupied();
            assert forall|j: int| 0 <= j < out@.len() implies (#[trigger] out@[j]).1 >= 1 by {
                assert(lv[j] == (out@[j].0@, out@[j].1));
                assert(self@.contains_key(lv[j].0));
            }
        }
        out
    }
}

} // verus!
