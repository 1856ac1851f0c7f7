//! One connection's session: its display name and room, and what it does
//! with each line the client sends.
use vstd::prelude::*;
use crate::command::{Command, CommandView, command_of, parse_command};
use crate::message::ChatMessage;
use crate::names::{Names, allocated, famous_people};
use crate::rooms::{
    Directory, Rooms, change_spec, join_spec, leave_spec, lists_rooms, listing_view,
    members_or_empty, ranked, rename_room_spec, rename_user_spec, RoomCount,
};
use crate::membership::{
    all_placed, lemma_change_places, lemma_rename_room_places, lemma_rename_user_places, placed,
};
use crate::text::{debug_list, debug_names, decimal, push_decimal, views};
use tokio::sync::broadcast::Sender;

verus! {

/// The room every session starts in.
pub const MAIN: &'static str = "main";

/// The text sent on connecting and on `/help`.
pub const HELP_MSG: &'static str = "Welcome to the chat!\nCommands:\n  /join <room>        move to another room\n  /name <name>        change your display name\n  /users              list the members of your room\n  /allusers           list everyone connected\n  /rooms              list the rooms and their member counts\n  /renameroom <name>  rename your room\n  /help               show this text\n  /quit               leave the chat\nAnything else is said to your room.";

/// What the connection must do after a step of the session, in order.
pub enum Action {
    /// Send this text to this client alone.
    Reply(String),
    /// Broadcast this text to the session's current room.
    Publish(String),
    /// From now on publish to, and receive from, this channel.
    Subscribe(Sender<ChatMessage>),
    /// End the session.
    Quit,
}

/// The meaning of an action.
pub enum Effect {
    Reply(Seq<char>),
    Publish(Seq<char>),
    Subscribe(Sender<ChatMessage>),
    Quit,
}

impl View for Action {
    type V = Effect;

    open spec fn view(&self) -> Effect {
        match self {
            Action::Reply(s) => Effect::Reply(s@),
            Action::Publish(s) => Effect::Publish(s@),
            Action::Subscribe(tx) => Effect::Subscribe(*tx),
            Action::Quit => Effect::Quit,
        }
    }
}

/// The meaning of each action.
pub open spec fn effects(v: Seq<Action>) -> Seq<Effect> {
    v.map_values(|a: Action| a@)
}

/// Announces a newcomer to the chat.
pub open spec fn joined_chat(user: Seq<char>) -> Seq<char> {
    user + " has joined the chat."@
}

/// Announces that a user left the chat.
pub open spec fn left_chat(user: Seq<char>) -> Seq<char> {
    user + " has left the chat."@
}

/// Announces that a user left a room.
pub open spec fn left_room(user: Seq<char>, room: Seq<char>) -> Seq<char> {
    user + " has left "@ + room + "."@
}

/// Announces that a user joined a room.
pub open spec fn joined_room(user: Seq<char>, room: Seq<char>) -> Seq<char> {
    user + " has joined "@ + room + "."@
}

/// Announces a new display name.
pub open spec fn renamed_user(old: Seq<char>, new: Seq<char>) -> Seq<char> {
    old + " is now "@ + new
}

/// Lists the members of a room.
pub open spec fn names_in_room(list: Seq<Seq<char>>) -> Seq<char> {
    "Current names in room: "@ + debug_list(list)
}

/// Lists everyone connected.
pub open spec fn all_users_text(list: Seq<Seq<char>>) -> Seq<char> {
    "All users: "@ + debug_list(list)
}

/// Lists the members of the current room.
pub open spec fn room_users_text(list: Seq<Seq<char>>) -> Seq<char> {
    "Users in current room: "@ + debug_list(list)
}

/// Announces a new room name.
pub open spec fn renamed_room(old: Seq<char>, new: Seq<char>) -> Seq<char> {
    "Room "@ + old + " has been renamed to "@ + new + "."@
}

/// A line said to the room.
pub open spec fn said(user: Seq<char>, line: Seq<char>) -> Seq<char> {
    user + ": "@ + line
}

/// `name (count)`.
pub open spec fn room_entry(e: RoomCount) -> Seq<char> {
    e.0 + " ("@ + decimal(e.1 as nat) + ")"@
}

/// The entries, separated by `, `.
pub open spec fn room_entries(s: Seq<RoomCount>) -> Seq<char>
    decreases s.len(),
{
    if s.len() == 0 {
        seq![]
    } else if s.len() == 1 {
        room_entry(s[0])
    } else {
        room_entries(s.drop_last()) + ", "@ + room_entry(s.last())
    }
}

/// Lists the rooms.
pub open spec fn rooms_text(s: Seq<RoomCount>) -> Seq<char> {
    "Current rooms: "@ + room_entries(s)
}

/// `list` holds each member of `set` once.
pub open spec fn lists(list: Seq<Seq<char>>, set: Set<Seq<char>>) -> bool {
    list.no_duplicates() && list.to_set() == set
}

/// What one line from the client does, from the session's name `u` and the
/// room `room` that holds it, the names held `n0` and the directory `d0`, to
/// the session's new name `u1` and room `room1`, the names `n1`, the
/// directory `d1` with its channels `c1`, and the actions `effs`.
pub open spec fn step_spec(
    u: Seq<char>,
    room: Seq<char>,
    n0: Set<Seq<char>>,
    d0: Directory,
    line: Seq<char>,
    u1: Seq<char>,
    room1: Seq<char>,
    n1: Set<Seq<char>>,
    d1: Directory,
    c1: Map<Seq<char>, Sender<ChatMessage>>,
    effs: Seq<Effect>,
) -> bool {
    let same = u1 == u && room1 == room && n1 == n0 && d1 == d0;
    match command_of(line) {
        CommandView::Nothing => same && effs == Seq::<Effect>::empty(),
        CommandView::Say => same && effs == seq![Effect::Publish(said(u, line))],
        CommandView::Help => same && effs == seq![Effect::Reply(HELP_MSG@)],
        CommandView::Quit => same && effs == seq![Effect::Quit],
        CommandView::AllUsers => same && exists|v: Seq<Seq<char>>|
            lists(v, n0) && effs == seq![Effect::Reply(all_users_text(v))],
        CommandView::Users => same && exists|v: Seq<Seq<char>>|
            lists(v, members_or_empty(d0, room)) && effs == seq![
                Effect::Reply(room_users_text(v)),
            ],
        CommandView::ListRooms => same && exists|l: Seq<RoomCount>|
            ranked(l) && lists_rooms(l, d0) && effs == seq![Effect::Reply(rooms_text(l))],
        CommandView::Join(r) => if r == room {
            same && effs == seq![Effect::Reply("You are already in this room."@)]
        } else {
            &&& u1 == u
            &&& room1 == r
            &&& n1 == n0
            &&& d1 == change_spec(d0, room, r, u)
            &&& effs == seq![
                Effect::Publish(left_room(u, room)),
                Effect::Subscribe(c1[r]),
                Effect::Publish(joined_room(u, r)),
            ]
        },
        CommandView::Name(n) => if n.len() == 0 {
            same && effs == seq![Effect::Reply("A name cannot be empty."@)]
        } else if n0.contains(n) {
            same && effs == seq![Effect::Reply("Sorry, that name is taken."@)]
        } else {
            &&& u1 == n
            &&& room1 == room
            &&& n1 == n0.insert(n).remove(u)
            &&& d1 == rename_user_spec(d0, room, u, n)
            &&& exists|v: Seq<Seq<char>>|
                lists(v, d1[room]) && effs == seq![
                    Effect::Publish(renamed_user(u, n)),
                    Effect::Publish(names_in_room(v)),
                ]
        },
        CommandView::RenameRoom(n) => if d0.contains_key(n) {
            same && effs == seq![Effect::Reply("Room name already exists."@)]
        } else {
            &&& u1 == u
            &&& room1 == n
            &&& n1 == n0
            &&& d1 == rename_room_spec(d0, room, n)
            &&& effs == seq![Effect::Publish(renamed_room(room, n))]
        },
    }
}

/// Writes a room listing as `name (count), name (count), ...`.
pub fn render_rooms(list: &Vec<(String, usize)>) -> (r: String)
    ensures
        r@ == room_entries(listing_view(list@)),
{
    let mut out = String::new();
    let mut k: usize = 0;
    let ghost lv = listing_view(list@);
    while k < list.len()
        invariant
            k <= list@.len(),
            lv == listing_view(list@),
            out@ == room_entries(lv.take(k as int)),
        decreases list.len() - k,
    {
        let ghost before = out@;
        if k > 0 {
            out.append(", ");
        }
        out.append(list[k].0.as_str());
        out.append(" (");
        push_decimal(&mut out, list[k].1);
        out.append(")");
        proof {
            let next = lv.take(k + 1);
            assert(next.drop_last() =~= lv.take(k as int));
            assert(next.last() == lv[k as int]);
            assert(lv[k as int] == (list@[k as int].0@, list@[k as int].1));
            if k == 0 {
                assert(before == Seq::<char>::empty());
                assert(out@ =~= room_entries(next));
            } else {
                assert(out@ =~= room_entries(next));
            }
        }
        k = k + 1;
    }
    assert(lv.take(k as int) =~= lv);
    out
}

fn text2(a: &str, b: &str) -> (r: String)
    ensures
        r@ == a@ + b@,
{
    let mut s = String::from_str(a);
    s.append(b);
    s
}

fn text3(a: &str, b: &str, c: &str) -> (r: String)
    ensures
        r@ == a@ + b@ + c@,
{
    let mut s = String::from_str(a);
    s.append(b);
    s.append(c);
    s
}

fn text4(a: &str, b: &str, c: &str, d: &str) -> (r: String)
    ensures
        r@ == a@ + b@ + c@ + d@,
{
    let mut s = String::from_str(a);
    s.append(b);
    s.append(c);
    s.append(d);
    s
}

/// One connected client's state.
pub struct Session {
    /// The display name it holds.
    pub user_name: String,
    /// The room it was in after its last step. Another member may rename
    /// that room meanwhile, so each step looks the room up again.
    pub room_name: String,
}

impl Session {
    /// The session's name is held and is a member of some room. Which room
    /// may change under it: another member can rename the room.
    pub open spec fn in_place(&self, names: Set<Seq<char>>, rooms: Directory) -> bool {
        &&& names.contains(self.user_name@)
        &&& exists|r: Seq<char>| #[trigger] rooms.contains_key(r) && rooms[r].contains(self.user_name@)
    }

    /// Opens a session: takes a free name and joins the main room. Then the
    /// connection subscribes to the room, announces the newcomer there and
    /// shows the help text. `None`, with nothing changed, when no name is
    /// free.
    pub fn start(names: &mut Names, rooms: &mut Rooms) -> (r: Option<(Session, Vec<Action>)>)
        requires
            old(names).wf(),
            old(rooms).wf(),
        ensures
            final(names).wf(),
            final(rooms).wf(),
            match r {
                Some((s, acts)) => {
                    &&& famous_people().contains(s.user_name@)
                    &&& allocated(old(names)@, final(names)@, s.user_name@)
                    &&& s.room_name@ == MAIN@
                    &&& final(rooms)@ == join_spec(old(rooms)@, MAIN@, s.user_name@)
                    &&& s.in_place(final(names)@, final(rooms)@)
                    &&& effects(acts@) == seq![
                        Effect::Subscribe(final(rooms).channels()[MAIN@]),
                        Effect::Publish(joined_chat(s.user_name@)),
                        Effect::Reply(HELP_MSG@),
                    ]
                },
                None => final(names)@ == old(names)@ && final(rooms)@ == old(rooms)@,
            },
            r is None <==> forall|i: int|
                0 <= i < famous_people().len() ==> old(names)@.contains(famous_people()[i]),
    {
        let ghost before = names@;
        let user_name = match names.get_unique() {
            Some(n) => n,
            None => return None,
        };
        proof {
            let i = choose|i: int| 0 <= i < famous_people().len() && famous_people()[i] == user_name@;
            assert(!before.contains(famous_people()[i]));
        }
        let tx = rooms.join(MAIN, user_name.as_str());
        let mut acts: Vec<Action> = Vec::new();
        acts.push(Action::Subscribe(tx));
        acts.push(Action::Publish(text2(user_name.as_str(), " has joined the chat.")));
        acts.push(Action::Reply(String::from_str(HELP_MSG)));
        assert(rooms@.contains_key(MAIN@) && rooms@[MAIN@].contains(user_name@));
        assert(effects(acts@) =~= seq![
            Effect::Subscribe(rooms.channels()[MAIN@]),
            Effect::Publish(joined_chat(user_name@)),
            Effect::Reply(HELP_MSG@),
        ]);
        Some((Session { user_name, room_name: String::from_str(MAIN) }, acts))
    }

    /// Ends the session: gives its name back and leaves the room that holds
    /// it, if any. Returns the notice to broadcast to the room.
    pub fn finish(self, names: &mut Names, rooms: &mut Rooms) -> (r: String)
        requires
            old(names).wf(),
            old(rooms).wf(),
        ensures
            final(names).wf(),
            final(rooms).wf(),
            final(names)@ == old(names)@.remove(self.user_name@),
            forall|room: Seq<char>|
                placed(old(rooms)@, self.user_name@, room) ==> final(rooms)@ == leave_spec(
                    old(rooms)@,
                    room,
                    self.user_name@,
                ),
            (forall|k: Seq<char>| #[trigger]
                old(rooms)@.contains_key(k) ==> !old(rooms)@[k].contains(self.user_name@))
                ==> final(rooms)@ == old(rooms)@,
            r@ == left_chat(self.user_name@),
    {
        let _ = names.remove(&self.user_name);
        let ghost d0 = rooms@;
        match rooms.room_of(self.user_name.as_str()) {
            Some(room) => {
                rooms.leave(room.as_str(), self.user_name.as_str());
                assert forall|r: Seq<char>| placed(d0, self.user_name@, r) implies rooms@
                    == leave_spec(d0, r, self.user_name@) by {
                    if r != room@ {
                        assert(d0.contains_key(room@));
                    }
                }
            },
            None => {},
        }
        text2(self.user_name.as_str(), " has left the chat.")
    }

    /// The reply to a pong from the client.
    pub fn pong_reply(&self) -> (r: String)
        ensures
            r@ == "Received pong from "@ + self.user_name@,
    {
        text2("Received pong from ", self.user_name.as_str())
    }
    /// Handles one line from the client: updates the directory, the names
    /// and the session as the line's command asks, and returns what the
    /// connection must do.
    #[verifier::rlimit(50)]
    pub fn handle_line(&mut self, names: &mut Names, rooms: &mut Rooms, line: &str) -> (r: Vec<
        Action,
    >)
        requires
            old(names).wf(),
            old(rooms).wf(),
            old(self).in_place(old(names)@, old(rooms)@),
        ensures
            final(names).wf(),
            final(rooms).wf(),
            final(self).in_place(final(names)@, final(rooms)@),
            final(rooms)@.contains_key(final(self).room_name@),
            final(rooms)@[final(self).room_name@].contains(final(self).user_name@),
            exists|room: Seq<char>|
                old(rooms)@.contains_key(room) && old(rooms)@[room].contains(old(self).user_name@)
                    && #[trigger] step_spec(
                    old(self).user_name@,
                    room,
                    old(names)@,
                    old(rooms)@,
                    line@,
                    final(self).user_name@,
                    final(self).room_name@,
                    final(names)@,
                    final(rooms)@,
                    final(rooms).channels(),
                    effects(r@),
                ),
            forall|room: Seq<char>|
                placed(old(rooms)@, old(self).user_name@, room) ==> #[trigger] step_spec(
                    old(self).user_name@,
                    room,
                    old(names)@,
                    old(rooms)@,
                    line@,
                    final(self).user_name@,
                    final(self).room_name@,
                    final(names)@,
                    final(rooms)@,
                    final(rooms).channels(),
                    effects(r@),
                ),
    {
        let ghost d0 = rooms@;
        let ghost n0 = names@;
        let ghost u0 = self.user_name@;
        let current = rooms.room_of(self.user_name.as_str());
        let current = match current {
            Some(c) => c,
            None => {
                proof {
                    let w = choose|w: Seq<char>| #[trigger] d0.contains_key(w) && d0[w].contains(u0);
                    assert(d0.contains_key(w));
                }
                String::new()
            },
        };
        let ghost room = current@;
        self.room_name = current;
        let acts = self.act(names, rooms, line);
        proof {
            let c1 = rooms.channels();
            let effs = effects(acts@);
            assert(step_spec(u0, room, n0, d0, line@, self.user_name@, self.room_name@, names@, rooms@, c1, effs));
            assert forall|r: Seq<char>| placed(d0, u0, r) implies #[trigger] step_spec(
                u0,
                r,
                n0,
                d0,
                line@,
                self.user_name@,
                self.room_name@,
                names@,
                rooms@,
                c1,
                effs,
            ) by {
                if r != room {
                    assert(d0.contains_key(room));
                }
            }
            assert(self.in_place(names@, rooms@)) by {
                assert(rooms@.contains_key(self.room_name@));
            }
        }
        acts
    }

    #[verifier::rlimit(50)]
    fn act(&mut self, names: &mut Names, rooms: &mut Rooms, line: &str) -> (r: Vec<Action>)
        requires
            old(names).wf(),
            old(rooms).wf(),
            old(names)@.contains(old(self).user_name@),
            old(rooms)@.contains_key(old(self).room_name@),
            old(rooms)@[old(self).room_name@].contains(old(self).user_name@),
        ensures
            final(names).wf(),
            final(rooms).wf(),
            final(names)@.contains(final(self).user_name@),
            final(rooms)@.contains_key(final(self).room_name@),
            final(rooms)@[final(self).room_name@].contains(final(self).user_name@),
            step_spec(
                old(self).user_name@,
                old(self).room_name@,
                old(names)@,
                old(rooms)@,
                line@,
                final(self).user_name@,
                final(self).room_name@,
                final(names)@,
                final(rooms)@,
                final(rooms).channels(),
                effects(r@),
            ),
    {
        let mut acts: Vec<Action> = Vec::new();
        let cmd = parse_command(line);
        let ghost u = self.user_name@;
        let ghost room = self.room_name@;
        match cmd {
            Command::Nothing => {
                assert(effects(acts@) =~= Seq::<Effect>::empty());
            },
            Command::Say => {
                acts.push(Action::Publish(text3(self.user_name.as_str(), ": ", line)));
                assert(effects(acts@) =~= seq![Effect::Publish(said(u, line@))]);
            },
            Command::Help => {
                acts.push(Action::Reply(String::from_str(HELP_MSG)));
                assert(effects(acts@) =~= seq![Effect::Reply(HELP_MSG@)]);
            },
            Command::Quit => {
                acts.push(Action::Quit);
                assert(effects(acts@) =~= seq![Effect::Quit]);
            },
            Command::AllUsers => {
                let list = names.get_existing();
                let text = debug_names(&list);
                acts.push(Action::Reply(text2("All users: ", text.as_str())));
                assert(effects(acts@) =~= seq![Effect::Reply(all_users_text(views(list@)))]);
                assert(lists(views(list@), names@));
            },
            Command::Users => {
                let list = rooms.list_users(self.room_name.as_str());
                let text = debug_names(&list);
                acts.push(Action::Reply(text2("Users in current room: ", text.as_str())));
                assert(effects(acts@) =~= seq![Effect::Reply(room_users_text(views(list@)))]);
                assert(lists(views(list@), members_or_empty(rooms@, room)));
            },
            Command::ListRooms => {
                let list = rooms.get_existing();
                let text = render_rooms(&list);
                acts.push(Action::Reply(text2("Current rooms: ", text.as_str())));
                assert(effects(acts@) =~= seq![Effect::Reply(rooms_text(listing_view(list@)))]);
                assert(ranked(listing_view(list@)) && lists_rooms(listing_view(list@), rooms@));
            },
            Command::Join(new_room) => {
                if new_room == self.room_name {
                    acts.push(Action::Reply(String::from_str("You are already in this room.")));
                    assert(effects(acts@) =~= seq![
                        Effect::Reply("You are already in this room."@),
                    ]);
                } else {
                    acts.push(
                        Action::Publish(
                            text4(
                                self.user_name.as_str(),
                                " has left ",
                                self.room_name.as_str(),
                                ".",
                            ),
                        ),
                    );
                    let tx = rooms.change(
                        self.room_name.as_str(),
                        new_room.as_str(),
                        self.user_name.as_str(),
                    );
                    let ghost chan = tx;
                    acts.push(Action::Subscribe(tx));
                    acts.push(
                        Action::Publish(
                            text4(self.user_name.as_str(), " has joined ", new_room.as_str(), "."),
                        ),
                    );
                    self.room_name = new_room;
                    assert(effects(acts@) =~= seq![
                        Effect::Publish(left_room(u, room)),
                        Effect::Subscribe(chan),
                        Effect::Publish(joined_room(u, self.room_name@)),
                    ]);
                }
            },
            Command::Name(new_name) => {
                if new_name.unicode_len() == 0 {
                    acts.push(Action::Reply(String::from_str("A name cannot be empty.")));
                    assert(effects(acts@) =~= seq![Effect::Reply("A name cannot be empty."@)]);
                } else if names.insert(new_name.clone()) {
                    let ghost n1 = names@;
                    let _ = names.remove(&self.user_name);
                    let _ = rooms.change_name(
                        self.room_name.as_str(),
                        self.user_name.as_str(),
                        new_name.as_str(),
                    );
                    acts.push(
                        Action::Publish(
                            text3(self.user_name.as_str(), " is now ", new_name.as_str()),
                        ),
                    );
                    let list = rooms.list_users(self.room_name.as_str());
                    let text = debug_names(&list);
                    acts.push(Action::Publish(text2("Current names in room: ", text.as_str())));
                    self.user_name = new_name;
                    assert(effects(acts@) =~= seq![
                        Effect::Publish(renamed_user(u, self.user_name@)),
                        Effect::Publish(names_in_room(views(list@))),
                    ]);
                    assert(lists(views(list@), rooms@[room]));
                } else {
                    acts.push(Action::Reply(String::from_str("Sorry, that name is taken.")));
                    assert(names@ =~= old(names)@);
                    assert(effects(acts@) =~= seq![Effect::Reply("Sorry, that name is taken."@)]);
                }
            },
            Command::RenameRoom(new_room) => {
                if rooms.contains(new_room.as_str()) {
                    acts.push(Action::Reply(String::from_str("Room name already exists.")));
                    assert(effects(acts@) =~= seq![Effect::Reply("Room name already exists."@)]);
                } else {
                    let _ = rooms.change_room_name(self.room_name.as_str(), new_room.as_str());
                    let mut notice = text4(
                        "Room ",
                        self.room_name.as_str(),
                        " has been renamed to ",
                        new_room.as_str(),
                    );
                    notice.append(".");
                    acts.push(Action::Publish(notice));
                    self.room_name = new_room;
                    assert(effects(acts@) =~= seq![Effect::Publish(renamed_room(room, self.room_name@))]);
                }
            },
        }
        acts
    }
}

/// Every session name is a member of exactly one room, and every member of
/// a room is a session.
pub open spec fn sessions_placed(m: Directory, users: Set<Seq<char>>) -> bool {
    &&& forall|x: Seq<char>| #[trigger] users.contains(x) ==> exists|r: Seq<char>| placed(m, x, r)
    &&& forall|r: Seq<char>, x: Seq<char>|
        #[trigger] m.contains_key(r) && #[trigger] m[r].contains(x) ==> users.contains(x)
}

proof fn lemma_placed_to_set(m: Directory, sessions: Map<Seq<char>, Seq<char>>)
    requires
        all_placed(m, sessions),
    ensures
        sessions_placed(m, sessions.dom()),
{
    assert forall|x: Seq<char>| #[trigger] sessions.dom().contains(x) implies exists|r: Seq<char>|
        placed(m, x, r) by {
        assert(sessions.contains_key(x));
        assert(placed(m, x, sessions[x]));
    }
}

/// Whatever line a session handles, with the names held being exactly the
/// sessions' names: afterwards every session is still a member of exactly
/// one room, every member of a room is still a session, and the session that
/// acted is in the room it now names. Other sessions keep their membership
/// whatever happens to the name of their room.
pub proof fn lemma_step_keeps_placement(
    users: Set<Seq<char>>,
    u: Seq<char>,
    room: Seq<char>,
    d0: Directory,
    line: Seq<char>,
    u1: Seq<char>,
    room1: Seq<char>,
    n1: Set<Seq<char>>,
    d1: Directory,
    c1: Map<Seq<char>, Sender<ChatMessage>>,
    effs: Seq<Effect>,
)
    requires
        sessions_placed(d0, users),
        placed(d0, u, room),
        step_spec(u, room, users, d0, line, u1, room1, n1, d1, c1, effs),
    ensures
        sessions_placed(d1, n1),
        placed(d1, u1, room1),
{
    let sessions = Map::new(
        |x: Seq<char>| users.contains(x),
        |x: Seq<char>| choose|r: Seq<char>| placed(d0, x, r),
    );
    assert forall|x: Seq<char>| #[trigger] sessions.contains_key(x) implies placed(
        d0,
        x,
        sessions[x],
    ) by {
        assert(users.contains(x));
    }
    assert(all_placed(d0, sessions));
    assert(users.contains(u));
    assert(sessions[u] == room) by {
        let c = sessions[u];
        assert(placed(d0, u, c));
        if c != room {
            assert(d0.contains_key(c));
        }
    }
    assert(sessions.dom() =~= users);
    match command_of(line) {
        CommandView::RenameRoom(n) => {
            if d0.contains_key(n) {
                lemma_placed_to_set(d0, sessions);
            } else {
                lemma_rename_room_places(d0, sessions, room, n);
                let after = Map::new(
                    |x: Seq<char>| sessions.contains_key(x),
                    |x: Seq<char>|
                        if sessions[x] == room {
                            n
                        } else {
                            sessions[x]
                        },
                );
                assert(after.dom() =~= n1);
                lemma_placed_to_set(d1, after);
                assert(placed(d1, u1, after[u1]));
            }
        },
        CommandView::Join(r) => {
            if r == room {
                lemma_placed_to_set(d0, sessions);
            } else {
                lemma_change_places(d0, sessions, u, r);
                let after = sessions.insert(u, r);
                assert(after.dom() =~= n1);
                lemma_placed_to_set(d1, after);
                assert(placed(d1, u1, after[u1]));
            }
        },
        CommandView::Name(n) => {
            if n.len() == 0 || users.contains(n) {
                lemma_placed_to_set(d0, sessions);
            } else {
                lemma_rename_user_places(d0, sessions, u, n);
                let after = sessions.remove(u).insert(n, room);
                assert(after.dom() =~= n1);
                lemma_placed_to_set(d1, after);
                assert(placed(d1, u1, after[u1]));
            }
        },
        _ => {
            lemma_placed_to_set(d0, sessions);
        },
    }
}

} // verus!
