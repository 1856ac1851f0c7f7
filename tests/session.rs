use chat_rooms::message::ChatMessage;
use chat_rooms::names::Names;
use chat_rooms::rooms::Rooms;
use chat_rooms::session::{Action, Session, HELP_MSG};
use tokio::sync::broadcast::{Receiver, Sender};

struct Client {
    session: Session,
    tx: Option<Sender<ChatMessage>>,
    rx: Option<Receiver<ChatMessage>>,
    replies: Vec<String>,
}

fn perform(c: &mut Client, acts: Vec<Action>) -> bool {
    for a in acts {
        match a {
            Action::Reply(t) => c.replies.push(t),
            Action::Publish(t) => {
                let _ = c.tx.as_ref().unwrap().send(ChatMessage::new(t));
            }
            Action::Subscribe(tx) => {
                c.rx = Some(tx.subscribe());
                c.tx = Some(tx);
            }
            Action::Quit => return false,
        }
    }
    true
}

fn connect(names: &mut Names, rooms: &mut Rooms) -> Client {
    let (session, acts) = Session::start(names, rooms).unwrap();
    let mut c = Client { session, tx: None, rx: None, replies: Vec::new() };
    assert!(perform(&mut c, acts));
    c
}

fn send(c: &mut Client, names: &mut Names, rooms: &mut Rooms, line: &str) -> bool {
    let acts = c.session.handle_line(names, rooms, line);
    perform(c, acts)
}

fn received(c: &mut Client) -> Vec<String> {
    let mut out = Vec::new();
    while let Ok(m) = c.rx.as_mut().unwrap().try_recv() {
        out.push(m.message);
    }
    out
}

#[test]
fn start_joins_main_and_greets() {
    let mut names = Names::new();
    let mut rooms = Rooms::new();
    let mut c = connect(&mut names, &mut rooms);
    let n = c.session.user_name.clone();
    assert_eq!(c.session.room_name, "main");
    assert_eq!(c.replies, vec![HELP_MSG.to_string()]);
    assert_eq!(received(&mut c), vec![format!("{n} has joined the chat.")]);
    assert_eq!(rooms.list_users("main"), vec![n.clone()]);
    assert!(names.contains(&n));
}

#[test]
fn hello_reaches_other_member_of_lobby() {
    let mut names = Names::new();
    let mut rooms = Rooms::new();
    let mut c1 = connect(&mut names, &mut rooms);
    let n1 = c1.session.user_name.clone();
    assert!(send(&mut c1, &mut names, &mut rooms, "/join lobby"));
    let mut c2 = connect(&mut names, &mut rooms);
    assert!(send(&mut c2, &mut names, &mut rooms, "/join lobby"));
    received(&mut c2);
    assert!(send(&mut c1, &mut names, &mut rooms, "hello"));
    assert_eq!(received(&mut c2), vec![format!("{n1}: hello")]);
}

#[test]
fn join_announces_and_moves() {
    let mut names = Names::new();
    let mut rooms = Rooms::new();
    let mut c = connect(&mut names, &mut rooms);
    let n = c.session.user_name.clone();
    let mut stay = connect(&mut names, &mut rooms);
    received(&mut stay);
    assert!(send(&mut c, &mut names, &mut rooms, "/join   my   room"));
    assert_eq!(c.session.room_name, "my room");
    assert_eq!(received(&mut stay), vec![format!("{n} has left main.")]);
    assert_eq!(received(&mut c), vec![format!("{n} has joined my room.")]);
    assert!(send(&mut c, &mut names, &mut rooms, "/join my room"));
    assert_eq!(c.replies.last().unwrap(), "You are already in this room.");
}

#[test]
fn taken_name_is_refused() {
    let mut names = Names::new();
    let mut rooms = Rooms::new();
    let mut c1 = connect(&mut names, &mut rooms);
    let mut c2 = connect(&mut names, &mut rooms);
    assert!(send(&mut c2, &mut names, &mut rooms, "/name Fred"));
    assert_eq!(c2.session.user_name, "Fred");
    let before = c1.session.user_name.clone();
    assert!(send(&mut c1, &mut names, &mut rooms, "/name Fred"));
    assert_eq!(c1.replies.last().unwrap(), "Sorry, that name is taken.");
    assert_eq!(c1.session.user_name, before);
}

#[test]
fn rename_announces_new_name() {
    let mut names = Names::new();
    let mut rooms = Rooms::new();
    let mut c = connect(&mut names, &mut rooms);
    let old = c.session.user_name.clone();
    received(&mut c);
    assert!(send(&mut c, &mut names, &mut rooms, "/name Jo  Ann"));
    assert_eq!(c.session.user_name, "Jo Ann");
    assert_eq!(
        received(&mut c),
        vec![format!("{old} is now Jo Ann"), "Current names in room: [\"Jo Ann\"]".to_string()]
    );
    assert!(!names.contains(&old));
    assert_eq!(rooms.list_users("main"), vec!["Jo Ann".to_string()]);
    assert!(send(&mut c, &mut names, &mut rooms, "/name"));
    assert_eq!(c.replies.last().unwrap(), "A name cannot be empty.");
}

#[test]
fn sole_member_leaving_removes_room_from_listing() {
    let mut names = Names::new();
    let mut rooms = Rooms::new();
    let mut c1 = connect(&mut names, &mut rooms);
    let mut c2 = connect(&mut names, &mut rooms);
    assert!(send(&mut c1, &mut names, &mut rooms, "/join lobby"));
    assert!(send(&mut c2, &mut names, &mut rooms, "/rooms"));
    assert_eq!(c2.replies.last().unwrap(), "Current rooms: lobby (1), main (1)");
    let n1 = c1.session.user_name.clone();
    let notice = c1.session.finish(&mut names, &mut rooms);
    assert_eq!(notice, format!("{n1} has left the chat."));
    assert!(!names.contains(&n1));
    assert!(send(&mut c2, &mut names, &mut rooms, "/rooms"));
    assert_eq!(c2.replies.last().unwrap(), "Current rooms: main (1)");
}

#[test]
fn listing_commands_reply_privately() {
    let mut names = Names::new();
    let mut rooms = Rooms::new();
    let mut c = connect(&mut names, &mut rooms);
    assert!(send(&mut c, &mut names, &mut rooms, "/name Ann"));
    assert!(send(&mut c, &mut names, &mut rooms, "/users"));
    assert_eq!(c.replies.last().unwrap(), "Users in current room: [\"Ann\"]");
    assert!(send(&mut c, &mut names, &mut rooms, "/allusers"));
    assert_eq!(c.replies.last().unwrap(), "All users: [\"Ann\"]");
    assert!(send(&mut c, &mut names, &mut rooms, "/help"));
    assert_eq!(c.replies.last().unwrap(), HELP_MSG);
}

#[test]
fn rename_room_and_conflict() {
    let mut names = Names::new();
    let mut rooms = Rooms::new();
    let mut c1 = connect(&mut names, &mut rooms);
    let mut c2 = connect(&mut names, &mut rooms);
    assert!(send(&mut c2, &mut names, &mut rooms, "/join side"));
    received(&mut c1);
    assert!(send(&mut c1, &mut names, &mut rooms, "/renameroom side"));
    assert_eq!(c1.replies.last().unwrap(), "Room name already exists.");
    assert_eq!(c1.session.room_name, "main");
    assert!(send(&mut c1, &mut names, &mut rooms, "/renameroom great  hall"));
    assert_eq!(c1.session.room_name, "great hall");
    assert_eq!(received(&mut c1), vec!["Room main has been renamed to great hall.".to_string()]);
    assert!(!rooms.contains("main"));
    assert_eq!(rooms.get_existing().len(), 2);
}

#[test]
fn quit_and_empty_lines() {
    let mut names = Names::new();
    let mut rooms = Rooms::new();
    let mut c = connect(&mut names, &mut rooms);
    received(&mut c);
    assert!(send(&mut c, &mut names, &mut rooms, ""));
    assert!(received(&mut c).is_empty());
    assert!(!send(&mut c, &mut names, &mut rooms, "/quit"));
}

#[test]
fn pong_reply_names_user() {
    let mut names = Names::new();
    let mut rooms = Rooms::new();
    let c = connect(&mut names, &mut rooms);
    let n = c.session.user_name.clone();
    assert_eq!(c.session.pong_reply(), format!("Received pong from {n}"));
}

#[test]
fn session_follows_room_renamed_by_another_member() {
    let mut names = Names::new();
    let mut rooms = Rooms::new();
    let mut a = connect(&mut names, &mut rooms);
    let mut b = connect(&mut names, &mut rooms);
    assert!(send(&mut a, &mut names, &mut rooms, "/name Ann"));
    assert!(send(&mut b, &mut names, &mut rooms, "/name Bob"));
    assert!(send(&mut a, &mut names, &mut rooms, "/join lobby"));
    assert!(send(&mut b, &mut names, &mut rooms, "/join lobby"));
    assert!(send(&mut b, &mut names, &mut rooms, "/renameroom hall"));
    assert_eq!(a.session.room_name, "lobby");
    assert!(send(&mut a, &mut names, &mut rooms, "/users"));
    assert_eq!(a.session.room_name, "hall");
    assert!(send(&mut a, &mut names, &mut rooms, "/join x"));
    assert_eq!(rooms.list_users("hall"), vec!["Bob".to_string()]);
    assert_eq!(rooms.list_users("x"), vec!["Ann".to_string()]);
    assert!(!rooms.contains("lobby"));
    let _ = b.session.finish(&mut names, &mut rooms);
    assert!(!rooms.contains("hall"));
    let _ = a.session.finish(&mut names, &mut rooms);
    assert!(rooms.get_existing().is_empty());
    assert!(names.get_existing().is_empty());
}

#[test]
fn finish_leaves_renamed_room() {
    let mut names = Names::new();
    let mut rooms = Rooms::new();
    let a = connect(&mut names, &mut rooms);
    let mut b = connect(&mut names, &mut rooms);
    assert!(send(&mut b, &mut names, &mut rooms, "/renameroom hall"));
    let _ = a.session.finish(&mut names, &mut rooms);
    assert_eq!(rooms.get_existing(), vec![("hall".to_string(), 1)]);
}

#[test]
fn joined_notice_goes_to_new_room() {
    let mut names = Names::new();
    let mut rooms = Rooms::new();
    let mut a = connect(&mut names, &mut rooms);
    let mut b = connect(&mut names, &mut rooms);
    assert!(send(&mut b, &mut names, &mut rooms, "/join side"));
    received(&mut b);
    let n = a.session.user_name.clone();
    assert!(send(&mut a, &mut names, &mut rooms, "/join side"));
    assert!(send(&mut a, &mut names, &mut rooms, "hi"));
    assert_eq!(received(&mut b), vec![format!("{n} has joined side."), format!("{n}: hi")]);
}
