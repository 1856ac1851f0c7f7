use chat_rooms::names::{random_name, Names};
use chat_rooms::rooms::{DirectoryError, Rooms};

fn s(x: &str) -> String {
    x.to_string()
}

#[test]
fn names_insert_and_remove() {
    let mut names = Names::new();
    assert!(names.insert(s("Fred")));
    assert!(!names.insert(s("Fred")));
    assert!(names.contains(&s("Fred")));
    assert_eq!(names.len(), 1);
    assert!(names.remove(&s("Fred")));
    assert!(!names.remove(&s("Fred")));
    assert_eq!(names.len(), 0);
}

#[test]
fn names_get_existing_lists_each_once() {
    let mut names = Names::new();
    names.insert(s("a"));
    names.insert(s("b"));
    names.insert(s("a"));
    let mut all = names.get_existing();
    all.sort();
    assert_eq!(all, vec![s("a"), s("b")]);
}

#[test]
fn random_name_is_non_empty() {
    let n = random_name();
    assert!(!n.is_empty());
}

#[test]
fn unique_names_never_repeat_until_exhausted() {
    let mut names = Names::new();
    let mut seen: Vec<String> = Vec::new();
    while let Some(n) = names.get_unique() {
        assert!(!seen.contains(&n));
        seen.push(n);
        assert!(seen.len() <= 1000);
    }
    assert!(seen.len() >= 2);
    assert_eq!(names.len(), seen.len());
    // every name of the pool is held now: nothing changes
    assert!(names.get_unique().is_none());
    assert_eq!(names.len(), seen.len());
}

#[test]
fn two_allocations_differ() {
    let mut names = Names::new();
    let a = names.get_unique().unwrap();
    let b = names.get_unique().unwrap();
    assert_ne!(a, b);
}

#[test]
fn join_creates_room_and_leave_deletes_it() {
    let mut rooms = Rooms::new();
    let _tx = rooms.join("lobby", "ann");
    assert!(rooms.contains("lobby"));
    assert_eq!(rooms.list_users("lobby"), vec![s("ann")]);
    rooms.leave("lobby", "ann");
    assert!(!rooms.contains("lobby"));
    assert!(rooms.get_existing().is_empty());
}

#[test]
fn leave_twice_is_a_no_op() {
    let mut rooms = Rooms::new();
    let _a = rooms.join("lobby", "ann");
    let _b = rooms.join("lobby", "bob");
    rooms.leave("lobby", "ann");
    rooms.leave("lobby", "ann");
    assert_eq!(rooms.get_existing(), vec![(s("lobby"), 1)]);
    rooms.leave("lobby", "ann");
    assert_eq!(rooms.list_users("lobby"), vec![s("bob")]);
    rooms.leave("nowhere", "ann");
    assert_eq!(rooms.get_existing(), vec![(s("lobby"), 1)]);
}

#[test]
fn list_rooms_by_count_then_name() {
    let mut rooms = Rooms::new();
    for u in ["u1", "u2", "u3"] {
        let _ = rooms.join("b", u);
    }
    let _ = rooms.join("c", "u4");
    for u in ["u5", "u6", "u7"] {
        let _ = rooms.join("a", u);
    }
    assert_eq!(rooms.get_existing(), vec![(s("a"), 3), (s("b"), 3), (s("c"), 1)]);
}

#[test]
fn empty_room_is_not_listed() {
    let mut rooms = Rooms::new();
    let _ = rooms.join("main", "ann");
    let _ = rooms.join("lobby", "bob");
    rooms.leave("lobby", "bob");
    assert_eq!(rooms.get_existing(), vec![(s("main"), 1)]);
}

#[test]
fn change_moves_member() {
    let mut rooms = Rooms::new();
    let _ = rooms.join("main", "ann");
    let _ = rooms.join("main", "bob");
    let _ = rooms.change("main", "lobby", "ann");
    assert_eq!(rooms.list_users("main"), vec![s("bob")]);
    assert_eq!(rooms.list_users("lobby"), vec![s("ann")]);
}

#[test]
fn rename_room_to_taken_name_conflicts() {
    let mut rooms = Rooms::new();
    let _ = rooms.join("a", "ann");
    let _ = rooms.join("b", "bob");
    assert_eq!(rooms.change_room_name("a", "b"), Err(DirectoryError::Conflict));
    assert_eq!(rooms.list_users("a"), vec![s("ann")]);
    assert_eq!(rooms.list_users("b"), vec![s("bob")]);
}

#[test]
fn rename_missing_room_not_found() {
    let mut rooms = Rooms::new();
    assert_eq!(rooms.change_room_name("a", "b"), Err(DirectoryError::NotFound));
}

#[test]
fn rename_room_keeps_members_and_channel() {
    let mut rooms = Rooms::new();
    let tx = rooms.join("a", "ann");
    let mut rx = tx.subscribe();
    assert_eq!(rooms.change_room_name("a", "z"), Ok(()));
    assert!(!rooms.contains("a"));
    assert_eq!(rooms.list_users("z"), vec![s("ann")]);
    let tx2 = rooms.join("z", "bob");
    tx2.send(chat_rooms::message::ChatMessage { message: s("hi"), timestamp: 5 }).unwrap();
    assert_eq!(rx.try_recv().unwrap().message, "hi");
}

#[test]
fn change_name_in_room() {
    let mut rooms = Rooms::new();
    let _ = rooms.join("a", "ann");
    assert_eq!(rooms.change_name("a", "ann", "anna"), Ok(()));
    assert_eq!(rooms.list_users("a"), vec![s("anna")]);
    assert_eq!(rooms.change_name("a", "ann", "x"), Err(DirectoryError::NotFound));
    assert_eq!(rooms.change_name("b", "anna", "x"), Err(DirectoryError::NotFound));
}

#[test]
fn list_users_of_missing_room_is_empty() {
    let rooms = Rooms::new();
    assert!(rooms.list_users("ghost").is_empty());
}

fn rooms_holding(rooms: &Rooms, user: &str) -> usize {
    rooms
        .get_existing()
        .iter()
        .filter(|(name, _)| rooms.list_users(name).iter().any(|u| u == user))
        .count()
}

#[test]
fn every_member_in_exactly_one_room() {
    let mut rooms = Rooms::new();
    let _ = rooms.join("main", "ann");
    let _ = rooms.join("main", "bob");
    let _ = rooms.join("main", "cy");
    let _ = rooms.change("main", "lobby", "ann");
    let _ = rooms.change("main", "lobby", "bob");
    let _ = rooms.change("lobby", "attic", "ann");
    let _ = rooms.change("main", "attic", "cy");
    assert_eq!(rooms.change_name("attic", "cy", "cyd"), Ok(()));
    for u in ["ann", "bob", "cyd"] {
        assert_eq!(rooms_holding(&rooms, u), 1);
    }
    assert_eq!(rooms_holding(&rooms, "cy"), 0);
    rooms.leave("lobby", "bob");
    assert_eq!(rooms_holding(&rooms, "bob"), 0);
    assert_eq!(rooms.get_existing(), vec![(s("attic"), 2)]);
}
