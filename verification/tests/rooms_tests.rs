use trace::rooms::RoomWithCachedInfo;
use trace::rooms::sort_rooms_info;
use trace::resolve::{get_room_index_by_identifier, RoomIndexRetrievalError};

fn room(
    id: &str,
    name: Option<&str>,
    canonical_alias: Option<&str>,
    alt_aliases: &[&str],
) -> RoomWithCachedInfo {
    RoomWithCachedInfo {
        id: String::from(id),
        name: name.map(String::from),
        canonical_alias: canonical_alias.map(String::from),
        alt_aliases: alt_aliases.iter().map(|a| String::from(*a)).collect(),
    }
}

#[test]
fn named_rooms_sort_lexicographically() {
    let rooms = vec![
        room("!b:example.com", Some("B"), None, &[]),
        room("!a:example.com", Some("A"), None, &[]),
    ];
    let sorted = sort_rooms_info(rooms);
    assert_eq!(sorted[0].name.as_deref(), Some("A"));
    assert_eq!(sorted[1].name.as_deref(), Some("B"));
}

#[test]
fn named_room_sorts_before_alias_only_room() {
    let rooms = vec![
        room("!x:example.com", None, Some("#aaa:example.com"), &[]),
        room("!y:example.com", Some("Zebra"), None, &[]),
    ];
    let sorted = sort_rooms_info(rooms);
    assert_eq!(sorted[0].name.as_deref(), Some("Zebra"));
    assert_eq!(sorted[1].canonical_alias.as_deref(), Some("#aaa:example.com"));
}

#[test]
fn rooms_with_neither_sort_by_room_id() {
    let rooms = vec![
        room("!zzz:example.com", None, None, &[]),
        room("!aaa:example.com", None, None, &[]),
    ];
    let sorted = sort_rooms_info(rooms);
    assert_eq!(sorted[0].id, "!aaa:example.com");
    assert_eq!(sorted[1].id, "!zzz:example.com");
}

#[test]
fn alias_only_room_sorts_before_bare_room() {
    let rooms = vec![
        room("!a:example.com", None, None, &[]),
        room("!b:example.com", None, Some("#zzz:example.com"), &[]),
    ];
    let sorted = sort_rooms_info(rooms);
    assert_eq!(sorted[0].canonical_alias.as_deref(), Some("#zzz:example.com"));
    assert!(sorted[1].canonical_alias.is_none());
}

#[test]
fn room_id_match_beats_alias_match() {
    let rooms = vec![
        room("!other:example.com", None, Some("X"), &[]),
        room("X", None, None, &[]),
    ];
    let index = get_room_index_by_identifier(&rooms, "X").unwrap();
    assert_eq!(index, 1);
}

#[test]
fn canonical_alias_match_resolves() {
    let rooms = vec![
        room("!a:example.com", Some("First"), None, &[]),
        room("!b:example.com", None, Some("#general:example.com"), &[]),
    ];
    let index = get_room_index_by_identifier(&rooms, "#general:example.com").unwrap();
    assert_eq!(index, 1);
}

#[test]
fn alternate_alias_match_resolves() {
    let rooms = vec![
        room("!a:example.com", None, None, &[]),
        room("!b:example.com", None, None, &["#alt:example.com", "#alt2:example.com"]),
    ];
    let index = get_room_index_by_identifier(&rooms, "#alt2:example.com").unwrap();
    assert_eq!(index, 1);
}

#[test]
fn unique_display_name_resolves() {
    let rooms = vec![
        room("!a:example.com", Some("General"), None, &[]),
        room("!b:example.com", Some("Random"), None, &[]),
    ];
    let index = get_room_index_by_identifier(&rooms, "General").unwrap();
    assert_eq!(index, 0);
}

#[test]
fn ambiguous_display_name_reports_both_room_ids() {
    let rooms = vec![
        room("!first:example.com", Some("General"), None, &[]),
        room("!between:example.com", Some("Other"), None, &[]),
        room("!second:example.com", Some("General"), None, &[]),
    ];
    match get_room_index_by_identifier(&rooms, "General") {
        Err(RoomIndexRetrievalError::MultipleRoomsWithSpecifiedName(ids)) => {
            assert_eq!(ids, vec!["!first:example.com", "!second:example.com"]);
        }
        _ => panic!("expected MultipleRoomsWithSpecifiedName"),
    }
}

#[test]
fn unknown_identifier_reports_no_rooms() {
    let rooms = vec![room("!a:example.com", Some("General"), None, &[])];
    match get_room_index_by_identifier(&rooms, "Missing") {
        Err(RoomIndexRetrievalError::NoRoomsWithSpecifiedName) => {}
        _ => panic!("expected NoRoomsWithSpecifiedName"),
    }
}
