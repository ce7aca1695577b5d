//! Resolution of a user-supplied room identifier against the catalog, in
//! strict priority order: exact room id, then canonical alias, then any
//! alternate alias, then display name — the last only when it is unambiguous.

use vstd::prelude::*;
use crate::rooms::RoomWithCachedInfo;
use crate::text::str_eq;
use crate::user::string_views;

verus! {

/// Whether the snapshot's room id is exactly `ident`.
pub open spec fn id_matches(room: RoomWithCachedInfo, ident: Seq<char>) -> bool {
    room.id@ == ident
}

/// Whether the snapshot's canonical alias is exactly `ident`.
pub open spec fn canonical_matches(room: RoomWithCachedInfo, ident: Seq<char>) -> bool {
    match room.canonical_alias {
        Some(a) => a@ == ident,
        None => false,
    }
}

/// Whether any of the snapshot's alternate aliases is exactly `ident`.
pub open spec fn alt_matches(room: RoomWithCachedInfo, ident: Seq<char>) -> bool {
    exists|k: int| 0 <= k < room.alt_aliases@.len() && room.alt_aliases@[k]@ == ident
}

/// Whether the snapshot's display name is exactly `ident`.
pub open spec fn name_matches(room: RoomWithCachedInfo, ident: Seq<char>) -> bool {
    match room.name {
        Some(n) => n@ == ident,
        None => false,
    }
}

/// Whether some snapshot's room id is exactly `ident`.
pub open spec fn exists_id_match(rooms: Seq<RoomWithCachedInfo>, ident: Seq<char>) -> bool {
    exists|i: int| 0 <= i < rooms.len() && id_matches(rooms[i], ident)
}

/// Whether some snapshot's canonical alias is exactly `ident`.
pub open spec fn exists_canonical_match(rooms: Seq<RoomWithCachedInfo>, ident: Seq<char>) -> bool {
    exists|i: int| 0 <= i < rooms.len() && canonical_matches(rooms[i], ident)
}

/// Whether some snapshot has an alternate alias exactly `ident`.
pub open spec fn exists_alt_match(rooms: Seq<RoomWithCachedInfo>, ident: Seq<char>) -> bool {
    exists|i: int| 0 <= i < rooms.len() && alt_matches(rooms[i], ident)
}

/// How many snapshots carry `ident` as their display name.
pub open spec fn name_match_count(rooms: Seq<RoomWithCachedInfo>, ident: Seq<char>) -> nat
    decreases rooms.len(),
{
    if rooms.len() == 0 {
        0
    } else {
        (if name_matches(rooms[0], ident) {
            1nat
        } else {
            0nat
        }) + name_match_count(rooms.drop_first(), ident)
    }
}

/// The room ids of the snapshots whose display name is `ident`, in catalog
/// order.
pub open spec fn name_match_ids(rooms: Seq<RoomWithCachedInfo>, ident: Seq<char>) -> Seq<Seq<char>>
    decreases rooms.len(),
{
    if rooms.len() == 0 {
        Seq::empty()
    } else {
        (if name_matches(rooms[0], ident) {
            seq![rooms[0].id@]
        } else {
            Seq::empty()
        }) + name_match_ids(rooms.drop_first(), ident)
    }
}

/// Unfolds the display-name tally one snapshot at a time.
proof fn lemma_name_scan_step(rooms: Seq<RoomWithCachedInfo>, ident: Seq<char>, i: int)
    requires
        0 <= i < rooms.len(),
    ensures
        name_match_count(rooms.skip(i), ident) == (if name_matches(rooms[i], ident) {
            1nat
        } else {
            0nat
        }) + name_match_count(rooms.skip(i + 1), ident),
        name_match_ids(rooms.skip(i), ident) == (if name_matches(rooms[i], ident) {
            seq![rooms[i].id@]
        } else {
            Seq::<Seq<char>>::empty()
        }) + name_match_ids(rooms.skip(i + 1), ident),
{
    assert(rooms.skip(i).drop_first() =~= rooms.skip(i + 1));
    assert(rooms.skip(i)[0] == rooms[i]);
}

/// Why an identifier resolved to no single room.
#[derive(Debug)]
pub enum RoomIndexRetrievalError {
    /// Several rooms carry the identifier as display name; their room ids are
    /// reported so the caller can disambiguate by id.
    MultipleRoomsWithSpecifiedName(Vec<String>),
    /// Nothing matches the identifier.
    NoRoomsWithSpecifiedName,
}

/// Whether any string in `v` holds exactly the characters of `s`.
fn contains_str(v: &Vec<String>, s: &str) -> (r: bool)
    ensures
        r == exists|k: int| 0 <= k < v@.len() && v@[k]@ == s@,
{
    let n = v.len();
    let mut k: usize = 0;
    while k < n
        invariant
            k <= n,
            n == v@.len(),
            forall|m: int| 0 <= m < k ==> v@[m]@ != s@,
        decreases n - k,
    {
        if str_eq(v[k].as_str(), s) {
            return true;
        }
        k += 1;
    }
    false
}

/// What a correct resolution of `ident` against `rooms` returns: the first
/// room-id match if any; else the first canonical-alias match; else the first
/// alternate-alias match; else the display-name match when unique, a miss
/// when none, and the candidates' room ids when several.
pub open spec fn resolution_ok(
    rooms: Seq<RoomWithCachedInfo>,
    ident: Seq<char>,
    r: Result<usize, RoomIndexRetrievalError>,
) -> bool {
    &&& exists_id_match(rooms, ident) ==> (r matches Ok(i) && id_matches(rooms[i as int], ident)
        && forall|k: int| 0 <= k < i ==> !id_matches(rooms[k], ident))
    &&& !exists_id_match(rooms, ident) && exists_canonical_match(rooms, ident) ==> (r matches Ok(i)
        && canonical_matches(rooms[i as int], ident) && forall|k: int|
        0 <= k < i ==> !canonical_matches(rooms[k], ident))
    &&& !exists_id_match(rooms, ident) && !exists_canonical_match(rooms, ident)
        && exists_alt_match(rooms, ident) ==> (r matches Ok(i) && alt_matches(
        rooms[i as int],
        ident,
    ) && forall|k: int| 0 <= k < i ==> !alt_matches(rooms[k], ident))
    &&& !exists_id_match(rooms, ident) && !exists_canonical_match(rooms, ident)
        && !exists_alt_match(rooms, ident) && name_match_count(rooms, ident) == 1 ==> (r matches Ok(
        i,
    ) && name_matches(rooms[i as int], ident) && forall|k: int|
        0 <= k < i ==> !name_matches(rooms[k], ident))
    &&& !exists_id_match(rooms, ident) && !exists_canonical_match(rooms, ident)
        && !exists_alt_match(rooms, ident) && name_match_count(rooms, ident) == 0 ==> (r matches Err(
        RoomIndexRetrievalError::NoRoomsWithSpecifiedName,
    ))
    &&& !exists_id_match(rooms, ident) && !exists_canonical_match(rooms, ident)
        && !exists_alt_match(rooms, ident) && name_match_count(rooms, ident) >= 2 ==> (r matches
        Err(RoomIndexRetrievalError::MultipleRoomsWithSpecifiedName(ids)) && string_views(ids@)
        == name_match_ids(rooms, ident))
    &&& (r matches Ok(i) ==> 0 <= i < rooms.len())
}

/// Resolves `identifier` to the index of exactly one catalog entry, trying in
/// strict priority order: room id, canonical alias, alternate alias, display
/// name. A display-name match succeeds only when it is unique; several name
/// matches report the candidates' room ids, none at all reports a miss.
#[verifier::loop_isolation(false)]
pub fn get_room_index_by_identifier(
    rooms_info: &Vec<RoomWithCachedInfo>,
    identifier: &str,
) -> (r: Result<usize, RoomIndexRetrievalError>)
    ensures
        resolution_ok(rooms_info@, identifier@, r),
{
    let n = rooms_info.len();
    let mut i: usize = 0;
    while i < n
        invariant
            i <= n,
            n == rooms_info@.len(),
            forall|k: int| 0 <= k < i ==> !id_matches(rooms_info@[k], identifier@),
        decreases n - i,
    {
        if str_eq(rooms_info[i].id.as_str(), identifier) {
            return Ok(i);
        }
        i += 1;
    }
    assert(!exists_id_match(rooms_info@, identifier@));
    let mut i: usize = 0;
    while i < n
        invariant
            i <= n,
            n == rooms_info@.len(),
            forall|k: int| 0 <= k < i ==> !canonical_matches(rooms_info@[k], identifier@),
        decreases n - i,
    {
        let hit = match &rooms_info[i].canonical_alias {
            Some(alias) => str_eq(alias.as_str(), identifier),
            None => false,
        };
        if hit {
            return Ok(i);
        }
        i += 1;
    }
    assert(!exists_canonical_match(rooms_info@, identifier@));
    let mut i: usize = 0;
    while i < n
        invariant
            i <= n,
            n == rooms_info@.len(),
            forall|k: int| 0 <= k < i ==> !alt_matches(rooms_info@[k], identifier@),
        decreases n - i,
    {
        if contains_str(&rooms_info[i].alt_aliases, identifier) {
            return Ok(i);
        }
        i += 1;
    }
    assert(!exists_alt_match(rooms_info@, identifier@));
    let mut ids: Vec<String> = Vec::new();
    let mut first_match: usize = 0;
    let mut i: usize = 0;
    proof {
        assert(rooms_info@.skip(0) =~= rooms_info@);
        assert(string_views(ids@) =~= Seq::<Seq<char>>::empty());
    }
    while i < n
        invariant
            i <= n,
            n == rooms_info@.len(),
            name_match_count(rooms_info@, identifier@) == ids@.len() + name_match_count(
                rooms_info@.skip(i as int),
                identifier@,
            ),
            name_match_ids(rooms_info@, identifier@) == string_views(ids@) + name_match_ids(
                rooms_info@.skip(i as int),
                identifier@,
            ),
            ids@.len() == 0 ==> forall|k: int|
                0 <= k < i ==> !name_matches(rooms_info@[k], identifier@),
            ids@.len() > 0 ==> first_match < i && name_matches(
                rooms_info@[first_match as int],
                identifier@,
            ) && forall|k: int|
                0 <= k < first_match ==> !name_matches(rooms_info@[k], identifier@),
        decreases n - i,
    {
        proof {
            lemma_name_scan_step(rooms_info@, identifier@, i as int);
        }
        let hit = match &rooms_info[i].name {
            Some(name) => str_eq(name.as_str(), identifier),
            None => false,
        };
        if hit {
            let ghost ids_before = string_views(ids@);
            if ids.len() == 0 {
                first_match = i;
            }
            ids.push(rooms_info[i].id.clone());
            proof {
                assert(string_views(ids@) =~= ids_before.push(rooms_info@[i as int].id@));
                assert(ids_before + (seq![rooms_info@[i as int].id@] + name_match_ids(
                    rooms_info@.skip(i as int + 1),
                    identifier@,
                )) =~= ids_before.push(rooms_info@[i as int].id@) + name_match_ids(
                    rooms_info@.skip(i as int + 1),
                    identifier@,
                ));
            }
        } else {
            proof {
                assert(string_views(ids@) + (Seq::<Seq<char>>::empty() + name_match_ids(
                    rooms_info@.skip(i as int + 1),
                    identifier@,
                )) =~= string_views(ids@) + name_match_ids(
                    rooms_info@.skip(i as int + 1),
                    identifier@,
                ));
            }
        }
        i += 1;
    }
    proof {
        assert(rooms_info@.skip(n as int) =~= Seq::<RoomWithCachedInfo>::empty());
        assert(name_match_ids(rooms_info@, identifier@) =~= string_views(ids@) + name_match_ids(
            rooms_info@.skip(n as int),
            identifier@,
        ));
        assert(string_views(ids@) + Seq::<Seq<char>>::empty() =~= string_views(ids@));
    }
    if ids.len() == 0 {
        Err(RoomIndexRetrievalError::NoRoomsWithSpecifiedName)
    } else if ids.len() == 1 {
        Ok(first_match)
    } else {
        proof {
            assert(name_match_ids(rooms_info@, identifier@) =~= string_views(ids@));
        }
        Err(RoomIndexRetrievalError::MultipleRoomsWithSpecifiedName(ids))
    }
}

} // verus!
