//! The room catalog: a snapshot of each joined room's cached display
//! metadata, and the three-tier listing order that favors human-readable
//! identifiers — named rooms first, then alias-only rooms, then the rest by
//! room id.

use vstd::prelude::*;
use crate::text::{lex_le, str_le, lemma_lex_le_total, lemma_lex_le_transitive};
use vstd::multiset::Multiset;

verus! {

/// One joined room's identifier and cached display metadata.
pub struct RoomWithCachedInfo {
    pub id: String,
    pub name: Option<String>,
    pub canonical_alias: Option<String>,
    pub alt_aliases: Vec<String>,
}

/// The catalog listing order. Rooms with a display name come first, ordered
/// lexicographically by name; rooms with only a canonical alias follow,
/// ordered by alias; rooms with neither come last, ordered by room id.
pub open spec fn room_le(a: RoomWithCachedInfo, b: RoomWithCachedInfo) -> bool {
    match (a.name, b.name) {
        (Some(an), Some(bn)) => lex_le(an@, bn@),
        (Some(_), None) => true,
        (None, Some(_)) => false,
        (None, None) => match (a.canonical_alias, b.canonical_alias) {
            (Some(aa), Some(ba)) => lex_le(aa@, ba@),
            (Some(_), None) => true,
            (None, Some(_)) => false,
            (None, None) => lex_le(a.id@, b.id@),
        },
    }
}

/// Law: the listing order is total — any two snapshots are comparable.
pub proof fn lemma_room_le_total(a: RoomWithCachedInfo, b: RoomWithCachedInfo)
    ensures
        room_le(a, b) || room_le(b, a),
{
    match (a.name, b.name) {
        (Some(an), Some(bn)) => lemma_lex_le_total(an@, bn@),
        (None, None) => match (a.canonical_alias, b.canonical_alias) {
            (Some(aa), Some(ba)) => lemma_lex_le_total(aa@, ba@),
            (None, None) => lemma_lex_le_total(a.id@, b.id@),
            _ => {},
        },
        _ => {},
    }
}

/// Law: the listing order is transitive.
pub proof fn lemma_room_le_transitive(
    a: RoomWithCachedInfo,
    b: RoomWithCachedInfo,
    c: RoomWithCachedInfo,
)
    ensures
        room_le(a, b) && room_le(b, c) ==> room_le(a, c),
{
    match (a.name, b.name, c.name) {
        (Some(an), Some(bn), Some(cn)) => lemma_lex_le_transitive(an@, bn@, cn@),
        (None, None, None) => match (a.canonical_alias, b.canonical_alias, c.canonical_alias) {
            (Some(aa), Some(ba), Some(ca)) => lemma_lex_le_transitive(aa@, ba@, ca@),
            (None, None, None) => lemma_lex_le_transitive(a.id@, b.id@, c.id@),
            _ => {},
        },
        _ => {},
    }
}

/// Compares two snapshots in the listing order.
pub fn room_le_exec(a: &RoomWithCachedInfo, b: &RoomWithCachedInfo) -> (r: bool)
    ensures
        r == room_le(*a, *b),
{
    match (&a.name, &b.name) {
        (Some(an), Some(bn)) => str_le(an.as_str(), bn.as_str()),
        (Some(_), None) => true,
        (None, Some(_)) => false,
        (None, None) => match (&a.canonical_alias, &b.canonical_alias) {
            (Some(aa), Some(ba)) => str_le(aa.as_str(), ba.as_str()),
            (Some(_), None) => true,
            (None, Some(_)) => false,
            (None, None) => str_le(a.id.as_str(), b.id.as_str()),
        },
    }
}

/// The first index of the sorted catalog whose snapshot does not come before
/// `x`, which is where `x` belongs.
#[verifier::loop_isolation(false)]
fn insert_position(out: &Vec<RoomWithCachedInfo>, x: &RoomWithCachedInfo) -> (p: usize)
    ensures
        p <= out@.len(),
        forall|k: int| 0 <= k < p ==> room_le(out@[k], *x),
        p < out@.len() ==> room_le(*x, out@[p as int]),
{
    let mut p: usize = 0;
    while p < out.len()
        invariant
            p <= out@.len(),
            forall|k: int| 0 <= k < p ==> room_le(out@[k], *x),
        decreases out@.len() - p,
    {
        if !room_le_exec(&out[p], x) {
            proof {
                lemma_room_le_total(out@[p as int], *x);
            }
            return p;
        }
        p += 1;
    }
    p
}

/// Sorts a freshly built catalog into the listing order. The result holds
/// exactly the given snapshots, arranged so that every pair respects
/// [`room_le`].
#[verifier::loop_isolation(false)]
pub fn sort_rooms_info(rooms: Vec<RoomWithCachedInfo>) -> (r: Vec<RoomWithCachedInfo>)
    ensures
        r@.to_multiset() == rooms@.to_multiset(),
        r@.len() == rooms@.len(),
        forall|i: int, j: int| 0 <= i < j < r@.len() ==> room_le(r@[i], r@[j]),
{
    broadcast use vstd::seq_lib::group_to_multiset_ensures;

    let mut rest = rooms;
    let mut out: Vec<RoomWithCachedInfo> = Vec::new();
    proof {
        assert(out@.to_multiset().add(rest@.to_multiset()) =~= rooms@.to_multiset());
    }
    while rest.len() > 0
        invariant
            out@.to_multiset().add(rest@.to_multiset()) == rooms@.to_multiset(),
            out@.len() + rest@.len() == rooms@.len(),
            forall|i: int, j: int| 0 <= i < j < out@.len() ==> room_le(out@[i], out@[j]),
        decreases rest@.len(),
    {
        let ghost rest_before = rest@;
        let x = rest.pop().unwrap();
        proof {
            assert(rest_before =~= rest@.push(x));
            assert(rest_before.to_multiset() =~= rest@.to_multiset().insert(x));
        }
        let ghost sorted_before = out@;
        let p = insert_position(&out, &x);
        let ghost pos = p as int;
        proof {
            sorted_before.insert_ensures(pos, x);
        }
        out.insert(p, x);
        proof {
            assert(out@ == sorted_before.insert(pos, x));
            vstd::seq_lib::to_multiset_insert(sorted_before, pos, x);
            assert(out@.to_multiset().add(rest@.to_multiset()) =~= sorted_before.to_multiset().add(
                rest_before.to_multiset(),
            ));
            assert forall|i: int, j: int| 0 <= i < j < out@.len() implies room_le(
                out@[i],
                out@[j],
            ) by {
                if j < pos {
                    assert(out@[i] == sorted_before[i]);
                    assert(out@[j] == sorted_before[j]);
                } else if j == pos {
                    assert(out@[i] == sorted_before[i]);
                    assert(out@[j] == x);
                } else if i < pos {
                    assert(out@[i] == sorted_before[i]);
                    assert(out@[j] == sorted_before[j - 1]);
                } else if i == pos {
                    assert(out@[i] == x);
                    assert(out@[j] == sorted_before[j - 1]);
                    assert(pos < sorted_before.len());
                    assert(room_le(x, sorted_before[pos]));
                    lemma_room_le_transitive(x, sorted_before[pos], sorted_before[j - 1]);
                } else {
                    assert(out@[i] == sorted_before[i - 1]);
                    assert(out@[j] == sorted_before[j - 1]);
                }
            }
        }
    }
    proof {
        assert(rest@.to_multiset() =~= Multiset::<RoomWithCachedInfo>::empty());
        assert(out@.to_multiset() =~= out@.to_multiset().add(rest@.to_multiset()));
    }
    out
}

} // verus!
