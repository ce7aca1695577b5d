//! Export requests: the output-format selection, the deterministic output
//! basename of each exported room, and the per-identifier resolution plan of
//! one export batch.

use vstd::prelude::*;
use crate::rooms::RoomWithCachedInfo;
use crate::resolve::{get_room_index_by_identifier, resolution_ok, RoomIndexRetrievalError};

verus! {

/// One selectable output format.
#[derive(Clone, Copy, PartialEq, Eq, Structural, Debug)]
pub enum ExportOutputFormat {
    Json,
    Txt,
}

/// Which formats one export run writes; duplicates in a request collapse.
pub struct FormatSelection {
    pub json: bool,
    pub txt: bool,
}

/// The code of `c` with an ASCII capital folded to its small form.
pub open spec fn lower_code(c: char) -> int {
    if 65 <= c as u32 <= 90 {
        c as u32 + 32
    } else {
        c as u32 as int
    }
}

/// Whether two character sequences agree up to ASCII case.
pub open spec fn eq_ignore_ascii_case(a: Seq<char>, b: Seq<char>) -> bool {
    a.len() == b.len() && forall|i: int| 0 <= i < a.len() ==> lower_code(a[i]) == lower_code(b[i])
}

/// Which format a user-supplied specifier names, up to ASCII case and with an
/// optional leading dot; anything else is refused.
pub open spec fn parsed_format(s: Seq<char>) -> Option<ExportOutputFormat> {
    if eq_ignore_ascii_case(s, "json"@) || eq_ignore_ascii_case(s, ".json"@) {
        Some(ExportOutputFormat::Json)
    } else if eq_ignore_ascii_case(s, "txt"@) || eq_ignore_ascii_case(s, ".txt"@) {
        Some(ExportOutputFormat::Txt)
    } else {
        None
    }
}

/// Whether two strings agree up to ASCII case.
#[verifier::loop_isolation(false)]
fn str_eq_ignore_ascii_case(a: &str, b: &str) -> (r: bool)
    ensures
        r == eq_ignore_ascii_case(a@, b@),
{
    let a_len = a.unicode_len();
    let b_len = b.unicode_len();
    if a_len != b_len {
        return false;
    }
    let mut i: usize = 0;
    while i < a_len
        invariant
            i <= a_len,
            a_len == a@.len(),
            a_len == b@.len(),
            forall|j: int| 0 <= j < i ==> lower_code(a@[j]) == lower_code(b@[j]),
        decreases a_len - i,
    {
        let ca = a.get_char(i) as u32;
        let cb = b.get_char(i) as u32;
        let la = if 65 <= ca && ca <= 90 {
            ca + 32
        } else {
            ca
        };
        let lb = if 65 <= cb && cb <= 90 {
            cb + 32
        } else {
            cb
        };
        if la != lb {
            return false;
        }
        i += 1;
    }
    true
}

/// Parses one format specifier: `json` or `txt`, in any ASCII case, with or
/// without a leading dot.
pub fn parse_format_specifier(s: &str) -> (r: Option<ExportOutputFormat>)
    ensures
        r == parsed_format(s@),
{
    if str_eq_ignore_ascii_case(s, "json") || str_eq_ignore_ascii_case(s, ".json") {
        Some(ExportOutputFormat::Json)
    } else if str_eq_ignore_ascii_case(s, "txt") || str_eq_ignore_ascii_case(s, ".txt") {
        Some(ExportOutputFormat::Txt)
    } else {
        None
    }
}

/// Collapses the requested formats into a selection; an empty request means
/// the default, JSON alone.
#[verifier::loop_isolation(false)]
pub fn normalize_formats(formats: &Vec<ExportOutputFormat>) -> (r: FormatSelection)
    ensures
        r.json == (formats@.len() == 0 || exists|i: int|
            0 <= i < formats@.len() && formats@[i] is Json),
        r.txt == exists|i: int| 0 <= i < formats@.len() && formats@[i] is Txt,
{
    let n = formats.len();
    let mut has_json = false;
    let mut has_txt = false;
    let mut i: usize = 0;
    while i < n
        invariant
            i <= n,
            n == formats@.len(),
            has_json == exists|k: int| 0 <= k < i && formats@[k] is Json,
            has_txt == exists|k: int| 0 <= k < i && formats@[k] is Txt,
        decreases n - i,
    {
        match formats[i] {
            ExportOutputFormat::Json => {
                has_json = true;
            },
            ExportOutputFormat::Txt => {
                has_txt = true;
            },
        }
        proof {
            if formats@[i as int] is Json {
                assert(exists|k: int| 0 <= k < i + 1 && formats@[k] is Json);
            }
            if formats@[i as int] is Txt {
                assert(exists|k: int| 0 <= k < i + 1 && formats@[k] is Txt);
            }
        }
        i += 1;
    }
    proof {
        if n > 0 && !has_json && !has_txt {
            assert(!(formats@[0] is Json) && !(formats@[0] is Txt));
            assert(formats@[0] is Json || formats@[0] is Txt) by {
                match formats@[0] {
                    ExportOutputFormat::Json => {},
                    ExportOutputFormat::Txt => {},
                }
            }
        }
    }
    if !has_json && !has_txt {
        has_json = true;
    }
    FormatSelection { json: has_json, txt: has_txt }
}

/// The index of the first `sep` in `s`, or the length of `s` when absent.
pub open spec fn first_sep(s: Seq<char>, sep: char) -> int
    decreases s.len(),
{
    if s.len() == 0 {
        0
    } else if s[0] == sep {
        0
    } else {
        1 + first_sep(s.drop_first(), sep)
    }
}

/// What stands before the first `sep`, or all of `s` when none occurs.
pub open spec fn before_sep(s: Seq<char>, sep: char) -> Seq<char> {
    s.take(first_sep(s, sep))
}

/// What stands after the first `sep`.
pub open spec fn after_sep(s: Seq<char>, sep: char) -> Seq<char> {
    s.skip(first_sep(s, sep) + 1)
}

/// The identifier with a leading room-id or alias sigil removed.
pub open spec fn strip_sigil(s: Seq<char>) -> Seq<char> {
    if s.len() > 0 && (s[0] == '!' || s[0] == '#') {
        s.drop_first()
    } else {
        s
    }
}

/// The server-local qualifier of a room id or alias: the sigil-less part
/// before the first colon.
pub open spec fn local_qualifier(s: Seq<char>) -> Seq<char> {
    before_sep(strip_sigil(s), ':')
}

/// Whether the identifier carries a server part after a colon.
pub open spec fn has_server_part(s: Seq<char>) -> bool {
    first_sep(s, ':') < s.len()
}

/// Whether the snapshot's identifiers are in the federated `local:server`
/// shape that filename derivation reads.
pub open spec fn room_identifiers_well_formed(room: RoomWithCachedInfo) -> bool {
    &&& has_server_part(room.id@)
    &&& room.canonical_alias matches Some(a) ==> has_server_part(a@)
}

/// The deterministic output basename of one exported room: the display name,
/// else the alias's local qualifier, else the room id's local qualifier,
/// followed by the bracketed disambiguators still needed — the alias's local
/// qualifier, the room id's local qualifier, and the server.
pub open spec fn export_basename(room: RoomWithCachedInfo) -> Seq<char> {
    match (room.name, room.canonical_alias) {
        (Some(name), Some(alias)) => name@ + " ["@ + local_qualifier(alias@) + ", "@
            + local_qualifier(room.id@) + ", "@ + after_sep(room.id@, ':') + "]"@,
        (Some(name), None) => name@ + " ["@ + local_qualifier(room.id@) + ", "@ + after_sep(
            room.id@,
            ':',
        ) + "]"@,
        (None, Some(alias)) => local_qualifier(alias@) + " ["@ + local_qualifier(room.id@) + ", "@
            + after_sep(room.id@, ':') + "]"@,
        (None, None) => local_qualifier(room.id@) + " ["@ + after_sep(room.id@, ':') + "]"@,
    }
}

/// The index of the first colon in `s`, or its length when none occurs.
#[verifier::loop_isolation(false)]
fn first_colon_index(s: &str) -> (r: usize)
    ensures
        r as int == first_sep(s@, ':'),
        r <= s@.len(),
{
    let n = s.unicode_len();
    let mut i: usize = 0;
    proof {
        assert(s@.skip(0) =~= s@);
    }
    while i < n
        invariant
            i <= n,
            n == s@.len(),
            first_sep(s@, ':') == i + first_sep(s@.skip(i as int), ':'),
        decreases n - i,
    {
        proof {
            assert(s@.skip(i as int)[0] == s@[i as int]);
            assert(s@.skip(i as int).drop_first() =~= s@.skip(i as int + 1));
        }
        if s.get_char(i) == ':' {
            return i;
        }
        i += 1;
    }
    proof {
        assert(s@.skip(n as int) =~= Seq::<char>::empty());
    }
    n
}

/// The sigil-less part of a room id or alias before the first colon.
fn local_qualifier_exec(s: &str) -> (r: String)
    ensures
        r@ == local_qualifier(s@),
{
    let n = s.unicode_len();
    let has_sigil = if n == 0 {
        false
    } else {
        let c = s.get_char(0);
        c == '!' || c == '#'
    };
    let stripped = if has_sigil {
        s.substring_char(1, n)
    } else {
        s.substring_char(0, n)
    };
    proof {
        if has_sigil {
            assert(s@.subrange(1, n as int) =~= s@.drop_first());
        } else {
            assert(s@.subrange(0, n as int) =~= s@);
        }
    }
    let j = first_colon_index(stripped);
    let r = stripped.substring_char(0, j).to_owned();
    proof {
        assert(stripped@.subrange(0, j as int) =~= stripped@.take(first_sep(stripped@, ':')));
    }
    r
}

/// The server part of a room id: what stands after its first colon.
fn server_part(s: &str) -> (r: String)
    requires
        has_server_part(s@),
    ensures
        r@ == after_sep(s@, ':'),
{
    let n = s.unicode_len();
    let j = first_colon_index(s);
    let r = s.substring_char(j + 1, n).to_owned();
    proof {
        assert(s@.subrange(j as int + 1, n as int) =~= s@.skip(first_sep(s@, ':') + 1));
    }
    r
}

/// Whether the snapshot's identifiers carry the server part that filename
/// derivation reads; callers test this before deriving a basename.
pub fn room_identifiers_well_formed_exec(room: &RoomWithCachedInfo) -> (r: bool)
    ensures
        r == room_identifiers_well_formed(*room),
{
    let id_len = room.id.as_str().unicode_len();
    let id_ok = first_colon_index(room.id.as_str()) < id_len;
    match &room.canonical_alias {
        Some(alias) => {
            let alias_len = alias.as_str().unicode_len();
            id_ok && first_colon_index(alias.as_str()) < alias_len
        },
        None => id_ok,
    }
}

/// Derives the deterministic output basename of one exported room.
pub fn format_export_filename(room_info: &RoomWithCachedInfo) -> (r: String)
    requires
        room_identifiers_well_formed(*room_info),
    ensures
        r@ == export_basename(*room_info),
{
    let id_local = local_qualifier_exec(room_info.id.as_str());
    let server = server_part(room_info.id.as_str());
    match (&room_info.name, &room_info.canonical_alias) {
        (Some(name), Some(alias)) => {
            let alias_local = local_qualifier_exec(alias.as_str());
            let r = name.clone().concat(" [").concat(alias_local.as_str()).concat(", ").concat(
                id_local.as_str(),
            ).concat(", ").concat(server.as_str()).concat("]");
            proof {
                assert(r@ =~= export_basename(*room_info));
            }
            r
        },
        (Some(name), None) => {
            let r = name.clone().concat(" [").concat(id_local.as_str()).concat(", ").concat(
                server.as_str(),
            ).concat("]");
            proof {
                assert(r@ =~= export_basename(*room_info));
            }
            r
        },
        (None, Some(alias)) => {
            let alias_local = local_qualifier_exec(alias.as_str());
            let r = alias_local.concat(" [").concat(id_local.as_str()).concat(", ").concat(
                server.as_str(),
            ).concat("]");
            proof {
                assert(r@ =~= export_basename(*room_info));
            }
            r
        },
        (None, None) => {
            let r = id_local.concat(" [").concat(server.as_str()).concat("]");
            proof {
                assert(r@ =~= export_basename(*room_info));
            }
            r
        },
    }
}

/// Resolves each requested identifier of one export batch independently, in
/// request order: one unresolvable identifier is reported in its place and
/// does not disturb the others. An empty request yields an empty plan, so a
/// deliberate no-op batch succeeds with zero exports.
#[verifier::loop_isolation(false)]
pub fn plan_room_exports(
    rooms_info: &Vec<RoomWithCachedInfo>,
    identifiers: &Vec<String>,
) -> (r: Vec<Result<usize, RoomIndexRetrievalError>>)
    ensures
        r@.len() == identifiers@.len(),
        forall|i: int|
            0 <= i < r@.len() ==> resolution_ok(rooms_info@, identifiers@[i]@, #[trigger] r@[i]),
{
    let n = identifiers.len();
    let mut out: Vec<Result<usize, RoomIndexRetrievalError>> = Vec::new();
    let mut i: usize = 0;
    while i < n
        invariant
            i <= n,
            n == identifiers@.len(),
            out@.len() == i,
            forall|j: int|
                0 <= j < i ==> resolution_ok(rooms_info@, identifiers@[j]@, #[trigger] out@[j]),
        decreases n - i,
    {
        let outcome = get_room_index_by_identifier(rooms_info, identifiers[i].as_str());
        out.push(outcome);
        i += 1;
    }
    out
}

} // verus!
