//! Account-identifier handling: normalization to the `@local:server` form,
//! derivation of the per-account cache directory, and sender labels for the
//! text export.

use vstd::prelude::*;

verus! {

/// The character views of a sequence of strings.
pub open spec fn string_views(v: Seq<String>) -> Seq<Seq<char>> {
    v.map_values(|t: String| t@)
}

/// Splits `s` at every occurrence of `sep`, accumulating the component read
/// so far in `cur`; adjacent separators yield empty components.
pub open spec fn split_rec(s: Seq<char>, sep: char, cur: Seq<char>) -> Seq<Seq<char>>
    decreases s.len(),
{
    if s.len() == 0 {
        seq![cur]
    } else if s[0] == sep {
        seq![cur] + split_rec(s.drop_first(), sep, Seq::empty())
    } else {
        split_rec(s.drop_first(), sep, cur.push(s[0]))
    }
}

/// The components of `s` between occurrences of `sep`, in order.
pub open spec fn split_on(s: Seq<char>, sep: char) -> Seq<Seq<char>> {
    split_rec(s, sep, Seq::empty())
}

/// The identifier with any leading `@` removed.
pub open spec fn atless_user_id(s: Seq<char>) -> Seq<char> {
    if s.len() > 0 && s[0] == '@' {
        s.drop_first()
    } else {
        s
    }
}

/// The identifier in canonical `@local:server` form: a leading `@` is added
/// where missing.
pub open spec fn normalized_user_id(s: Seq<char>) -> Seq<char> {
    if s.len() > 0 && s[0] == '@' {
        s
    } else {
        seq!['@'] + s
    }
}

/// How a sender is written in a text export: the display name followed by the
/// account identifier in parentheses, or the bare identifier when no display
/// name resolves.
pub open spec fn label_of(user_id: Seq<char>, display_name: Option<Seq<char>>) -> Seq<char> {
    match display_name {
        Some(d) => d + " ("@ + user_id + ")"@,
        None => user_id,
    }
}

/// Prefixes a bare account identifier with `@`, leaving one that already
/// starts with `@` unchanged.
pub fn add_at_to_user_id_if_applicable(user_id: &str) -> (r: String)
    ensures
        r@ == normalized_user_id(user_id@),
{
    let n = user_id.unicode_len();
    if n > 0 && user_id.get_char(0) == '@' {
        user_id.to_owned()
    } else {
        proof {
            reveal_strlit("@");
            assert("@"@ =~= seq!['@']);
        }
        String::from_str("@").concat(user_id)
    }
}

/// Splits `s` at every occurrence of `sep` into owned components.
#[verifier::loop_isolation(false)]
pub fn split_string(s: &str, sep: char) -> (r: Vec<String>)
    ensures
        string_views(r@) == split_on(s@, sep),
{
    let n = s.unicode_len();
    let mut parts: Vec<String> = Vec::new();
    let mut start: usize = 0;
    let mut i: usize = 0;
    proof {
        assert(s@.skip(0) =~= s@);
        assert(s@.subrange(0, 0) =~= Seq::<char>::empty());
        assert(string_views(parts@) =~= Seq::<Seq<char>>::empty());
        assert(Seq::<Seq<char>>::empty() + split_on(s@, sep) =~= split_on(s@, sep));
    }
    while i < n
        invariant
            start <= i <= n,
            n == s@.len(),
            split_on(s@, sep) == string_views(parts@) + split_rec(
                s@.skip(i as int),
                sep,
                s@.subrange(start as int, i as int),
            ),
        decreases n - i,
    {
        let ghost before = string_views(parts@);
        let ghost cur = s@.subrange(start as int, i as int);
        proof {
            assert(s@.skip(i as int)[0] == s@[i as int]);
            assert(s@.skip(i as int).drop_first() =~= s@.skip(i as int + 1));
        }
        if s.get_char(i) == sep {
            let piece = s.substring_char(start, i).to_owned();
            parts.push(piece);
            proof {
                assert(string_views(parts@) =~= before.push(cur));
                assert(split_rec(s@.skip(i as int), sep, cur) == seq![cur] + split_rec(
                    s@.skip(i as int + 1),
                    sep,
                    Seq::empty(),
                ));
                assert(before + (seq![cur] + split_rec(s@.skip(i as int + 1), sep, Seq::empty()))
                    =~= before.push(cur) + split_rec(s@.skip(i as int + 1), sep, Seq::empty()));
                assert(s@.subrange(i as int + 1, i as int + 1) =~= Seq::<char>::empty());
            }
            start = i + 1;
        } else {
            proof {
                assert(cur.push(s@[i as int]) =~= s@.subrange(start as int, i as int + 1));
            }
        }
        i += 1;
    }
    let ghost before = string_views(parts@);
    let ghost cur = s@.subrange(start as int, n as int);
    let piece = s.substring_char(start, n).to_owned();
    parts.push(piece);
    proof {
        assert(s@.skip(n as int) =~= Seq::<char>::empty());
        assert(split_rec(s@.skip(n as int), sep, cur) == seq![cur]);
        assert(string_views(parts@) =~= before.push(cur));
        assert(before + seq![cur] =~= before.push(cur));
    }
    parts
}

/// The per-account cache directory, as path components: the components of the
/// `@`-less identifier split at `:`, in reverse order, so that the server
/// segment stands outermost and the local part innermost.
#[verifier::loop_isolation(false)]
pub fn user_id_to_crypto_store_path(user_id: &str) -> (r: Vec<String>)
    ensures
        string_views(r@) == split_on(atless_user_id(user_id@), ':').reverse(),
{
    let n = user_id.unicode_len();
    let atless = if n > 0 && user_id.get_char(0) == '@' {
        proof {
            assert(user_id@.subrange(1, n as int) =~= user_id@.drop_first());
        }
        user_id.substring_char(1, n)
    } else {
        proof {
            assert(user_id@.subrange(0, n as int) =~= user_id@);
        }
        user_id.substring_char(0, n)
    };
    let parts = split_string(atless, ':');
    let ghost flat = string_views(parts@);
    let mut out: Vec<String> = Vec::new();
    let mut k: usize = parts.len();
    proof {
        assert(flat.skip(flat.len() as int) =~= Seq::<Seq<char>>::empty());
        assert(string_views(out@) =~= flat.skip(flat.len() as int).reverse());
    }
    while k > 0
        invariant
            k <= parts@.len(),
            flat == string_views(parts@),
            flat.len() == parts@.len(),
            string_views(out@) == flat.skip(k as int).reverse(),
        decreases k,
    {
        let ghost prefix = string_views(out@);
        k = k - 1;
        let piece = parts[k].clone();
        out.push(piece);
        proof {
            assert(string_views(out@) =~= prefix.push(flat[k as int]));
            assert(flat.skip(k as int).reverse() =~= flat.skip(k as int + 1).reverse().push(
                flat[k as int],
            ));
        }
    }
    proof {
        assert(flat.skip(0) =~= flat);
    }
    out
}

/// Renders a sender label from the identifier and its resolved display name.
pub fn sender_label(user_id: &str, display_name: &Option<String>) -> (r: String)
    ensures
        display_name matches Some(d) ==> r@ == label_of(user_id@, Some(d@)),
        display_name is None ==> r@ == label_of(user_id@, None),
{
    match display_name {
        Some(d) => d.clone().concat(" (").concat(user_id).concat(")"),
        None => user_id.to_owned(),
    }
}

} // verus!
