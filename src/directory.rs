use vstd::prelude::*;
use vstd::string::StrSliceExecFns;
use vstd::string::StringExecFns;
use crate::endpoint::{colons_to_dashes, direct_target, has_direct_shape, last_index_of, port_of, replace_colons, resolve_direct, Endpoint};

verus! {

/// The document that maps each alias to its candidate endpoints.
pub const DIRECTORY_URL: &'static str =
    "https://raw.githubusercontent.com/FoolVPN-ID/Nautica/refs/heads/main/kvProxyList.json";

/// The entries, in key order, that serde_json reads from a directory document,
/// or `None` where the text is not a JSON object of alias to candidate list.
pub uninterp spec fn directory_entries(text: Seq<char>) -> Option<Seq<(Seq<char>, Seq<Seq<char>>)>>;

pub open spec fn entries_view(v: Seq<(String, Vec<String>)>) -> Seq<(Seq<char>, Seq<Seq<char>>)> {
    v.map_values(|e: (String, Vec<String>)| (e.0@, e.1@.map_values(|s: String| s@)))
}

/// The first candidate listed under `alias`, if the alias is present with a non-empty list.
pub open spec fn first_candidate_in(entries: Seq<(Seq<char>, Seq<Seq<char>>)>, alias: Seq<char>) -> Option<Seq<char>>
    decreases entries.len(),
{
    if entries.len() == 0 {
        None
    } else if entries[0].0 == alias {
        if entries[0].1.len() > 0 {
            Some(entries[0].1[0])
        } else {
            None
        }
    } else {
        first_candidate_in(entries.drop_first(), alias)
    }
}

/// The token that the directory document `doc` gives for `alias`.
pub open spec fn alias_token(doc: Seq<char>, alias: Seq<char>) -> Option<Seq<char>> {
    match directory_entries(doc) {
        None => None,
        Some(entries) => match first_candidate_in(entries, alias) {
            None => None,
            Some(c) => Some(colons_to_dashes(c)),
        },
    }
}

pub open spec fn doc_view(directory: Option<&str>) -> Option<Seq<char>> {
    match directory {
        Some(d) => Some(d@),
        None => None,
    }
}

/// Where `token` leads: an alias goes through the directory document (`None`
/// where it could not be fetched), anything else is read as a direct token.
pub open spec fn resolve_target(
    token: Seq<char>,
    directory: Option<Seq<char>>,
    fallback: (Seq<char>, u16),
) -> (Seq<char>, u16) {
    if token.len() == 2 {
        match directory {
            None => fallback,
            Some(doc) => match alias_token(doc, token) {
                None => fallback,
                Some(t) => direct_target(t, fallback),
            },
        }
    } else {
        direct_target(token, fallback)
    }
}

/// Relies on serde_json::from_str into a BTreeMap from alias to candidate list,
/// whose entries then come out in key order.
#[verifier::external_body]
fn parse_directory(text: &str) -> (r: Option<Vec<(String, Vec<String>)>>)
    ensures
        match r {
            Some(v) => directory_entries(text@) == Some(entries_view(v@)),
            None => directory_entries(text@) is None,
        },
{
    serde_json::from_str::<std::collections::BTreeMap<String, Vec<String>>>(text).ok().map(
        |m| m.into_iter().collect(),
    )
}

/// The first candidate that `entries` list under `alias`.
pub fn first_candidate(entries: &Vec<(String, Vec<String>)>, alias: &str) -> (r: Option<String>)
    ensures
        match r {
            Some(c) => first_candidate_in(entries_view(entries@), alias@) == Some(c@),
            None => first_candidate_in(entries_view(entries@), alias@) is None,
        },
{
    let key = String::from_str(alias);
    let ghost all = entries_view(entries@);
    let mut i: usize = 0;
    assert(all.subrange(0, all.len() as int) =~= all);
    while i < entries.len()
        invariant
            i <= entries@.len(),
            all == entries_view(entries@),
            key@ == alias@,
            first_candidate_in(all, alias@) == first_candidate_in(all.subrange(i as int, all.len() as int), alias@),
        decreases entries.len() - i,
    {
        let e = &entries[i];
        let ghost rest = all.subrange(i as int, all.len() as int);
        assert(rest[0] == all[i as int]);
        assert(rest.drop_first() =~= all.subrange(i + 1, all.len() as int));
        if e.0 == key {
            if e.1.len() > 0 {
                return Some(e.1[0].clone());
            }
            return None;
        }
        i = i + 1;
    }
    None
}

/// The token that the directory document `doc` gives for `alias`: its first
/// candidate, with `:` written as `-`.
pub fn candidate_for_alias(doc: &str, alias: &str) -> (r: Option<String>)
    ensures
        match r {
            Some(t) => alias_token(doc@, alias@) == Some(t@),
            None => alias_token(doc@, alias@) is None,
        },
{
    match parse_directory(doc) {
        None => None,
        Some(entries) => match first_candidate(&entries, alias) {
            None => None,
            Some(c) => Some(replace_colons(c.as_str())),
        },
    }
}

/// Resolves a routing token to an endpoint. A two-character token is an alias,
/// looked up in `directory`, the fetched directory document (`None` where the
/// fetch failed); any other token is read as `<host>-<port>`. Where neither
/// yields an endpoint, `fallback` comes back unchanged.
pub fn resolve(token: &str, directory: Option<&str>, fallback: Endpoint) -> (r: Endpoint)
    ensures
        r@ == resolve_target(token@, doc_view(directory), fallback@),
{
    if token.unicode_len() == 2 {
        match directory {
            None => fallback,
            Some(doc) => match candidate_for_alias(doc, token) {
                None => fallback,
                Some(t) => resolve_direct(t.as_str(), fallback),
            },
        }
    } else {
        resolve_direct(token, fallback)
    }
}

} // verus!

verus! {

proof fn lemma_absent_alias(entries: Seq<(Seq<char>, Seq<Seq<char>>)>, alias: Seq<char>)
    requires
        forall|i: int| 0 <= i < entries.len() ==> (#[trigger] entries[i]).0 != alias,
    ensures
        first_candidate_in(entries, alias) is None,
    decreases entries.len(),
{
    if entries.len() > 0 {
        assert(entries[0].0 != alias);
        assert forall|i: int| 0 <= i < entries.drop_first().len() implies (#[trigger] entries.drop_first()[i]).0
            != alias by {
            assert(entries.drop_first()[i] == entries[i + 1]);
        }
        lemma_absent_alias(entries.drop_first(), alias);
    }
}

/// A token of the form `<host>-<port>`, with a port that fits in 16 bits,
/// resolves to that host and port, split at the token's last `-`, whatever
/// the directory holds.
pub proof fn direct_token_resolves(
    token: Seq<char>,
    directory: Option<Seq<char>>,
    fallback: (Seq<char>, u16),
)
    requires
        has_direct_shape(token),
        port_of(token.subrange(last_index_of(token, '-') + 1, token.len() as int)) is Some,
    ensures
        resolve_target(token, directory, fallback) == (
            token.subrange(0, last_index_of(token, '-')),
            port_of(token.subrange(last_index_of(token, '-') + 1, token.len() as int))->Some_0,
        ),
{
}

/// A token that is neither an alias nor of the form `<host>-<port>` resolves
/// to the fallback.
pub proof fn malformed_token_falls_back(
    token: Seq<char>,
    directory: Option<Seq<char>>,
    fallback: (Seq<char>, u16),
)
    requires
        token.len() != 2,
        !has_direct_shape(token),
    ensures
        resolve_target(token, directory, fallback) == fallback,
{
}

/// An alias resolves to the fallback where the directory could not be
/// fetched, could not be read, or does not hold the alias.
pub proof fn unknown_alias_falls_back(
    alias: Seq<char>,
    directory: Option<Seq<char>>,
    fallback: (Seq<char>, u16),
)
    requires
        alias.len() == 2,
        directory matches Some(doc) ==> match directory_entries(doc) {
            None => true,
            Some(entries) => forall|i: int| 0 <= i < entries.len() ==> (#[trigger] entries[i]).0 != alias,
        },
    ensures
        resolve_target(alias, directory, fallback) == fallback,
{
    if let Some(doc) = directory {
        if let Some(entries) = directory_entries(doc) {
            lemma_absent_alias(entries, alias);
        }
    }
}

} // verus!
