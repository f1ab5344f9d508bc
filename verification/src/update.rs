//! The update check: which release a release feed announces, and whether it
//! is newer than the running version.
//!
//! The feed is a JSON text of which only the value of `tag_name` is read.
//! Versions are compared by their first three numeric parts; a part that is
//! missing or not a number counts as absent.

use crate::text::{
    chars_of, find, first_occurrence, parse_u32, parse_u32_of, split, split_on, strip_leading,
    tail_from, text_of, trim_leading, trim_start, without_leading,
};
use vstd::prelude::*;

verus! {

/// The key whose value is the tag of the latest release.
pub open spec fn tag_marker() -> Seq<char> {
    "\"tag_name\""@
}

/// The quoted value that follows the first colon of `rest`, without the
/// letters `v` that it starts with.
pub open spec fn quoted_value(rest: Seq<char>) -> Option<Seq<char>> {
    match first_occurrence(rest, seq![':']) {
        Some(c) => {
            let after = trim_start(rest.skip(c + 1));
            if after.len() > 0 && after[0] == '"' {
                match first_occurrence(after.skip(1), seq!['"']) {
                    Some(e) => Some(without_leading(after.skip(1).take(e), 'v')),
                    None => None,
                }
            } else {
                None
            }
        },
        None => None,
    }
}

/// The version that the release feed `body` announces.
pub open spec fn latest_version(body: Seq<char>) -> Option<Seq<char>> {
    match first_occurrence(body, tag_marker()) {
        Some(s) => quoted_value(body.skip(s)),
        None => None,
    }
}

/// The numbers among `pieces`, in order.
pub open spec fn numbers_of(pieces: Seq<Seq<char>>) -> Seq<u32>
    decreases pieces.len(),
{
    if pieces.len() == 0 {
        Seq::empty()
    } else {
        let before = numbers_of(pieces.drop_last());
        match parse_u32_of(pieces.last()) {
            Some(n) => before.push(n),
            None => before,
        }
    }
}

/// The numeric parts of a version: the numbers among its dot-separated pieces.
pub open spec fn version_parts(version: Seq<char>) -> Seq<u32> {
    numbers_of(split_on(version, '.'))
}

/// The part at position `i`, or zero where the version has fewer parts.
pub open spec fn part(parts: Seq<u32>, i: int) -> u32 {
    if 0 <= i < parts.len() {
        parts[i]
    } else {
        0
    }
}

/// Whether `latest` is a newer version than `current`, by the first three
/// numeric parts.
pub open spec fn newer_than(current: Seq<char>, latest: Seq<char>) -> bool {
    let c = version_parts(current);
    let l = version_parts(latest);
    if part(l, 0) != part(c, 0) {
        part(l, 0) > part(c, 0)
    } else if part(l, 1) != part(c, 1) {
        part(l, 1) > part(c, 1)
    } else {
        part(l, 2) > part(c, 2)
    }
}

/// The update to offer to a program of version `current` that was sent the
/// release feed `body`: the announced version where it is newer.
pub open spec fn update_for(current: Seq<char>, body: Seq<char>) -> Option<Seq<char>> {
    match latest_version(body) {
        Some(latest) => if newer_than(current, latest) {
            Some(latest)
        } else {
            None
        },
        None => None,
    }
}

/// A text of one character.
fn single(c: char) -> (v: Vec<char>)
    ensures
        v@ == seq![c],
{
    let mut v: Vec<char> = Vec::new();
    v.push(c);
    assert(v@ =~= seq![c]);
    v
}

/// The quoted value that follows the first colon of `rest`.
fn read_quoted(rest: &Vec<char>) -> (r: Option<Vec<char>>)
    ensures
        r.deep_view() == quoted_value(rest@),
{
    let c = match find(rest, &single(':')) {
        Some(c) => c,
        None => {
            return None;
        },
    };
    let after = trim_leading(&tail_from(rest, c + 1));
    if after.len() == 0 || after[0] != '"' {
        return None;
    }
    let inner = tail_from(&after, 1);
    match find(&inner, &single('"')) {
        Some(e) => {
            let v = strip_leading(&inner, 0, e, 'v');
            assert(inner@.subrange(0, e as int) == inner@.take(e as int));
            assert(v.deep_view() =~= v@);
            Some(v)
        },
        None => None,
    }
}

/// The version that the release feed `body` announces.
pub fn announced_version(body: &str) -> (r: Option<String>)
    ensures
        r.deep_view() == latest_version(body@),
{
    let text = chars_of(body);
    match find(&text, &chars_of("\"tag_name\"")) {
        Some(s) => match read_quoted(&tail_from(&text, s)) {
            Some(v) => {
                assert(v.deep_view() =~= v@);
                Some(text_of(&v))
            },
            None => None,
        },
        None => None,
    }
}

/// The numeric parts of `version`.
pub fn parts_of(version: &str) -> (parts: Vec<u32>)
    ensures
        parts@ == version_parts(version@),
{
    let pieces = split(&chars_of(version), '.');
    let ghost all = pieces.deep_view();
    let mut parts: Vec<u32> = Vec::new();
    let mut i: usize = 0;
    assert(all.take(0) =~= Seq::<Seq<char>>::empty());
    while i < pieces.len()
        invariant
            all == pieces.deep_view(),
            i <= pieces.len(),
            parts@ == numbers_of(all.take(i as int)),
        decreases pieces.len() - i,
    {
        proof {
            assert(all.take(i + 1).drop_last() == all.take(i as int));
            assert(all.take(i + 1).last() =~= pieces@[i as int]@);
        }
        match parse_u32(&pieces[i]) {
            Some(n) => {
                parts.push(n);
            },
            None => {},
        }
        i = i + 1;
    }
    assert(all.take(pieces.len() as int) == all);
    parts
}

/// The part at position `i`, or zero where there are fewer parts.
fn part_at(parts: &Vec<u32>, i: usize) -> (r: u32)
    ensures
        r == part(parts@, i as int),
{
    if i < parts.len() {
        parts[i]
    } else {
        0
    }
}

/// Whether `latest` is a newer version than `current`.
pub fn is_newer(current: &str, latest: &str) -> (r: bool)
    ensures
        r == newer_than(current@, latest@),
{
    let c = parts_of(current);
    let l = parts_of(latest);
    if part_at(&l, 0) != part_at(&c, 0) {
        part_at(&l, 0) > part_at(&c, 0)
    } else if part_at(&l, 1) != part_at(&c, 1) {
        part_at(&l, 1) > part_at(&c, 1)
    } else {
        part_at(&l, 2) > part_at(&c, 2)
    }
}

/// The update to offer to a program of version `current` that was sent the
/// release feed `body`.
pub fn check_for_updates(current: &str, body: &str) -> (r: Option<String>)
    ensures
        r.deep_view() == update_for(current@, body@),
{
    match announced_version(body) {
        Some(latest) => if is_newer(current, latest.as_str()) {
            Some(latest)
        } else {
            None
        },
        None => None,
    }
}

} // verus!
