//! Laws of topics and filters: what each wildcard matches, and how the filter of
//! a shared subscription is read.

use vstd::prelude::*;
use crate::text;
use crate::topic::{hash_level, is_match, levels, parsed};

verus! {

/// Whether a level is a filter's `+`, or the same as a topic's.
pub open spec fn fits(f: Seq<char>, t: Seq<char>) -> bool {
    f == seq!['+'] || f == t
}

/// Whether a topic is kept from a filter: it begins with `$`, and the filter
/// with a wildcard.
pub open spec fn is_kept_from(filter: Seq<char>, topic: Seq<char>) -> bool {
    &&& topic.len() > 0
    &&& topic[0] == '$'
    &&& levels(filter)[0] == seq!['+'] || levels(filter)[0] == seq!['#']
}

/// A filter without `#` matches exactly the topics with as many levels as it
/// has, each of them the same as its own or one that its `+` stands for, but for
/// those that are kept from it.
pub proof fn plus_stands_for_one_level(filter: Seq<char>, topic: Seq<char>)
    requires
        forall|i: int| 0 <= i < levels(filter).len() ==> #[trigger] levels(filter)[i] != seq!['#'],
    ensures
        is_match(filter, topic) <==> !is_kept_from(filter, topic) && levels(topic).len() == levels(
            filter,
        ).len() && forall|i: int|
            0 <= i < levels(filter).len() ==> fits(#[trigger] levels(filter)[i], levels(topic)[i]),
{
    let f = levels(filter);
    let t = levels(topic);
    text::lemma_split_nonempty(filter, '/');
    text::lemma_first_place(f, seq!['#'], f.len() as int);
    if is_match(filter, topic) {
        assert forall|i: int| 0 <= i < f.len() implies fits(#[trigger] f[i], t[i]) by {
            assert(crate::topic::level_matches(f[i], t[i]));
        }
    }
    if !is_kept_from(filter, topic) && t.len() == f.len() && forall|i: int|
        0 <= i < f.len() ==> fits(#[trigger] f[i], t[i]) {
        assert forall|i: int| 0 <= i < hash_level(f) implies crate::topic::level_matches(
            #[trigger] f[i],
            t[i],
        ) by {
            assert(fits(f[i], t[i]));
        }
    }
}

/// A filter that ends in `#` matches exactly the topics whose first levels fit
/// those before it, whatever comes after them, the parent itself among them, but
/// for those that are kept from it.
pub proof fn hash_stands_for_all_below(filter: Seq<char>, topic: Seq<char>)
    requires
        levels(filter).last() == seq!['#'],
        forall|i: int|
            0 <= i < levels(filter).len() - 1 ==> #[trigger] levels(filter)[i] != seq!['#'],
    ensures
        is_match(filter, topic) <==> !is_kept_from(filter, topic) && levels(topic).len() >= levels(
            filter,
        ).len() - 1 && forall|i: int|
            0 <= i < levels(filter).len() - 1 ==> fits(
                #[trigger] levels(filter)[i],
                levels(topic)[i],
            ),
{
    let f = levels(filter);
    let t = levels(topic);
    text::lemma_split_nonempty(filter, '/');
    let n = f.len() - 1;
    text::lemma_first_place(f, seq!['#'], n);
    if is_match(filter, topic) {
        assert forall|i: int| 0 <= i < n implies fits(#[trigger] f[i], t[i]) by {
            assert(crate::topic::level_matches(f[i], t[i]));
        }
    }
    if !is_kept_from(filter, topic) && t.len() >= n && forall|i: int|
        0 <= i < n ==> fits(#[trigger] f[i], t[i]) {
        assert forall|i: int| 0 <= i < hash_level(f) implies crate::topic::level_matches(
            #[trigger] f[i],
            t[i],
        ) by {
            assert(fits(f[i], t[i]));
        }
    }
}

/// Whether a string can be the name of a share: it is not empty and holds
/// neither a separator nor a wildcard.
pub open spec fn is_share_name(name: Seq<char>) -> bool {
    name.len() > 0 && !name.contains('/') && !name.contains('+') && !name.contains('#')
}

/// A filter `$share/{name}/{filter}` is that of a share with its name and
/// filter, whichever they are.
pub proof fn share_is_read_back(name: Seq<char>, filter: Seq<char>)
    requires
        is_share_name(name),
        filter.len() > 0,
    ensures
        parsed("$share/"@ + name + seq!['/'] + filter) == Some((Some(name), filter)),
{
    reveal_strlit("$share/");
    let input = "$share/"@ + name + seq!['/'] + filter;
    assert(input.take(7) =~= "$share/"@);
    let rest = input.skip(7);
    assert(rest =~= name + seq!['/'] + filter);
    assert forall|j: int| 0 <= j < name.len() implies #[trigger] rest[j] != '/' by {
        assert(rest[j] == name[j]);
        assert(name.contains(name[j]));
    }
    assert(rest[name.len() as int] == '/');
    text::lemma_first_place(rest, '/', name.len() as int);
    assert(rest.take(name.len() as int) =~= name);
    assert(rest.skip(name.len() as int + 1) =~= filter);
}

/// A filter that is read as that of a share is `$share/{name}/{filter}`; one
/// without that beginning is read as it is; and nothing else is read.
pub proof fn only_shares_are_read_as_such(input: Seq<char>)
    ensures
        parsed(input) matches Some((Some(name), filter)) ==> is_share_name(name) && filter.len() > 0
            && input == "$share/"@ + name + seq!['/'] + filter,
        parsed(input) matches Some((None, filter)) ==> filter == input && !text::has_prefix(
            input,
            "$share/"@,
        ),
        !text::has_prefix(input, "$share/"@) ==> parsed(input) == Some(
            (None::<Seq<char>>, input),
        ),
{
    reveal_strlit("$share/");
    if let Some((Some(name), filter)) = parsed(input) {
        let rest = input.skip(7);
        let slash = text::first_place(rest, '/');
        text::lemma_first_place_is(rest, '/');
        assert(name == rest.take(slash));
        if name.contains('/') {
            let j = choose|j: int| 0 <= j < name.len() && name[j] == '/';
            assert(rest[j] == '/');
        }
        assert(input.take(7) =~= "$share/"@);
        assert(input =~= "$share/"@ + name + seq!['/'] + filter);
    }
}

} // verus!
