//! Topic names, topic filters, wildcard matching, and shared subscription
//! filters.

use vstd::prelude::*;
use vstd::string::StrSliceExecFns;
use crate::text;
use crate::text::{chars_of, find_char, has_char, split_chars, starts_with_chars};

verus! {

/// Whether a string can be the topic of a PUBLISH: it has at least one
/// character, no wildcard and no U+0000.
pub open spec fn is_topic_name(topic: Seq<char>) -> bool {
    topic.len() > 0 && !topic.contains('+') && !topic.contains('#') && !topic.contains('\0')
}

/// Validates the topic name of a PUBLISH.
pub fn valid_topic_name(topic: &str) -> (r: bool)
    ensures
        r == is_topic_name(topic@),
{
    let t: Vec<char> = chars_of(topic);
    let s: &[char] = t.as_slice();
    s.len() > 0 && !has_char(s, '+') && !has_char(s, '#') && !has_char(s, '\0')
}

/// The levels of a topic name or filter.
pub open spec fn levels(s: Seq<char>) -> Seq<Seq<char>> {
    text::split(s, '/')
}

/// Whether a string can be a topic filter: it is not empty and holds no
/// U+0000; `#` is a whole level and the last one; `+` is a whole level.
pub open spec fn is_topic_filter(filter: Seq<char>) -> bool {
    &&& filter.len() > 0
    &&& !filter.contains('\0')
    &&& forall|i: int|
        0 <= i < levels(filter).len() ==> {
            let level = #[trigger] levels(filter)[i];
            &&& level.contains('#') ==> level == seq!['#'] && i == levels(filter).len() - 1
            &&& level.contains('+') ==> level == seq!['+']
        }
}

/// Whether a level is one given character.
fn is_level(level: &[char], c: char) -> (r: bool)
    ensures
        r == (level@ == seq![c]),
{
    if level.len() == 1 && level[0] == c {
        assert(level@ =~= seq![c]);
        true
    } else {
        false
    }
}

/// Validates the topic filter of a SUBSCRIBE.
pub fn valid_topic_filter(filter: &str) -> (r: bool)
    ensures
        r == is_topic_filter(filter@),
{
    let f: Vec<char> = chars_of(filter);
    if f.len() == 0 || has_char(f.as_slice(), '\0') {
        return false;
    }
    let parts: Vec<Vec<char>> = split_chars(f.as_slice(), '/');
    let ghost ls = levels(filter@);
    let mut i: usize = 0;
    while i < parts.len()
        invariant
            i <= parts.len(),
            text::views(parts@) == ls,
            ls == levels(filter@),
            forall|j: int|
                0 <= j < i ==> {
                    let level = #[trigger] ls[j];
                    &&& level.contains('#') ==> level == seq!['#'] && j == ls.len() - 1
                    &&& level.contains('+') ==> level == seq!['+']
                },
        decreases parts.len() - i,
    {
        let level: &[char] = parts[i].as_slice();
        assert(level@ == ls[i as int]);
        if has_char(level, '#') && (!is_level(level, '#') || i + 1 < parts.len()) {
            return false;
        }
        if has_char(level, '+') && !is_level(level, '+') {
            return false;
        }
        i = i + 1;
    }
    true
}

/// Parsed form of a subscription filter that may be shared.
pub struct ParsedFilter<'a> {
    /// The share name, for a shared subscription (`$share/{name}/...`).
    pub share_name: Option<&'a str>,
    /// The topic filter used for matching.
    pub filter: &'a str,
}

/// The prefix of shared subscriptions.
pub open spec fn share_prefix() -> Seq<char> {
    "$share/"@
}

/// The share name and the filter of `$share/{name}/{filter}`, or no share name
/// and the whole input. A share name must not be empty or hold a wildcard, and
/// a filter must follow it.
pub open spec fn parsed(input: Seq<char>) -> Option<(Option<Seq<char>>, Seq<char>)> {
    if text::has_prefix(input, share_prefix()) {
        let rest = input.skip(7);
        let slash = text::first_place(rest, '/');
        let name = rest.take(slash);
        if slash >= rest.len() - 1 || name.len() == 0 || name.contains('+') || name.contains(
            '#',
        ) {
            None
        } else {
            Some((Some(name), rest.skip(slash + 1)))
        }
    } else {
        Some((None, input))
    }
}

/// Parses `$share/{name}/{filter}`. `None` where the shared form is malformed.
pub fn parse_filter<'a>(input: &'a str) -> (r: Option<ParsedFilter<'a>>)
    ensures
        match r {
            Some(p) => parsed(input@) == Some((text::opt_view(p.share_name), p.filter@)),
            None => parsed(input@) is None,
        },
{
    proof {
        reveal_strlit("$share/");
    }
    let all: Vec<char> = chars_of(input);
    let prefix: Vec<char> = chars_of("$share/");
    if starts_with_chars(all.as_slice(), prefix.as_slice()) {
        let rest: &[char] = vstd::slice::slice_subrange(all.as_slice(), 7, all.len());
        assert(rest@ =~= input@.skip(7));
        let slash: usize = find_char(rest, '/');
        if slash >= rest.len() || slash + 1 == rest.len() {
            return None;
        }
        let name: &[char] = vstd::slice::slice_subrange(rest, 0, slash);
        assert(name@ =~= rest@.take(slash as int));
        if name.len() == 0 || has_char(name, '+') || has_char(name, '#') {
            return None;
        }
        let share_name: &'a str = input.substring_char(7, 7 + slash);
        let filter: &'a str = input.substring_char(8 + slash, all.len());
        assert(share_name@ =~= name@);
        assert(filter@ =~= rest@.skip(slash + 1));
        Some(ParsedFilter { share_name: Some(share_name), filter })
    } else {
        Some(ParsedFilter { share_name: None, filter: input })
    }
}

/// The first level that is `#`, or the number of levels.
pub open spec fn hash_level(f: Seq<Seq<char>>) -> int {
    text::first_place(f, seq!['#'])
}

/// Whether a level of a filter matches a level of a topic.
pub open spec fn level_matches(f: Seq<char>, t: Seq<char>) -> bool {
    f == seq!['+'] || f == t
}

/// Whether a filter matches a topic: level by level up to a `#`, which matches
/// its parent and everything below. A topic that begins with `$` is not
/// matched by a filter that begins with a wildcard.
pub open spec fn is_match(filter: Seq<char>, topic: Seq<char>) -> bool {
    let f = levels(filter);
    let t = levels(topic);
    let h = hash_level(f);
    &&& !(topic.len() > 0 && topic[0] == '$' && (f[0] == seq!['#'] || f[0] == seq!['+']))
    &&& t.len() >= h
    &&& h == f.len() ==> t.len() == f.len()
    &&& forall|i: int| 0 <= i < h ==> level_matches(#[trigger] f[i], t[i])
}

proof fn lemma_hash_level(f: Seq<Seq<char>>, i: int)
    requires
        0 <= i <= f.len(),
        forall|j: int| 0 <= j < i ==> #[trigger] f[j] != seq!['#'],
        i < f.len() ==> f[i] == seq!['#'],
    ensures
        hash_level(f) == i,
{
    text::lemma_first_place(f, seq!['#'], i);
}

proof fn lemma_hash_level_beyond(f: Seq<Seq<char>>, i: int)
    requires
        0 <= i <= f.len(),
        forall|j: int| 0 <= j < i ==> #[trigger] f[j] != seq!['#'],
    ensures
        i <= hash_level(f) <= f.len(),
{
    text::lemma_first_place_is(f, seq!['#']);
}

fn chars_eq(a: &[char], b: &[char]) -> (r: bool)
    ensures
        r == (a@ == b@),
{
    if a.len() != b.len() {
        return false;
    }
    let mut i: usize = 0;
    while i < a.len()
        invariant
            i <= a.len(),
            a.len() == b.len(),
            forall|j: int| 0 <= j < i ==> a@[j] == b@[j],
        decreases a.len() - i,
    {
        if a[i] != b[i] {
            return false;
        }
        i = i + 1;
    }
    assert(a@ =~= b@);
    true
}

/// Whether a filter matches a topic by the MQTT wildcard rules: `+` stands for
/// one level, `#` for its parent level and any number of levels below, and a
/// topic with a leading `$` is matched by neither at the first level.
pub fn matches(filter: &str, topic: &str) -> (r: bool)
    ensures
        r == is_match(filter@, topic@),
{
    let fc: Vec<char> = chars_of(filter);
    let tc: Vec<char> = chars_of(topic);
    let f: Vec<Vec<char>> = split_chars(fc.as_slice(), '/');
    let t: Vec<Vec<char>> = split_chars(tc.as_slice(), '/');
    let ghost fl = levels(filter@);
    let ghost tl = levels(topic@);
    assert(f[0]@ == fl[0]);
    if tc.len() > 0 && tc[0] == '$' && (is_level(f[0].as_slice(), '#') || is_level(
        f[0].as_slice(),
        '+',
    )) {
        return false;
    }
    let mut i: usize = 0;
    while i < f.len()
        invariant
            i <= f.len(),
            i <= t.len(),
            text::views(f@) == fl,
            text::views(t@) == tl,
            fl == levels(filter@),
            tl == levels(topic@),
            fl.len() >= 1,
            !(topic@.len() > 0 && topic@[0] == '$' && (fl[0] == seq!['#'] || fl[0] == seq!['+'])),
            forall|j: int| 0 <= j < i ==> #[trigger] fl[j] != seq!['#'],
            forall|j: int| 0 <= j < i ==> level_matches(#[trigger] fl[j], tl[j]),
        decreases f.len() - i,
    {
        assert(f[i as int]@ == fl[i as int]);
        if is_level(f[i].as_slice(), '#') {
            proof {
                lemma_hash_level(fl, i as int);
            }
            return true;
        }
        proof {
            lemma_hash_level_beyond(fl, i + 1);
        }
        if i >= t.len() {
            return false;
        }
        assert(t[i as int]@ == tl[i as int]);
        if !is_level(f[i].as_slice(), '+') && !chars_eq(f[i].as_slice(), t[i].as_slice()) {
            assert(!level_matches(fl[i as int], tl[i as int]));
            return false;
        }
        i = i + 1;
    }
    proof {
        lemma_hash_level(fl, i as int);
    }
    t.len() == f.len()
}

proof fn lemma_split_injective(a: Seq<char>, b: Seq<char>, sep: char)
    requires
        text::split(a, sep) == text::split(b, sep),
    ensures
        a == b,
    decreases a.len(),
{
    let sa = text::split(a, sep);
    let sb = text::split(b, sep);
    text::lemma_split_nonempty(a, sep);
    if a.len() == 0 && b.len() == 0 {
        assert(a =~= b);
    } else if a.len() == 0 {
        text::lemma_split_nonempty(b.drop_last(), sep);
        if b.last() == sep {
            assert(sb.len() >= 2);
        } else {
            assert(sb.last().len() > 0);
            assert(sa.last().len() == 0);
        }
        assert(false);
    } else if b.len() == 0 {
        text::lemma_split_nonempty(a.drop_last(), sep);
        if a.last() == sep {
            assert(sa.len() >= 2);
        } else {
            assert(sa.last().len() > 0);
            assert(sb.last().len() == 0);
        }
        assert(false);
    } else {
        text::lemma_split_nonempty(a.drop_last(), sep);
        text::lemma_split_nonempty(b.drop_last(), sep);
        let pa = text::split(a.drop_last(), sep);
        let pb = text::split(b.drop_last(), sep);
        if a.last() == sep && b.last() == sep {
            assert(pa =~= sa.drop_last());
            assert(pb =~= sb.drop_last());
        } else if a.last() != sep && b.last() != sep {
            assert(pa.last() =~= sa.last().drop_last());
            assert(pb.last() =~= sb.last().drop_last());
            assert(pa =~= sa.update(sa.len() - 1, sa.last().drop_last()));
            assert(pb =~= sb.update(sb.len() - 1, sb.last().drop_last()));
            assert(a.last() == sa.last().last());
            assert(b.last() == sb.last().last());
        } else if a.last() == sep {
            assert(sa.last().len() == 0);
            assert(sb.last().len() > 0);
            assert(false);
        } else {
            assert(sb.last().len() == 0);
            assert(sa.last().len() > 0);
            assert(false);
        }
        lemma_split_injective(a.drop_last(), b.drop_last(), sep);
        assert(a =~= a.drop_last().push(a.last()));
        assert(b =~= b.drop_last().push(b.last()));
    }
}

/// Whether no level of a filter is a wildcard.
pub open spec fn has_no_wildcard(filter: Seq<char>) -> bool {
    forall|i: int|
        0 <= i < levels(filter).len() ==> #[trigger] levels(filter)[i] != seq!['#'] && levels(
            filter,
        )[i] != seq!['+']
}

/// A filter without wildcards matches exactly the topic that it is.
pub proof fn plain_filter_matches_itself_only(filter: Seq<char>, topic: Seq<char>)
    requires
        has_no_wildcard(filter),
    ensures
        is_match(filter, topic) <==> filter == topic,
{
    let f = levels(filter);
    let t = levels(topic);
    text::lemma_split_nonempty(filter, '/');
    assert forall|j: int| 0 <= j < f.len() implies #[trigger] f[j] != seq!['#'] by {
        assert(levels(filter)[j] != seq!['#']);
    }
    lemma_hash_level(f, f.len() as int);
    assert(levels(filter)[0] != seq!['#']);
    if is_match(filter, topic) {
        assert forall|i: int| 0 <= i < f.len() implies f[i] == t[i] by {
            assert(level_matches(f[i], t[i]));
            assert(levels(filter)[i] != seq!['+']);
        }
        assert(f =~= t);
        lemma_split_injective(filter, topic, '/');
    }
}

/// A filter that begins with a wildcard matches no topic that begins with `$`.
pub proof fn leading_wildcard_never_matches_dollar_topics(filter: Seq<char>, topic: Seq<char>)
    requires
        topic.len() > 0,
        topic[0] == '$',
        levels(filter)[0] == seq!['#'] || levels(filter)[0] == seq!['+'],
    ensures
        !is_match(filter, topic),
{
}

/// The filter `#` matches every topic that does not begin with `$`.
pub proof fn hash_matches_every_other_topic(topic: Seq<char>)
    ensures
        is_match(seq!['#'], topic) <==> !(topic.len() > 0 && topic[0] == '$'),
{
    let f = levels(seq!['#']);
    let s = seq!['#'];
    assert(s.drop_last() =~= Seq::empty());
    assert(text::split(Seq::empty(), '/') =~= seq![Seq::<char>::empty()]);
    assert(f[0] =~= seq!['#']);
    assert(f =~= seq![seq!['#']]);
    lemma_hash_level(f, 0);
}

/// A string and its first level begin with the same character.
proof fn lemma_first_level(s: Seq<char>)
    ensures
        levels(s).len() > 0,
        levels(s)[0].len() > 0 ==> s.len() > 0 && s[0] == levels(s)[0][0],
        s.len() > 0 && s[0] != '/' ==> levels(s)[0].len() > 0,
        levels(s).len() == 1 ==> levels(s)[0] == s,
    decreases s.len(),
{
    text::lemma_split_nonempty(s, '/');
    if s.len() > 0 {
        text::lemma_split_nonempty(s.drop_last(), '/');
        lemma_first_level(s.drop_last());
        assert(s.drop_last().push(s.last()) =~= s);
    } else {
        assert(levels(s)[0] =~= s);
    }
}

/// Whether a filter covers a request for another filter, which is then no
/// broader. It matches the request as if that were a topic, and none of its `+`
/// takes in a `#`, which stands for more than one level. The filter `+/#`
/// matches all that `#` matches, and covers it.
pub open spec fn covers(filter: Seq<char>, request: Seq<char>) -> bool {
    let f = levels(filter);
    let g = levels(request);
    ||| f == seq![seq!['+'], seq!['#']] && g == seq![seq!['#']]
    ||| is_match(filter, request) && forall|i: int|
        0 <= i < hash_level(f) ==> !(#[trigger] f[i] == seq!['+'] && g[i] == seq!['#'])
}

/// Whether a filter covers a request for another filter: nothing that the other
/// one matches is beyond it.
pub fn covering(filter: &str, request: &str) -> (r: bool)
    ensures
        r == covers(filter@, request@),
{
    let fc: Vec<char> = chars_of(filter);
    let gc: Vec<char> = chars_of(request);
    let f: Vec<Vec<char>> = split_chars(fc.as_slice(), '/');
    let g: Vec<Vec<char>> = split_chars(gc.as_slice(), '/');
    let ghost fl = levels(filter@);
    let ghost gl = levels(request@);
    assert(f@.len() == fl.len() && g@.len() == gl.len());
    assert(f[0]@ == fl[0] && g[0]@ == gl[0]);
    if f.len() == 2 && g.len() == 1 {
        assert(f[1]@ == fl[1]);
        if is_level(f[0].as_slice(), '+') && is_level(f[1].as_slice(), '#') && is_level(
            g[0].as_slice(),
            '#',
        ) {
            assert(fl =~= seq![seq!['+'], seq!['#']]);
            assert(gl =~= seq![seq!['#']]);
            return true;
        }
    }
    assert(!(fl == seq![seq!['+'], seq!['#']] && gl == seq![seq!['#']]));
    if !matches(filter, request) {
        return false;
    }
    proof {
        text::lemma_first_place_is(fl, seq!['#']);
    }
    let mut i: usize = 0;
    while i < f.len() && !is_level(f[i].as_slice(), '#')
        invariant
            i <= f.len(),
            text::views(f@) == fl,
            text::views(g@) == gl,
            f@.len() == fl.len(),
            g@.len() == gl.len(),
            fl == levels(filter@),
            gl == levels(request@),
            is_match(filter@, request@),
            !(fl == seq![seq!['+'], seq!['#']] && gl == seq![seq!['#']]),
            i <= hash_level(fl) <= fl.len(),
            hash_level(fl) < fl.len() ==> fl[hash_level(fl)] == seq!['#'],
            forall|j: int| 0 <= j < i ==> !(#[trigger] fl[j] == seq!['+'] && gl[j] == seq!['#']),
        decreases f.len() - i,
    {
        assert(f[i as int]@ == fl[i as int]);
        assert(i < hash_level(fl));
        assert(g[i as int]@ == gl[i as int]);
        if is_level(f[i].as_slice(), '+') && is_level(g[i].as_slice(), '#') {
            assert(fl[i as int] == seq!['+'] && gl[i as int] == seq!['#']);
            return false;
        }
        i = i + 1;
    }
    proof {
        text::lemma_first_place_is(fl, seq!['#']);
        if i < f.len() {
            assert(f[i as int]@ == fl[i as int]);
            assert(i == hash_level(fl));
        }
    }
    true
}

/// A topic filter covers itself.
pub proof fn filter_covers_itself(filter: Seq<char>)
    requires
        is_topic_filter(filter),
    ensures
        covers(filter, filter),
{
    let f = levels(filter);
    text::lemma_first_place_is(f, seq!['#']);
    lemma_first_level(filter);
    if filter.len() > 0 && filter[0] == '$' {
        assert(f[0][0] == '$');
    }
}

/// A filter that covers another one matches every topic that the other one
/// matches.
pub proof fn covered_filter_is_narrower(filter: Seq<char>, request: Seq<char>, topic: Seq<char>)
    requires
        is_topic_filter(request),
        covers(filter, request),
        is_match(request, topic),
    ensures
        is_match(filter, topic),
{
    let f = levels(filter);
    let g = levels(request);
    let t = levels(topic);
    let hf = hash_level(f);
    let hg = hash_level(g);
    let hash = seq!['#'];
    text::lemma_first_place_is(f, hash);
    text::lemma_first_place_is(g, hash);
    lemma_first_level(filter);
    lemma_first_level(request);
    lemma_first_level(topic);
    if f == seq![seq!['+'], seq!['#']] && g == seq![seq!['#']] {
        assert(f[0] != hash) by {
            assert(f[0][0] == '+');
        }
        assert(f[1] == hash);
        assert(hf == 1);
        assert(g[0] == hash);
        assert(level_matches(f[0], t[0]));
        assert(!(topic.len() > 0 && topic[0] == '$'));
    } else {
        assert forall|i: int| 0 <= i < hf implies #[trigger] g[i] != hash by {
            assert(level_matches(f[i], g[i]));
            assert(f[i] != hash);
        }
        assert(hg >= hf);
        assert forall|i: int| 0 <= i < hf implies level_matches(#[trigger] f[i], t[i]) by {
            assert(level_matches(f[i], g[i]));
            assert(level_matches(g[i], t[i]));
        }
        if topic.len() > 0 && topic[0] == '$' && (f[0] == hash || f[0] == seq!['+']) {
            assert(g[0] != hash);
            assert(hg > 0);
            assert(level_matches(g[0], t[0]));
            assert(request[0] == '$');
        }
    }
}

/// The characters of a level are those of the string.
proof fn lemma_level_chars(s: Seq<char>, i: int, c: char)
    requires
        0 <= i < levels(s).len(),
        levels(s)[i].contains(c),
    ensures
        s.contains(c),
    decreases s.len(),
{
    if s.len() > 0 {
        let d = s.drop_last();
        let before = levels(d);
        text::lemma_split_nonempty(d, '/');
        let k = choose|k: int| 0 <= k < levels(s)[i].len() && levels(s)[i][k] == c;
        if s.last() == c {
            assert(s[s.len() - 1] == c);
        } else {
            if i < before.len() {
                assert(before[i].contains(c)) by {
                    assert(before[i][k] == c);
                }
                lemma_level_chars(d, i, c);
                let j = choose|j: int| 0 <= j < d.len() && d[j] == c;
                assert(s[j] == c);
            }
        }
    }
}

/// To cover a topic is to match it.
pub proof fn covering_a_topic_is_matching(filter: Seq<char>, topic: Seq<char>)
    requires
        !topic.contains('#'),
    ensures
        covers(filter, topic) <==> is_match(filter, topic),
{
    let g = levels(topic);
    assert forall|i: int| 0 <= i < g.len() implies #[trigger] g[i] != seq!['#'] by {
        if g[i] == seq!['#'] {
            assert(g[i][0] == '#');
            lemma_level_chars(topic, i, '#');
        }
    }
    text::lemma_split_nonempty(topic, '/');
    text::lemma_first_place_is(levels(filter), seq!['#']);
    if g == seq![seq!['#']] {
        assert(g[0] == seq!['#']);
    }
}

/// Where a character of a string that is no separator stands in its levels: in
/// which of them, and at which place in it. It is the first of its level exactly
/// where it is the first of all or a separator comes before it, the last of its
/// level where it is the last of all or a separator comes after it, and in the
/// last level where no separator comes after it at all.
proof fn lemma_place_in_levels(s: Seq<char>, i: int) -> (at: (int, int))
    requires
        0 <= i < s.len(),
        s[i] != '/',
    ensures
        0 <= at.0 < levels(s).len(),
        0 <= at.1 < levels(s)[at.0].len(),
        levels(s)[at.0][at.1] == s[i],
        at.1 == 0 <==> i == 0 || s[i - 1] == '/',
        at.1 == levels(s)[at.0].len() - 1 <==> i == s.len() - 1 || s[i + 1] == '/',
        at.0 == levels(s).len() - 1 <==> forall|j: int| i < j < s.len() ==> #[trigger] s[j] != '/',
    decreases s.len(),
{
    let d = s.drop_last();
    let before = levels(d);
    text::lemma_split_nonempty(d, '/');
    lemma_last_level(d);
    if i < d.len() {
        let at = lemma_place_in_levels(d, i);
        assert forall|j: int| 0 <= j < d.len() implies #[trigger] d[j] == s[j] by {}
        if s.last() == '/' {
            assert(s[s.len() - 1] == '/');
        } else {
            if at.0 == before.len() - 1 {
                assert forall|j: int| i < j < s.len() implies #[trigger] s[j] != '/' by {
                    if j < d.len() {
                        assert(d[j] != '/');
                    }
                }
            } else {
                let j = choose|j: int| i < j < d.len() && #[trigger] d[j] == '/';
                assert(s[j] == '/');
            }
        }
        at
    } else {
        (before.len() - 1, before.last().len() as int)
    }
}

proof fn lemma_last_level(s: Seq<char>)
    ensures
        levels(s).len() >= 1,
        levels(s).last().len() == 0 <==> s.len() == 0 || s.last() == '/',
{
    text::lemma_split_nonempty(s, '/');
    if s.len() > 0 {
        text::lemma_split_nonempty(s.drop_last(), '/');
    }
}

/// In a topic filter `#` is the last character, and `+` has a separator or an
/// end on both sides; `#` has one before it too.
pub proof fn wildcards_are_whole_levels(filter: Seq<char>, i: int)
    requires
        is_topic_filter(filter),
        0 <= i < filter.len(),
    ensures
        filter[i] == '#' ==> i == filter.len() - 1 && (i == 0 || filter[i - 1] == '/'),
        filter[i] == '+' ==> (i == 0 || filter[i - 1] == '/') && (i == filter.len() - 1 || filter[i
            + 1] == '/'),
        filter[i] != '\0',
{
    assert(filter.contains(filter[i]));
    if filter[i] == '#' || filter[i] == '+' {
        let at = lemma_place_in_levels(filter, i);
        let level = levels(filter)[at.0];
        assert(level.contains(filter[i]));
    }
}

/// A string that is not empty, holds no U+0000 and no wildcard can be both a
/// topic and a filter.
pub proof fn topics_are_filters(topic: Seq<char>)
    requires
        is_topic_name(topic),
    ensures
        is_topic_filter(topic),
        forall|i: int| 0 <= i < topic.len() ==> #[trigger] topic[i] != '+' && topic[i] != '#',
{
    assert forall|i: int| 0 <= i < levels(topic).len() implies ({
        let level = #[trigger] levels(topic)[i];
        &&& level.contains('#') ==> level == seq!['#'] && i == levels(topic).len() - 1
        &&& level.contains('+') ==> level == seq!['+']
    }) by {
        if levels(topic)[i].contains('#') {
            lemma_level_chars(topic, i, '#');
        }
        if levels(topic)[i].contains('+') {
            lemma_level_chars(topic, i, '+');
        }
    }
    assert forall|i: int| 0 <= i < topic.len() implies #[trigger] topic[i] != '+' && topic[i]
        != '#' by {
        assert(topic.contains(topic[i]));
    }
}

} // verus!
