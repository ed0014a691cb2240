//! JSON values.
//!
//! `Json` is the value that the library reads and builds. Text becomes a value
//! and a value becomes text through the `serde_json` crate, whose own `Value`
//! is taken apart and put together one level at a time.

use vstd::prelude::*;
use crate::text::{
    is_less, lemma_less_is_strict, lemma_less_precedes, lemma_less_transitive, str_eq, text_less, views,
};

verus! {

/// `serde_json::Value`: a JSON value of that crate.
#[verifier::external_type_specification]
#[verifier::external_body]
pub struct ExValue(serde_json::Value);

/// `serde_json::Number`: a JSON number of that crate. It is only carried.
#[verifier::external_type_specification]
#[verifier::external_body]
pub struct ExNumber(serde_json::Number);

/// What a JSON value is. Numbers are told apart by whether they fit the signed
/// and then the unsigned 64-bit integers; an object is its members by name.
pub enum JsonView {
    Null,
    Bool(bool),
    Int(i64),
    Big(u64),
    Decimal(serde_json::Number),
    Str(Seq<char>),
    Array(Seq<JsonView>),
    Object(Map<Seq<char>, JsonView>),
}

/// A JSON value.
#[derive(Debug)]
pub enum Json {
    Null,
    Bool(bool),
    Int(i64),
    /// A number beyond the signed integers.
    Big(u64),
    /// A number that is no integer.
    Decimal(serde_json::Number),
    Str(String),
    Array(Vec<Json>),
    /// Members in order; of two with one name the later counts.
    Object(Vec<(String, Json)>),
}

/// What a JSON value is.
pub open spec fn json_view(j: Json) -> JsonView
    decreases j,
{
    match j {
        Json::Null => JsonView::Null,
        Json::Bool(b) => JsonView::Bool(b),
        Json::Int(n) => JsonView::Int(n),
        Json::Big(n) => JsonView::Big(n),
        Json::Decimal(n) => JsonView::Decimal(n),
        Json::Str(s) => JsonView::Str(s@),
        Json::Array(v) => JsonView::Array(items_view(v@)),
        Json::Object(v) => JsonView::Object(members_view(v@)),
    }
}

/// What the items of an array are.
pub open spec fn items_view(s: Seq<Json>) -> Seq<JsonView>
    decreases s,
{
    if s.len() == 0 {
        Seq::empty()
    } else {
        items_view(s.drop_last()).push(json_view(s.last()))
    }
}

/// What the members of an object are.
pub open spec fn members_view(s: Seq<(String, Json)>) -> Map<Seq<char>, JsonView>
    decreases s,
{
    if s.len() == 0 {
        Map::empty()
    } else {
        members_view(s.drop_last()).insert(s.last().0@, json_view(s.last().1))
    }
}

impl View for Json {
    type V = JsonView;

    open spec fn view(&self) -> JsonView {
        json_view(*self)
    }
}

pub proof fn lemma_items_view(s: Seq<Json>)
    ensures
        items_view(s).len() == s.len(),
        forall|i: int| 0 <= i < s.len() ==> #[trigger] items_view(s)[i] == s[i]@,
    decreases s.len(),
{
    if s.len() > 0 {
        lemma_items_view(s.drop_last());
        assert forall|i: int| 0 <= i < s.len() implies #[trigger] items_view(s)[i] == s[i]@ by {
            if i < s.len() - 1 {
                assert(items_view(s.drop_last())[i] == s.drop_last()[i]@);
            }
        }
    }
}

pub proof fn lemma_members_keys(s: Seq<(String, Json)>)
    ensures
        forall|k: Seq<char>|
            #[trigger] members_view(s).contains_key(k) <==> exists|i: int|
                0 <= i < s.len() && (#[trigger] s[i]).0@ == k,
    decreases s.len(),
{
    if s.len() > 0 {
        let d = s.drop_last();
        lemma_members_keys(d);
        assert forall|k: Seq<char>| #[trigger] members_view(s).contains_key(k) implies exists|i: int|
            0 <= i < s.len() && (#[trigger] s[i]).0@ == k by {
            if k == s.last().0@ {
                assert(s[s.len() - 1].0@ == k);
            } else {
                assert(members_view(d).contains_key(k));
                let i = choose|i: int| 0 <= i < d.len() && (#[trigger] d[i]).0@ == k;
                assert(s[i].0@ == k);
            }
        }
        assert forall|k: Seq<char>|
            (exists|i: int| 0 <= i < s.len() && (#[trigger] s[i]).0@ == k) implies
            #[trigger] members_view(s).contains_key(k) by {
            let i = choose|i: int| 0 <= i < s.len() && (#[trigger] s[i]).0@ == k;
            if i < d.len() {
                assert(d[i].0@ == k);
                assert(members_view(d).contains_key(k));
            }
        }
    }
}

/// Whether names stand in their order, each once.
pub open spec fn ascending(names: Seq<Seq<char>>) -> bool {
    forall|i: int, j: int|
        0 <= i < j < names.len() ==> is_less(#[trigger] names[i], #[trigger] names[j])
}

/// Whether names are those of an object, in their order.
pub open spec fn lists_names(members: Map<Seq<char>, JsonView>, names: Seq<Seq<char>>) -> bool {
    &&& ascending(names)
    &&& forall|k: Seq<char>| #[trigger] members.contains_key(k) <==> names.contains(k)
}

/// The names of an object, in their order.
pub open spec fn names_of(members: Map<Seq<char>, JsonView>) -> Seq<Seq<char>> {
    choose|names: Seq<Seq<char>>| lists_names(members, names)
}

proof fn lemma_ascending_unique(a: Seq<Seq<char>>, b: Seq<Seq<char>>)
    requires
        ascending(a),
        ascending(b),
        forall|k: Seq<char>| #[trigger] a.contains(k) <==> b.contains(k),
    ensures
        a == b,
    decreases a.len(),
{
    if a.len() == 0 {
        if b.len() > 0 {
            assert(b.contains(b[0]));
            assert(a.contains(b[0]));
        }
        assert(a =~= b);
    } else {
        assert(a.contains(a[0]));
        let j = choose|j: int| 0 <= j < b.len() && b[j] == a[0];
        assert(b.contains(b[0]));
        assert(a.contains(b[0]));
        let i = choose|i: int| 0 <= i < a.len() && a[i] == b[0];
        lemma_less_is_strict(a[0], b[0]);
        lemma_less_precedes(a[0], b[0]);
        if j > 0 {
            assert(is_less(b[0], b[j]));
            if i > 0 {
                assert(is_less(a[0], a[i]));
            }
        }
        assert(a[0] == b[0]);
        let x = a.skip(1);
        let y = b.skip(1);
        assert forall|k: Seq<char>| #[trigger] x.contains(k) <==> y.contains(k) by {
            if x.contains(k) {
                let n = choose|n: int| 0 <= n < x.len() && x[n] == k;
                assert(a[n + 1] == k);
                assert(is_less(a[0], a[n + 1]));
                assert(a.contains(k));
                assert(b.contains(k));
                let m = choose|m: int| 0 <= m < b.len() && b[m] == k;
                assert(m > 0);
                assert(y[m - 1] == k);
            }
            if y.contains(k) {
                let n = choose|n: int| 0 <= n < y.len() && y[n] == k;
                assert(b[n + 1] == k);
                assert(is_less(b[0], b[n + 1]));
                assert(b.contains(k));
                assert(a.contains(k));
                let m = choose|m: int| 0 <= m < a.len() && a[m] == k;
                assert(m > 0);
                assert(x[m - 1] == k);
            }
        }
        lemma_ascending_unique(x, y);
        assert(a =~= seq![a[0]] + x);
        assert(b =~= seq![b[0]] + y);
    }
}

/// An object has one list of its names in their order.
pub proof fn lemma_names_of(members: Map<Seq<char>, JsonView>, names: Seq<Seq<char>>)
    requires
        lists_names(members, names),
    ensures
        names_of(members) == names,
{
    let other = names_of(members);
    assert(lists_names(members, other));
    assert forall|k: Seq<char>| #[trigger] other.contains(k) <==> names.contains(k) by {
        assert(members.contains_key(k) <==> other.contains(k));
    }
    lemma_ascending_unique(other, names);
}

/// Puts a name in its place among others, unless it is there.
fn insert_name(out: &mut Vec<String>, name: &String)
    requires
        ascending(views(old(out)@)),
    ensures
        ascending(views(final(out)@)),
        forall|k: Seq<char>| #[trigger]
            views(final(out)@).contains(k) <==> views(old(out)@).contains(k) || k == name@,
{
    let ghost before = views(out@);
    let mut i: usize = 0;
    while i < out.len() && text_less(out[i].as_str(), name.as_str())
        invariant
            i <= out.len(),
            before == views(out@),
            before.len() == out@.len(),
            out@ == old(out)@,
            ascending(before),
            forall|j: int| 0 <= j < i ==> is_less(#[trigger] before[j], name@),
        decreases out.len() - i,
    {
        assert(before[i as int] == out@[i as int]@);
        i = i + 1;
    }
    if i < out.len() && str_eq(out[i].as_str(), name.as_str()) {
        assert(before[i as int] == name@);
        return;
    }
    if i < out.len() {
        proof {
            assert(before[i as int] == out@[i as int]@);
            lemma_less_is_strict(before[i as int], name@);
        }
    }
    out.insert(i, name.clone());
    proof {
        let after = views(out@);
        assert(after =~= before.insert(i as int, name@));
        assert forall|a: int, b: int| 0 <= a < b < after.len() implies is_less(
            #[trigger] after[a],
            #[trigger] after[b],
        ) by {
            let x = if a < i {
                a
            } else {
                a - 1
            };
            let y = if b < i {
                b
            } else {
                b - 1
            };
            if a == i {
                assert(after[b] == before[y]);
                if y > i {
                    assert(is_less(before[i as int], before[y]));
                    lemma_less_transitive(name@, before[i as int], before[y]);
                }
            } else if b == i {
                assert(after[a] == before[x]);
            } else {
                assert(after[a] == before[x] && after[b] == before[y]);
            }
        }
        assert forall|k: Seq<char>| #[trigger] after.contains(k) <==> before.contains(k) || k
            == name@ by {
            if before.contains(k) {
                let n = choose|n: int| 0 <= n < before.len() && before[n] == k;
                assert(after[if n < i {
                    n
                } else {
                    n + 1
                }] == k);
            }
            assert(after[i as int] == name@);
            if after.contains(k) && k != name@ {
                let n = choose|n: int| 0 <= n < after.len() && after[n] == k;
                assert(before[if n < i {
                    n
                } else {
                    n - 1
                }] == k);
            }
        }
    }
}

/// The names of an object, in their order.
pub(crate) fn sorted_names(members: &Vec<(String, Json)>) -> (r: Vec<String>)
    ensures
        views(r@) == names_of(members_view(members@)),
        lists_names(members_view(members@), views(r@)),
{
    let ghost m = members_view(members@);
    let mut out: Vec<String> = Vec::new();
    let mut i: usize = 0;
    assert(views(out@) =~= Seq::empty());
    while i < members.len()
        invariant
            i <= members.len(),
            ascending(views(out@)),
            forall|k: Seq<char>| #[trigger]
                views(out@).contains(k) <==> exists|x: int|
                    0 <= x < i && (#[trigger] members@[x]).0@ == k,
        decreases members.len() - i,
    {
        let ghost before = views(out@);
        insert_name(&mut out, &members[i].0);
        assert forall|k: Seq<char>| #[trigger] views(out@).contains(k) <==> exists|x: int|
            0 <= x < i + 1 && (#[trigger] members@[x]).0@ == k by {
            if before.contains(k) {
                let x = choose|x: int| 0 <= x < i && (#[trigger] members@[x]).0@ == k;
                assert(members@[x].0@ == k);
            }
            if k == members@[i as int].0@ {
                assert(members@[i as int].0@ == k);
            }
        }
        i = i + 1;
    }
    proof {
        lemma_members_keys(members@);
        assert(lists_names(m, views(out@)));
        lemma_names_of(m, views(out@));
    }
    out
}

impl JsonView {
    /// The member of an object with a name.
    pub open spec fn get(self, key: Seq<char>) -> Option<JsonView> {
        match self {
            JsonView::Object(m) => if m.contains_key(key) {
                Some(m[key])
            } else {
                None
            },
            _ => None,
        }
    }

    pub open spec fn as_str(self) -> Option<Seq<char>> {
        match self {
            JsonView::Str(s) => Some(s),
            _ => None,
        }
    }

    pub open spec fn as_i64(self) -> Option<i64> {
        match self {
            JsonView::Int(n) => Some(n),
            _ => None,
        }
    }

    pub open spec fn as_bool(self) -> Option<bool> {
        match self {
            JsonView::Bool(b) => Some(b),
            _ => None,
        }
    }

    /// The member with a name, or null where there is none.
    pub open spec fn at(self, key: Seq<char>) -> JsonView {
        match self.get(key) {
            Some(v) => v,
            None => JsonView::Null,
        }
    }
}

impl Json {
    /// The member of an object with a name.
    pub fn get(&self, key: &str) -> (r: Option<&Json>)
        ensures
            match r {
                Some(v) => self@.get(key@) == Some(v@),
                None => self@.get(key@) is None,
            },
    {
        match self {
            Json::Object(members) => {
                let mut n: usize = members.len();
                assert(members@.take(n as int) =~= members@);
                while n > 0
                    invariant
                        n <= members.len(),
                        *self == Json::Object(*members),
                        members_view(members@.take(n as int)).contains_key(key@) == members_view(
                            members@,
                        ).contains_key(key@),
                        members_view(members@).contains_key(key@) ==> members_view(
                            members@.take(n as int),
                        )[key@] == members_view(members@)[key@],
                    decreases n,
                {
                    let ghost t = members@.take(n as int);
                    assert(t.drop_last() =~= members@.take(n - 1));
                    n = n - 1;
                    if str_eq(members[n].0.as_str(), key) {
                        return Some(&members[n].1);
                    }
                }
                None
            },
            _ => None,
        }
    }

    pub fn as_str(&self) -> (r: Option<&str>)
        ensures
            match r {
                Some(s) => self@.as_str() == Some(s@),
                None => self@.as_str() is None,
            },
    {
        match self {
            Json::Str(s) => Some(s.as_str()),
            _ => None,
        }
    }

    pub fn as_array(&self) -> (r: Option<&Vec<Json>>)
        ensures
            match r {
                Some(v) => self@ == JsonView::Array(items_view(v@)),
                None => !(self@ is Array),
            },
    {
        match self {
            Json::Array(v) => Some(v),
            _ => None,
        }
    }

    pub fn as_object(&self) -> (r: Option<&Vec<(String, Json)>>)
        ensures
            match r {
                Some(v) => self@ == JsonView::Object(members_view(v@)),
                None => !(self@ is Object),
            },
    {
        match self {
            Json::Object(v) => Some(v),
            _ => None,
        }
    }

    pub fn as_bool(&self) -> (r: Option<bool>)
        ensures
            r == self@.as_bool(),
    {
        match self {
            Json::Bool(b) => Some(*b),
            _ => None,
        }
    }

    pub fn as_i64(&self) -> (r: Option<i64>)
        ensures
            r == self@.as_i64(),
    {
        match self {
            Json::Int(n) => Some(*n),
            _ => None,
        }
    }

    pub fn is_null(&self) -> (r: bool)
        ensures
            r == (self@ is Null),
    {
        match self {
            Json::Null => true,
            _ => false,
        }
    }
}

/// What a number is.
pub open spec fn number_view(n: u64) -> JsonView {
    if n <= i64::MAX {
        JsonView::Int(n as i64)
    } else {
        JsonView::Big(n)
    }
}

/// What a value of the `serde_json` crate is.
pub uninterp spec fn content(v: serde_json::Value) -> JsonView;

/// The value that a text is, or why it is no JSON.
pub uninterp spec fn json_of_text(text: Seq<char>) -> core::result::Result<JsonView, Seq<char>>;

/// The value that bytes are, or why they are no JSON.
pub uninterp spec fn json_of_bytes(bytes: Seq<u8>) -> core::result::Result<JsonView, Seq<char>>;

/// A value as compact text.
pub uninterp spec fn json_text(v: JsonView) -> Seq<char>;

/// A value as text over several lines.
pub uninterp spec fn json_pretty_text(v: JsonView) -> Seq<char>;

/// What the members of an object of the `serde_json` crate are.
pub open spec fn value_members(s: Seq<(String, serde_json::Value)>) -> Map<Seq<char>, JsonView>
    decreases s.len(),
{
    if s.len() == 0 {
        Map::empty()
    } else {
        value_members(s.drop_last()).insert(s.last().0@, content(s.last().1))
    }
}

/// Whether no two members have one name.
pub open spec fn distinct_names(s: Seq<(String, serde_json::Value)>) -> bool {
    forall|i: int, j: int|
        0 <= i < j < s.len() ==> (#[trigger] s[i]).0@ != (#[trigger] s[j]).0@
}

proof fn lemma_value_members(s: Seq<(String, serde_json::Value)>)
    requires
        distinct_names(s),
    ensures
        value_members(s).dom().finite(),
        forall|i: int|
            0 <= i < s.len() ==> value_members(s).contains_key((#[trigger] s[i]).0@)
                && value_members(s)[s[i].0@] == content(s[i].1),
    decreases s.len(),
{
    if s.len() > 0 {
        let d = s.drop_last();
        assert forall|i: int, j: int| 0 <= i < j < d.len() implies (#[trigger] d[i]).0@ != (
        #[trigger] d[j]).0@ by {
            assert(s[i].0@ != s[j].0@);
        }
        lemma_value_members(d);
        assert forall|i: int| 0 <= i < s.len() implies value_members(s).contains_key(
            (#[trigger] s[i]).0@,
        ) && value_members(s)[s[i].0@] == content(s[i].1) by {
            if i < d.len() {
                assert(s[i].0@ != s[s.len() - 1].0@);
                assert(d[i] == s[i]);
            }
        }
    }
}

/// What the items of an array of the `serde_json` crate are.
pub open spec fn value_items(s: Seq<serde_json::Value>) -> Seq<JsonView> {
    Seq::new(s.len(), |i: int| content(s[i]))
}

/// One level of a value of the `serde_json` crate.
pub enum Opened {
    Null,
    Bool(bool),
    Number(Option<i64>, Option<u64>, serde_json::Number),
    Str(String),
    Array(Vec<serde_json::Value>),
    Object(Vec<(String, serde_json::Value)>),
}

/// What a number is that fits these integers, or none.
pub open spec fn number_content(
    signed: Option<i64>,
    unsigned: Option<u64>,
    n: serde_json::Number,
) -> JsonView {
    match signed {
        Some(i) => JsonView::Int(i),
        None => match unsigned {
            Some(u) => JsonView::Big(u),
            None => JsonView::Decimal(n),
        },
    }
}

impl Opened {
    /// What the value is that was opened.
    pub open spec fn whole(self) -> JsonView {
        match self {
            Opened::Null => JsonView::Null,
            Opened::Bool(b) => JsonView::Bool(b),
            Opened::Number(signed, unsigned, n) => number_content(signed, unsigned, n),
            Opened::Str(s) => JsonView::Str(s@),
            Opened::Array(v) => JsonView::Array(value_items(v@)),
            Opened::Object(v) => JsonView::Object(value_members(v@)),
        }
    }
}

/// Parses a text by `serde_json::from_str`. What comes out, a value or the words
/// of the error, depends on the text and on nothing else.
#[verifier::external_body]
fn parse_value(text: &str) -> (r: core::result::Result<serde_json::Value, String>)
    ensures
        match r {
            Ok(v) => json_of_text(text@) == Ok::<JsonView, Seq<char>>(content(v)),
            Err(e) => json_of_text(text@) == Err::<JsonView, Seq<char>>(e@),
        },
{
    serde_json::from_str::<serde_json::Value>(text).map_err(|e| e.to_string())
}

/// Parses bytes by `serde_json::from_slice`. What comes out, a value or the
/// words of the error, depends on the bytes and on nothing else.
#[verifier::external_body]
pub(crate) fn parse_slice(bytes: &[u8]) -> (r: core::result::Result<serde_json::Value, String>)
    ensures
        match r {
            Ok(v) => json_of_bytes(bytes@) == Ok::<JsonView, Seq<char>>(content(v)),
            Err(e) => json_of_bytes(bytes@) == Err::<JsonView, Seq<char>>(e@),
        },
{
    serde_json::from_slice::<serde_json::Value>(bytes).map_err(|e| e.to_string())
}

/// `serde_json::Value::is_array` tells whether a value is an array.
#[verifier::external_body]
pub(crate) fn is_array(v: &serde_json::Value) -> (r: bool)
    ensures
        r == (content(*v) is Array),
{
    v.is_array()
}

/// Takes a `serde_json::Value` apart by its variants; a number also by
/// `serde_json::Number::as_i64` and `as_u64`. What was taken apart is the value,
/// and no two members of an object have one name.
#[verifier::external_body]
pub(crate) fn open_value(v: serde_json::Value) -> (r: Opened)
    ensures
        r.whole() == content(v),
        r matches Opened::Object(members) ==> distinct_names(members@),
{
    match v {
        serde_json::Value::Null => Opened::Null,
        serde_json::Value::Bool(b) => Opened::Bool(b),
        serde_json::Value::Number(n) => Opened::Number(n.as_i64(), n.as_u64(), n),
        serde_json::Value::String(s) => Opened::Str(s),
        serde_json::Value::Array(a) => Opened::Array(a),
        serde_json::Value::Object(o) => Opened::Object(o.into_iter().collect()),
    }
}

/// `serde_json::Value::Null` is null.
#[verifier::external_body]
pub(crate) fn null_value() -> (r: serde_json::Value)
    ensures
        content(r) == JsonView::Null,
{
    serde_json::Value::Null
}

/// `serde_json::Value::Bool` holds the truth value.
#[verifier::external_body]
pub(crate) fn bool_value(b: bool) -> (r: serde_json::Value)
    ensures
        content(r) == JsonView::Bool(b),
{
    serde_json::Value::Bool(b)
}

/// `serde_json::Value::from` of a signed integer is that integer.
#[verifier::external_body]
pub(crate) fn int_value(n: i64) -> (r: serde_json::Value)
    ensures
        content(r) == JsonView::Int(n),
{
    serde_json::Value::from(n)
}

/// `serde_json::Value::from` of an unsigned integer is that integer; one that
/// fits the signed integers is a signed integer.
#[verifier::external_body]
pub(crate) fn number_value(n: u64) -> (r: serde_json::Value)
    ensures
        content(r) == number_view(n),
{
    serde_json::Value::from(n)
}

/// `serde_json::Value::String` holds the string.
#[verifier::external_body]
pub(crate) fn str_value(s: &str) -> (r: serde_json::Value)
    ensures
        content(r) == JsonView::Str(s@),
{
    serde_json::Value::String(s.to_owned())
}

/// `serde_json::Value::Array` holds the values in their order.
#[verifier::external_body]
pub(crate) fn array_value(items: Vec<serde_json::Value>) -> (r: serde_json::Value)
    ensures
        content(r) == JsonView::Array(value_items(items@)),
{
    serde_json::Value::Array(items)
}

/// `serde_json::Value::Object` holds the members, each with its own name.
#[verifier::external_body]
pub(crate) fn object_value(members: Vec<(String, serde_json::Value)>) -> (r: serde_json::Value)
    requires
        distinct_names(members@),
    ensures
        content(r) == JsonView::Object(value_members(members@)),
{
    serde_json::Value::Object(members.into_iter().collect())
}

/// A name that no member has is not among those of an object.
proof fn lemma_absent(s: Seq<(String, serde_json::Value)>, name: Seq<char>)
    requires
        forall|i: int| 0 <= i < s.len() ==> (#[trigger] s[i]).0@ != name,
    ensures
        !value_members(s).contains_key(name),
    decreases s.len(),
{
    if s.len() > 0 {
        let d = s.drop_last();
        assert forall|i: int| 0 <= i < d.len() implies (#[trigger] d[i]).0@ != name by {
            assert(s[i].0@ != name);
        }
        lemma_absent(d, name);
        assert(s[s.len() - 1].0@ != name);
    }
}

/// What is left of an object without one of its members.
proof fn lemma_without(s: Seq<(String, serde_json::Value)>, i: int)
    requires
        0 <= i < s.len(),
        distinct_names(s),
    ensures
        value_members(s.remove(i)) == value_members(s).remove(s[i].0@),
    decreases s.len(),
{
    let d = s.drop_last();
    let last = s.last();
    if i == s.len() - 1 {
        assert(s.remove(i) =~= d);
        assert forall|j: int| 0 <= j < d.len() implies (#[trigger] d[j]).0@ != last.0@ by {
            assert(s[j].0@ != s[s.len() - 1].0@);
        }
        lemma_absent(d, last.0@);
        assert(value_members(d) =~= value_members(s).remove(last.0@));
    } else {
        assert forall|a: int, b: int| 0 <= a < b < d.len() implies (#[trigger] d[a]).0@ != (
        #[trigger] d[b]).0@ by {
            assert(s[a].0@ != s[b].0@);
        }
        lemma_without(d, i);
        assert(s.remove(i).drop_last() =~= d.remove(i));
        assert(s.remove(i).last() == last);
        assert(s[i].0@ != s[s.len() - 1].0@);
        assert(value_members(s.remove(i)) =~= value_members(s).remove(s[i].0@));
    }
}

/// Adds a member to those of an object, in place of one with its name.
pub(crate) fn push_member(
    members: &mut Vec<(String, serde_json::Value)>,
    name: &str,
    v: serde_json::Value,
)
    requires
        distinct_names(old(members)@),
    ensures
        distinct_names(final(members)@),
        value_members(final(members)@) == value_members(old(members)@).insert(name@, content(v)),
{
    let mut i: usize = 0;
    while i < members.len() && !str_eq(members[i].0.as_str(), name)
        invariant
            i <= members.len(),
            members@ == old(members)@,
            forall|j: int| 0 <= j < i ==> (#[trigger] members@[j]).0@ != name@,
        decreases members.len() - i,
    {
        i = i + 1;
    }
    let ghost all = members@;
    if i < members.len() {
        proof {
            lemma_without(all, i as int);
        }
        members.remove(i);
    }
    let ghost before = members@;
    assert forall|j: int| 0 <= j < before.len() implies (#[trigger] before[j]).0@ != name@ by {
        if i < all.len() {
            if j < i {
                assert(before[j] == all[j]);
            } else {
                assert(before[j] == all[j + 1]);
                assert(all[i as int].0@ != all[j + 1].0@);
            }
        }
    }
    members.push((name.to_owned(), v));
    proof {
        let after = members@;
        assert(after.drop_last() =~= before);
        assert forall|a: int, b: int| 0 <= a < b < after.len() implies (#[trigger] after[a]).0@ != (
        #[trigger] after[b]).0@ by {
            assert(after[a] == before[a]);
            if b < before.len() {
                let x = if i < all.len() && a >= i {
                    a + 1
                } else {
                    a
                };
                let y = if i < all.len() && b >= i {
                    b + 1
                } else {
                    b
                };
                assert(after[b] == before[b]);
                assert(all[x].0@ != all[y].0@);
            }
        }
        assert(value_members(after) =~= value_members(all).insert(name@, content(v)));
    }
}

/// Writes a value as compact text by `serde_json::Value::to_string`. The text
/// depends on what the value is and on nothing else: without its feature
/// `preserve_order` the crate writes members in the order of their names.
#[verifier::external_body]
pub(crate) fn value_text(v: &serde_json::Value) -> (r: String)
    ensures
        r@ == json_text(content(*v)),
{
    v.to_string()
}

/// Writes a value over several lines by `serde_json::to_string_pretty`, which
/// does not fail on a value. The text depends on what the value is and on
/// nothing else, as that of `value_text` does.
#[verifier::external_body]
pub(crate) fn value_pretty(v: &serde_json::Value) -> (r: String)
    ensures
        r@ == json_pretty_text(content(*v)),
{
    serde_json::to_string_pretty(v).unwrap_or_default()
}

/// The value that a value of the `serde_json` crate is.
pub(crate) fn json_of_value(v: serde_json::Value) -> (r: Json)
    ensures
        r@ == content(v),
    decreases content(v),
{
    match open_value(v) {
        Opened::Null => Json::Null,
        Opened::Bool(b) => Json::Bool(b),
        Opened::Number(signed, unsigned, n) => match signed {
            Some(i) => Json::Int(i),
            None => match unsigned {
                Some(u) => Json::Big(u),
                None => Json::Decimal(n),
            },
        },
        Opened::Str(s) => Json::Str(s),
        Opened::Array(items) => {
            let ghost all = items@;
            let mut left: Vec<serde_json::Value> = items;
            let mut out: Vec<Json> = Vec::new();
            assert(items_view(out@) =~= Seq::empty());
            while left.len() > 0
                invariant
                    all.len() == out@.len() + left@.len(),
                    left@ == all.skip(out@.len() as int),
                    items_view(out@) == value_items(all.take(out@.len() as int)),
                    content(v) == JsonView::Array(value_items(all)),
                decreases left@.len(),
            {
                let ghost before = out@;
                let ghost k = out@.len() as int;
                let item: serde_json::Value = left.remove(0);
                assert(item == all[k]);
                assert(left@ =~= all.skip(k + 1));
                assert(value_items(all)[k] == content(item));
                assert(decreases_to!(content(v)->Array_0 => content(v)->Array_0[k]));
                assert(decreases_to!(content(v) => content(v)->Array_0));
                out.push(json_of_value(item));
                assert(out@.drop_last() =~= before);
                assert(value_items(all.take(k + 1)) =~= value_items(all.take(k)).push(
                    content(item),
                ));
            }
            assert(all.take(all.len() as int) =~= all);
            Json::Array(out)
        },
        Opened::Object(members) => {
            let ghost all = members@;
            let mut left: Vec<(String, serde_json::Value)> = members;
            let mut out: Vec<(String, Json)> = Vec::new();
            assert(all.take(0) =~= Seq::empty());
            assert(members_view(out@) =~= value_members(all.take(0)));
            while left.len() > 0
                invariant
                    all.len() == out@.len() + left@.len(),
                    left@ == all.skip(out@.len() as int),
                    members_view(out@) == value_members(all.take(out@.len() as int)),
                    content(v) == JsonView::Object(value_members(all)),
                    distinct_names(all),
                decreases left@.len(),
            {
                let ghost before = out@;
                let ghost k = out@.len() as int;
                let member: (String, serde_json::Value) = left.remove(0);
                assert(member == all[k]);
                assert(left@ =~= all.skip(k + 1));
                proof {
                    lemma_value_members(all);
                    let name = all[k].0@;
                    assert(decreases_to!(content(v)->Object_0 => content(v)->Object_0[name]));
                    assert(decreases_to!(content(v) => content(v)->Object_0));
                }
                let item: Json = json_of_value(member.1);
                out.push((member.0, item));
                assert(out@.drop_last() =~= before);
                assert(all.take(k + 1).drop_last() =~= all.take(k));
            }
            assert(all.take(all.len() as int) =~= all);
            Json::Object(out)
        },
    }
}

/// The JSON value that a text is.
pub fn parse_json(text: &str) -> (r: core::result::Result<Json, String>)
    ensures
        match r {
            Ok(j) => json_of_text(text@) == Ok::<JsonView, Seq<char>>(j@),
            Err(e) => json_of_text(text@) == Err::<JsonView, Seq<char>>(e@),
        },
{
    match parse_value(text) {
        Ok(v) => Ok(json_of_value(v)),
        Err(e) => Err(e),
    }
}

} // verus!
