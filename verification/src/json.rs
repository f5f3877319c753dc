//! JSON values.

use vstd::prelude::*;

use crate::text::same;

verus! {

/// A JSON value. The keys of an object are distinct.
#[derive(Debug)]
pub enum Json {
    Null,
    Bool(bool),
    /// A number without a fractional part.
    Int(i64),
    /// A number without a fractional part that is too large for `Int`.
    Big(u64),
    /// A number with a fractional part, in millionths.
    Micros(i128),
    Str(String),
    Array(Vec<Json>),
    Object(Vec<(String, Json)>),
}

/// What a JSON value stands for.
pub enum JsonView {
    Null,
    Bool(bool),
    Int(i64),
    Big(u64),
    Micros(i128),
    Str(Seq<char>),
    Array(Seq<JsonView>),
    Object(Seq<(Seq<char>, JsonView)>),
}

pub open spec fn json_view(j: Json) -> JsonView
    decreases j,
{
    match j {
        Json::Null => JsonView::Null,
        Json::Bool(b) => JsonView::Bool(b),
        Json::Int(n) => JsonView::Int(n),
        Json::Big(n) => JsonView::Big(n),
        Json::Micros(n) => JsonView::Micros(n),
        Json::Str(s) => JsonView::Str(s@),
        Json::Array(v) => JsonView::Array(
            Seq::new(
                v@.len(),
                |i: int|
                    if 0 <= i < v@.len() {
                        json_view(v@[i])
                    } else {
                        JsonView::Null
                    },
            ),
        ),
        Json::Object(v) => JsonView::Object(
            Seq::new(
                v@.len(),
                |i: int|
                    if 0 <= i < v@.len() {
                        (v@[i].0@, json_view(v@[i].1))
                    } else {
                        (seq![], JsonView::Null)
                    },
            ),
        ),
    }
}

impl View for Json {
    type V = JsonView;

    open spec fn view(&self) -> JsonView {
        json_view(*self)
    }
}

/// A number that is not negative: `Big` where it is too large for `Int`.
pub open spec fn number(n: u64) -> JsonView {
    if n <= 0x7fff_ffff_ffff_ffff {
        JsonView::Int(n as i64)
    } else {
        JsonView::Big(n)
    }
}

pub fn number_value(n: u64) -> (r: Json)
    ensures
        r@ == number(n),
{
    if n <= 0x7fff_ffff_ffff_ffff {
        Json::Int(n as i64)
    } else {
        Json::Big(n)
    }
}

/// The value of the first member named `key`.
pub open spec fn member(ms: Seq<(Seq<char>, JsonView)>, key: Seq<char>) -> Option<JsonView>
    decreases ms.len(),
{
    if ms.len() == 0 {
        None
    } else if ms[0].0 == key {
        Some(ms[0].1)
    } else {
        member(ms.skip(1), key)
    }
}

/// The member of a key that no earlier member has.
pub proof fn lemma_member_at(ms: Seq<(Seq<char>, JsonView)>, i: int)
    requires
        0 <= i < ms.len(),
        forall|j: int| 0 <= j < i ==> (#[trigger] ms[j]).0 != ms[i].0,
    ensures
        member(ms, ms[i].0) == Some(ms[i].1),
    decreases ms.len(),
{
    if i > 0 {
        assert(ms[0].0 != ms[i].0);
        let rest = ms.skip(1);
        assert forall|j: int| 0 <= j < i - 1 implies (#[trigger] rest[j]).0 != rest[i - 1].0 by {
            assert(rest[j] == ms[j + 1]);
        }
        lemma_member_at(rest, i - 1);
    }
}

/// A key that no member has.
pub proof fn lemma_member_absent(ms: Seq<(Seq<char>, JsonView)>, key: Seq<char>)
    requires
        forall|j: int| 0 <= j < ms.len() ==> (#[trigger] ms[j]).0 != key,
    ensures
        member(ms, key) is None,
    decreases ms.len(),
{
    if ms.len() > 0 {
        let rest = ms.skip(1);
        assert forall|j: int| 0 <= j < rest.len() implies (#[trigger] rest[j]).0 != key by {
            assert(rest[j] == ms[j + 1]);
        }
        lemma_member_absent(rest, key);
    }
}

impl JsonView {
    /// The member `key` of an object.
    pub open spec fn field(self, key: Seq<char>) -> Option<JsonView> {
        match self {
            JsonView::Object(ms) => member(ms, key),
            _ => None,
        }
    }

    /// The member `b` of the member `a`.
    pub open spec fn field2(self, a: Seq<char>, b: Seq<char>) -> Option<JsonView> {
        match self.field(a) {
            Some(v) => v.field(b),
            None => None,
        }
    }

    pub open spec fn str(self) -> Option<Seq<char>> {
        match self {
            JsonView::Str(s) => Some(s),
            _ => None,
        }
    }

    pub open spec fn str_field(self, key: Seq<char>) -> Option<Seq<char>> {
        match self.field(key) {
            Some(v) => v.str(),
            None => None,
        }
    }

    pub open spec fn str_field2(self, a: Seq<char>, b: Seq<char>) -> Option<Seq<char>> {
        match self.field2(a, b) {
            Some(v) => v.str(),
            None => None,
        }
    }

    pub open spec fn bool_field(self, key: Seq<char>) -> Option<bool> {
        match self.field(key) {
            Some(JsonView::Bool(b)) => Some(b),
            _ => None,
        }
    }

    /// A whole number that is not negative.
    pub open spec fn whole(self) -> Option<u64> {
        match self {
            JsonView::Int(n) => if n >= 0 {
                Some(n as u64)
            } else {
                None
            },
            JsonView::Big(n) => Some(n),
            _ => None,
        }
    }

    /// The elements of a list.
    pub open spec fn elements(self) -> Option<Seq<JsonView>> {
        match self {
            JsonView::Array(v) => Some(v),
            _ => None,
        }
    }

    /// A number in millionths.
    pub open spec fn micros(self) -> Option<int> {
        match self {
            JsonView::Int(n) => Some(n * 1_000_000),
            JsonView::Big(n) => Some(n * 1_000_000),
            JsonView::Micros(n) => Some(n as int),
            _ => None,
        }
    }
}

/// `o` for a missing string.
pub open spec fn or_empty(o: Option<Seq<char>>) -> Seq<char> {
    match o {
        Some(s) => s,
        None => seq![],
    }
}

impl Json {
    pub fn get(&self, key: &str) -> (r: Option<&Json>)
        ensures
            match r {
                Some(j) => self@.field(key@) == Some(j@),
                None => self@.field(key@) is None,
            },
    {
        match self {
            Json::Object(v) => {
                let ghost ms = self@->Object_0;
                assert(ms.skip(0) =~= ms);
                for i in 0..v.len()
                    invariant
                        *self == Json::Object(*v),
                        self@ == JsonView::Object(ms),
                        ms.len() == v@.len(),
                        member(ms.skip(i as int), key@) == member(ms, key@),
                {
                    assert(ms[i as int] == (v@[i as int].0@, v@[i as int].1@));
                    assert(ms.skip(i as int)[0] == ms[i as int]);
                    if same(v[i].0.as_str(), key) {
                        return Some(&v[i].1);
                    }
                    assert(ms.skip(i as int).skip(1) =~= ms.skip(i + 1));
                }
                None
            },
            _ => None,
        }
    }

    pub fn as_str(&self) -> (r: Option<&str>)
        ensures
            r.deep_view() == self@.str(),
    {
        match self {
            Json::Str(s) => Some(s.as_str()),
            _ => None,
        }
    }

    pub fn as_i64(&self) -> (r: Option<i64>)
        ensures
            r == match self@ {
                JsonView::Int(n) => Some(n),
                _ => None,
            },
    {
        match self {
            Json::Int(n) => Some(*n),
            _ => None,
        }
    }

    /// A whole number that is not negative.
    pub fn as_u64(&self) -> (r: Option<u64>)
        ensures
            r == self@.whole(),
    {
        match self {
            Json::Int(n) => if *n >= 0 {
                Some(*n as u64)
            } else {
                None
            },
            Json::Big(n) => Some(*n),
            _ => None,
        }
    }

    /// The elements of a list.
    pub fn as_array(&self) -> (r: Option<&Vec<Json>>)
        ensures
            match r {
                Some(v) => self@.elements() matches Some(e) && e.len() == v@.len() && forall|i: int|
                    0 <= i < v@.len() ==> (#[trigger] v@[i])@ == e[i],
                None => self@.elements() is None,
            },
    {
        match self {
            Json::Array(v) => Some(v),
            _ => None,
        }
    }

    /// The member `key`, taken out of its object.
    pub fn into_field(self, key: &str) -> (r: Option<Json>)
        ensures
            match r {
                Some(j) => self@.field(key@) == Some(j@),
                None => self@.field(key@) is None,
            },
    {
        let ghost whole = self@;
        match self {
            Json::Object(v) => {
                let mut v = v;
                let ghost ms = whole->Object_0;
                assert(ms.skip(0) =~= ms);
                let n: usize = v.len();
                for i in 0..n
                    invariant
                        n == v@.len(),
                        self@ == whole,
                        whole == JsonView::Object(ms),
                        ms.len() == v@.len(),
                        forall|k: int|
                            0 <= k < v@.len() ==> ms[k] == (
                                (#[trigger] v@[k]).0@,
                                json_view(v@[k].1),
                            ),
                        member(ms.skip(i as int), key@) == member(ms, key@),
                {
                    assert(ms[i as int] == (v@[i as int].0@, v@[i as int].1@));
                    assert(ms.skip(i as int)[0] == ms[i as int]);
                    if same(v[i].0.as_str(), key) {
                        let (_, value) = v.remove(i);
                        return Some(value);
                    }
                    assert(ms.skip(i as int).skip(1) =~= ms.skip(i + 1));
                }
                None
            },
            _ => None,
        }
    }

    /// The member `key`, where it is a string.
    pub fn str_at(&self, key: &str) -> (r: Option<String>)
        ensures
            r.deep_view() == self@.str_field(key@),
    {
        match self.get(key) {
            Some(j) => match j.as_str() {
                Some(s) => Some(s.to_owned()),
                None => None,
            },
            None => None,
        }
    }

    /// The member `b` of the member `a`, where it is a string.
    pub fn str_at2(&self, a: &str, b: &str) -> (r: Option<String>)
        ensures
            r.deep_view() == self@.str_field2(a@, b@),
    {
        match self.get(a) {
            Some(j) => j.str_at(b),
            None => None,
        }
    }

    /// The member `key`, where it is a Boolean.
    pub fn bool_at(&self, key: &str) -> (r: Option<bool>)
        ensures
            r == self@.bool_field(key@),
    {
        match self.get(key) {
            Some(j) => match j {
                Json::Bool(b) => Some(*b),
                _ => None,
            },
            None => None,
        }
    }

    /// A number in millionths.
    pub fn as_micros(&self) -> (r: Option<i128>)
        ensures
            r is Some == (self@.micros() is Some),
            r matches Some(v) ==> self@.micros() == Some(v as int),
    {
        match self {
            Json::Int(n) => Some((*n as i128) * 1_000_000),
            Json::Big(n) => Some((*n as i128) * 1_000_000),
            Json::Micros(n) => Some(*n),
            _ => None,
        }
    }
}

fn copy_items(v: &Vec<Json>, n: usize) -> (r: Vec<Json>)
    requires
        n <= v@.len(),
    ensures
        r@.len() == n,
        forall|k: int| 0 <= k < n ==> (#[trigger] r@[k])@ == v@[k]@,
    decreases v, n,
{
    if n == 0 {
        return Vec::new();
    }
    let mut r = copy_items(v, n - 1);
    assert(decreases_to!(v => v@));
    assert(decreases_to!(v@ => v@[n - 1]));
    r.push(v[n - 1].copy());
    r
}

fn copy_members(v: &Vec<(String, Json)>, n: usize) -> (r: Vec<(String, Json)>)
    requires
        n <= v@.len(),
    ensures
        r@.len() == n,
        forall|k: int|
            0 <= k < n ==> (#[trigger] r@[k]).0@ == v@[k].0@ && r@[k].1@ == v@[k].1@,
    decreases v, n,
{
    if n == 0 {
        return Vec::new();
    }
    let mut r = copy_members(v, n - 1);
    assert(decreases_to!(v => v@));
    assert(decreases_to!(v@ => v@[n - 1]));
    assert(decreases_to!(v@[n - 1] => v@[n - 1].1));
    let value = v[n - 1].1.copy();
    r.push((v[n - 1].0.clone(), value));
    r
}

impl Json {
    /// A copy.
    pub fn copy(&self) -> (r: Json)
        ensures
            r@ == self@,
        decreases *self, 0nat,
    {
        match self {
            Json::Null => Json::Null,
            Json::Bool(b) => Json::Bool(*b),
            Json::Int(n) => Json::Int(*n),
            Json::Big(n) => Json::Big(*n),
            Json::Micros(n) => Json::Micros(*n),
            Json::Str(s) => Json::Str(s.clone()),
            Json::Array(v) => {
                let r = Json::Array(copy_items(v, v.len()));
                assert(r@->Array_0 =~= self@->Array_0);
                r
            },
            Json::Object(v) => {
                let r = Json::Object(copy_members(v, v.len()));
                assert(r@->Object_0 =~= self@->Object_0);
                r
            },
        }
    }
}

/// An object under construction.
pub struct Members {
    list: Vec<(String, Json)>,
}

impl View for Members {
    type V = Seq<(Seq<char>, JsonView)>;

    closed spec fn view(&self) -> Seq<(Seq<char>, JsonView)> {
        Seq::new(self.list@.len(), |i: int| (self.list@[i].0@, self.list@[i].1@))
    }
}

impl Members {
    pub fn new() -> (r: Members)
        ensures
            r@ == Seq::<(Seq<char>, JsonView)>::empty(),
    {
        let r = Members { list: Vec::new() };
        assert(r@ =~= seq![]);
        r
    }

    /// Append a member.
    pub fn with(self, key: &str, value: Json) -> (r: Members)
        ensures
            r@ == self@.push((key@, value@)),
    {
        let mut list = self.list;
        list.push((key.to_owned(), value));
        let r = Members { list };
        assert(r@ =~= self@.push((key@, value@)));
        r
    }

    pub fn object(self) -> (r: Json)
        ensures
            r@ == JsonView::Object(self@),
    {
        let r = Json::Object(self.list);
        assert(r@->Object_0 =~= self@);
        r
    }
}

/// A string value.
pub fn text_value(s: &str) -> (r: Json)
    ensures
        r@ == JsonView::Str(s@),
{
    Json::Str(s.to_owned())
}

/// A list of strings.
pub fn text_list(v: &Vec<String>) -> (r: Json)
    ensures
        r@ == JsonView::Array(v.deep_view().map_values(|s: Seq<char>| JsonView::Str(s))),
{
    let mut out: Vec<Json> = Vec::new();
    for i in 0..v.len()
        invariant
            out@.len() == i,
            forall|k: int| 0 <= k < i ==> (#[trigger] out@[k])@ == JsonView::Str(v@[k]@),
    {
        out.push(text_value(v[i].as_str()));
    }
    let r = Json::Array(out);
    assert(r@->Array_0 =~= v.deep_view().map_values(|s: Seq<char>| JsonView::Str(s)));
    r
}

/// A key that no member has stands for nothing.
pub proof fn other_keys_have_no_member(ms: Seq<(Seq<char>, JsonView)>, key: Seq<char>)
    requires
        forall|j: int| 0 <= j < ms.len() ==> (#[trigger] ms[j]).0 != key,
    ensures
        JsonView::Object(ms).field(key) is None,
        JsonView::Object(ms).str_field(key) is None,
        JsonView::Object(ms).bool_field(key) is None,
{
    lemma_member_absent(ms, key);
}

/// A member is read back under its key, as text where it is text.
pub proof fn members_are_read_back(ms: Seq<(Seq<char>, JsonView)>, i: int)
    requires
        0 <= i < ms.len(),
        forall|j: int| 0 <= j < i ==> (#[trigger] ms[j]).0 != ms[i].0,
    ensures
        JsonView::Object(ms).field(ms[i].0) == Some(ms[i].1),
        ms[i].1 matches JsonView::Str(s) ==> JsonView::Object(ms).str_field(ms[i].0) == Some(s),
        ms[i].1 matches JsonView::Bool(b) ==> JsonView::Object(ms).bool_field(ms[i].0) == Some(b),
        !(ms[i].1 is Str) ==> JsonView::Object(ms).str_field(ms[i].0) is None,
        !(ms[i].1 is Bool) ==> JsonView::Object(ms).bool_field(ms[i].0) is None,
{
    lemma_member_at(ms, i);
}

/// A number that is written is the number that is read, in whole and in
/// millionths.
pub proof fn numbers_are_read_back(n: u64)
    ensures
        number(n).whole() == Some(n),
        number(n).micros() == Some(n * 1_000_000),
{
}

} // verus!
