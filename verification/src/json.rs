//! JSON documents as plain values.

use crate::text::same_text;
use vstd::prelude::*;

verus! {

/// A JSON document.  Numbers are split by what they can be read as.
#[derive(Debug)]
pub enum Json {
    Null,
    Bool(bool),
    /// An integer that fits a `u64`.
    Uint(u64),
    /// A negative integer that fits an `i64`.
    Int(i64),
    /// Any other number, by its literal.
    Real(String),
    Str(String),
    Array(Vec<Json>),
    Object(Vec<(String, Json)>),
}

/// The value of the first member named `key`.
pub open spec fn member(m: Seq<(String, Json)>, key: Seq<char>) -> Option<Json>
    decreases m.len(),
{
    if m.len() == 0 {
        None
    } else if m[0].0@ == key {
        Some(m[0].1)
    } else {
        member(m.skip(1), key)
    }
}

proof fn lemma_member_at(m: Seq<(String, Json)>, key: Seq<char>, i: int)
    requires
        0 <= i < m.len(),
        m[i].0@ == key,
        forall|j: int| 0 <= j < i ==> (#[trigger] m[j]).0@ != key,
    ensures
        member(m, key) == Some(m[i].1),
    decreases m.len(),
{
    if i > 0 {
        assert(m[0].0@ != key);
        assert forall|j: int| 0 <= j < i - 1 implies (#[trigger] m.skip(1)[j]).0@ != key by {
            assert(m.skip(1)[j] == m[j + 1]);
        }
        lemma_member_at(m.skip(1), key, i - 1);
    }
}

proof fn lemma_member_same(a: Seq<(String, Json)>, b: Seq<(String, Json)>, key: Seq<char>)
    requires
        a.len() == b.len(),
        forall|j: int| 0 <= j < a.len() ==> (#[trigger] a[j]).0@ == b[j].0@,
        forall|j: int| 0 <= j < a.len() && (#[trigger] a[j]).0@ == key ==> a[j].1 == b[j].1,
    ensures
        member(a, key) == member(b, key),
    decreases a.len(),
{
    if a.len() > 0 {
        assert(a[0].0@ == b[0].0@);
        assert forall|j: int| 0 <= j < a.skip(1).len() implies (#[trigger] a.skip(1)[j]).0@
            == b.skip(1)[j].0@ by {
            assert(a.skip(1)[j] == a[j + 1]);
        }
        assert forall|j: int|
            0 <= j < a.skip(1).len() && (#[trigger] a.skip(1)[j]).0@ == key implies a.skip(1)[j].1
            == b.skip(1)[j].1 by {
            assert(a.skip(1)[j] == a[j + 1]);
        }
        lemma_member_same(a.skip(1), b.skip(1), key);
    }
}

proof fn lemma_member_push(m: Seq<(String, Json)>, e: (String, Json), key: Seq<char>)
    ensures
        member(m.push(e), key) == match member(m, key) {
            Some(v) => Some(v),
            None => if e.0@ == key {
                Some(e.1)
            } else {
                None
            },
        },
    decreases m.len(),
{
    if m.len() > 0 {
        assert(m.push(e).skip(1) =~= m.skip(1).push(e));
        lemma_member_push(m.skip(1), e, key);
    } else {
        assert(m.push(e).skip(1) =~= m);
    }
}

/// The position of the first member named `key`.
fn position(m: &Vec<(String, Json)>, key: &str) -> (r: Option<usize>)
    ensures
        match r {
            Some(i) => i < m@.len() && m@[i as int].0@ == key@ && member(m@, key@) == Some(
                m@[i as int].1,
            ) && forall|j: int| 0 <= j < i ==> (#[trigger] m@[j]).0@ != key@,
            None => member(m@, key@) is None,
        },
{
    let mut i: usize = 0;
    proof {
        assert(m@.skip(0) =~= m@);
    }
    while i < m.len()
        invariant
            i <= m@.len(),
            member(m@, key@) == member(m@.skip(i as int), key@),
            forall|j: int| 0 <= j < i ==> (#[trigger] m@[j]).0@ != key@,
        decreases m@.len() - i,
    {
        if same_text(m[i].0.as_str(), key) {
            return Some(i);
        }
        proof {
            assert(m@.skip(i as int).skip(1) =~= m@.skip(i + 1));
        }
        i = i + 1;
    }
    None
}

impl Json {
    /// `new` is `old` with `key` set to `value`.
    pub open spec fn is_with(new: Json, old: Json, key: Seq<char>, value: Json) -> bool {
        &&& new is Object
        &&& new.field(key) == Some(value)
        &&& forall|k: Seq<char>| k != key ==> #[trigger] new.field(k) == old.field(k)
    }

    /// An object with its member `key` set to `value`.
    pub fn with_member(self, key: &str, value: Json) -> (r: Json)
        requires
            self is Object,
        ensures
            Json::is_with(r, self, key@, value),
    {
        match self {
            Json::Object(mut m) => {
                let ghost old_m = m@;
                let name = key.to_owned();
                match position(&m, key) {
                    Some(i) => {
                        m.set(i, (name, value));
                        proof {
                            lemma_member_at(m@, key@, i as int);
                            assert forall|k: Seq<char>| k != key@ implies #[trigger] member(m@, k)
                                == member(old_m, k) by {
                                lemma_member_same(m@, old_m, k);
                            }
                        }
                    },
                    None => {
                        let ghost e = (name, value);
                        m.push((name, value));
                        proof {
                            assert forall|k: Seq<char>| #[trigger] member(m@, k) == member(
                                old_m.push(e),
                                k,
                            ) by {}
                            lemma_member_push(old_m, e, key@);
                            assert forall|k: Seq<char>| k != key@ implies #[trigger] member(m@, k)
                                == member(old_m, k) by {
                                lemma_member_push(old_m, e, k);
                            }
                        }
                    },
                }
                Json::Object(m)
            },
            v => v,
        }
    }

    /// Take the array at member `key` out of an object, leaving null in
    /// its place.
    pub fn take_items(self, key: &str) -> (r: (Json, Vec<Json>))
        requires
            self.at(key@) is Array,
        ensures
            Json::is_with(r.0, self, key@, Json::Null),
            self.at(key@).elements() == r.1@,
    {
        match self {
            Json::Object(mut m) => {
                let ghost old_m = m@;
                match position(&m, key) {
                    Some(i) => {
                        let (name, value) = m.remove(i);
                        m.insert(i, (name, Json::Null));
                        proof {
                            assert(m@ =~= old_m.update(i as int, (name, Json::Null)));
                            lemma_member_at(m@, key@, i as int);
                            assert forall|k: Seq<char>| k != key@ implies #[trigger] member(m@, k)
                                == member(old_m, k) by {
                                lemma_member_same(m@, old_m, k);
                            }
                        }
                        match value {
                            Json::Array(a) => (Json::Object(m), a),
                            v => (v, Vec::new()),
                        }
                    },
                    None => (Json::Object(m), Vec::new()),
                }
            },
            v => (v, Vec::new()),
        }
    }

    /// The member `key` of an object.
    pub open spec fn field(self, key: Seq<char>) -> Option<Json> {
        match self {
            Json::Object(m) => member(m@, key),
            _ => None,
        }
    }

    /// The member `key`, or `Null` where there is none.
    pub open spec fn at(self, key: Seq<char>) -> Json {
        match self.field(key) {
            Some(v) => v,
            None => Json::Null,
        }
    }

    /// The characters of a string.
    pub open spec fn text(self) -> Option<Seq<char>> {
        match self {
            Json::Str(s) => Some(s@),
            _ => None,
        }
    }

    /// The value of a non-negative integer.
    pub open spec fn uint(self) -> Option<u64> {
        match self {
            Json::Uint(n) => Some(n),
            _ => None,
        }
    }

    /// The value of an integer that fits an `i64`.
    pub open spec fn int64(self) -> Option<int> {
        match self {
            Json::Uint(n) => if n <= i64::MAX {
                Some(n as int)
            } else {
                None
            },
            Json::Int(n) => Some(n as int),
            _ => None,
        }
    }

    /// The elements of an array.
    pub open spec fn items(self) -> Option<Seq<Json>> {
        match self {
            Json::Array(a) => Some(a@),
            _ => None,
        }
    }

    /// The elements of an array; none of anything else.
    pub open spec fn elements(self) -> Seq<Json> {
        match self {
            Json::Array(a) => a@,
            _ => seq![],
        }
    }

    /// The member `key` of an object.
    pub fn get(&self, key: &str) -> (r: Option<&Json>)
        ensures
            match r {
                Some(v) => self.field(key@) == Some(*v),
                None => self.field(key@) is None,
            },
    {
        match self {
            Json::Object(m) => match position(m, key) {
                Some(i) => Some(&m[i].1),
                None => None,
            },
            _ => None,
        }
    }

    /// The string at member `key`.
    pub fn text_at(&self, key: &str) -> (r: Option<&str>)
        ensures
            match r {
                Some(s) => self.at(key@).text() == Some(s@),
                None => self.at(key@).text() is None,
            },
    {
        match self.get(key) {
            Some(Json::Str(s)) => Some(s.as_str()),
            _ => None,
        }
    }

    /// The non-negative integer at member `key`.
    pub fn uint_at(&self, key: &str) -> (r: Option<u64>)
        ensures
            r == self.at(key@).uint(),
    {
        match self.get(key) {
            Some(Json::Uint(n)) => Some(*n),
            _ => None,
        }
    }

    /// The `bool` at member `key`; false for anything else.
    pub fn flag_at(&self, key: &str) -> (r: bool)
        ensures
            r == (self.at(key@) == Json::Bool(true)),
    {
        match self.get(key) {
            Some(Json::Bool(b)) => *b,
            _ => false,
        }
    }

    /// The array at member `key`.
    pub fn items_at(&self, key: &str) -> (r: Option<&Vec<Json>>)
        ensures
            match r {
                Some(a) => self.at(key@).items() == Some(a@),
                None => self.at(key@).items() is None,
            },
    {
        match self.get(key) {
            Some(Json::Array(a)) => Some(a),
            _ => None,
        }
    }

    /// The object at member `key`.
    pub fn object_at(&self, key: &str) -> (r: Option<&Json>)
        ensures
            match r {
                Some(v) => self.at(key@) == *v && *v is Object,
                None => self.at(key@) !is Object,
            },
    {
        match self.get(key) {
            Some(v) => match v {
                Json::Object(_) => Some(v),
                _ => None,
            },
            None => None,
        }
    }

    /// The value as an `i64`.
    pub fn as_i64(&self) -> (r: Option<i64>)
        ensures
            match r {
                Some(n) => self.int64() == Some(n as int),
                None => self.int64() is None,
            },
    {
        match self {
            Json::Uint(n) => if *n <= 9_223_372_036_854_775_807 {
                Some(*n as i64)
            } else {
                None
            },
            Json::Int(n) => Some(*n),
            _ => None,
        }
    }
}

// ---------------------------------------------------------------------
// Documents as values
// ---------------------------------------------------------------------

/// A JSON document with its texts as characters.
pub enum JsonView {
    Null,
    Bool(bool),
    Uint(u64),
    Int(i64),
    Real(Seq<char>),
    Str(Seq<char>),
    Array(Seq<JsonView>),
    Object(Seq<(Seq<char>, JsonView)>),
}

/// The document `v` with its texts as characters.
pub open spec fn model(v: Json) -> JsonView
    decreases v, 0nat,
{
    match v {
        Json::Null => JsonView::Null,
        Json::Bool(b) => JsonView::Bool(b),
        Json::Uint(n) => JsonView::Uint(n),
        Json::Int(n) => JsonView::Int(n),
        Json::Real(s) => JsonView::Real(s@),
        Json::Str(s) => JsonView::Str(s@),
        Json::Array(a) => JsonView::Array(models(a@, a@.len())),
        Json::Object(m) => JsonView::Object(member_models(m@, m@.len())),
    }
}

/// The first `n` documents of `s` with their texts as characters.
pub open spec fn models(s: Seq<Json>, n: nat) -> Seq<JsonView>
    decreases s, n,
{
    if n == 0 || n > s.len() {
        seq![]
    } else {
        models(s, (n - 1) as nat).push(model(s[n - 1]))
    }
}

/// The first `n` members of `s` with their texts as characters.
pub open spec fn member_models(s: Seq<(String, Json)>, n: nat) -> Seq<(Seq<char>, JsonView)>
    decreases s, n,
{
    if n == 0 || n > s.len() {
        seq![]
    } else {
        member_models(s, (n - 1) as nat).push((s[n - 1].0@, model(s[n - 1].1)))
    }
}

impl View for Json {
    type V = JsonView;

    open spec fn view(&self) -> JsonView {
        model(*self)
    }
}

/// A run of documents with their texts as characters.
pub open spec fn list(s: Seq<Json>) -> Seq<JsonView> {
    s.map_values(|v: Json| v@)
}

proof fn lemma_models(s: Seq<Json>, n: nat)
    requires
        n <= s.len(),
    ensures
        models(s, n) == list(s.take(n as int)),
    decreases n,
{
    if n > 0 {
        lemma_models(s, (n - 1) as nat);
        assert(list(s.take(n as int)) =~= list(s.take(n - 1)).push(s[n - 1]@));
    } else {
        assert(list(s.take(0)) =~= seq![]);
    }
}

proof fn lemma_member_models_push(s: Seq<(String, Json)>, e: (String, Json), n: nat)
    requires
        n <= s.len(),
    ensures
        member_models(s.push(e), n) == member_models(s, n),
    decreases n,
{
    if n > 0 {
        lemma_member_models_push(s, e, (n - 1) as nat);
    }
}

/// An array holds the documents it is made of.
pub proof fn law_arrays_hold_their_elements(v: Json)
    ensures
        v matches Json::Array(a) ==> v@ == JsonView::Array(list(a@)),
{
    if let Json::Array(a) = v {
        lemma_models(a@, a@.len());
        assert(a@.take(a@.len() as int) =~= a@);
    }
}

/// The array of `items`.
pub fn array_of(items: Vec<Json>) -> (r: Json)
    ensures
        r@ == JsonView::Array(list(items@)),
{
    let r = Json::Array(items);
    proof {
        law_arrays_hold_their_elements(r);
    }
    r
}

/// A text as a document.
pub fn text_of(s: &str) -> (r: Json)
    ensures
        r@ == JsonView::Str(s@),
{
    Json::Str(s.to_owned())
}

/// The members of an object in the making.
pub struct Fields {
    members: Vec<(String, Json)>,
}

impl View for Fields {
    type V = Seq<(Seq<char>, JsonView)>;

    closed spec fn view(&self) -> Seq<(Seq<char>, JsonView)> {
        member_models(self.members@, self.members@.len())
    }
}

/// An optional number as a document: null where there is none.
pub open spec fn uint_or_null(n: Option<u64>) -> JsonView {
    match n {
        Some(n) => JsonView::Uint(n),
        None => JsonView::Null,
    }
}

/// An optional text as a document: null where there is none.
pub open spec fn text_or_null(s: Option<String>) -> JsonView {
    match s {
        Some(s) => JsonView::Str(s@),
        None => JsonView::Null,
    }
}

/// An optional document: null where there is none.
pub open spec fn value_or_null(v: Option<&Json>) -> JsonView {
    match v {
        Some(v) => v@,
        None => JsonView::Null,
    }
}

impl Fields {
    /// No members.
    pub fn new() -> (r: Self)
        ensures
            r@ == Seq::<(Seq<char>, JsonView)>::empty(),
    {
        Fields { members: Vec::new() }
    }

    /// Add a member.
    pub fn value(&mut self, key: &str, v: Json)
        ensures
            final(self)@ == old(self)@.push((key@, v@)),
    {
        let name = key.to_owned();
        let ghost before = self.members@;
        let ghost e = (name, v);
        self.members.push((name, v));
        proof {
            assert(self.members@ =~= before.push(e));
            lemma_member_models_push(before, e, before.len());
        }
    }

    /// Add a text.
    pub fn text(&mut self, key: &str, s: &str)
        ensures
            final(self)@ == old(self)@.push((key@, JsonView::Str(s@))),
    {
        self.value(key, text_of(s));
    }

    /// Add a number.
    pub fn uint(&mut self, key: &str, n: u64)
        ensures
            final(self)@ == old(self)@.push((key@, JsonView::Uint(n))),
    {
        self.value(key, Json::Uint(n));
    }

    /// Add a count.
    pub fn count(&mut self, key: &str, n: usize)
        ensures
            final(self)@ == old(self)@.push((key@, JsonView::Uint(n as u64))),
    {
        self.value(key, Json::Uint(n as u64));
    }

    /// Add a flag.
    pub fn flag(&mut self, key: &str, b: bool)
        ensures
            final(self)@ == old(self)@.push((key@, JsonView::Bool(b))),
    {
        self.value(key, Json::Bool(b));
    }

    /// Add a number, or null.
    pub fn opt_uint(&mut self, key: &str, n: Option<u64>)
        ensures
            final(self)@ == old(self)@.push((key@, uint_or_null(n))),
    {
        match n {
            Some(n) => self.uint(key, n),
            None => self.value(key, Json::Null),
        }
    }

    /// Add a text, or null.
    pub fn opt_text(&mut self, key: &str, s: &Option<String>)
        ensures
            final(self)@ == old(self)@.push((key@, text_or_null(*s))),
    {
        match s {
            Some(s) => self.text(key, s.as_str()),
            None => self.value(key, Json::Null),
        }
    }

    /// Add a copy of a document, or null.
    pub fn opt_value(&mut self, key: &str, v: Option<&Json>)
        ensures
            final(self)@ == old(self)@.push((key@, value_or_null(v))),
    {
        match v {
            Some(v) => self.value(key, v.copy()),
            None => self.value(key, Json::Null),
        }
    }

    /// The object with these members.
    pub fn done(self) -> (r: Json)
        ensures
            r@ == JsonView::Object(self@),
    {
        Json::Object(self.members)
    }
}

/// Copies of the documents.
pub fn copy_list(a: &Vec<Json>) -> (r: Vec<Json>)
    ensures
        r@.len() == a@.len(),
        list(r@) == list(a@),
        models(r@, r@.len()) == models(a@, a@.len()),
    decreases a@, 0nat,
{
    let mut out: Vec<Json> = Vec::new();
    for i in 0..a.len()
        invariant
            out@.len() == i,
            forall|j: int| 0 <= j < i ==> (#[trigger] out@[j])@ == a@[j]@,
    {
        let v = a[i].copy();
        out.push(v);
    }
    proof {
        lemma_models(out@, out@.len());
        lemma_models(a@, a@.len());
        assert(out@.take(out@.len() as int) =~= out@);
        assert(a@.take(a@.len() as int) =~= a@);
        assert(list(out@) =~= list(a@));
    }
    out
}

proof fn lemma_member_models_same(a: Seq<(String, Json)>, b: Seq<(String, Json)>, n: nat)
    requires
        n <= a.len(),
        n <= b.len(),
        forall|j: int| 0 <= j < n ==> (#[trigger] a[j]).0@ == b[j].0@ && a[j].1@ == b[j].1@,
    ensures
        member_models(a, n) == member_models(b, n),
    decreases n,
{
    if n > 0 {
        lemma_member_models_same(a, b, (n - 1) as nat);
        assert(a[n - 1].0@ == b[n - 1].0@);
    }
}

fn copy_members(m: &Vec<(String, Json)>) -> (r: Vec<(String, Json)>)
    ensures
        r@.len() == m@.len(),
        member_models(r@, r@.len()) == member_models(m@, m@.len()),
    decreases m@, 0nat,
{
    let mut out: Vec<(String, Json)> = Vec::new();
    for i in 0..m.len()
        invariant
            out@.len() == i,
            forall|j: int|
                0 <= j < i ==> (#[trigger] out@[j]).0@ == m@[j].0@ && out@[j].1@ == m@[j].1@,
    {
        let v = m[i].1.copy();
        out.push((m[i].0.clone(), v));
    }
    proof {
        lemma_member_models_same(out@, m@, m@.len());
    }
    out
}

impl Json {
    /// A copy of the document.
    pub fn copy(&self) -> (r: Json)
        ensures
            r@ == self@,
        decreases self, 0nat,
    {
        match self {
            Json::Null => Json::Null,
            Json::Bool(b) => Json::Bool(*b),
            Json::Uint(n) => Json::Uint(*n),
            Json::Int(n) => Json::Int(*n),
            Json::Real(s) => Json::Real(s.clone()),
            Json::Str(s) => Json::Str(s.clone()),
            Json::Array(a) => Json::Array(copy_list(a)),
            Json::Object(m) => Json::Object(copy_members(m)),
        }
    }
}

// ---------------------------------------------------------------------
// Laws
// ---------------------------------------------------------------------

proof fn lemma_member_is_first(m: Seq<(String, Json)>, key: Seq<char>)
    ensures
        match member(m, key) {
            Some(v) => exists|i: int|
                0 <= i < m.len() && (#[trigger] m[i]).0@ == key && m[i].1 == v && forall|j: int|
                    0 <= j < i ==> (#[trigger] m[j]).0@ != key,
            None => forall|i: int| 0 <= i < m.len() ==> (#[trigger] m[i]).0@ != key,
        },
    decreases m.len(),
{
    if m.len() > 0 && m[0].0@ != key {
        let rest = m.skip(1);
        lemma_member_is_first(rest, key);
        match member(rest, key) {
            Some(v) => {
                let i = choose|i: int|
                    0 <= i < rest.len() && (#[trigger] rest[i]).0@ == key && rest[i].1 == v
                        && forall|j: int| 0 <= j < i ==> (#[trigger] rest[j]).0@ != key;
                assert(m[i + 1] == rest[i]);
                assert forall|j: int| 0 <= j < i + 1 implies (#[trigger] m[j]).0@ != key by {
                    if j > 0 {
                        assert(rest[j - 1] == m[j]);
                    }
                }
            },
            None => {
                assert forall|i: int| 0 <= i < m.len() implies (#[trigger] m[i]).0@ != key by {
                    if i > 0 {
                        assert(rest[i - 1] == m[i]);
                    }
                }
            },
        }
    }
}

/// An object's member is the first of its name; anything else has no
/// members, and a member that is not there reads as null.
pub proof fn law_members_are_found_by_name(v: Json, key: Seq<char>)
    ensures
        v matches Json::Object(m) ==> match v.field(key) {
            Some(w) => exists|i: int|
                0 <= i < m@.len() && (#[trigger] m@[i]).0@ == key && m@[i].1 == w && forall|j: int|
                    0 <= j < i ==> (#[trigger] m@[j]).0@ != key,
            None => forall|i: int| 0 <= i < m@.len() ==> (#[trigger] m@[i]).0@ != key,
        },
        !(v is Object) ==> v.field(key) is None,
        v.field(key) matches Some(w) ==> v.at(key) == w,
        v.field(key) is None ==> v.at(key) is Null,
{
    if let Json::Object(m) = v {
        lemma_member_is_first(m@, key);
    }
}

/// A value reads as what it is, and as nothing else.
pub proof fn law_values_read_as_what_they_are(v: Json)
    ensures
        v matches Json::Str(s) ==> v.text() == Some(s@),
        !(v is Str) ==> v.text() is None,
        v matches Json::Uint(n) ==> v.uint() == Some(n),
        !(v is Uint) ==> v.uint() is None,
        v matches Json::Uint(n) ==> v.int64() == if n < 0x8000_0000_0000_0000 {
            Some(n as int)
        } else {
            None
        },
        v matches Json::Int(n) ==> v.int64() == Some(n as int),
        !(v is Uint) && !(v is Int) ==> v.int64() is None,
        v matches Json::Array(a) ==> v.items() == Some(a@) && v.elements() == a@,
        !(v is Array) ==> v.items() is None && v.elements().len() == 0,
{
}

proof fn lemma_member_models(s: Seq<(String, Json)>, n: nat)
    requires
        n <= s.len(),
    ensures
        member_models(s, n).len() == n,
        forall|i: int| 0 <= i < n ==> #[trigger] member_models(s, n)[i] == (s[i].0@, s[i].1@),
    decreases n,
{
    if n > 0 {
        lemma_member_models(s, (n - 1) as nat);
    }
}

/// A document stands for what it is made of: its own value, its elements
/// in their order, its members in theirs.
pub proof fn law_documents_stand_for_themselves(v: Json, i: int)
    ensures
        v is Null ==> v@ == JsonView::Null,
        v matches Json::Bool(b) ==> v@ == JsonView::Bool(b),
        v matches Json::Uint(n) ==> v@ == JsonView::Uint(n),
        v matches Json::Int(n) ==> v@ == JsonView::Int(n),
        v matches Json::Real(s) ==> v@ == JsonView::Real(s@),
        v matches Json::Str(s) ==> v@ == JsonView::Str(s@),
        v matches Json::Array(a) ==> (v@ matches JsonView::Array(w) && w.len() == a@.len() && (0 <= i
            < a@.len() ==> w[i] == a@[i]@)),
        v matches Json::Object(m) ==> (v@ matches JsonView::Object(w) && w.len() == m@.len() && (0
            <= i < m@.len() ==> w[i] == (m@[i].0@, m@[i].1@))),
{
    law_arrays_hold_their_elements(v);
    if let Json::Object(m) = v {
        lemma_member_models(m@, m@.len());
    }
}

} // verus!
