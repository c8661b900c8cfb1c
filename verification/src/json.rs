//! JSON documents as a tree of plain values, read and written with `serde_json`.

use vstd::prelude::*;
use crate::text::equal;

verus! {

/// A JSON value.
pub enum Json {
    Null,
    Bool(bool),
    /// A whole number that is not negative.
    Uint(u64),
    /// A whole number.
    Int(i64),
    /// Any other number, as it is written.
    Real(String),
    Text(String),
    List(Vec<Json>),
    /// The members in order; of two with one key the later counts.
    Object(Vec<(String, Json)>),
}

/// What a JSON value means.
pub enum JsonView {
    Null,
    Bool(bool),
    Int(int),
    Real(Seq<char>),
    Text(Seq<char>),
    List(Seq<JsonView>),
    Object(Map<Seq<char>, JsonView>),
}

/// The last place before `n` where the key stands in the members.
pub open spec fn key_before(members: Seq<(String, Json)>, key: Seq<char>, n: int) -> Option<int>
    decreases n,
{
    if n <= 0 || n > members.len() {
        None
    } else if members[n - 1].0@ == key {
        Some(n - 1)
    } else {
        key_before(members, key, n - 1)
    }
}

pub open spec fn key_place(members: Seq<(String, Json)>, key: Seq<char>) -> Option<int> {
    key_before(members, key, members.len() as int)
}

/// The meaning of a JSON value.
pub open spec fn tree(j: Json) -> JsonView
    decreases j,
{
    match j {
        Json::Null => JsonView::Null,
        Json::Bool(b) => JsonView::Bool(b),
        Json::Uint(n) => JsonView::Int(n as int),
        Json::Int(n) => JsonView::Int(n as int),
        Json::Real(t) => JsonView::Real(t@),
        Json::Text(t) => JsonView::Text(t@),
        Json::List(v) => JsonView::List(
            Seq::new(
                v@.len(),
                |i: int|
                    if 0 <= i < v@.len() {
                        tree(v@[i])
                    } else {
                        JsonView::Null
                    },
            ),
        ),
        Json::Object(v) => JsonView::Object(
            Map::new(
                |k: Seq<char>| key_place(v@, k) is Some,
                |k: Seq<char>|
                    match key_place(v@, k) {
                        Some(i) => if 0 <= i < v@.len() {
                            tree(v@[i].1)
                        } else {
                            JsonView::Null
                        },
                        None => JsonView::Null,
                    },
            ),
        ),
    }
}

/// The value under a key, if the value is an object that has it.
pub open spec fn member(j: JsonView, key: Seq<char>) -> Option<JsonView> {
    match j {
        JsonView::Object(m) => if m.dom().contains(key) {
            Some(m[key])
        } else {
            None
        },
        _ => None,
    }
}

/// The value under a key, if there is one.
pub open spec fn below(j: Option<JsonView>, key: Seq<char>) -> Option<JsonView> {
    match j {
        Some(v) => member(v, key),
        None => None,
    }
}

pub open spec fn string_in(j: Option<JsonView>) -> Option<Seq<char>> {
    match j {
        Some(JsonView::Text(t)) => Some(t),
        _ => None,
    }
}

/// The text, or the empty text where the value is none.
pub open spec fn string_or_empty(j: Option<JsonView>) -> Seq<char> {
    match string_in(j) {
        Some(t) => t,
        None => seq![],
    }
}

pub open spec fn i64_in(j: Option<JsonView>) -> Option<int> {
    match j {
        Some(JsonView::Int(n)) => if i64::MIN <= n <= i64::MAX {
            Some(n)
        } else {
            None
        },
        _ => None,
    }
}

pub open spec fn u64_in(j: Option<JsonView>) -> Option<int> {
    match j {
        Some(JsonView::Int(n)) => if 0 <= n <= u64::MAX {
            Some(n)
        } else {
            None
        },
        _ => None,
    }
}

pub open spec fn bool_in(j: Option<JsonView>) -> Option<bool> {
    match j {
        Some(JsonView::Bool(b)) => Some(b),
        _ => None,
    }
}

pub open spec fn list_in(j: Option<JsonView>) -> Option<Seq<JsonView>> {
    match j {
        Some(JsonView::List(l)) => Some(l),
        _ => None,
    }
}

/// The meanings of a sequence of values.
pub open spec fn trees(v: Seq<Json>) -> Seq<JsonView> {
    v.map_values(|j: Json| tree(j))
}

/// The meaning of a value that may be missing.
pub open spec fn tree_opt(j: Option<&Json>) -> Option<JsonView> {
    match j {
        Some(v) => Some(tree(*v)),
        None => None,
    }
}

impl Json {
    /// The value under a key, if this is an object that has it.
    pub fn get<'a>(&'a self, key: &str) -> (r: Option<&'a Json>)
        ensures
            tree_opt(r) == member(tree(*self), key@),
    {
        match self {
            Json::Object(v) => {
                let mut i: usize = v.len();
                while i > 0
                    invariant
                        *self == Json::Object(*v),
                        i <= v@.len(),
                        key_place(v@, key@) == key_before(v@, key@, i as int),
                    decreases i,
                {
                    if equal(v[i - 1].0.as_str(), key) {
                        return Some(&v[i - 1].1);
                    }
                    i -= 1;
                }
                None
            },
            _ => None,
        }
    }

    pub fn as_str<'a>(&'a self) -> (r: Option<&'a str>)
        ensures
            match r {
                Some(t) => string_in(Some(tree(*self))) == Some(t@),
                None => string_in(Some(tree(*self))) is None,
            },
    {
        match self {
            Json::Text(t) => Some(t.as_str()),
            _ => None,
        }
    }

    pub fn as_i64(&self) -> (r: Option<i64>)
        ensures
            match r {
                Some(n) => i64_in(Some(tree(*self))) == Some(n as int),
                None => i64_in(Some(tree(*self))) is None,
            },
    {
        match self {
            Json::Int(n) => Some(*n),
            Json::Uint(n) => if *n <= i64::MAX as u64 {
                Some(*n as i64)
            } else {
                None
            },
            _ => None,
        }
    }

    pub fn as_u64(&self) -> (r: Option<u64>)
        ensures
            match r {
                Some(n) => u64_in(Some(tree(*self))) == Some(n as int),
                None => u64_in(Some(tree(*self))) is None,
            },
    {
        match self {
            Json::Uint(n) => Some(*n),
            Json::Int(n) => if *n >= 0 {
                Some(*n as u64)
            } else {
                None
            },
            _ => None,
        }
    }

    pub fn as_bool(&self) -> (r: Option<bool>)
        ensures
            r == bool_in(Some(tree(*self))),
    {
        match self {
            Json::Bool(b) => Some(*b),
            _ => None,
        }
    }

    pub fn as_array<'a>(&'a self) -> (r: Option<&'a Vec<Json>>)
        ensures
            match r {
                Some(v) => list_in(Some(tree(*self))) == Some(trees(v@)),
                None => list_in(Some(tree(*self))) is None,
            },
    {
        match self {
            Json::List(v) => {
                assert(tree(*self)->List_0 =~= trees(v@));
                Some(v)
            },
            _ => None,
        }
    }
}

/// The value under a key of a value that may be missing.
pub fn get_in<'a>(j: Option<&'a Json>, key: &str) -> (r: Option<&'a Json>)
    ensures
        tree_opt(r) == below(tree_opt(j), key@),
{
    match j {
        Some(v) => v.get(key),
        None => None,
    }
}

/// The text that a value which may be missing holds, or the empty text.
pub fn str_or_empty(j: Option<&Json>) -> (r: String)
    ensures
        r@ == string_or_empty(tree_opt(j)),
{
    match j {
        Some(v) => match v.as_str() {
            Some(t) => t.to_owned(),
            None => String::new(),
        },
        None => String::new(),
    }
}

// ---------------------------------------------------------------------------
// serde_json

/// `serde_json::Value`, a parsed document.
#[verifier::external_type_specification]
#[verifier::external_body]
pub struct ExValue(serde_json::Value);

/// What a parsed document holds.
pub uninterp spec fn json_value(v: serde_json::Value) -> JsonView;

/// What `serde_json` reads a text as: the document, or the words in which it
/// refuses the text.
pub uninterp spec fn json_doc(text: Seq<char>) -> Result<JsonView, Seq<char>>;

/// What the `serde_json` value made of a tree holds.
pub uninterp spec fn json_built(j: JsonView) -> JsonView;

/// Whether every number in a tree is whole.
pub open spec fn whole(j: JsonView) -> bool
    decreases j,
{
    match j {
        JsonView::Real(_) => false,
        JsonView::List(v) => forall|i: int| 0 <= i < v.len() ==> whole(#[trigger] v[i]),
        JsonView::Object(m) => forall|k: Seq<char>|
            m.dom().contains(k) ==> whole(#[trigger] m[k]),
        _ => true,
    }
}

/// What a value made of a tree holds: the tree itself, but where it has a number
/// that is not whole.
pub open spec fn built(j: JsonView) -> JsonView {
    if whole(j) {
        j
    } else {
        json_built(j)
    }
}

/// The compact text that `serde_json` writes for a document.
pub uninterp spec fn json_text(j: JsonView) -> Seq<char>;

/// The indented text that `serde_json` writes for a document.
pub uninterp spec fn json_text_pretty(j: JsonView) -> Seq<char>;

/// `serde_json::from_str` into a `Value`: what it holds, or the refusal's
/// words, depends on the text alone.
#[verifier::external_body]
fn parse_value(text: &str) -> (r: Result<serde_json::Value, String>)
    ensures
        match r {
            Ok(v) => json_doc(text@) == Ok::<JsonView, Seq<char>>(json_value(v)),
            Err(e) => json_doc(text@) == Err::<JsonView, Seq<char>>(e@),
        },
{
    serde_json::from_str::<serde_json::Value>(text).map_err(|e| e.to_string())
}

/// Turns a `serde_json::Value` into a `Json`, variant by variant: the tree
/// means what the value holds.
#[verifier::external_body]
fn tree_of(v: serde_json::Value) -> (r: Json)
    ensures
        tree(r) == json_value(v),
{
    match v {
        serde_json::Value::Null => Json::Null,
        serde_json::Value::Bool(b) => Json::Bool(b),
        serde_json::Value::Number(n) => match (n.as_u64(), n.as_i64()) {
            (Some(u), _) => Json::Uint(u),
            (None, Some(i)) => Json::Int(i),
            (None, None) => Json::Real(n.to_string()),
        },
        serde_json::Value::String(s) => Json::Text(s),
        serde_json::Value::Array(a) => Json::List(a.into_iter().map(tree_of).collect()),
        serde_json::Value::Object(m) => Json::Object(m.into_iter().map(|(k, x)| (k, tree_of(x))).collect()),
    }
}

/// Turns a `Json` into a `serde_json::Value`, variant by variant: it holds what
/// the tree means. Where the tree has a number that is not whole, it is only said
/// to depend on what the tree means, because the text of such a number is read
/// anew.
#[verifier::external_body]
fn value_of(j: &Json) -> (r: serde_json::Value)
    ensures
        json_value(r) == (if whole(tree(*j)) {
            tree(*j)
        } else {
            json_built(tree(*j))
        }),
{
    match j {
        Json::Null => serde_json::Value::Null,
        Json::Bool(b) => serde_json::Value::from(*b),
        Json::Uint(n) => serde_json::Value::from(*n),
        Json::Int(n) => serde_json::Value::from(*n),
        Json::Real(t) => serde_json::from_str::<serde_json::Number>(t).map_or(serde_json::Value::Null, serde_json::Value::Number),
        Json::Text(t) => serde_json::Value::from(t.as_str()),
        Json::List(v) => v.iter().map(value_of).collect(),
        Json::Object(v) => v.iter().map(|(k, x)| (k.clone(), value_of(x))).collect(),
    }
}

/// `Value::to_string`: the compact text, which depends on what the value holds
/// alone.
#[verifier::external_body]
fn value_text(v: &serde_json::Value) -> (r: String)
    ensures
        r@ == json_text(json_value(*v)),
{
    v.to_string()
}

/// The alternate form of `Value`'s `Display`: the indented text, which depends
/// on what the value holds alone.
#[verifier::external_body]
fn value_text_pretty(v: &serde_json::Value) -> (r: String)
    ensures
        r@ == json_text_pretty(json_value(*v)),
{
    format!("{v:#}")
}

/// The compact text of a tree.
pub open spec fn compact(j: JsonView) -> Seq<char> {
    json_text(built(j))
}

/// The indented text of a tree.
pub open spec fn pretty(j: JsonView) -> Seq<char> {
    json_text_pretty(built(j))
}

/// Reads a document.
pub fn parse_json(text: &str) -> (r: Result<Json, String>)
    ensures
        match r {
            Ok(j) => json_doc(text@) == Ok::<JsonView, Seq<char>>(tree(j)),
            Err(e) => json_doc(text@) == Err::<JsonView, Seq<char>>(e@),
        },
{
    match parse_value(text) {
        Ok(v) => Ok(tree_of(v)),
        Err(e) => Err(e),
    }
}

/// Writes a document in compact form.
pub fn to_text(j: &Json) -> (r: String)
    ensures
        r@ == compact(tree(*j)),
{
    let v = value_of(j);
    value_text(&v)
}

/// Writes a document in indented form.
pub fn to_text_pretty(j: &Json) -> (r: String)
    ensures
        r@ == pretty(tree(*j)),
{
    let v = value_of(j);
    value_text_pretty(&v)
}

// ---------------------------------------------------------------------------
// Building documents

/// The members of an object as a map; of two with one key the later counts.
pub open spec fn members_map(pairs: Seq<(Seq<char>, JsonView)>) -> Map<Seq<char>, JsonView>
    decreases pairs.len(),
{
    if pairs.len() == 0 {
        Map::empty()
    } else {
        members_map(pairs.drop_last()).insert(pairs.last().0, pairs.last().1)
    }
}

/// The object with the given members.
pub open spec fn doc(pairs: Seq<(Seq<char>, JsonView)>) -> JsonView {
    JsonView::Object(members_map(pairs))
}

/// An object whose members have whole numbers only is written just as it is.
pub proof fn law_whole_documents_are_written_as_they_are(pairs: Seq<(Seq<char>, JsonView)>)
    requires
        forall|i: int| 0 <= i < pairs.len() ==> whole((#[trigger] pairs[i]).1),
    ensures
        compact(doc(pairs)) == json_text(doc(pairs)),
        pretty(doc(pairs)) == json_text_pretty(doc(pairs)),
{
    lemma_members_whole(pairs);
}

proof fn lemma_member_whole(m: Map<Seq<char>, JsonView>, k: Seq<char>)
    requires
        whole(JsonView::Object(m)),
        m.dom().contains(k),
    ensures
        whole(m[k]),
{
    let j = JsonView::Object(m);
    assert(whole(j));
    assert(j->Object_0[k] == m[k]);
}

proof fn lemma_members_whole(pairs: Seq<(Seq<char>, JsonView)>)
    requires
        forall|i: int| 0 <= i < pairs.len() ==> whole((#[trigger] pairs[i]).1),
    ensures
        whole(doc(pairs)),
    decreases pairs.len(),
{
    let m = members_map(pairs);
    if pairs.len() > 0 {
        let front = pairs.drop_last();
        assert forall|i: int| 0 <= i < front.len() implies whole((#[trigger] front[i]).1) by {
            assert(front[i] == pairs[i]);
        }
        lemma_members_whole(front);
        let rest = members_map(front);
        assert(doc(front) == JsonView::Object(rest));
        assert(whole(JsonView::Object(rest)));
        assert(whole(pairs[pairs.len() - 1].1));
        assert forall|k: Seq<char>| m.dom().contains(k) implies whole(#[trigger] m[k]) by {
            if k != pairs.last().0 {
                assert(rest.dom().contains(k));
                lemma_member_whole(rest, k);
            }
        }
    }
}

/// The members of an object by what they mean.
pub open spec fn entries(v: Seq<(String, Json)>) -> Seq<(Seq<char>, JsonView)> {
    v.map_values(|p: (String, Json)| (p.0@, tree(p.1)))
}

proof fn lemma_key_longer(v: Seq<(String, Json)>, key: Seq<char>, n: int, m: int)
    requires
        0 <= n <= m <= v.len(),
    ensures
        key_before(v.take(m), key, n) == key_before(v, key, n),
    decreases n,
{
    if n > 0 {
        lemma_key_longer(v, key, n - 1, m);
    }
}

proof fn lemma_members_map(v: Seq<(String, Json)>, key: Seq<char>)
    ensures
        members_map(entries(v)).dom().contains(key) <==> key_place(v, key) is Some,
        key_place(v, key) matches Some(i) ==> 0 <= i < v.len() && members_map(entries(v))[key]
            == tree(v[i].1),
    decreases v.len(),
{
    if v.len() > 0 {
        let rest = v.drop_last();
        lemma_members_map(rest, key);
        lemma_key_longer(v, key, v.len() - 1, v.len() - 1);
        assert(rest =~= v.take(v.len() - 1));
        assert(entries(v).drop_last() =~= entries(rest));
        assert(entries(v).last() == (v.last().0@, tree(v.last().1)));
    }
}

/// What an object means, member by member.
pub proof fn lemma_object_tree(j: Json)
    requires
        j is Object,
    ensures
        tree(j) == doc(entries(j->Object_0@)),
{
    let v = j->Object_0@;
    let a = tree(j)->Object_0;
    let b = members_map(entries(v));
    assert forall|k: Seq<char>| #[trigger] a.dom().contains(k) <==> b.dom().contains(k) by {
        lemma_members_map(v, k);
    }
    assert forall|k: Seq<char>| #[trigger] a.dom().contains(k) implies a[k] == b[k] by {
        lemma_members_map(v, k);
    }
    assert(a =~= b);
}

/// An object with the given members.
pub fn object(v: Vec<(String, Json)>) -> (r: Json)
    ensures
        tree(r) == doc(entries(v@)),
{
    let r = Json::Object(v);
    proof {
        lemma_object_tree(r);
    }
    r
}

/// The last place of a key.
fn place_of_key(v: &Vec<(String, Json)>, key: &str) -> (r: Option<usize>)
    ensures
        match r {
            Some(i) => key_place(v@, key@) == Some(i as int) && i < v.len(),
            None => key_place(v@, key@) is None,
        },
{
    let mut n: usize = v.len();
    while n > 0
        invariant
            n <= v.len(),
            key_place(v@, key@) == key_before(v@, key@, n as int),
        decreases n,
    {
        if equal(v[n - 1].0.as_str(), key) {
            return Some(n - 1);
        }
        n -= 1;
    }
    None
}

proof fn lemma_key_before(v: Seq<(String, Json)>, key: Seq<char>, n: int)
    requires
        0 <= n <= v.len(),
    ensures
        match key_before(v, key, n) {
            Some(i) => 0 <= i < n && v[i].0@ == key && (forall|k: int|
                i < k < n ==> (#[trigger] v[k]).0@ != key),
            None => forall|k: int| 0 <= k < n ==> (#[trigger] v[k]).0@ != key,
        },
    decreases n,
{
    if n > 0 && v[n - 1].0@ != key {
        lemma_key_before(v, key, n - 1);
    }
}

/// Giving the last member of a key another value gives the key that value.
proof fn lemma_update_member(v: Seq<(String, Json)>, key: Seq<char>, i: int, m: (String, Json))
    requires
        key_place(v, key) == Some(i),
        m.0@ == key,
    ensures
        0 <= i < v.len(),
        members_map(entries(v.update(i, m))) == members_map(entries(v)).insert(key, tree(m.1)),
{
    lemma_key_before(v, key, v.len() as int);
    let u = v.update(i, m);
    let a = members_map(entries(u));
    let b = members_map(entries(v)).insert(key, tree(m.1));
    assert forall|k: Seq<char>|
        #![trigger a.dom().contains(k)]
        #![trigger b.dom().contains(k)]
        (a.dom().contains(k) <==> b.dom().contains(k)) && (a.dom().contains(k) ==> a[k] == b[k]) by {
        lemma_members_map(v, k);
        lemma_members_map(u, k);
        lemma_key_before(v, k, v.len() as int);
        lemma_key_before(u, k, u.len() as int);
        match (key_place(v, k), key_place(u, k)) {
            (Some(x), Some(y)) => {
                if x < y {
                    assert(v[y].0@ == u[y].0@);
                } else if y < x {
                    assert(u[x].0@ == v[x].0@);
                }
            },
            (Some(x), None) => {
                assert(u[x].0@ == v[x].0@);
            },
            (None, Some(y)) => {
                assert(v[y].0@ == u[y].0@);
            },
            (None, None) => {},
        }
    }
    assert(a =~= b);
}

/// Taking out a member of a key changes nothing but what the key has.
proof fn lemma_remove_member(v: Seq<(String, Json)>, key: Seq<char>, i: int)
    requires
        0 <= i < v.len(),
        v[i].0@ == key,
    ensures
        members_map(entries(v.remove(i))).remove(key) == members_map(entries(v)).remove(key),
    decreases v.len(),
{
    let rest = v.drop_last();
    assert(entries(v).drop_last() =~= entries(rest));
    assert(entries(v).last() == (v.last().0@, tree(v.last().1)));
    if i == v.len() - 1 {
        assert(v.remove(i) =~= rest);
        assert(members_map(entries(v)).remove(key) =~= members_map(entries(rest)).remove(key));
    } else {
        lemma_remove_member(rest, key, i);
        let w = v.remove(i);
        assert(w.drop_last() =~= rest.remove(i));
        assert(w.last() == v.last());
        assert(entries(w).drop_last() =~= entries(w.drop_last()));
        assert(entries(w).last() == entries(v).last());
        let k = v.last().0@;
        let x = tree(v.last().1);
        let a = members_map(entries(w.drop_last()));
        let b = members_map(entries(rest));
        assert(members_map(entries(w)) == a.insert(k, x));
        assert(members_map(entries(v)) == b.insert(k, x));
        if k == key {
            assert(a.insert(k, x).remove(key) =~= a.remove(key));
            assert(b.insert(k, x).remove(key) =~= b.remove(key));
        } else {
            assert(a.insert(k, x).remove(key) =~= a.remove(key).insert(k, x));
            assert(b.insert(k, x).remove(key) =~= b.remove(key).insert(k, x));
        }
    }
}

/// The value without the member under a key.
pub open spec fn without(j: JsonView, key: Seq<char>) -> JsonView {
    match j {
        JsonView::Object(m) => JsonView::Object(m.remove(key)),
        _ => j,
    }
}

/// The value with a member under a key.
pub open spec fn with(j: JsonView, key: Seq<char>, value: JsonView) -> JsonView {
    match j {
        JsonView::Object(m) => JsonView::Object(m.insert(key, value)),
        _ => j,
    }
}

impl Json {
    /// Takes the member under a key out of an object.
    pub fn take(self, key: &str) -> (r: (Json, Option<Json>))
        ensures
            tree(r.0) == without(tree(self), key@),
            match r.1 {
                Some(x) => member(tree(self), key@) == Some(tree(x)),
                None => member(tree(self), key@) is None,
            },
    {
        proof {
            if self is Object {
                lemma_object_tree(self);
                lemma_members_map(self->Object_0@, key@);
            }
        }
        match self {
            Json::Object(members) => {
                let mut v = members;
                let ghost all = members_map(entries(v@));
                let mut taken: Option<Json> = None;
                match place_of_key(&v, key) {
                    Some(i) => {
                        proof {
                            lemma_key_before(v@, key@, v.len() as int);
                            lemma_remove_member(v@, key@, i as int);
                        }
                        let (_, x) = v.remove(i);
                        taken = Some(x);
                        loop
                            invariant
                                members_map(entries(v@)).remove(key@) == all.remove(key@),
                            ensures
                                members_map(entries(v@)).remove(key@) == all.remove(key@),
                                key_place(v@, key@) is None,
                            decreases v.len(),
                        {
                            match place_of_key(&v, key) {
                                Some(k) => {
                                    proof {
                                        lemma_key_before(v@, key@, v.len() as int);
                                        lemma_remove_member(v@, key@, k as int);
                                    }
                                    v.remove(k);
                                },
                                None => {
                                    break;
                                },
                            }
                        }
                    },
                    None => {},
                }
                proof {
                    lemma_members_map(v@, key@);
                    assert(members_map(entries(v@)).remove(key@) =~= members_map(entries(v@)));
                }
                (object(v), taken)
            },
            other => (other, None),
        }
    }

    /// Puts a value under a key of an object.
    pub fn set(self, key: &str, value: Json) -> (r: Json)
        ensures
            tree(r) == with(tree(self), key@, tree(value)),
    {
        proof {
            if self is Object {
                lemma_object_tree(self);
            }
        }
        match self {
            Json::Object(members) => {
                let mut v = members;
                match place_of_key(&v, key) {
                    Some(i) => {
                        let ghost before = v@;
                        let m = (key.to_owned(), value);
                        proof {
                            lemma_update_member(before, key@, i as int, m);
                        }
                        v.set(i, m);
                    },
                    None => {
                        let ghost before = entries(v@);
                        put(&mut v, key, value);
                        assert(entries(v@).drop_last() =~= before);
                    },
                }
                object(v)
            },
            other => other,
        }
    }
}

/// A list of the given values.
pub fn list(v: Vec<Json>) -> (r: Json)
    ensures
        tree(r) == JsonView::List(trees(v@)),
{
    let r = Json::List(v);
    assert(tree(r)->List_0 =~= trees(v@));
    r
}

/// A text as a value.
pub fn string(t: &str) -> (r: Json)
    ensures
        tree(r) == JsonView::Text(t@),
{
    Json::Text(t.to_owned())
}

/// Adds a member.
pub fn put(v: &mut Vec<(String, Json)>, key: &str, value: Json)
    ensures
        entries(final(v)@) == entries(old(v)@).push((key@, tree(value))),
{
    v.push((key.to_owned(), value));
    assert(entries(v@) =~= entries(old(v)@).push((key@, tree(value))));
}

/// No members.
pub fn no_members() -> (r: Vec<(String, Json)>)
    ensures
        entries(r@) == Seq::<(Seq<char>, JsonView)>::empty(),
{
    let v: Vec<(String, Json)> = Vec::new();
    assert(entries(v@) =~= Seq::<(Seq<char>, JsonView)>::empty());
    v
}

/// Adds a value.
pub fn add_value(v: &mut Vec<Json>, value: Json)
    ensures
        trees(final(v)@) == trees(old(v)@).push(tree(value)),
{
    v.push(value);
    assert(trees(v@) =~= trees(old(v)@).push(tree(value)));
}

/// No values.
pub fn no_values() -> (r: Vec<Json>)
    ensures
        trees(r@) == Seq::<JsonView>::empty(),
{
    let v: Vec<Json> = Vec::new();
    assert(trees(v@) =~= Seq::<JsonView>::empty());
    v
}

/// An object that is made of members holds each of them under its key, the last
/// where there are several, and nothing under any other key.
pub proof fn law_documents_hold_their_members(pairs: Seq<(Seq<char>, JsonView)>, key: Seq<char>)
    ensures
        forall|i: int|
            0 <= i < pairs.len() && (#[trigger] pairs[i]).0 == key && (forall|k: int|
                i < k < pairs.len() ==> (#[trigger] pairs[k]).0 != key) ==> member(doc(pairs), key)
                == Some(pairs[i].1),
        (forall|i: int| 0 <= i < pairs.len() ==> (#[trigger] pairs[i]).0 != key) ==> member(
            doc(pairs),
            key,
        ) is None,
    decreases pairs.len(),
{
    if pairs.len() > 0 {
        let front = pairs.drop_last();
        law_documents_hold_their_members(front, key);
        let m = members_map(pairs);
        let x = pairs.last();
        assert(x == pairs[pairs.len() - 1]);
        assert(doc(pairs) == JsonView::Object(members_map(front).insert(x.0, x.1)));
        if x.0 == key {
            assert(member(doc(pairs), key) == Some(x.1));
            assert forall|i: int|
                0 <= i < pairs.len() && (#[trigger] pairs[i]).0 == key && (forall|k: int|
                    i < k < pairs.len() ==> (#[trigger] pairs[k]).0 != key) implies member(
                doc(pairs),
                key,
            ) == Some(pairs[i].1) by {
                if i < pairs.len() - 1 {
                    assert(pairs[pairs.len() - 1].0 != key);
                }
            }
        } else {
            assert(member(doc(pairs), key) == member(doc(front), key));
            assert forall|i: int|
                0 <= i < pairs.len() && (#[trigger] pairs[i]).0 == key && (forall|k: int|
                    i < k < pairs.len() ==> (#[trigger] pairs[k]).0 != key) implies member(
                doc(pairs),
                key,
            ) == Some(pairs[i].1) by {
                assert(front[i] == pairs[i]);
                assert forall|k: int| i < k < front.len() implies (#[trigger] front[k]).0
                    != key by {
                    assert(pairs[k].0 != key);
                }
            }
            if forall|i: int| 0 <= i < pairs.len() ==> (#[trigger] pairs[i]).0 != key {
                assert forall|i: int| 0 <= i < front.len() implies (#[trigger] front[i]).0
                    != key by {
                    assert(pairs[i].0 != key);
                }
            }
        }
    }
}

/// What is put into an object is found in it, what is taken out is not, and the
/// other members stay.
pub proof fn law_members_come_and_go(m: Map<Seq<char>, JsonView>, key: Seq<char>, v: JsonView, other: Seq<char>)
    requires
        other != key,
    ensures
        member(with(JsonView::Object(m), key, v), key) == Some(v),
        member(with(JsonView::Object(m), key, v), other) == member(JsonView::Object(m), other),
        member(without(JsonView::Object(m), key), key) is None,
        member(without(JsonView::Object(m), key), other) == member(JsonView::Object(m), other),
{
}

/// Values are read as what they are, and as nothing else.
pub proof fn law_values_are_read_as_they_are(t: Seq<char>, n: int, b: bool, l: Seq<JsonView>)
    ensures
        string_in(Some(JsonView::Text(t))) == Some(t),
        string_in(Some(JsonView::Int(n))) is None,
        string_in(None) is None,
        string_or_empty(Some(JsonView::Text(t))) == t,
        bool_in(Some(JsonView::Bool(b))) == Some(b),
        list_in(Some(JsonView::List(l))) == Some(l),
        i64::MIN <= n <= i64::MAX ==> i64_in(Some(JsonView::Int(n))) == Some(n),
        0 <= n <= u64::MAX ==> u64_in(Some(JsonView::Int(n))) == Some(n),
        n < 0 ==> u64_in(Some(JsonView::Int(n))) is None,
        u64_in(Some(JsonView::Text(t))) is None,
{
}

/// A tree means what its nodes hold: numbers, texts, the values of a list in their
/// order, and under a key of an object the last that stands there.
pub proof fn law_trees_mean_what_they_hold(v: Vec<Json>, m: Vec<(String, Json)>, i: int, t: String, n: u64, k: i64, b: bool)
    ensures
        tree(Json::Null) == JsonView::Null,
        tree(Json::Bool(b)) == JsonView::Bool(b),
        tree(Json::Uint(n)) == JsonView::Int(n as int),
        tree(Json::Int(k)) == JsonView::Int(k as int),
        tree(Json::Text(t)) == JsonView::Text(t@),
        tree(Json::Real(t)) == JsonView::Real(t@),
        tree(Json::List(v)) matches JsonView::List(l) && l.len() == v@.len() && (0 <= i < v@.len()
            ==> l[i] == tree(v@[i])),
        0 <= i < m@.len() && (forall|j: int| i < j < m@.len() ==> (#[trigger] m@[j]).0@ != m@[i].0@)
            ==> member(tree(Json::Object(m)), m@[i].0@) == Some(tree(m@[i].1)),
{
    if 0 <= i < m@.len() && (forall|j: int|
        i < j < m@.len() ==> (#[trigger] m@[j]).0@ != m@[i].0@) {
        lemma_last_key(m@, m@[i].0@, i, m@.len() as int);
    }
}

proof fn lemma_last_key(m: Seq<(String, Json)>, key: Seq<char>, i: int, n: int)
    requires
        0 <= i < n <= m.len(),
        m[i].0@ == key,
        forall|j: int| i < j < n ==> (#[trigger] m[j]).0@ != key,
    ensures
        key_before(m, key, n) == Some(i),
    decreases n,
{
    if i < n - 1 {
        assert(m[n - 1].0@ != key);
        lemma_last_key(m, key, i, n - 1);
    }
}

} // verus!
