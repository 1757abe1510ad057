//! JSON values, their order-independent text, and what can be read from them.
use vstd::prelude::*;
use vstd::string::*;

use crate::security::hex_digit;
use crate::text::{
    decimal, decimal_text, less, less_is_total, less_is_transitive, opt_view, parse_number, parsed,
    str_eq, text_less, views,
};

verus! {

/// A JSON value. A number is kept as the text that writes it.
#[derive(Debug)]
pub enum Json {
    Null,
    Bool(bool),
    Number(String),
    Text(String),
    Array(Vec<Json>),
    Object(Vec<Member>),
}

/// One member of a JSON object.
#[derive(Debug)]
pub struct Member {
    pub key: String,
    pub value: Json,
}

/// A JSON value as plain data.
#[verifier::ext_equal]
pub ghost enum Tree {
    Null,
    Bool(bool),
    Number(Seq<char>),
    Text(Seq<char>),
    Array(Seq<Tree>),
    Object(Seq<(Seq<char>, Tree)>),
}

pub open spec fn tree(j: Json) -> Tree
    decreases j, 0nat,
{
    match j {
        Json::Null => Tree::Null,
        Json::Bool(b) => Tree::Bool(b),
        Json::Number(s) => Tree::Number(s@),
        Json::Text(s) => Tree::Text(s@),
        Json::Array(v) => Tree::Array(trees(v, v@.len())),
        Json::Object(v) => Tree::Object(members(v, v@.len())),
    }
}

/// The first `n` elements of a list of values as plain data.
pub open spec fn trees(v: Vec<Json>, n: nat) -> Seq<Tree>
    decreases v, n,
{
    if n == 0 || n > v@.len() {
        Seq::empty()
    } else {
        trees(v, (n - 1) as nat).push(tree(v@[n - 1]))
    }
}

/// The first `n` members of an object as plain data.
pub open spec fn members(v: Vec<Member>, n: nat) -> Seq<(Seq<char>, Tree)>
    decreases v, n,
{
    if n == 0 || n > v@.len() {
        Seq::empty()
    } else {
        members(v, (n - 1) as nat).push((v@[n - 1].key@, tree(v@[n - 1].value)))
    }
}

impl View for Json {
    type V = Tree;

    open spec fn view(&self) -> Tree {
        tree(*self)
    }
}

pub proof fn lemma_trees(v: Vec<Json>, n: nat)
    requires
        n <= v@.len(),
    ensures
        trees(v, n).len() == n,
        forall|i: int| 0 <= i < n ==> #[trigger] trees(v, n)[i] == tree(v@[i]),
    decreases n,
{
    if n > 0 {
        lemma_trees(v, (n - 1) as nat);
    }
}

pub proof fn lemma_members(v: Vec<Member>, n: nat)
    requires
        n <= v@.len(),
    ensures
        members(v, n).len() == n,
        forall|i: int|
            0 <= i < n ==> #[trigger] members(v, n)[i] == (v@[i].key@, tree(v@[i].value)),
    decreases n,
{
    if n > 0 {
        lemma_members(v, (n - 1) as nat);
    }
}

/// A list of values that agrees with `s` element by element has `s` as its data.
pub proof fn lemma_trees_are(v: Vec<Json>, s: Seq<Tree>)
    requires
        v@.len() == s.len(),
        forall|i: int| 0 <= i < s.len() ==> tree(#[trigger] v@[i]) == s[i],
    ensures
        trees(v, v@.len()) == s,
{
    lemma_trees(v, v@.len());
    assert(trees(v, v@.len()) =~= s);
}

pub proof fn lemma_members_are(v: Vec<Member>, s: Seq<(Seq<char>, Tree)>)
    requires
        v@.len() == s.len(),
        forall|i: int| 0 <= i < s.len() ==> (#[trigger] v@[i]).key@ == s[i].0,
        forall|i: int| 0 <= i < s.len() ==> tree((#[trigger] v@[i]).value) == s[i].1,
    ensures
        members(v, v@.len()) == s,
{
    lemma_members(v, v@.len());
    assert forall|i: int| 0 <= i < s.len() implies members(v, v@.len())[i] == s[i] by {
        assert(v@[i].key@ == s[i].0);
    }
    assert(members(v, v@.len()) =~= s);
}

/// An element of an array is smaller than the array.
pub proof fn lemma_element_is_smaller(j: Json, v: Vec<Json>, i: int)
    requires
        j == Json::Array(v),
        0 <= i < v@.len(),
    ensures
        decreases_to!(j => v@[i]),
{
    assert(decreases_to!(j => j->Array_0));
    assert(decreases_to!(v => v@[i]));
}

/// A member's value is smaller than the object.
pub proof fn lemma_member_is_smaller(j: Json, v: Vec<Member>, i: int)
    requires
        j == Json::Object(v),
        0 <= i < v@.len(),
    ensures
        decreases_to!(j => v@[i].value),
{
    assert(decreases_to!(j => j->Object_0));
    assert(decreases_to!(v@[i] => v@[i].value));
    assert(decreases_to!(v => v@[i]));
}

// ---------------------------------------------------------------------------
// Reading

/// The value of the first member of that name.
pub open spec fn member(ms: Seq<(Seq<char>, Tree)>, key: Seq<char>) -> Option<Tree>
    decreases ms.len(),
{
    if ms.len() == 0 {
        None
    } else if ms[0].0 == key {
        Some(ms[0].1)
    } else {
        member(ms.skip(1), key)
    }
}

/// The member of that name of an object; nothing for any other value.
pub open spec fn get_tree(t: Tree, key: Seq<char>) -> Option<Tree> {
    match t {
        Tree::Object(ms) => member(ms, key),
        _ => None,
    }
}

/// The text of a JSON string; nothing for any other value.
pub open spec fn text_tree(t: Option<Tree>) -> Option<Seq<char>> {
    match t {
        Some(Tree::Text(s)) => Some(s),
        _ => None,
    }
}

/// The value of a JSON boolean; nothing for any other value.
pub open spec fn bool_tree(t: Option<Tree>) -> Option<bool> {
    match t {
        Some(Tree::Bool(b)) => Some(b),
        _ => None,
    }
}

/// The value of a JSON number that is unsigned and whole; nothing for any other
/// value.
pub open spec fn number_tree(t: Option<Tree>) -> Option<nat> {
    match t {
        Some(Tree::Number(s)) => parsed(s, u64::MAX as nat),
        _ => None,
    }
}

/// The value of an optional JSON value.
pub open spec fn opt_tree(j: Option<&Json>) -> Option<Tree> {
    match j {
        Some(j) => Some(j@),
        None => None,
    }
}

impl Json {
    /// The member of that name of an object; nothing for any other value.
    pub fn get(&self, key: &str) -> (r: Option<&Json>)
        ensures
            opt_tree(r) == get_tree(self@, key@),
            r is Some ==> decreases_to!(*self => *r->0),
    {
        match self {
            Json::Object(v) => {
                let ghost all = members(*v, v@.len());
                let mut i: usize = 0;
                proof {
                    lemma_members(*v, v@.len());
                    assert(all.skip(0) =~= all);
                }
                while i < v.len()
                    invariant
                        i <= v@.len(),
                        all == members(*v, v@.len()),
                        all.len() == v@.len(),
                        *self == Json::Object(*v),
                        forall|j: int|
                            0 <= j < all.len() ==> #[trigger] all[j] == (
                                v@[j].key@,
                                tree(v@[j].value),
                            ),
                        member(all, key@) == member(all.skip(i as int), key@),
                    decreases v@.len() - i,
                {
                    assert(all.skip(i as int)[0] == all[i as int]);
                    if str_eq(v[i].key.as_str(), key) {
                        return Some(&v[i].value);
                    }
                    assert(all.skip(i as int).skip(1) =~= all.skip(i + 1));
                    i += 1;
                }
                None
            },
            _ => None,
        }
    }

    /// The text of a JSON string; nothing for any other value.
    pub fn as_str(&self) -> (r: Option<&str>)
        ensures
            crate::text::opt_str_view(r) == text_tree(Some(self@)),
    {
        match self {
            Json::Text(s) => Some(s.as_str()),
            _ => None,
        }
    }

    /// The value of a JSON boolean; nothing for any other value.
    pub fn as_bool(&self) -> (r: Option<bool>)
        ensures
            r == bool_tree(Some(self@)),
    {
        match self {
            Json::Bool(b) => Some(*b),
            _ => None,
        }
    }

    /// The value of a JSON number that is unsigned and whole; nothing for any
    /// other value.
    pub fn as_u64(&self) -> (r: Option<u64>)
        ensures
            match r {
                Some(n) => number_tree(Some(self@)) == Some(n as nat),
                None => number_tree(Some(self@)) is None,
            },
    {
        match self {
            Json::Number(s) => parse_number(s.as_str(), u64::MAX),
            _ => None,
        }
    }

    /// The text of the member of that name, where it is a string.
    pub fn get_text(&self, key: &str) -> (r: Option<String>)
        ensures
            opt_view(r) == text_tree(get_tree(self@, key@)),
    {
        match self.get(key) {
            Some(value) => match value.as_str() {
                Some(s) => Some(s.to_owned()),
                None => None,
            },
            None => None,
        }
    }

    /// A value of its own with the same data.
    pub fn duplicate(&self) -> (r: Json)
        ensures
            r@ == self@,
        decreases *self,
    {
        match self {
            Json::Null => Json::Null,
            Json::Bool(b) => Json::Bool(*b),
            Json::Number(s) => Json::Number(s.clone()),
            Json::Text(s) => Json::Text(s.clone()),
            Json::Array(v) => {
                let mut w: Vec<Json> = Vec::new();
                let mut i: usize = 0;
                while i < v.len()
                    invariant
                        i <= v@.len(),
                        w@.len() == i,
                        *self == Json::Array(*v),
                        forall|j: int| 0 <= j < i ==> tree(#[trigger] w@[j]) == tree(v@[j]),
                    decreases v@.len() - i,
                {
                    proof {
                        lemma_element_is_smaller(*self, *v, i as int);
                    }
                    w.push(v[i].duplicate());
                    i += 1;
                }
                proof {
                    lemma_trees(*v, v@.len());
                    lemma_trees_are(w, trees(*v, v@.len()));
                }
                Json::Array(w)
            },
            Json::Object(v) => {
                let mut w: Vec<Member> = Vec::new();
                let mut i: usize = 0;
                while i < v.len()
                    invariant
                        i <= v@.len(),
                        w@.len() == i,
                        *self == Json::Object(*v),
                        forall|j: int| 0 <= j < i ==> (#[trigger] w@[j]).key@ == v@[j].key@,
                        forall|j: int|
                            0 <= j < i ==> tree((#[trigger] w@[j]).value) == tree(v@[j].value),
                    decreases v@.len() - i,
                {
                    proof {
                        lemma_member_is_smaller(*self, *v, i as int);
                    }
                    w.push(Member { key: v[i].key.clone(), value: v[i].value.duplicate() });
                    i += 1;
                }
                proof {
                    lemma_members(*v, v@.len());
                    lemma_members_are(w, members(*v, v@.len()));
                }
                Json::Object(w)
            },
        }
    }
}

// ---------------------------------------------------------------------------
// Text

/// How a character is written in a JSON string literal: quotes, backslashes and
/// control characters are escaped.
pub open spec fn escaped(c: char) -> Seq<char> {
    if c == '"' || c == '\\' {
        seq!['\\', c]
    } else if c == '\u{8}' {
        seq!['\\', 'b']
    } else if c == '\t' {
        seq!['\\', 't']
    } else if c == '\n' {
        seq!['\\', 'n']
    } else if c == '\u{c}' {
        seq!['\\', 'f']
    } else if c == '\r' {
        seq!['\\', 'r']
    } else if c <= '\u{1f}' {
        seq!['\\', 'u', '0', '0', hex_digit(c as int / 16), hex_digit(c as int % 16)]
    } else {
        seq![c]
    }
}

/// The characters of a JSON string literal between its quotes.
pub open spec fn all_escaped(s: Seq<char>) -> Seq<char>
    decreases s.len(),
{
    if s.len() == 0 {
        Seq::empty()
    } else {
        all_escaped(s.drop_last()) + escaped(s.last())
    }
}

/// The JSON string literal for a string.
pub open spec fn quoted(s: Seq<char>) -> Seq<char> {
    seq!['"'] + all_escaped(s) + seq!['"']
}

/// `serde_json::to_string` on a string: the JSON string literal that stands for it.
#[verifier::external_body]
fn quote(s: &str) -> (r: String)
    ensures
        r@ == quoted(s@),
{
    serde_json::to_string(s).expect("a string is always serializable")
}

/// The members with one more, in the order of their names: a member of that
/// name is replaced, else the new one comes before the first greater name.
pub open spec fn insert_member(
    ms: Seq<(Seq<char>, Tree)>,
    key: Seq<char>,
    value: Tree,
) -> Seq<(Seq<char>, Tree)>
    decreases ms.len(),
{
    if ms.len() == 0 {
        seq![(key, value)]
    } else if ms[0].0 == key {
        seq![(key, value)] + ms.skip(1)
    } else if less(key, ms[0].0) {
        seq![(key, value)] + ms
    } else {
        seq![ms[0]] + insert_member(ms.skip(1), key, value)
    }
}

/// The value with the members of each object in the order of their names.
pub open spec fn canonical(t: Tree) -> Tree
    decreases t, 0nat,
{
    match t {
        Tree::Array(ts) => Tree::Array(canonical_all(ts, ts.len())),
        Tree::Object(ms) => Tree::Object(canonical_members(ms, ms.len())),
        other => other,
    }
}

pub open spec fn canonical_all(ts: Seq<Tree>, n: nat) -> Seq<Tree>
    decreases ts, n,
{
    if n == 0 || n > ts.len() {
        Seq::empty()
    } else {
        canonical_all(ts, (n - 1) as nat).push(canonical(ts[n - 1]))
    }
}

pub open spec fn canonical_members(ms: Seq<(Seq<char>, Tree)>, n: nat) -> Seq<(Seq<char>, Tree)>
    decreases ms, n,
{
    if n == 0 || n > ms.len() {
        Seq::empty()
    } else {
        insert_member(
            canonical_members(ms, (n - 1) as nat),
            ms[n - 1].0,
            canonical(ms[n - 1].1),
        )
    }
}

/// The compact text of a value.
pub open spec fn compact(t: Tree) -> Seq<char>
    decreases t, 0nat,
{
    match t {
        Tree::Null => "null"@,
        Tree::Bool(b) => if b {
            "true"@
        } else {
            "false"@
        },
        Tree::Number(s) => s,
        Tree::Text(s) => quoted(s),
        Tree::Array(ts) => "["@ + compact_all(ts, ts.len()) + "]"@,
        Tree::Object(ms) => "{"@ + compact_members(ms, ms.len()) + "}"@,
    }
}

/// The texts of the first `n` elements, with commas between them.
pub open spec fn compact_all(ts: Seq<Tree>, n: nat) -> Seq<char>
    decreases ts, n,
{
    if n == 0 || n > ts.len() {
        Seq::empty()
    } else if n == 1 {
        compact(ts[0])
    } else {
        compact_all(ts, (n - 1) as nat) + ","@ + compact(ts[n - 1])
    }
}

/// The texts of the first `n` members, with commas between them.
pub open spec fn compact_members(ms: Seq<(Seq<char>, Tree)>, n: nat) -> Seq<char>
    decreases ms, n,
{
    if n == 0 || n > ms.len() {
        Seq::empty()
    } else {
        let one = quoted(ms[n - 1].0) + ":"@ + compact(ms[n - 1].1);
        if n == 1 {
            one
        } else {
            compact_members(ms, (n - 1) as nat) + ","@ + one
        }
    }
}

/// Puts a member in the order of names.
fn insert_sorted(w: &mut Vec<Member>, key: String, value: Json)
    ensures
        members(*final(w), final(w)@.len()) == insert_member(
            members(*old(w), old(w)@.len()),
            key@,
            value@,
        ),
{
    let ghost before = *old(w);
    let ghost ms = members(before, before@.len());
    let mut i: usize = 0;
    proof {
        lemma_members(before, before@.len());
        assert(ms.skip(0) =~= ms);
        assert(ms.take(0) + insert_member(ms.skip(0), key@, value@) =~= insert_member(
            ms,
            key@,
            value@,
        ));
    }
    while i < w.len() && !str_eq(w[i].key.as_str(), key.as_str()) && !text_less(
        key.as_str(),
        w[i].key.as_str(),
    )
        invariant
            *w == before,
            ms == members(before, before@.len()),
            ms.len() == before@.len(),
            i <= before@.len(),
            forall|j: int|
                0 <= j < ms.len() ==> #[trigger] ms[j] == (before@[j].key@, tree(before@[j].value)),
            insert_member(ms, key@, value@) == ms.take(i as int) + insert_member(
                ms.skip(i as int),
                key@,
                value@,
            ),
        decreases w@.len() - i,
    {
        proof {
            assert(ms.skip(i as int)[0] == ms[i as int]);
            assert(ms.skip(i as int).skip(1) =~= ms.skip(i + 1));
            assert(ms.take(i as int) + (seq![ms[i as int]] + insert_member(
                ms.skip(i + 1),
                key@,
                value@,
            )) =~= ms.take(i + 1) + insert_member(ms.skip(i + 1), key@, value@));
        }
        i += 1;
    }
    let ghost k = key@;
    let ghost v = value@;
    if i < w.len() {
        proof {
            assert(ms.skip(i as int)[0] == ms[i as int]);
        }
        if str_eq(w[i].key.as_str(), key.as_str()) {
            w.set(i, Member { key, value });
            proof {
                let s = insert_member(ms, k, v);
                assert(s =~= ms.update(i as int, (k, v)));
                lemma_members_are(*w, s);
            }
        } else {
            w.insert(i, Member { key, value });
            proof {
                let s = insert_member(ms, k, v);
                assert(s =~= ms.insert(i as int, (k, v)));
                assert forall|j: int| 0 <= j < s.len() implies (#[trigger] w@[j]).key@ == s[j].0
                    && tree(w@[j].value) == s[j].1 by {
                    if j < i {
                        assert(ms[j] == (before@[j].key@, tree(before@[j].value)));
                    } else if j > i {
                        assert(ms[j - 1] == (before@[j - 1].key@, tree(before@[j - 1].value)));
                    }
                }
                lemma_members_are(*w, s);
            }
        }
    } else {
        w.push(Member { key, value });
        proof {
            let s = insert_member(ms, k, v);
            assert(s =~= ms.push((k, v)));
            lemma_members_are(*w, s);
        }
    }
}

proof fn lemma_canonical_all(ts: Seq<Tree>, n: nat)
    requires
        n <= ts.len(),
    ensures
        canonical_all(ts, n).len() == n,
        forall|i: int| 0 <= i < n ==> #[trigger] canonical_all(ts, n)[i] == canonical(ts[i]),
    decreases n,
{
    if n > 0 {
        lemma_canonical_all(ts, (n - 1) as nat);
    }
}

/// The value with the members of each object in the order of their names.
pub fn canonicalize(value: &Json) -> (r: Json)
    ensures
        r@ == canonical(value@),
    decreases *value,
{
    match value {
        Json::Array(v) => {
            let mut w: Vec<Json> = Vec::new();
            let mut i: usize = 0;
            while i < v.len()
                invariant
                    i <= v@.len(),
                    w@.len() == i,
                    *value == Json::Array(*v),
                    forall|j: int| 0 <= j < i ==> tree(#[trigger] w@[j]) == canonical(tree(v@[j])),
                decreases v@.len() - i,
            {
                proof {
                    lemma_element_is_smaller(*value, *v, i as int);
                }
                w.push(canonicalize(&v[i]));
                i += 1;
            }
            proof {
                let ts = trees(*v, v@.len());
                lemma_trees(*v, v@.len());
                lemma_canonical_all(ts, ts.len());
                lemma_trees_are(w, canonical_all(ts, ts.len()));
            }
            Json::Array(w)
        },
        Json::Object(v) => {
            let mut w: Vec<Member> = Vec::new();
            let ghost ms = members(*v, v@.len());
            let mut i: usize = 0;
            proof {
                lemma_members(*v, v@.len());
            }
            while i < v.len()
                invariant
                    i <= v@.len(),
                    *value == Json::Object(*v),
                    ms == members(*v, v@.len()),
                    ms.len() == v@.len(),
                    forall|j: int|
                        0 <= j < ms.len() ==> #[trigger] ms[j] == (v@[j].key@, tree(v@[j].value)),
                    members(w, w@.len()) == canonical_members(ms, i as nat),
                decreases v@.len() - i,
            {
                proof {
                    lemma_member_is_smaller(*value, *v, i as int);
                }
                let one = canonicalize(&v[i].value);
                insert_sorted(&mut w, v[i].key.clone(), one);
                assert(ms[i as int] == (v@[i as int].key@, tree(v@[i as int].value)));
                i += 1;
            }
            Json::Object(w)
        },
        _ => value.duplicate(),
    }
}

/// The compact text of a value.
pub fn compact_text(value: &Json) -> (r: String)
    ensures
        r@ == compact(value@),
    decreases *value,
{
    match value {
        Json::Null => "null".to_owned(),
        Json::Bool(b) => if *b {
            "true".to_owned()
        } else {
            "false".to_owned()
        },
        Json::Number(s) => s.clone(),
        Json::Text(s) => quote(s.as_str()),
        Json::Array(v) => {
            let ghost ts = trees(*v, v@.len());
            let mut r = "[".to_owned();
            let mut i: usize = 0;
            proof {
                lemma_trees(*v, v@.len());
                assert("["@ + compact_all(ts, 0) =~= "["@);
            }
            while i < v.len()
                invariant
                    i <= v@.len(),
                    *value == Json::Array(*v),
                    ts == trees(*v, v@.len()),
                    ts.len() == v@.len(),
                    forall|j: int| 0 <= j < ts.len() ==> #[trigger] ts[j] == tree(v@[j]),
                    r@ == "["@ + compact_all(ts, i as nat),
                decreases v@.len() - i,
            {
                if i > 0 {
                    r.append(",");
                }
                proof {
                    lemma_element_is_smaller(*value, *v, i as int);
                }
                let one = compact_text(&v[i]);
                r.append(one.as_str());
                i += 1;
                assert(ts[i - 1] == tree(v@[i - 1]));
                assert(r@ =~= "["@ + compact_all(ts, i as nat));
            }
            r.append("]");
            r
        },
        Json::Object(v) => {
            let ghost ms = members(*v, v@.len());
            let mut r = "{".to_owned();
            let mut i: usize = 0;
            proof {
                lemma_members(*v, v@.len());
                assert("{"@ + compact_members(ms, 0) =~= "{"@);
            }
            while i < v.len()
                invariant
                    i <= v@.len(),
                    *value == Json::Object(*v),
                    ms == members(*v, v@.len()),
                    ms.len() == v@.len(),
                    forall|j: int|
                        0 <= j < ms.len() ==> #[trigger] ms[j] == (v@[j].key@, tree(v@[j].value)),
                    r@ == "{"@ + compact_members(ms, i as nat),
                decreases v@.len() - i,
            {
                if i > 0 {
                    r.append(",");
                }
                let key = quote(v[i].key.as_str());
                r.append(key.as_str());
                r.append(":");
                proof {
                    lemma_member_is_smaller(*value, *v, i as int);
                }
                let one = compact_text(&v[i].value);
                r.append(one.as_str());
                i += 1;
                assert(ms[i - 1] == (v@[i - 1].key@, tree(v@[i - 1].value)));
                assert(r@ =~= "{"@ + compact_members(ms, i as nat));
            }
            r.append("}");
            r
        },
    }
}

/// The compact text of a value, the members of each object in the order of
/// their names.
pub fn canonical_json(value: &Json) -> (r: String)
    ensures
        r@ == compact(canonical(value@)),
{
    compact_text(&canonicalize(value))
}

// ---------------------------------------------------------------------------
// Laws

/// Whether the names of the members strictly rise.
pub open spec fn rising(ms: Seq<(Seq<char>, Tree)>) -> bool {
    forall|i: int, j: int|
        0 <= i < j < ms.len() ==> less((#[trigger] ms[i]).0, (#[trigger] ms[j]).0)
}

proof fn lemma_insert_rises(ms: Seq<(Seq<char>, Tree)>, key: Seq<char>, value: Tree)
    requires
        rising(ms),
    ensures
        rising(insert_member(ms, key, value)),
        insert_member(ms, key, value).len() > 0,
        forall|i: int|
            0 <= i < insert_member(ms, key, value).len() ==> (#[trigger] insert_member(
                ms,
                key,
                value,
            )[i]).0 == key || exists|j: int|
                0 <= j < ms.len() && (#[trigger] ms[j]).0 == insert_member(ms, key, value)[i].0,
    decreases ms.len(),
{
    let out = insert_member(ms, key, value);
    if ms.len() == 0 {
    } else if ms[0].0 == key {
        assert forall|i: int| 0 <= i < out.len() implies (#[trigger] out[i]).0 == ms[i].0 by {}
        assert(rising(out));
    } else if less(key, ms[0].0) {
        assert forall|i: int, j: int| 0 <= i < j < out.len() implies less(
            (#[trigger] out[i]).0,
            (#[trigger] out[j]).0,
        ) by {
            if i == 0 {
                if j > 1 {
                    assert(less(ms[0].0, ms[j - 1].0));
                    less_is_transitive(key, ms[0].0, ms[j - 1].0);
                }
            } else {
                assert(less(ms[i - 1].0, ms[j - 1].0));
            }
        }
        assert forall|i: int| 0 <= i < out.len() implies (#[trigger] out[i]).0 == key || exists|
            j: int,
        | 0 <= j < ms.len() && (#[trigger] ms[j]).0 == out[i].0 by {
            if i > 0 {
                assert(ms[i - 1].0 == out[i].0);
            }
        }
    } else {
        let rest = insert_member(ms.skip(1), key, value);
        lemma_insert_rises(ms.skip(1), key, value);
        less_is_total(key, ms[0].0);
        assert forall|j: int| 0 <= j < rest.len() implies less(ms[0].0, (#[trigger] rest[j]).0) by {
            if rest[j].0 != key {
                let k = choose|k: int|
                    0 <= k < ms.skip(1).len() && (#[trigger] ms.skip(1)[k]).0 == rest[j].0;
                assert(ms.skip(1)[k] == ms[k + 1]);
                assert(less(ms[0].0, ms[k + 1].0));
            }
        }
        assert forall|i: int, j: int| 0 <= i < j < out.len() implies less(
            (#[trigger] out[i]).0,
            (#[trigger] out[j]).0,
        ) by {
            assert(out[j] == rest[j - 1]);
            if i > 0 {
                assert(out[i] == rest[i - 1]);
            }
        }
        assert forall|i: int| 0 <= i < out.len() implies (#[trigger] out[i]).0 == key || exists|
            j: int,
        | 0 <= j < ms.len() && (#[trigger] ms[j]).0 == out[i].0 by {
            if i == 0 {
                assert(ms[0].0 == out[0].0);
            } else {
                assert(out[i] == rest[i - 1]);
                if rest[i - 1].0 != key {
                    let k = choose|k: int|
                        0 <= k < ms.skip(1).len() && (#[trigger] ms.skip(1)[k]).0 == rest[i - 1].0;
                    assert(ms.skip(1)[k] == ms[k + 1]);
                    assert(ms[k + 1].0 == out[i].0);
                }
            }
        }
    }
}

/// In the canonical form the names of an object's members strictly rise.
pub proof fn canonical_members_rise(ms: Seq<(Seq<char>, Tree)>, n: nat)
    requires
        n <= ms.len(),
    ensures
        rising(canonical_members(ms, n)),
    decreases n,
{
    if n > 0 {
        canonical_members_rise(ms, (n - 1) as nat);
        lemma_insert_rises(
            canonical_members(ms, (n - 1) as nat),
            ms[n - 1].0,
            canonical(ms[n - 1].1),
        );
    }
}

// ---------------------------------------------------------------------------
// Building

/// An object without members.
pub open spec fn no_members() -> Tree {
    Tree::Object(Seq::empty())
}

/// The object with one more member.
pub open spec fn with_member(t: Tree, key: Seq<char>, value: Tree) -> Tree {
    match t {
        Tree::Object(ms) => Tree::Object(ms.push((key, value))),
        _ => t,
    }
}

/// An array without elements.
pub open spec fn no_elements() -> Tree {
    Tree::Array(Seq::empty())
}

/// The array with one more element.
pub open spec fn with_element(t: Tree, value: Tree) -> Tree {
    match t {
        Tree::Array(ts) => Tree::Array(ts.push(value)),
        _ => t,
    }
}

/// A number.
pub open spec fn number_of(n: nat) -> Tree {
    Tree::Number(decimal(n))
}

impl Json {
    /// An object without members.
    pub fn object() -> (r: Json)
        ensures
            r@ == no_members(),
    {
        Json::Object(Vec::new())
    }

    /// The object with one more member.
    pub fn with(self, key: &str, value: Json) -> (r: Json)
        ensures
            r@ == with_member(self@, key@, value@),
    {
        match self {
            Json::Object(v) => {
                let ghost before = v;
                let mut w = v;
                w.push(Member { key: key.to_owned(), value });
                proof {
                    lemma_members(before, before@.len());
                    lemma_members_are(
                        w,
                        members(before, before@.len()).push((key@, tree(value))),
                    );
                }
                Json::Object(w)
            },
            other => other,
        }
    }

    /// An array without elements.
    pub fn array() -> (r: Json)
        ensures
            r@ == no_elements(),
    {
        Json::Array(Vec::new())
    }

    /// The array with one more element.
    pub fn and(self, value: Json) -> (r: Json)
        ensures
            r@ == with_element(self@, value@),
    {
        match self {
            Json::Array(v) => {
                let ghost before = v;
                let mut w = v;
                w.push(value);
                proof {
                    lemma_trees(before, before@.len());
                    lemma_trees_are(w, trees(before, before@.len()).push(tree(value)));
                }
                Json::Array(w)
            },
            other => other,
        }
    }

    /// A text.
    pub fn text(s: &str) -> (r: Json)
        ensures
            r@ == Tree::Text(s@),
    {
        Json::Text(s.to_owned())
    }

    /// A number.
    pub fn number(n: u64) -> (r: Json)
        ensures
            r@ == number_of(n as nat),
    {
        Json::Number(decimal_text(n))
    }
}

// ---------------------------------------------------------------------------
// Reading records

/// What stands in a record at that place: the member of that name of an object,
/// or the element there of an array.
pub open spec fn field(t: Tree, place: int, name: Seq<char>) -> Option<Tree> {
    match t {
        Tree::Object(ms) => member(ms, name),
        Tree::Array(ts) => if 0 <= place < ts.len() {
            Some(ts[place])
        } else {
            None
        },
        _ => None,
    }
}

/// Whether the value can be a record of that many places.
pub open spec fn is_record(t: Tree, places: nat) -> bool {
    match t {
        Tree::Object(_) => true,
        Tree::Array(ts) => ts.len() <= places,
        _ => false,
    }
}

/// Whether the name is one of these.
pub open spec fn is_named(names: Seq<&str>, name: Seq<char>) -> bool {
    exists|i: int| 0 <= i < names.len() && (#[trigger] names[i])@ == name
}

/// Whether the value can be a record with these members and no other.
pub open spec fn is_strict_record(t: Tree, names: Seq<&str>) -> bool {
    &&& is_record(t, names.len())
    &&& t matches Tree::Object(ms) ==> forall|i: int|
        0 <= i < ms.len() ==> is_named(names, (#[trigger] ms[i]).0)
}

/// A text that a record has to have.
pub open spec fn owed_text(t: Option<Tree>) -> Option<Seq<char>> {
    text_tree(t)
}

/// A text that a record can have: nothing where something else stands there.
pub open spec fn spare_text(t: Option<Tree>) -> Option<Option<Seq<char>>> {
    match t {
        None => Some(None),
        Some(Tree::Null) => Some(None),
        Some(Tree::Text(s)) => Some(Some(s)),
        _ => None,
    }
}

/// Texts that a record has to have.
pub open spec fn owed_texts(t: Option<Tree>) -> Option<Seq<Seq<char>>> {
    match t {
        Some(Tree::Array(ts)) => if forall|i: int|
            0 <= i < ts.len() ==> (#[trigger] ts[i]) is Text {
            Some(Seq::new(ts.len(), |i: int| ts[i]->Text_0))
        } else {
            None
        },
        _ => None,
    }
}

impl Json {
    /// What stands in a record at that place.
    pub fn field(&self, place: usize, name: &str) -> (r: Option<&Json>)
        ensures
            opt_tree(r) == field(self@, place as int, name@),
    {
        match self {
            Json::Object(_) => self.get(name),
            Json::Array(v) => {
                proof {
                    lemma_trees(*v, v@.len());
                }
                if place < v.len() {
                    Some(&v[place])
                } else {
                    None
                }
            },
            _ => None,
        }
    }

    /// Whether the value can be a record of that many places.
    pub fn is_record(&self, places: usize) -> (r: bool)
        ensures
            r == is_record(self@, places as nat),
    {
        match self {
            Json::Object(_) => true,
            Json::Array(v) => {
                proof {
                    lemma_trees(*v, v@.len());
                }
                v.len() <= places
            },
            _ => false,
        }
    }

    /// Whether the value can be a record with these members and no other.
    pub fn is_strict_record(&self, names: &Vec<&str>) -> (r: bool)
        ensures
            r == is_strict_record(self@, names@),
    {
        if !self.is_record(names.len()) {
            return false;
        }
        match self {
            Json::Object(v) => {
                let ghost ms = members(*v, v@.len());
                proof {
                    lemma_members(*v, v@.len());
                }
                let mut i: usize = 0;
                while i < v.len()
                    invariant
                        i <= v@.len(),
                        ms == members(*v, v@.len()),
                        ms.len() == v@.len(),
                        forall|j: int|
                            0 <= j < ms.len() ==> #[trigger] ms[j] == (
                                v@[j].key@,
                                tree(v@[j].value),
                            ),
                        forall|j: int| 0 <= j < i ==> is_named(names@, (#[trigger] ms[j]).0),
                        self@ == Tree::Object(ms),
                    decreases v@.len() - i,
                {
                    let mut known = false;
                    let mut k: usize = 0;
                    while k < names.len()
                        invariant
                            k <= names@.len(),
                            i < v@.len(),
                            known == exists|l: int|
                                0 <= l < k && (#[trigger] names@[l])@ == v@[i as int].key@,
                        decreases names@.len() - k,
                    {
                        if str_eq(names[k], v[i].key.as_str()) {
                            assert(names@[k as int]@ == v@[i as int].key@);
                            known = true;
                        }
                        k += 1;
                    }
                    assert(ms[i as int].0 == v@[i as int].key@);
                    if !known {
                        assert(self@->Object_0[i as int] == ms[i as int]);
                        return false;
                    }
                    assert(is_named(names@, ms[i as int].0));
                    i += 1;
                }
                true
            },
            _ => true,
        }
    }
}

/// A text that a record has to have.
pub fn read_text(value: Option<&Json>) -> (r: Option<String>)
    ensures
        opt_view(r) == owed_text(opt_tree(value)),
{
    match value {
        Some(Json::Text(s)) => Some(s.clone()),
        _ => None,
    }
}

/// A text that a record can have.
pub fn read_spare_text(value: Option<&Json>) -> (r: Option<Option<String>>)
    ensures
        match r {
            Some(s) => spare_text(opt_tree(value)) == Some(opt_view(s)),
            None => spare_text(opt_tree(value)) is None,
        },
{
    match value {
        None => Some(None),
        Some(Json::Null) => Some(None),
        Some(Json::Text(s)) => Some(Some(s.clone())),
        _ => None,
    }
}

/// A number that a record has to have.
pub fn read_number(value: Option<&Json>) -> (r: Option<u64>)
    ensures
        match r {
            Some(n) => number_tree(opt_tree(value)) == Some(n as nat),
            None => number_tree(opt_tree(value)) is None,
        },
{
    match value {
        Some(j) => j.as_u64(),
        None => None,
    }
}

/// A truth value that a record has to have.
pub fn read_bool(value: Option<&Json>) -> (r: Option<bool>)
    ensures
        r == bool_tree(opt_tree(value)),
{
    match value {
        Some(j) => j.as_bool(),
        None => None,
    }
}

/// Texts that a record has to have.
pub fn read_texts(value: Option<&Json>) -> (r: Option<Vec<String>>)
    ensures
        match r {
            Some(v) => owed_texts(opt_tree(value)) == Some(views(v@)),
            None => owed_texts(opt_tree(value)) is None,
        },
{
    match value {
        Some(Json::Array(v)) => {
            let ghost ts = trees(*v, v@.len());
            proof {
                lemma_trees(*v, v@.len());
            }
            let mut r: Vec<String> = Vec::new();
            let mut i: usize = 0;
            while i < v.len()
                invariant
                    i <= v@.len(),
                    ts == trees(*v, v@.len()),
                    ts.len() == v@.len(),
                    forall|j: int| 0 <= j < ts.len() ==> #[trigger] ts[j] == tree(v@[j]),
                    r@.len() == i,
                    forall|j: int|
                        0 <= j < i ==> (#[trigger] ts[j]) == Tree::Text(r@[j]@),
                    opt_tree(value) == Some(Tree::Array(ts)),
                decreases v@.len() - i,
            {
                match &v[i] {
                    Json::Text(s) => {
                        assert(ts[i as int] == Tree::Text(s@));
                        r.push(s.clone());
                    },
                    _ => {
                        assert(!(ts[i as int] is Text));
                        return None;
                    },
                }
                i += 1;
            }
            assert(views(r@) =~= Seq::new(ts.len(), |i: int| ts[i]->Text_0));
            Some(r)
        },
        _ => None,
    }
}

// ---------------------------------------------------------------------------
// What the canonical form keeps

proof fn lemma_inserted(ms: Seq<(Seq<char>, Tree)>, key: Seq<char>, value: Tree, q: Seq<char>)
    ensures
        member(insert_member(ms, key, value), q) == (if q == key {
            Some(value)
        } else {
            member(ms, q)
        }),
    decreases ms.len(),
{
    reveal_with_fuel(member, 2);
    let out = insert_member(ms, key, value);
    if ms.len() == 0 {
        assert(out.skip(1).len() == 0);
    } else if ms[0].0 == key {
        assert(out.skip(1) =~= ms.skip(1));
    } else if less(key, ms[0].0) {
        assert(out.skip(1) =~= ms);
    } else {
        assert(out.skip(1) =~= insert_member(ms.skip(1), key, value));
        lemma_inserted(ms.skip(1), key, value, q);
    }
}

proof fn lemma_last_counts(ms: Seq<(Seq<char>, Tree)>, n: nat, q: Seq<char>)
    requires
        n <= ms.len(),
    ensures
        forall|i: int|
            0 <= i < n && (#[trigger] ms[i]).0 == q && (forall|j: int|
                i < j < n ==> (#[trigger] ms[j]).0 != q) ==> member(canonical_members(ms, n), q)
                == Some(canonical(ms[i].1)),
        (forall|j: int| 0 <= j < n ==> (#[trigger] ms[j]).0 != q) ==> member(
            canonical_members(ms, n),
            q,
        ) is None,
    decreases n,
{
    if n > 0 {
        lemma_last_counts(ms, (n - 1) as nat, q);
        lemma_inserted(
            canonical_members(ms, (n - 1) as nat),
            ms[n - 1].0,
            canonical(ms[n - 1].1),
            q,
        );
    }
}

/// The canonical form of an object has a member of each name that the object has, with
/// the canonical form of the last value under that name, and no others; that of an array
/// has the canonical forms of its elements in their places; all else is its own canonical
/// form.
pub proof fn the_canonical_form_keeps_what_is_said(t: Tree, q: Seq<char>)
    ensures
        t matches Tree::Object(ms) ==> {
            &&& forall|i: int|
                0 <= i < ms.len() && (#[trigger] ms[i]).0 == q && (forall|j: int|
                    i < j < ms.len() ==> (#[trigger] ms[j]).0 != q) ==> get_tree(canonical(t), q)
                    == Some(canonical(ms[i].1))
            &&& (forall|j: int| 0 <= j < ms.len() ==> (#[trigger] ms[j]).0 != q) ==> get_tree(
                canonical(t),
                q,
            ) is None
        },
        t matches Tree::Array(ts) ==> (canonical(t) matches Tree::Array(us) && us.len() == ts.len()
            && forall|i: int| 0 <= i < ts.len() ==> #[trigger] us[i] == canonical(ts[i])),
        t is Null || t is Bool || t is Number || t is Text ==> canonical(t) == t,
{
    match t {
        Tree::Object(ms) => {
            lemma_last_counts(ms, ms.len(), q);
        },
        Tree::Array(ts) => {
            lemma_elements(ts, ts.len());
        },
        _ => {},
    }
}

proof fn lemma_elements(ts: Seq<Tree>, n: nat)
    requires
        n <= ts.len(),
    ensures
        canonical_all(ts, n).len() == n,
        forall|i: int| 0 <= i < n ==> #[trigger] canonical_all(ts, n)[i] == canonical(ts[i]),
    decreases n,
{
    if n > 0 {
        lemma_elements(ts, (n - 1) as nat);
    }
}

/// The text of a value is what its kind says: words for what is nothing, true or false,
/// the digits of a number, a text between quotes, and elements and members between
/// brackets and braces.
pub proof fn values_are_written(t: Tree)
    ensures
        t is Null ==> compact(t) == "null"@,
        t == Tree::Bool(true) ==> compact(t) == "true"@,
        t == Tree::Bool(false) ==> compact(t) == "false"@,
        t matches Tree::Number(s) ==> compact(t) == s,
        t is Text ==> compact(t)[0] == '"' && compact(t).last() == '"',
        t is Array ==> compact(t)[0] == '[' && compact(t).last() == ']',
        t is Object ==> compact(t)[0] == '{' && compact(t).last() == '}',
        t matches Tree::Array(ts) ==> (ts.len() == 1 ==> compact(t) == "["@ + compact(ts[0]) + "]"@),
        t matches Tree::Array(ts) ==> (ts.len() == 2 ==> compact(t) == "["@ + compact(ts[0]) + ","@
            + compact(ts[1]) + "]"@),
        t matches Tree::Object(ms) ==> (ms.len() == 1 ==> compact(t) == "{"@ + quoted(ms[0].0) + ":"@
            + compact(ms[0].1) + "}"@),
{
    reveal_strlit("[");
    reveal_strlit("]");
    reveal_strlit("{");
    reveal_strlit("}");
    match t {
        Tree::Array(ts) => {
            assert(compact_all(ts, 1) == compact(ts[0]) || ts.len() == 0);
            if ts.len() == 2 {
                assert(compact_all(ts, 2) == compact_all(ts, 1) + ","@ + compact(ts[1]));
                assert(compact(t) =~= "["@ + compact(ts[0]) + ","@ + compact(ts[1]) + "]"@);
            }
        },
        Tree::Object(ms) => {
            if ms.len() == 1 {
                assert(compact_members(ms, 1) == quoted(ms[0].0) + ":"@ + compact(ms[0].1));
                assert(compact(t) =~= "{"@ + quoted(ms[0].0) + ":"@ + compact(ms[0].1) + "}"@);
            }
        },
        _ => {},
    }
}

/// A text between quotes holds no bare quote or control character, and no character of it
/// is lost.
pub proof fn texts_are_quoted(s: Seq<char>, c: char)
    ensures
        all_escaped(s.push(c)) == all_escaped(s) + escaped(c),
        all_escaped(s).len() >= s.len(),
        forall|i: int| 0 <= i < all_escaped(s).len() ==> #[trigger] all_escaped(s)[i] > '\u{1f}',
        forall|i: int| 0 <= i < escaped(c).len() ==> #[trigger] escaped(c)[i] > '\u{1f}',
        c > '\u{1f}' && c != '"' && c != '\\' ==> escaped(c) == seq![c],
        c == '"' || c == '\\' ==> escaped(c) == seq!['\\', c],
        c == '\n' ==> escaped(c) == seq!['\\', 'n'],
    decreases s.len(),
{
    assert(s.push(c).drop_last() =~= s);
    if s.len() > 0 {
        texts_are_quoted(s.drop_last(), s.last());
        let before = all_escaped(s.drop_last());
        let last = escaped(s.last());
        assert forall|i: int| 0 <= i < all_escaped(s).len() implies #[trigger] all_escaped(s)[i]
            > '\u{1f}' by {
            if i < before.len() {
                assert(all_escaped(s)[i] == before[i]);
            } else {
                assert(all_escaped(s)[i] == last[i - before.len()]);
            }
        }
    }
}

} // verus!
