//! JSON values, and their text, which `serde_json` reads and writes.

use vstd::map::*;
use vstd::prelude::*;
use vstd::utf8::encode_utf8;
use crate::text::same_text;

verus! {

/// A JSON value.
#[derive(Debug, PartialEq)]
pub enum Json {
    Null,
    Bool(bool),
    /// A whole number that is not negative.
    Unsigned(u64),
    /// A whole number, meant for negative ones.
    Negative(i64),
    /// A number that is not whole, or too large; nothing here looks into it.
    Real(RealNumber),
    Text(String),
    Array(Vec<Json>),
    /// Where a name occurs more than once, the last member counts.
    Object(Vec<Member>),
}

/// A member of a JSON object.
#[derive(Debug, PartialEq)]
pub struct Member {
    pub name: String,
    pub value: Json,
}

/// A number that is not whole, or too large, held as it was read.
#[derive(Debug, PartialEq)]
pub struct RealNumber {
    value: serde_json::Value,
}

impl RealNumber {
    #[verifier::type_invariant]
    spec fn is_real(self) -> bool {
        value_view(self.value) is Real
    }

    pub closed spec fn number(self) -> serde_json::Number {
        value_view(self.value)->Real_0
    }
}

/// What a JSON value stands for.
pub enum JsonView {
    Null,
    Bool(bool),
    Int(int),
    Real(serde_json::Number),
    Text(Seq<char>),
    Array(Seq<JsonView>),
    Object(Map<Seq<char>, JsonView>),
}

/// `serde_json::Number`, which a number that is not whole is told by.
#[verifier::external_type_specification]
#[verifier::external_body]
pub struct ExNumber(serde_json::Number);

/// `serde_json::Value`, which holds a whole JSON value.
#[verifier::external_type_specification]
#[verifier::external_body]
pub struct ExValue(serde_json::Value);

// ---------------------------------------------------------------------------
// Views
// ---------------------------------------------------------------------------

pub open spec fn json_view(j: Json) -> JsonView
    decreases j,
{
    match j {
        Json::Null => JsonView::Null,
        Json::Bool(b) => JsonView::Bool(b),
        Json::Unsigned(n) => JsonView::Int(n as int),
        Json::Negative(n) => JsonView::Int(n as int),
        Json::Real(r) => JsonView::Real(r.number()),
        Json::Text(s) => JsonView::Text(s@),
        Json::Array(v) => JsonView::Array(items_view(v@)),
        Json::Object(v) => JsonView::Object(members_view(v@)),
    }
}

pub open spec fn items_view(s: Seq<Json>) -> Seq<JsonView>
    decreases s,
{
    if s.len() == 0 {
        seq![]
    } else {
        items_view(s.drop_last()).push(json_view(s.last()))
    }
}

pub open spec fn members_view(s: Seq<Member>) -> Map<Seq<char>, JsonView>
    decreases s,
{
    if s.len() == 0 {
        Map::empty()
    } else {
        members_view(s.drop_last()).insert(s.last().name@, json_view(s.last().value))
    }
}

impl View for Json {
    type V = JsonView;

    open spec fn view(&self) -> JsonView {
        json_view(*self)
    }
}

impl JsonView {
    /// An object without members.
    pub open spec fn empty() -> JsonView {
        JsonView::Object(Map::empty())
    }

    /// The object with one more member, or another value for it.
    pub open spec fn with(self, name: Seq<char>, value: JsonView) -> JsonView {
        match self {
            JsonView::Object(m) => JsonView::Object(m.insert(name, value)),
            _ => self,
        }
    }

    /// The member of an object.
    pub open spec fn member(self, name: Seq<char>) -> Option<JsonView> {
        match self {
            JsonView::Object(m) => if m.contains_key(name) {
                Some(m[name])
            } else {
                None
            },
            _ => None,
        }
    }

    pub open spec fn text(self) -> Option<Seq<char>> {
        match self {
            JsonView::Text(s) => Some(s),
            _ => None,
        }
    }

    /// The number, where it is whole and fits into 64 bits without a sign.
    pub open spec fn unsigned(self) -> Option<u64> {
        match self {
            JsonView::Int(n) => if 0 <= n <= u64::MAX {
                Some(n as u64)
            } else {
                None
            },
            _ => None,
        }
    }

    pub open spec fn items(self) -> Option<Seq<JsonView>> {
        match self {
            JsonView::Array(s) => Some(s),
            _ => None,
        }
    }

    /// Whether the value holds whole numbers only, and no more than `depth` arrays and objects
    /// inside each other.
    pub open spec fn is_plain(self, depth: nat) -> bool
        decreases depth,
    {
        match self {
            JsonView::Real(_) => false,
            JsonView::Array(s) => depth > 0 && forall|i: int|
                0 <= i < s.len() ==> (#[trigger] s[i]).is_plain((depth - 1) as nat),
            JsonView::Object(m) => depth > 0 && forall|k: Seq<char>| #[trigger]
                m.contains_key(k) ==> m[k].is_plain((depth - 1) as nat),
            _ => true,
        }
    }
}

pub proof fn lemma_items_view(s: Seq<Json>)
    ensures
        items_view(s).len() == s.len(),
        forall|i: int| 0 <= i < s.len() ==> #[trigger] items_view(s)[i] == json_view(s[i]),
    decreases s.len(),
{
    if s.len() > 0 {
        lemma_items_view(s.drop_last());
        assert forall|i: int| 0 <= i < s.len() implies #[trigger] items_view(s)[i] == json_view(
            s[i],
        ) by {
            if i < s.len() - 1 {
                assert(items_view(s.drop_last())[i] == json_view(s.drop_last()[i]));
            }
        }
    }
}

proof fn lemma_items_push(s: Seq<Json>, j: Json)
    ensures
        items_view(s.push(j)) == items_view(s).push(json_view(j)),
{
    assert(s.push(j).drop_last() =~= s);
}

proof fn lemma_members_push(s: Seq<Member>, m: Member)
    ensures
        members_view(s.push(m)) == members_view(s).insert(m.name@, json_view(m.value)),
{
    assert(s.push(m).drop_last() =~= s);
}

// ---------------------------------------------------------------------------
// Building and reading
// ---------------------------------------------------------------------------

impl Json {
    /// An object without members.
    pub fn object() -> (j: Json)
        ensures
            j@ == JsonView::empty(),
    {
        Json::Object(Vec::new())
    }

    /// The object with one more member, or another value for it.
    pub fn with(self, name: &str, value: Json) -> (j: Json)
        ensures
            j@ == self@.with(name@, value@),
    {
        match self {
            Json::Object(mut members) => {
                let m = Member { name: crate::text::owned(name), value };
                proof {
                    lemma_members_push(members@, m);
                }
                members.push(m);
                Json::Object(members)
            },
            other => other,
        }
    }

    pub fn from_text(s: &str) -> (j: Json)
        ensures
            j@ == JsonView::Text(s@),
    {
        Json::Text(crate::text::owned(s))
    }

    /// The member of an object.
    pub fn get(&self, name: &str) -> (r: Option<&Json>)
        ensures
            match self@.member(name@) {
                None => r is None,
                Some(v) => r matches Some(j) && j@ == v,
            },
    {
        let members = match self {
            Json::Object(members) => members,
            _ => {
                return None;
            },
        };
        let ghost all = members@;
        let mut n: usize = members.len();
        assert(all.take(n as int) =~= all);
        while n > 0
            invariant
                n <= all.len(),
                all == members@,
                self@ == JsonView::Object(members_view(all)),
                members_view(all).contains_key(name@) == members_view(
                    all.take(n as int),
                ).contains_key(name@),
                members_view(all)[name@] == members_view(all.take(n as int))[name@],
            decreases n,
        {
            assert(all.take(n as int).last() == all[n - 1]);
            assert(all.take(n as int).drop_last() =~= all.take(n - 1));
            n -= 1;
            let m = &members[n];
            if same_text(m.name.as_str(), name) {
                return Some(&m.value);
            }
        }
        assert(all.take(0) =~= seq![]);
        None
    }

    pub fn as_text(&self) -> (r: Option<&str>)
        ensures
            match self@.text() {
                None => r is None,
                Some(t) => r matches Some(s) && s@ == t,
            },
    {
        match self {
            Json::Text(s) => Some(s.as_str()),
            _ => None,
        }
    }

    pub fn as_unsigned(&self) -> (r: Option<u64>)
        ensures
            r == self@.unsigned(),
    {
        match self {
            Json::Unsigned(n) => Some(*n),
            Json::Negative(n) => if *n >= 0 {
                Some(*n as u64)
            } else {
                None
            },
            _ => None,
        }
    }

    pub fn as_items(&self) -> (r: Option<&Vec<Json>>)
        ensures
            match self@.items() {
                None => r is None,
                Some(s) => r matches Some(v) && items_view(v@) == s,
            },
    {
        match self {
            Json::Array(v) => Some(v),
            _ => None,
        }
    }

    /// Appends an item to a list of items.
    pub fn push_item(items: &mut Vec<Json>, item: Json)
        ensures
            items_view(final(items)@) == items_view(old(items)@).push(item@),
    {
        proof {
            lemma_items_push(items@, item);
        }
        items.push(item);
    }
}

// ---------------------------------------------------------------------------
// Values of serde_json
// ---------------------------------------------------------------------------

/// What a `serde_json::Value` holds: its variant with its content, of a number the whole number
/// that it is, or else the number itself.
pub uninterp spec fn value_view(v: serde_json::Value) -> JsonView;

/// What `serde_json::from_slice` reads from bytes as a value, or what its error says where it
/// fails.
pub uninterp spec fn json_parse(bytes: Seq<u8>) -> Result<JsonView, Seq<char>>;

/// What `serde_json::to_string` writes for a value.
pub uninterp spec fn json_print(value: JsonView) -> Seq<char>;

/// How deep arrays and objects may stand inside each other for a text to be read.
pub const MAX_DEPTH: usize = 127;

/// The outermost part of a `serde_json::Value`.
enum Node<'a> {
    Null,
    Bool(bool),
    Unsigned(u64),
    Negative(i64),
    Real,
    Text(String),
    Array(&'a Vec<serde_json::Value>),
    Object(Vec<(&'a String, &'a serde_json::Value)>),
}

spec fn is_opened(n: Node<'_>, v: JsonView) -> bool {
    match n {
        Node::Null => v == JsonView::Null,
        Node::Bool(b) => v == JsonView::Bool(b),
        Node::Unsigned(n) => v == JsonView::Int(n as int),
        Node::Negative(n) => v == JsonView::Int(n as int),
        Node::Real => v is Real,
        Node::Text(s) => v == JsonView::Text(s@),
        Node::Array(items) => {
            &&& v is Array
            &&& v->Array_0.len() == items@.len()
            &&& forall|i: int|
                0 <= i < items@.len() ==> #[trigger] v->Array_0[i] == value_view(items@[i])
        },
        Node::Object(pairs) => {
            &&& v is Object
            &&& forall|i: int|
                0 <= i < pairs@.len() ==> v->Object_0.contains_key((#[trigger] pairs@[i]).0@)
                    && v->Object_0[pairs@[i].0@] == value_view(*pairs@[i].1)
            &&& forall|k: Seq<char>| #[trigger]
                v->Object_0.contains_key(k) ==> exists|i: int|
                    0 <= i < pairs@.len() && (#[trigger] pairs@[i]).0@ == k
        },
    }
}

/// Tells the variants of `serde_json::Value` apart. A number is given as a whole number where
/// `Number::as_u64` or `Number::as_i64` has one, and is not looked into otherwise; an object is
/// given as the entries of its `serde_json::Map`, one for each of its keys.
#[verifier::external_body]
fn open_value<'a>(v: &'a serde_json::Value) -> (n: Node<'a>)
    ensures
        is_opened(n, value_view(*v)),
{
    match v {
        serde_json::Value::Null => Node::Null,
        serde_json::Value::Bool(b) => Node::Bool(*b),
        serde_json::Value::Number(n) => match (n.as_u64(), n.as_i64()) {
            (Some(u), _) => Node::Unsigned(u),
            (None, Some(i)) => Node::Negative(i),
            (None, None) => Node::Real,
        },
        serde_json::Value::String(s) => Node::Text(s.clone()),
        serde_json::Value::Array(items) => Node::Array(items),
        serde_json::Value::Object(m) => Node::Object(m.iter().collect()),
    }
}

/// What a `serde_json::Value` is made of here; an object starts without members.
enum Part {
    Null,
    Bool(bool),
    Unsigned(u64),
    Negative(i64),
    Text(String),
    Array(Vec<serde_json::Value>),
    Object,
}

spec fn is_made(p: Part, v: JsonView) -> bool {
    match p {
        Part::Null => v == JsonView::Null,
        Part::Bool(b) => v == JsonView::Bool(b),
        Part::Unsigned(n) => v == JsonView::Int(n as int),
        Part::Negative(n) => v == JsonView::Int(n as int),
        Part::Text(s) => v == JsonView::Text(s@),
        Part::Array(items) => {
            &&& v is Array
            &&& v->Array_0.len() == items@.len()
            &&& forall|i: int|
                0 <= i < items@.len() ==> #[trigger] v->Array_0[i] == value_view(items@[i])
        },
        Part::Object => v == JsonView::empty(),
    }
}

/// Makes a `serde_json::Value` of one of its variants; whole numbers by `Number::from`.
#[verifier::external_body]
fn make_value(p: Part) -> (v: serde_json::Value)
    ensures
        is_made(p, value_view(v)),
{
    match p {
        Part::Null => serde_json::Value::Null,
        Part::Bool(b) => serde_json::Value::Bool(b),
        Part::Unsigned(n) => serde_json::Value::Number(serde_json::Number::from(n)),
        Part::Negative(n) => serde_json::Value::Number(serde_json::Number::from(n)),
        Part::Text(s) => serde_json::Value::String(s),
        Part::Array(items) => serde_json::Value::Array(items),
        Part::Object => serde_json::Value::Object(serde_json::Map::new()),
    }
}

/// Calls `serde_json::Map::insert` on the members of an object, which adds a member, or gives
/// it another value where there is one of that name.
#[verifier::external_body]
fn insert_member(v: &mut serde_json::Value, name: String, value: serde_json::Value)
    ensures
        value_view(*final(v)) == value_view(*old(v)).with(name@, value_view(value)),
{
    if let serde_json::Value::Object(m) = v {
        m.insert(name, value);
    }
}

/// `serde_json::Value::clone` gives a value that holds the same.
#[verifier::external_body]
fn copy_value(v: &serde_json::Value) -> (r: serde_json::Value)
    ensures
        value_view(r) == value_view(*v),
{
    v.clone()
}

/// Calls `serde_json::from_slice` for a value. Whether it succeeds, and with what value, or else
/// what its error says, depends on the bytes alone.
#[verifier::external_body]
fn parse_value(bytes: &[u8]) -> (r: Result<serde_json::Value, String>)
    ensures
        match json_parse(bytes@) {
            Err(why) => r matches Err(s) && s@ == why,
            Ok(v) => r matches Ok(x) && value_view(x) == v,
        },
{
    match serde_json::from_slice(bytes) {
        Ok(v) => Ok(v),
        Err(e) => Err(e.to_string()),
    }
}

/// Calls `serde_json::to_string` on a value, which succeeds, since all keys are strings and the
/// serialisation of a value never fails by itself. What it writes depends on what the value
/// holds alone, and `serde_json::from_slice` reads it back, unless the value holds a number that is
/// not whole, or is nested deeper than the reader follows.
#[verifier::external_body]
fn print_value(v: &serde_json::Value) -> (r: Option<String>)
    ensures
        match r {
            Some(s) => s@ == json_print(value_view(*v)) && (value_view(*v).is_plain(
                MAX_DEPTH as nat,
            ) ==> json_parse(encode_utf8(s@)) == Ok::<JsonView, Seq<char>>(value_view(*v))),
            None => false,
        },
{
    serde_json::to_string(v).ok()
}

/// The JSON value that a `serde_json::Value` holds.
pub fn from_value(v: &serde_json::Value) -> (j: Json)
    ensures
        j@ == value_view(*v),
    decreases value_view(*v),
{
    match open_value(v) {
        Node::Null => Json::Null,
        Node::Bool(b) => Json::Bool(b),
        Node::Unsigned(n) => Json::Unsigned(n),
        Node::Negative(n) => Json::Negative(n),
        Node::Real => Json::Real(RealNumber { value: copy_value(v) }),
        Node::Text(s) => Json::Text(s),
        Node::Array(items) => {
            let ghost want = value_view(*v)->Array_0;
            let mut out: Vec<Json> = Vec::new();
            let mut i: usize = 0;
            while i < items.len()
                invariant
                    i <= items@.len() == want.len(),
                    value_view(*v) == JsonView::Array(want),
                    forall|k: int|
                        0 <= k < items@.len() ==> #[trigger] want[k] == value_view(items@[k]),
                    items_view(out@) == want.take(i as int),
                decreases items@.len() - i,
            {
                proof {
                    assert(want[i as int] == value_view(items@[i as int]));
                    assert(decreases_to!(value_view(*v) => value_view(*v)->Array_0));
                    assert(decreases_to!(want => want[i as int]));
                }
                let item = from_value(&items[i]);
                Json::push_item(&mut out, item);
                i += 1;
                assert(items_view(out@) =~= want.take(i as int));
            }
            assert(want.take(i as int) =~= want);
            Json::Array(out)
        },
        Node::Object(pairs) => {
            let ghost want = value_view(*v)->Object_0;
            proof {
                let names = pairs@.map_values(|p: (&String, &serde_json::Value)| p.0@);
                vstd::seq_lib::seq_to_set_is_finite(names);
                assert forall|name: Seq<char>| #[trigger]
                    want.dom().contains(name) implies names.to_set().contains(name) by {
                    assert(want.contains_key(name));
                    let k = choose|k: int| 0 <= k < pairs@.len() && (#[trigger] pairs@[k]).0@ == name;
                    assert(names[k] == name);
                }
                vstd::set_lib::lemma_set_subset_finite(names.to_set(), want.dom());
            }
            let mut out: Vec<Member> = Vec::new();
            let mut i: usize = 0;
            while i < pairs.len()
                invariant
                    i <= pairs@.len(),
                    value_view(*v) == JsonView::Object(want),
                    want.dom().finite(),
                    forall|k: int|
                        0 <= k < pairs@.len() ==> want.contains_key((#[trigger] pairs@[k]).0@)
                            && want[pairs@[k].0@] == value_view(*pairs@[k].1),
                    forall|k: int|
                        0 <= k < i ==> members_view(out@).contains_key((#[trigger] pairs@[k]).0@),
                    forall|name: Seq<char>| #[trigger]
                        members_view(out@).contains_key(name) ==> want.contains_key(name)
                            && members_view(out@)[name] == want[name],
                decreases pairs@.len() - i,
            {
                proof {
                    assert(want[pairs@[i as int].0@] == value_view(*pairs@[i as int].1));
                    assert(decreases_to!(value_view(*v) => value_view(*v)->Object_0));
                    assert(decreases_to!(want => want[pairs@[i as int].0@]));
                }
                let value = from_value(pairs[i].1);
                let m = Member { name: pairs[i].0.clone(), value };
                proof {
                    lemma_members_push(out@, m);
                }
                out.push(m);
                i += 1;
            }
            proof {
                assert forall|name: Seq<char>| #[trigger] want.contains_key(name) implies
                    members_view(out@).contains_key(name) by {
                    let k = choose|k: int| 0 <= k < pairs@.len() && (#[trigger] pairs@[k]).0@ == name;
                    assert(members_view(out@).contains_key(pairs@[k].0@));
                }
                assert(members_view(out@) =~= want);
            }
            Json::Object(out)
        },
    }
}

/// The `serde_json::Value` that holds a JSON value.
pub fn to_value(j: &Json) -> (v: serde_json::Value)
    ensures
        value_view(v) == j@,
    decreases j,
{
    match j {
        Json::Null => make_value(Part::Null),
        Json::Bool(b) => make_value(Part::Bool(*b)),
        Json::Unsigned(n) => make_value(Part::Unsigned(*n)),
        Json::Negative(n) => make_value(Part::Negative(*n)),
        Json::Real(r) => {
            proof {
                use_type_invariant(r);
            }
            copy_value(&r.value)
        },
        Json::Text(s) => make_value(Part::Text(s.clone())),
        Json::Array(items) => {
            let mut out: Vec<serde_json::Value> = Vec::new();
            let mut i: usize = 0;
            while i < items.len()
                invariant
                    i <= items@.len(),
                    out@.len() == i,
                    *j == Json::Array(*items),
                    forall|k: int|
                        0 <= k < i ==> value_view(#[trigger] out@[k]) == json_view(items@[k]),
                decreases items@.len() - i,
            {
                assert(decreases_to!(*j => j->Array_0));
                assert(decreases_to!(items => items@[i as int]));
                let item = to_value(&items[i]);
                out.push(item);
                i += 1;
            }
            let ghost values = out@;
            let v = make_value(Part::Array(out));
            proof {
                lemma_items_view(items@);
                assert(value_view(v)->Array_0 =~= items_view(items@)) by {
                    assert forall|k: int| 0 <= k < items@.len() implies #[trigger] value_view(
                        v,
                    )->Array_0[k] == items_view(items@)[k] by {
                        assert(value_view(values[k]) == json_view(items@[k]));
                    }
                }
            }
            v
        },
        Json::Object(members) => {
            let mut v = make_value(Part::Object);
            let mut i: usize = 0;
            assert(members@.take(0) =~= seq![]);
            while i < members.len()
                invariant
                    i <= members@.len(),
                    *j == Json::Object(*members),
                    value_view(v) == JsonView::Object(members_view(members@.take(i as int))),
                decreases members@.len() - i,
            {
                assert(decreases_to!(*j => j->Object_0));
                assert(decreases_to!(members => members@[i as int]));
                assert(members@.take(i + 1).drop_last() =~= members@.take(i as int));
                assert(members@.take(i + 1).last() == members@[i as int]);
                let value = to_value(&members[i].value);
                insert_member(&mut v, members[i].name.clone(), value);
                i += 1;
            }
            assert(members@.take(i as int) =~= members@);
            v
        },
    }
}

/// Reads a JSON value from bytes, or says why they are none.
pub fn parse_json(bytes: &[u8]) -> (r: Result<Json, String>)
    ensures
        match json_parse(bytes@) {
            Err(why) => r matches Err(s) && s@ == why,
            Ok(v) => r matches Ok(j) && j@ == v,
        },
{
    match parse_value(bytes) {
        Err(why) => Err(why),
        Ok(v) => Ok(from_value(&v)),
    }
}

/// Writes a JSON value as text. The text reads back as the value, unless that holds a number
/// that is not whole, or is nested too deep.
pub fn print_json(j: &Json) -> (s: String)
    ensures
        s@ == json_print(j@),
        j@.is_plain(MAX_DEPTH as nat) ==> json_parse(encode_utf8(s@)) == Ok::<JsonView, Seq<char>>(
            j@,
        ),
{
    let v = to_value(j);
    match print_value(&v) {
        Some(s) => s,
        None => String::new(),
    }
}

/// A member that is put in is there with its value, in place of an earlier one of that name; all
/// others stay.
pub proof fn law_members_are_put_in(
    m: Map<Seq<char>, JsonView>,
    name: Seq<char>,
    value: JsonView,
    other: Seq<char>,
    n: int,
)
    ensures
        JsonView::Object(m).with(name, value).member(name) == Some(value),
        other != name ==> JsonView::Object(m).with(name, value).member(other) == JsonView::Object(
            m,
        ).member(other),
        JsonView::Object(m).member(name) == if m.contains_key(name) {
            Some(m[name])
        } else {
            None
        },
        JsonView::empty().member(name) is None,
        0 <= n <= 0xffff_ffff_ffff_ffff ==> JsonView::Int(n).unsigned() == Some(n as u64),
        n < 0 || n > 0xffff_ffff_ffff_ffff ==> JsonView::Int(n).unsigned() is None,
        JsonView::Text(name).text() == Some(name),
        value !is Text ==> value.text() is None,
        value !is Int ==> value.unsigned() is None,
        value !is Array ==> value.items() is None,
{
}

/// A value stands for what it holds: a number for itself, a text for its characters, a list for
/// its items in order, and an object for its members, of which the last of a name counts.
pub proof fn law_values_stand_for_what_they_hold(
    u: u64,
    i: i64,
    items: Vec<Json>,
    members: Seq<Member>,
    last: Member,
    k: int,
)
    ensures
        Json::Unsigned(u)@ == JsonView::Int(u as int),
        Json::Negative(i)@ == JsonView::Int(i as int),
        Json::Array(items)@ is Array,
        Json::Array(items)@->Array_0.len() == items@.len(),
        0 <= k < items@.len() ==> Json::Array(items)@->Array_0[k] == items@[k]@,
        members_view(members.push(last)) == members_view(members).insert(
            last.name@,
            json_view(last.value),
        ),
        members_view(Seq::empty()) == Map::<Seq<char>, JsonView>::empty(),
{
    lemma_items_view(items@);
    lemma_members_push(members, last);
}

} // verus!
