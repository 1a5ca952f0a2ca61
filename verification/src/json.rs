use vstd::prelude::*;

verus! {

/// Mathematical model of a JSON document.
pub enum JsonView {
    Bool(bool),
    Number(nat),
    Str(Seq<char>),
    Array(Seq<JsonView>),
    Object(Seq<(Seq<char>, JsonView)>),
}

/// A JSON document whose object members keep their insertion order.
pub enum JsonValue {
    Bool(bool),
    Number(u64),
    Str(String),
    Array(Vec<JsonValue>),
    Object(Vec<(String, JsonValue)>),
}

pub open spec fn items_view(items: Seq<JsonValue>) -> Seq<JsonView>
    decreases items,
{
    if items.len() == 0 {
        Seq::empty()
    } else {
        items_view(items.drop_last()).push(items.last().view_of())
    }
}

pub open spec fn members_view(members: Seq<(String, JsonValue)>) -> Seq<(Seq<char>, JsonView)>
    decreases members,
{
    if members.len() == 0 {
        Seq::empty()
    } else {
        members_view(members.drop_last()).push((members.last().0@, members.last().1.view_of()))
    }
}

impl JsonValue {
    pub open spec fn view_of(self) -> JsonView
        decreases self,
    {
        match self {
            JsonValue::Bool(b) => JsonView::Bool(b),
            JsonValue::Number(n) => JsonView::Number(n as nat),
            JsonValue::Str(s) => JsonView::Str(s@),
            JsonValue::Array(items) => JsonView::Array(items_view(items@)),
            JsonValue::Object(members) => JsonView::Object(members_view(members@)),
        }
    }
}

} // verus!

verus! {

impl View for JsonValue {
    type V = JsonView;

    open spec fn view(&self) -> JsonView {
        self.view_of()
    }
}

pub fn new_members() -> (m: Vec<(String, JsonValue)>)
    ensures
        members_view(m@) == Seq::<(Seq<char>, JsonView)>::empty(),
{
    Vec::new()
}

pub fn put(m: &mut Vec<(String, JsonValue)>, key: &str, value: JsonValue)
    ensures
        members_view(final(m)@) == members_view(old(m)@).push((key@, value@)),
{
    let ghost before = m@;
    m.push((String::from_str(key), value));
    assert(m@.drop_last() =~= before);
}

pub open spec fn jstr(s: Seq<char>) -> JsonView {
    JsonView::Str(s)
}

pub open spec fn jbool(b: bool) -> JsonView {
    JsonView::Bool(b)
}

pub open spec fn jnum(n: nat) -> JsonView {
    JsonView::Number(n)
}

pub open spec fn jarr(items: Seq<JsonView>) -> JsonView {
    JsonView::Array(items)
}

pub open spec fn jobj(members: Seq<(Seq<char>, JsonView)>) -> JsonView {
    JsonView::Object(members)
}

/// An array of JSON strings.
pub open spec fn str_items(ss: Seq<Seq<char>>) -> Seq<JsonView> {
    ss.map_values(|s: Seq<char>| jstr(s))
}

pub fn jv_str(s: &str) -> (v: JsonValue)
    ensures
        v@ == jstr(s@),
{
    JsonValue::Str(String::from_str(s))
}

pub fn jv_string(s: String) -> (v: JsonValue)
    ensures
        v@ == jstr(s@),
{
    JsonValue::Str(s)
}

pub fn jv_bool(b: bool) -> (v: JsonValue)
    ensures
        v@ == jbool(b),
{
    JsonValue::Bool(b)
}

pub fn jv_num(n: u64) -> (v: JsonValue)
    ensures
        v@ == jnum(n as nat),
{
    JsonValue::Number(n)
}

pub fn new_items() -> (v: Vec<JsonValue>)
    ensures
        items_view(v@) == Seq::<JsonView>::empty(),
{
    Vec::new()
}

pub fn push_item(v: &mut Vec<JsonValue>, x: JsonValue)
    ensures
        items_view(final(v)@) == items_view(old(v)@).push(x@),
{
    let ghost before = v@;
    v.push(x);
    assert(v@.drop_last() =~= before);
}

pub fn jv_array(items: Vec<JsonValue>) -> (v: JsonValue)
    ensures
        v@ == jarr(items_view(items@)),
{
    JsonValue::Array(items)
}

pub fn jv_object(members: Vec<(String, JsonValue)>) -> (v: JsonValue)
    ensures
        v@ == jobj(members_view(members@)),
{
    JsonValue::Object(members)
}

/// A JSON array holding the given texts as strings.
pub fn jv_str_array(ss: &Vec<String>) -> (v: JsonValue)
    ensures
        v@ == jarr(str_items(ss.deep_view())),
{
    let mut items = new_items();
    let mut i: usize = 0;
    while i < ss.len()
        invariant
            i <= ss.len(),
            items_view(items@) =~= str_items(ss.deep_view().take(i as int)),
        decreases ss.len() - i,
    {
        push_item(&mut items, jv_string(ss[i].clone()));
        i = i + 1;
    }
    assert(ss.deep_view().take(ss.len() as int) =~= ss.deep_view());
    jv_array(items)
}

/// A JSON array holding one string.
pub fn jv_str_array1(s: &str) -> (v: JsonValue)
    ensures
        v@ == jarr(seq![jstr(s@)]),
{
    let mut items = new_items();
    push_item(&mut items, jv_str(s));
    jv_array(items)
}


/// The value of the first member named `key`, if any.
pub open spec fn member_of(ms: Seq<(Seq<char>, JsonView)>, key: Seq<char>) -> Option<JsonView>
    decreases ms.len(),
{
    if ms.len() == 0 {
        None
    } else if ms[0].0 == key {
        Some(ms[0].1)
    } else {
        member_of(ms.drop_first(), key)
    }
}

/// The member `key` of an object.
pub open spec fn field(v: JsonView, key: Seq<char>) -> Option<JsonView> {
    match v {
        JsonView::Object(ms) => member_of(ms, key),
        _ => None,
    }
}

/// The items of an array (none for any other value).
pub open spec fn items_of(v: JsonView) -> Seq<JsonView> {
    match v {
        JsonView::Array(items) => items,
        _ => Seq::empty(),
    }
}


pub proof fn lemma_member_at(ms: Seq<(Seq<char>, JsonView)>, key: Seq<char>, k: int)
    requires
        0 <= k < ms.len(),
        ms[k].0 == key,
        forall|j: int| 0 <= j < k ==> (#[trigger] ms[j]).0 != key,
    ensures
        member_of(ms, key) == Some(ms[k].1),
    decreases k,
{
    if k > 0 {
        let rest = ms.drop_first();
        assert forall|j: int| 0 <= j < k - 1 implies (#[trigger] rest[j]).0 != key by {
            assert(rest[j] == ms[j + 1]);
        }
        assert(ms[0].0 != key);
        lemma_member_at(rest, key, k - 1);
    }
}

pub proof fn lemma_member_absent(ms: Seq<(Seq<char>, JsonView)>, key: Seq<char>)
    requires
        forall|j: int| 0 <= j < ms.len() ==> (#[trigger] ms[j]).0 != key,
    ensures
        member_of(ms, key) is None,
    decreases ms.len(),
{
    if ms.len() > 0 {
        let rest = ms.drop_first();
        assert forall|j: int| 0 <= j < rest.len() implies (#[trigger] rest[j]).0 != key by {
            assert(rest[j] == ms[j + 1]);
        }
        assert(ms[0].0 != key);
        lemma_member_absent(rest, key);
    }
}

} // verus!
