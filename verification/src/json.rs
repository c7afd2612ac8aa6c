//! JSON trees: the executable form, its mathematical model, and lookup.
use vstd::prelude::*;
use vstd::string::StringSliceAdditionalSpecFns;

verus! {

/// A JSON tree as mathematics sees it. Strings, keys and the text of numbers
/// are byte strings; an object is the sequence of its members in their order.
pub enum Json {
    Null,
    Bool { value: bool },
    Number { digits: Seq<u8> },
    String { text: Seq<u8> },
    Array { items: Seq<Json> },
    Object { members: Seq<JsonMember> },
}

/// A member of an object as mathematics sees it.
pub struct JsonMember {
    pub key: Seq<u8>,
    pub value: Json,
}

/// A JSON tree. Strings and keys hold UTF-8; a number holds the text by
/// which it is written out. The members of an object keep the order in
/// which they were given.
#[derive(Debug, PartialEq, Eq)]
pub enum JsonValue {
    Null,
    Bool(bool),
    Number(Vec<u8>),
    String(Vec<u8>),
    Array(Vec<JsonValue>),
    Object(Vec<Member>),
}

/// A member of an object: a key and the value under it.
#[derive(Debug, PartialEq, Eq)]
pub struct Member {
    pub key: Vec<u8>,
    pub value: JsonValue,
}

/// The models of the trees of a vector, in order.
pub open spec fn views_of(items: Seq<JsonValue>) -> Seq<Json> {
    Seq::new(items.len(), |i: int| items[i]@)
}

/// The models of the members of an object, in order.
pub open spec fn member_views_of(members: Seq<Member>) -> Seq<JsonMember> {
    Seq::new(members.len(), |i: int| JsonMember { key: members[i].key@, value: members[i].value@ })
}

impl View for JsonValue {
    type V = Json;

    open spec fn view(&self) -> Json
        decreases self,
    {
        match self {
            JsonValue::Null => Json::Null,
            JsonValue::Bool(b) => Json::Bool { value: *b },
            JsonValue::Number(digits) => Json::Number { digits: digits@ },
            JsonValue::String(text) => Json::String { text: text@ },
            JsonValue::Array(items) => Json::Array {
                items: Seq::new(
                    items.len() as nat,
                    |i: int|
                        if 0 <= i < items.len() {
                            items[i].view()
                        } else {
                            Json::Null
                        },
                ),
            },
            JsonValue::Object(members) => Json::Object {
                members: Seq::new(
                    members.len() as nat,
                    |i: int|
                        if 0 <= i < members.len() {
                            JsonMember { key: members[i].key@, value: members[i].value.view() }
                        } else {
                            JsonMember { key: Seq::empty(), value: Json::Null }
                        },
                ),
            },
        }
    }
}

/// The value of the first member of `members` under `key`, if there is one.
pub open spec fn first_member(members: Seq<JsonMember>, key: Seq<u8>) -> Option<Json>
    decreases members.len(),
{
    if members.len() == 0 {
        None
    } else if members[0].key == key {
        Some(members[0].value)
    } else {
        first_member(members.drop_first(), key)
    }
}

/// The value that an object holds under `key`; nothing for another tree.
pub open spec fn member(j: Json, key: Seq<u8>) -> Option<Json> {
    match j {
        Json::Object { members } => first_member(members, key),
        _ => None,
    }
}

/// An array's model is the array of its items' models.
pub proof fn lemma_array_view(items: Vec<JsonValue>)
    ensures
        JsonValue::Array(items)@ == (Json::Array { items: views_of(items@) }),
{
    assert(JsonValue::Array(items)@->items =~= views_of(items@));
}

/// An object's model is the object of its members' models.
pub proof fn lemma_object_view(members: Vec<Member>)
    ensures
        JsonValue::Object(members)@ == (Json::Object { members: member_views_of(members@) }),
{
    assert(JsonValue::Object(members)@->members =~= member_views_of(members@));
}

/// Whether two byte strings are the same.
pub fn bytes_eq(a: &[u8], b: &[u8]) -> (r: bool)
    ensures
        r == (a@ == b@),
{
    if a.len() != b.len() {
        return false;
    }
    let mut i: usize = 0;
    while i < a.len()
        invariant
            i <= a.len(),
            a.len() == b.len(),
            a@.take(i as int) == b@.take(i as int),
        decreases a.len() - i,
    {
        if a[i] != b[i] {
            return false;
        }
        assert(a@.take(i + 1) =~= a@.take(i as int).push(a@[i as int]));
        assert(b@.take(i + 1) =~= b@.take(i as int).push(b@[i as int]));
        i += 1;
    }
    assert(a@ =~= a@.take(a.len() as int));
    assert(b@ =~= b@.take(b.len() as int));
    true
}

/// A copy of a byte string.
pub fn copy_bytes(bytes: &[u8]) -> (r: Vec<u8>)
    ensures
        r@ == bytes@,
{
    let mut r: Vec<u8> = Vec::new();
    let mut i: usize = 0;
    while i < bytes.len()
        invariant
            i <= bytes.len(),
            r@ == bytes@.take(i as int),
        decreases bytes.len() - i,
    {
        r.push(bytes[i]);
        assert(bytes@.take(i + 1) =~= bytes@.take(i as int).push(bytes@[i as int]));
        i += 1;
    }
    assert(bytes@ =~= bytes@.take(bytes.len() as int));
    r
}

/// Appends `bytes` to `out`.
pub fn append_bytes(out: &mut Vec<u8>, bytes: &[u8])
    ensures
        final(out)@ == old(out)@ + bytes@,
{
    let mut i: usize = 0;
    while i < bytes.len()
        invariant
            i <= bytes.len(),
            out@ == old(out)@ + bytes@.take(i as int),
        decreases bytes.len() - i,
    {
        out.push(bytes[i]);
        assert(bytes@.take(i + 1) =~= bytes@.take(i as int).push(bytes@[i as int]));
        i += 1;
    }
    assert(bytes@ =~= bytes@.take(bytes.len() as int));
}

impl JsonValue {
    /// A member of an object: the key `key` with the value `value`.
    pub fn member(key: &str, value: JsonValue) -> (r: Member)
        ensures
            r.key@ == key.spec_bytes(),
            r.value == value,
    {
        Member { key: copy_bytes(key.as_bytes()), value }
    }

    /// The value under `key`, where the tree is an object that has such a member.
    #[verifier::loop_isolation(false)]
    pub fn get(&self, key: &str) -> (r: Option<&JsonValue>)
        ensures
            match r {
                Some(v) => member(self@, key.spec_bytes()) == Some(v@),
                None => member(self@, key.spec_bytes()) is None,
            },
    {
        match self {
            JsonValue::Object(members) => {
                let wanted = key.as_bytes();
                let ghost all = member_views_of(members@);
                proof {
                    lemma_object_view(*members);
                    assert(all.skip(0) =~= all);
                }
                let mut i: usize = 0;
                while i < members.len()
                    invariant
                        i <= members.len(),
                        all == member_views_of(members@),
                        wanted@ == key.spec_bytes(),
                        first_member(all, wanted@) == first_member(all.skip(i as int), wanted@),
                    decreases members.len() - i,
                {
                    let ghost rest = all.skip(i as int);
                    assert(rest[0] == all[i as int]);
                    assert(rest.drop_first() =~= all.skip(i + 1));
                    if bytes_eq(members[i].key.as_slice(), wanted) {
                        assert(rest[0].key == wanted@);
                        assert(first_member(rest, wanted@) == Some(rest[0].value));
                        return Some(&members[i].value);
                    }
                    assert(rest[0].key != wanted@);
                    assert(first_member(rest, wanted@) == first_member(rest.drop_first(), wanted@));
                    i += 1;
                }
                None
            },
            _ => None,
        }
    }

    /// The items, where the tree is an array.
    pub fn as_array(&self) -> (r: Option<&Vec<JsonValue>>)
        ensures
            match r {
                Some(items) => self@ == (Json::Array { items: views_of(items@) }),
                None => !(self@ is Array),
            },
    {
        match self {
            JsonValue::Array(items) => {
                proof {
                    lemma_array_view(*items);
                }
                Some(items)
            },
            _ => None,
        }
    }

    /// The bytes of the text, where the tree is a string.
    pub fn as_str_bytes(&self) -> (r: Option<&Vec<u8>>)
        ensures
            match r {
                Some(text) => self@ == (Json::String { text: text@ }),
                None => !(self@ is String),
            },
    {
        match self {
            JsonValue::String(text) => Some(text),
            _ => None,
        }
    }

    /// A tree equal to this one.
    #[verifier::loop_isolation(false)]
    pub fn duplicate(&self) -> (r: JsonValue)
        ensures
            r@ == self@,
        decreases self,
    {
        match self {
            JsonValue::Null => JsonValue::Null,
            JsonValue::Bool(b) => JsonValue::Bool(*b),
            JsonValue::Number(digits) => JsonValue::Number(copy_bytes(digits.as_slice())),
            JsonValue::String(text) => JsonValue::String(copy_bytes(text.as_slice())),
            JsonValue::Array(items) => {
                let mut out: Vec<JsonValue> = Vec::new();
                let mut i: usize = 0;
                while i < items.len()
                    invariant
                        i <= items.len(),
                        out.len() == i,
                        forall|j: int| 0 <= j < i ==> out[j]@ == items[j]@,
                    decreases items.len() - i,
                {
                    let item = items[i].duplicate();
                    out.push(item);
                    i += 1;
                }
                proof {
                    lemma_array_view(*items);
                    lemma_array_view(out);
                    assert(views_of(out@) =~= views_of(items@));
                }
                JsonValue::Array(out)
            },
            JsonValue::Object(members) => {
                let mut out: Vec<Member> = Vec::new();
                let mut i: usize = 0;
                while i < members.len()
                    invariant
                        i <= members.len(),
                        out.len() == i,
                        forall|j: int|
                            0 <= j < i ==> out[j].key@ == members[j].key@ && out[j].value@
                                == members[j].value@,
                    decreases members.len() - i,
                {
                    let key = copy_bytes(members[i].key.as_slice());
                    let value = members[i].value.duplicate();
                    out.push(Member { key, value });
                    i += 1;
                }
                proof {
                    lemma_object_view(*members);
                    lemma_object_view(out);
                    assert(member_views_of(out@) =~= member_views_of(members@));
                }
                JsonValue::Object(out)
            },
        }
    }
}

} // verus!
