//! The canonical text of a contract class and the hash taken of it: what is
//! left out of the tree, how the rest is written down, and the digest.
use vstd::prelude::*;
use vstd::string::StringSliceAdditionalSpecFns;
use crate::felt::Felt;
use crate::hash::{keccak_bound, sn_keccak, starknet_keccak};
use crate::json::{Json, JsonMember, JsonValue, Member, append_bytes, bytes_eq, copy_bytes, first_member, member, member_views_of, views_of, lemma_array_view, lemma_object_view};

verus! {

/// Whether a member is one that the canonical text leaves out: an empty array
/// under the key `attributes` or `accessible_scopes`.
pub open spec fn is_empty_marker(key: Seq<u8>, value: Json) -> bool {
    &&& key == "attributes".spec_bytes() || key == "accessible_scopes".spec_bytes()
    &&& value matches Json::Array { items }
    &&& items.len() == 0
}

/// The tree without its empty markers, at every depth; all else stays, in order.
pub open spec fn strip_markers(j: Json) -> Json
    decreases j,
{
    match j {
        Json::Array { items } => Json::Array {
            items: Seq::new(
                items.len(),
                |i: int|
                    if 0 <= i < items.len() {
                        strip_markers(items[i])
                    } else {
                        Json::Null
                    },
            ),
        },
        Json::Object { members } => Json::Object { members: strip_members(members) },
        _ => j,
    }
}

/// The members that are no empty markers, each with its value stripped.
pub open spec fn strip_members(members: Seq<JsonMember>) -> Seq<JsonMember>
    decreases members,
{
    if members.len() == 0 {
        Seq::empty()
    } else {
        let rest = strip_members(members.drop_last());
        let m = members.last();
        if is_empty_marker(m.key, m.value) {
            rest
        } else {
            rest.push(JsonMember { key: m.key, value: strip_markers(m.value) })
        }
    }
}

/// The lower-case hex digit of a number below 16.
pub open spec fn hex_digit_lower(n: int) -> u8 {
    if n < 10 {
        (0x30 + n) as u8
    } else {
        (0x57 + n) as u8
    }
}

/// Whether `b` continues a character of more than one byte.
pub open spec fn is_continuation(b: u8) -> bool {
    0x80 <= b < 0xc0
}

/// The character at the front of a text and the count of bytes that spell
/// it, read as UTF-8. A byte that starts no such character counts as the
/// character of its own number.
pub open spec fn first_character(text: Seq<u8>) -> (nat, nat) {
    let lead = text[0];
    if 0xc0 <= lead < 0xe0 && text.len() >= 2 && is_continuation(text[1]) {
        (((lead - 0xc0) * 0x40 + (text[1] - 0x80)) as nat, 2)
    } else if 0xe0 <= lead < 0xf0 && text.len() >= 3 && is_continuation(text[1]) && is_continuation(
        text[2],
    ) {
        (((lead - 0xe0) * 0x1000 + (text[1] - 0x80) * 0x40 + (text[2] - 0x80)) as nat, 3)
    } else if 0xf0 <= lead < 0xf8 && text.len() >= 4 && is_continuation(text[1]) && is_continuation(
        text[2],
    ) && is_continuation(text[3]) {
        (
            ((lead - 0xf0) * 0x40000 + (text[1] - 0x80) * 0x1000 + (text[2] - 0x80) * 0x40 + (text[3]
                - 0x80)) as nat,
            4,
        )
    } else {
        (lead as nat, 1)
    }
}

/// A number below `0x10000` as `\u` and its four lower-case hex digits.
pub open spec fn unicode_escape(n: int) -> Seq<u8> {
    seq![
        0x5cu8,
        0x75u8,
        hex_digit_lower(n / 0x1000),
        hex_digit_lower(n / 0x100 % 0x10),
        hex_digit_lower(n / 0x10 % 0x10),
        hex_digit_lower(n % 0x10),
    ]
}

/// How a character of a string is written between the quotes: a quote, a
/// backslash and the five common controls by their short forms; the other
/// characters from the space to the tilde as they are; every other one by
/// its number, as one escape below `0x10000` and as a pair of surrogates
/// from there on.
pub open spec fn escape_character(code: nat) -> Seq<u8> {
    if code == 0x22 {
        seq![0x5cu8, 0x22u8]
    } else if code == 0x5c {
        seq![0x5cu8, 0x5cu8]
    } else if code == 0x08 {
        seq![0x5cu8, 0x62u8]
    } else if code == 0x0c {
        seq![0x5cu8, 0x66u8]
    } else if code == 0x0a {
        seq![0x5cu8, 0x6eu8]
    } else if code == 0x0d {
        seq![0x5cu8, 0x72u8]
    } else if code == 0x09 {
        seq![0x5cu8, 0x74u8]
    } else if 0x20 <= code < 0x7f {
        seq![code as u8]
    } else if code < 0x10000 {
        unicode_escape(code as int)
    } else {
        unicode_escape(0xd800 + (code - 0x10000) / 0x400) + unicode_escape(
            0xdc00 + (code - 0x10000) % 0x400,
        )
    }
}

/// The characters of a string, each one escaped.
pub open spec fn escaped(text: Seq<u8>) -> Seq<u8>
    decreases text.len(),
{
    if text.len() == 0 {
        Seq::empty()
    } else {
        escape_character(first_character(text).0) + escaped(text.skip(first_character(text).1 as int))
    }
}

/// A string between double quotes.
pub open spec fn quoted(text: Seq<u8>) -> Seq<u8> {
    seq![0x22u8] + escaped(text) + seq![0x22u8]
}

/// What stands before the item or member at place `index`: nothing before
/// the first, a comma and a space before each other one.
pub open spec fn separator(index: int) -> Seq<u8> {
    if index == 0 {
        Seq::empty()
    } else {
        ", ".spec_bytes()
    }
}

/// The canonical text of a tree: members in their order, `", "` between items
/// and between members, `": "` after a key.
pub open spec fn canonical_text(j: Json) -> Seq<u8>
    decreases j,
{
    match j {
        Json::Null => "null".spec_bytes(),
        Json::Bool { value } => if value {
            "true".spec_bytes()
        } else {
            "false".spec_bytes()
        },
        Json::Number { digits } => digits,
        Json::String { text } => quoted(text),
        Json::Array { items } => seq![0x5bu8] + joined_items(items) + seq![0x5du8],
        Json::Object { members } => seq![0x7bu8] + joined_members(members) + seq![0x7du8],
    }
}

/// The canonical texts of the items of an array, with their separators.
pub open spec fn joined_items(items: Seq<Json>) -> Seq<u8>
    decreases items,
{
    if items.len() == 0 {
        Seq::empty()
    } else {
        joined_items(items.drop_last()) + separator(items.len() - 1) + canonical_text(items.last())
    }
}

/// The canonical texts of the members of an object, with their separators.
pub open spec fn joined_members(members: Seq<JsonMember>) -> Seq<u8>
    decreases members,
{
    if members.len() == 0 {
        Seq::empty()
    } else {
        joined_members(members.drop_last()) + separator(members.len() - 1) + quoted(
            members.last().key,
        ) + ": ".spec_bytes() + canonical_text(members.last().value)
    }
}

/// The tree whose canonical text is hashed: the class's `abi` and `program`,
/// each null where the class has none, the program without its debug info.
pub open spec fn hinted_input(class: Json) -> Json {
    Json::Object {
        members: seq![
            JsonMember { key: "abi".spec_bytes(), value: member_or_null(class, "abi".spec_bytes()) },
            JsonMember {
                key: "program".spec_bytes(),
                value: without_debug_info(member_or_null(class, "program".spec_bytes())),
            },
        ],
    }
}

/// The value under `key`, or null where there is none.
pub open spec fn member_or_null(j: Json, key: Seq<u8>) -> Json {
    match member(j, key) {
        Some(v) => v,
        None => Json::Null,
    }
}

/// The member with null for its value where its key is `debug_info`.
pub open spec fn without_debug_value(m: JsonMember) -> JsonMember {
    if m.key == "debug_info".spec_bytes() {
        JsonMember { key: m.key, value: Json::Null }
    } else {
        m
    }
}

/// The members, each without its debug value.
pub open spec fn without_debug_values(members: Seq<JsonMember>) -> Seq<JsonMember> {
    Seq::new(members.len(), |i: int| without_debug_value(members[i]))
}

/// The tree with null under each key `debug_info` of its top level.
pub open spec fn without_debug_info(program: Json) -> Json {
    match program {
        Json::Object { members } => Json::Object { members: without_debug_values(members) },
        _ => program,
    }
}

/// The hinted class hash: the Starknet Keccak of the canonical text of the
/// class's hashed part, empty markers left out.
pub open spec fn hinted_class_hash(class: Json) -> nat {
    sn_keccak(canonical_text(strip_markers(hinted_input(class))))
}

/// The lower-case hex digit of `n`.
fn hex_digit(n: u8) -> (r: u8)
    requires
        n < 16,
    ensures
        r == hex_digit_lower(n as int),
{
    if n < 10 {
        0x30 + n
    } else {
        0x57 + n
    }
}

/// Appends `\u` and the four lower-case hex digits of `n` to `out`.
fn write_unicode_escape(n: u32, out: &mut Vec<u8>)
    requires
        n < 0x10000,
    ensures
        final(out)@ == old(out)@ + unicode_escape(n as int),
{
    out.push(0x5c);
    out.push(0x75);
    out.push(hex_digit((n / 0x1000) as u8));
    out.push(hex_digit((n / 0x100 % 0x10) as u8));
    out.push(hex_digit((n / 0x10 % 0x10) as u8));
    out.push(hex_digit((n % 0x10) as u8));
    assert(out@ =~= old(out)@ + unicode_escape(n as int));
}

/// Appends the escaped form of the character `code` to `out`.
fn write_character(code: u32, out: &mut Vec<u8>)
    requires
        code < 0x200000,
    ensures
        final(out)@ == old(out)@ + escape_character(code as nat),
{
    if code == 0x22 {
        out.push(0x5c);
        out.push(0x22);
    } else if code == 0x5c {
        out.push(0x5c);
        out.push(0x5c);
    } else if code == 0x08 {
        out.push(0x5c);
        out.push(0x62);
    } else if code == 0x0c {
        out.push(0x5c);
        out.push(0x66);
    } else if code == 0x0a {
        out.push(0x5c);
        out.push(0x6e);
    } else if code == 0x0d {
        out.push(0x5c);
        out.push(0x72);
    } else if code == 0x09 {
        out.push(0x5c);
        out.push(0x74);
    } else if 0x20 <= code && code < 0x7f {
        out.push(code as u8);
    } else if code < 0x10000 {
        write_unicode_escape(code, out);
    } else {
        let ghost before = out@;
        write_unicode_escape(0xd800 + (code - 0x10000) / 0x400, out);
        write_unicode_escape(0xdc00 + (code - 0x10000) % 0x400, out);
        assert(out@ =~= before + escape_character(code as nat));
    }
    assert(out@ =~= old(out)@ + escape_character(code as nat));
}

/// Whether `b` continues a character of more than one byte.
fn continues(b: u8) -> (r: bool)
    ensures
        r == is_continuation(b),
{
    0x80 <= b && b < 0xc0
}

/// The character at place `at` of `text` and the count of its bytes.
fn character_at(text: &[u8], at: usize) -> (r: (u32, usize))
    requires
        at < text.len(),
    ensures
        r.0 == first_character(text@.skip(at as int)).0,
        r.1 == first_character(text@.skip(at as int)).1,
        1 <= r.1 <= 4,
        at + r.1 <= text.len(),
        r.0 < 0x200000,
{
    let ghost rest = text@.skip(at as int);
    let lead = text[at];
    let left = text.len() - at;
    assert(rest[0] == lead);
    assert(left >= 2 ==> rest[1] == text@[at + 1]);
    assert(left >= 3 ==> rest[2] == text@[at + 2]);
    assert(left >= 4 ==> rest[3] == text@[at + 3]);
    if 0xc0 <= lead && lead < 0xe0 && left >= 2 && continues(text[at + 1]) {
        ((lead - 0xc0) as u32 * 0x40 + (text[at + 1] - 0x80) as u32, 2)
    } else if 0xe0 <= lead && lead < 0xf0 && left >= 3 && continues(text[at + 1]) && continues(
        text[at + 2],
    ) {
        (
            (lead - 0xe0) as u32 * 0x1000 + (text[at + 1] - 0x80) as u32 * 0x40 + (text[at + 2]
                - 0x80) as u32,
            3,
        )
    } else if 0xf0 <= lead && lead < 0xf8 && left >= 4 && continues(text[at + 1]) && continues(
        text[at + 2],
    ) && continues(text[at + 3]) {
        (
            (lead - 0xf0) as u32 * 0x40000 + (text[at + 1] - 0x80) as u32 * 0x1000 + (text[at + 2]
                - 0x80) as u32 * 0x40 + (text[at + 3] - 0x80) as u32,
            4,
        )
    } else {
        (lead as u32, 1)
    }
}

/// Appends the escaped form of `text` to `out`.
fn write_escaped(text: &[u8], out: &mut Vec<u8>)
    ensures
        final(out)@ == old(out)@ + escaped(text@),
{
    let mut i: usize = 0;
    proof {
        assert(text@.skip(0) =~= text@);
    }
    while i < text.len()
        invariant
            i <= text.len(),
            out@ + escaped(text@.skip(i as int)) == old(out)@ + escaped(text@),
        decreases text.len() - i,
    {
        let ghost before = out@;
        let ghost rest = text@.skip(i as int);
        let (code, width) = character_at(text, i);
        write_character(code, out);
        proof {
            assert(rest.skip(width as int) =~= text@.skip(i + width));
            assert(escaped(rest) == escape_character(code as nat) + escaped(rest.skip(width as int)));
            assert(out@ + escaped(text@.skip(i + width)) =~= before + escaped(rest));
        }
        i += width;
    }
    proof {
        assert(text@.skip(text.len() as int) =~= Seq::<u8>::empty());
        assert(out@ + Seq::<u8>::empty() =~= out@);
    }
}

/// Appends `text` between double quotes to `out`.
fn write_quoted(text: &[u8], out: &mut Vec<u8>)
    ensures
        final(out)@ == old(out)@ + quoted(text@),
{
    out.push(0x22);
    write_escaped(text, out);
    out.push(0x22);
    assert(out@ =~= old(out)@ + quoted(text@));
}

impl JsonValue {
    /// Appends the canonical text of the tree to `out`.
    #[verifier::loop_isolation(false)]
    pub fn write_canonical(&self, out: &mut Vec<u8>)
        ensures
            final(out)@ == old(out)@ + canonical_text(self@),
        decreases self,
    {
        match self {
            JsonValue::Null => append_bytes(out, "null".as_bytes()),
            JsonValue::Bool(b) => {
                if *b {
                    append_bytes(out, "true".as_bytes())
                } else {
                    append_bytes(out, "false".as_bytes())
                }
            },
            JsonValue::Number(digits) => append_bytes(out, digits.as_slice()),
            JsonValue::String(text) => write_quoted(text.as_slice(), out),
            JsonValue::Array(items) => {
                let ghost views = views_of(items@);
                proof {
                    lemma_array_view(*items);
                }
                out.push(0x5b);
                let ghost base = out@;
                assert(views.take(0) =~= Seq::<Json>::empty());
                assert(out@ =~= base + joined_items(views.take(0)));
                let mut i: usize = 0;
                while i < items.len()
                    invariant
                        i <= items.len(),
                        out@ == base + joined_items(views.take(i as int)),
                    decreases items.len() - i,
                {
                    let ghost before = out@;
                    if i > 0 {
                        append_bytes(out, ", ".as_bytes());
                    }
                    let ghost middle = out@;
                    items[i].write_canonical(out);
                    proof {
                        let next = views.take(i + 1);
                        assert(next.drop_last() =~= views.take(i as int));
                        assert(next.last() == items[i as int]@);
                        assert(middle =~= before + separator(i as int));
                        assert(out@ =~= base + joined_items(next));
                    }
                    i += 1;
                }
                assert(views =~= views.take(items.len() as int));
                out.push(0x5d);
                assert(out@ =~= old(out)@ + canonical_text(self@));
            },
            JsonValue::Object(members) => {
                let ghost views = member_views_of(members@);
                proof {
                    lemma_object_view(*members);
                }
                out.push(0x7b);
                let ghost base = out@;
                assert(views.take(0) =~= Seq::<JsonMember>::empty());
                assert(out@ =~= base + joined_members(views.take(0)));
                let mut i: usize = 0;
                while i < members.len()
                    invariant
                        i <= members.len(),
                        out@ == base + joined_members(views.take(i as int)),
                    decreases members.len() - i,
                {
                    let ghost before = out@;
                    if i > 0 {
                        append_bytes(out, ", ".as_bytes());
                    }
                    let ghost s1 = out@;
                    write_quoted(members[i].key.as_slice(), out);
                    let ghost s2 = out@;
                    append_bytes(out, ": ".as_bytes());
                    let ghost s3 = out@;
                    members[i].value.write_canonical(out);
                    proof {
                        let next = views.take(i + 1);
                        assert(next.drop_last() =~= views.take(i as int));
                        assert(next.last() == views[i as int]);
                        assert(s1 =~= before + separator(i as int));
                        assert(out@ =~= base + joined_members(next));
                    }
                    i += 1;
                }
                assert(views =~= views.take(members.len() as int));
                out.push(0x7d);
                assert(out@ =~= old(out)@ + canonical_text(self@));
            },
        }
    }

    /// The canonical text of the tree.
    pub fn to_canonical_bytes(&self) -> (r: Vec<u8>)
        ensures
            r@ == canonical_text(self@),
    {
        let mut out: Vec<u8> = Vec::new();
        self.write_canonical(&mut out);
        assert(out@ =~= canonical_text(self@));
        out
    }
}


/// Whether `key` is one of the two keys under which an empty array is left out.
fn is_marker_key(key: &[u8]) -> (r: bool)
    ensures
        r == (key@ == "attributes".spec_bytes() || key@ == "accessible_scopes".spec_bytes()),
{
    bytes_eq(key, "attributes".as_bytes()) || bytes_eq(key, "accessible_scopes".as_bytes())
}

/// Whether the tree is an array without items.
fn is_empty_array(value: &JsonValue) -> (r: bool)
    ensures
        r == (value@ matches Json::Array { items } && items.len() == 0),
{
    match value {
        JsonValue::Array(items) => {
            proof {
                lemma_array_view(*items);
            }
            items.len() == 0
        },
        _ => false,
    }
}

/// A copy of the tree without its empty markers: at every depth, a member
/// under `attributes` or `accessible_scopes` whose value is an empty array is
/// left out, and all else is kept in its order.
#[verifier::loop_isolation(false)]
pub fn traverse_and_exclude_recursively(value: &JsonValue) -> (r: JsonValue)
    ensures
        r@ == strip_markers(value@),
    decreases value,
{
    match value {
        JsonValue::Array(items) => {
            let mut out: Vec<JsonValue> = Vec::new();
            let mut i: usize = 0;
            while i < items.len()
                invariant
                    i <= items.len(),
                    out.len() == i,
                    forall|j: int| 0 <= j < i ==> out[j]@ == strip_markers(items[j]@),
                decreases items.len() - i,
            {
                let item = traverse_and_exclude_recursively(&items[i]);
                out.push(item);
                i += 1;
            }
            proof {
                lemma_array_view(*items);
                lemma_array_view(out);
                assert(views_of(out@) =~= strip_markers(value@)->items);
            }
            JsonValue::Array(out)
        },
        JsonValue::Object(members) => {
            let ghost views = member_views_of(members@);
            let mut out: Vec<Member> = Vec::new();
            let mut i: usize = 0;
            proof {
                lemma_object_view(*members);
                assert(views.take(0) =~= Seq::<JsonMember>::empty());
                assert(member_views_of(out@) =~= strip_members(views.take(0)));
            }
            while i < members.len()
                invariant
                    i <= members.len(),
                    member_views_of(out@) == strip_members(views.take(i as int)),
                decreases members.len() - i,
            {
                let ghost before = member_views_of(out@);
                let ghost next = views.take(i + 1);
                proof {
                    assert(next.drop_last() =~= views.take(i as int));
                    assert(next.last() == views[i as int]);
                }
                let skip = is_marker_key(members[i].key.as_slice()) && is_empty_array(
                    &members[i].value,
                );
                if !skip {
                    let key = copy_bytes(members[i].key.as_slice());
                    let inner = traverse_and_exclude_recursively(&members[i].value);
                    out.push(Member { key, value: inner });
                    proof {
                        let added = JsonMember {
                            key: members[i as int].key@,
                            value: strip_markers(members[i as int].value@),
                        };
                        assert(member_views_of(out@) =~= before.push(added));
                    }
                }
                i += 1;
            }
            proof {
                assert(views =~= views.take(members.len() as int));
                lemma_object_view(out);
            }
            JsonValue::Object(out)
        },
        _ => value.duplicate(),
    }
}

/// A copy of the tree with null under each key `debug_info` of its top level.
#[verifier::loop_isolation(false)]
fn null_debug_info(program: &JsonValue) -> (r: JsonValue)
    ensures
        r@ == without_debug_info(program@),
{
    match program {
        JsonValue::Object(members) => {
            let mut out: Vec<Member> = Vec::new();
            let mut i: usize = 0;
            while i < members.len()
                invariant
                    i <= members.len(),
                    out.len() == i,
                    forall|j: int|
                        0 <= j < i ==> out[j].key@ == members[j].key@ && out[j].value@ == (if members[j].key@
                            == "debug_info".spec_bytes() {
                            Json::Null
                        } else {
                            members[j].value@
                        }),
                decreases members.len() - i,
            {
                let key = copy_bytes(members[i].key.as_slice());
                let value = if bytes_eq(members[i].key.as_slice(), "debug_info".as_bytes()) {
                    JsonValue::Null
                } else {
                    members[i].value.duplicate()
                };
                out.push(Member { key, value });
                i += 1;
            }
            proof {
                lemma_object_view(*members);
                lemma_object_view(out);
                assert(member_views_of(out@) =~= without_debug_info(program@)->members);
            }
            JsonValue::Object(out)
        },
        _ => program.duplicate(),
    }
}

/// The hinted class hash of a class given as a JSON tree.
pub fn compute_hinted_class_hash(contract_class: &JsonValue) -> (r: Felt)
    ensures
        r@ == hinted_class_hash(contract_class@),
        r@ < keccak_bound(),
{
    let abi = match contract_class.get("abi") {
        Some(v) => v.duplicate(),
        None => JsonValue::Null,
    };
    let program = match contract_class.get("program") {
        Some(v) => null_debug_info(v),
        None => JsonValue::Null,
    };
    let mut members: Vec<Member> = Vec::new();
    members.push(JsonValue::member("abi", abi));
    members.push(JsonValue::member("program", program));
    proof {
        lemma_object_view(members);
        assert(member_views_of(members@) =~= hinted_input(contract_class@)->members);
    }
    let tree = JsonValue::Object(members);
    let stripped = traverse_and_exclude_recursively(&tree);
    let text = stripped.to_canonical_bytes();
    starknet_keccak(text.as_slice())
}


/// The first bytes and the lengths of the keys that the hashing looks at.
proof fn lemma_keys()
    ensures
        "abi".spec_bytes().len() == 3,
        "program".spec_bytes().len() == 7,
        "debug_info".spec_bytes().len() == 10,
        "debug_info".spec_bytes()[0] == 0x64,
        "attributes".spec_bytes().len() == 10,
        "attributes".spec_bytes()[0] == 0x61,
        "accessible_scopes".spec_bytes().len() == 17,
{
    reveal_strlit("abi");
    reveal_strlit("program");
    reveal_strlit("debug_info");
    reveal_strlit("attributes");
    reveal_strlit("accessible_scopes");
    vstd::string::is_ascii_spec_bytes("abi");
    vstd::string::is_ascii_spec_bytes("program");
    vstd::string::is_ascii_spec_bytes("debug_info");
    vstd::string::is_ascii_spec_bytes("attributes");
    vstd::string::is_ascii_spec_bytes("accessible_scopes");
}

/// Whether `key` is one of the two keys under which an empty array is left out.
pub open spec fn is_marker_name(key: Seq<u8>) -> bool {
    key == "attributes".spec_bytes() || key == "accessible_scopes".spec_bytes()
}

/// To strip a stripped tree changes nothing.
pub proof fn lemma_strip_idempotent(j: Json)
    ensures
        strip_markers(strip_markers(j)) == strip_markers(j),
    decreases j,
{
    match j {
        Json::Array { items } => {
            let once = strip_markers(j)->items;
            let twice = strip_markers(strip_markers(j))->items;
            assert forall|i: int| 0 <= i < items.len() implies twice[i] == once[i] by {
                lemma_strip_idempotent(items[i]);
            }
            assert(twice =~= once);
        },
        Json::Object { members } => {
            lemma_strip_members_idempotent(members);
        },
        _ => {},
    }
}

/// To strip stripped members changes nothing.
pub proof fn lemma_strip_members_idempotent(members: Seq<JsonMember>)
    ensures
        strip_members(strip_members(members)) == strip_members(members),
    decreases members,
{
    if members.len() > 0 {
        lemma_strip_members_idempotent(members.drop_last());
        let m = members.last();
        if !is_empty_marker(m.key, m.value) {
            lemma_strip_idempotent(m.value);
            let rest = strip_members(members.drop_last());
            let kept = JsonMember { key: m.key, value: strip_markers(m.value) };
            assert(rest.push(kept).drop_last() =~= rest);
            assert(!is_empty_marker(kept.key, kept.value));
        }
    }
}

/// The first member under a key, told from the back of the members.
proof fn lemma_first_member_from_back(members: Seq<JsonMember>, key: Seq<u8>)
    requires
        members.len() > 0,
    ensures
        first_member(members, key) == (match first_member(members.drop_last(), key) {
            Some(v) => Some(v),
            None => if members.last().key == key {
                Some(members.last().value)
            } else {
                None
            },
        }),
    decreases members.len(),
{
    if members.len() == 1 {
        assert(members.drop_last() =~= Seq::<JsonMember>::empty());
        assert(members.drop_first() =~= Seq::<JsonMember>::empty());
    } else {
        assert(members.drop_last()[0] == members[0]);
        if members[0].key != key {
            lemma_first_member_from_back(members.drop_first(), key);
            assert(members.drop_first().drop_last() =~= members.drop_last().drop_first());
        }
    }
}

/// Under a key that is no marker's, stripped members hold the stripped
/// value of what the members hold.
proof fn lemma_member_of_stripped(members: Seq<JsonMember>, key: Seq<u8>)
    requires
        !is_marker_name(key),
    ensures
        first_member(strip_members(members), key) == (match first_member(members, key) {
            Some(v) => Some(strip_markers(v)),
            None => None,
        }),
    decreases members.len(),
{
    if members.len() > 0 {
        lemma_member_of_stripped(members.drop_last(), key);
        lemma_first_member_from_back(members, key);
        let m = members.last();
        if !is_empty_marker(m.key, m.value) {
            let rest = strip_members(members.drop_last());
            let kept = JsonMember { key: m.key, value: strip_markers(m.value) };
            lemma_first_member_from_back(rest.push(kept), key);
            assert(rest.push(kept).drop_last() =~= rest);
        }
    }
}

/// To strip before the debug values are taken out makes no difference to
/// the stripped result.
proof fn lemma_strip_without_debug_values(members: Seq<JsonMember>)
    ensures
        strip_members(without_debug_values(strip_members(members))) == strip_members(
            without_debug_values(members),
        ),
    decreases members.len(),
{
    lemma_keys();
    if members.len() == 0 {
        assert(without_debug_values(members) =~= Seq::<JsonMember>::empty());
        assert(without_debug_values(Seq::<JsonMember>::empty()) =~= Seq::<JsonMember>::empty());
    } else {
        let front = members.drop_last();
        let m = members.last();
        lemma_strip_without_debug_values(front);
        assert(without_debug_values(members).drop_last() =~= without_debug_values(front));
        assert(without_debug_values(members).last() == without_debug_value(m));
        let rest = strip_members(front);
        if is_empty_marker(m.key, m.value) {
            assert(without_debug_value(m) == m);
        } else {
            let kept = JsonMember { key: m.key, value: strip_markers(m.value) };
            let left = without_debug_values(rest.push(kept));
            assert(left.drop_last() =~= without_debug_values(rest));
            assert(left.last() == without_debug_value(kept));
            lemma_strip_idempotent(m.value);
        }
    }
}

/// Two classes of which one holds under `abi` and `program` the stripped
/// values of the other have one hinted hash.
pub proof fn lemma_hinted_hash_of_stripped_parts(class: Json, other: Json)
    requires
        member_or_null(other, "abi".spec_bytes()) == strip_markers(
            member_or_null(class, "abi".spec_bytes()),
        ),
        member_or_null(other, "program".spec_bytes()) == strip_markers(
            member_or_null(class, "program".spec_bytes()),
        ),
    ensures
        hinted_class_hash(other) == hinted_class_hash(class),
{
    lemma_keys();
    let abi = member_or_null(class, "abi".spec_bytes());
    let program = member_or_null(class, "program".spec_bytes());
    lemma_strip_idempotent(abi);
    assert(strip_markers(without_debug_info(strip_markers(program))) == strip_markers(
        without_debug_info(program),
    )) by {
        match program {
            Json::Object { members } => {
                lemma_strip_without_debug_values(members);
            },
            _ => {
                lemma_strip_idempotent(program);
            },
        }
    }
    let a = hinted_input(class)->members;
    let b = hinted_input(other)->members;
    assert(a.drop_last() =~= seq![a[0]]);
    assert(b.drop_last() =~= seq![b[0]]);
    assert(a.drop_last().drop_last() =~= Seq::<JsonMember>::empty());
    assert(b.drop_last().drop_last() =~= Seq::<JsonMember>::empty());
    reveal_with_fuel(strip_members, 3);
    assert(strip_members(a) =~= strip_members(b));
}

/// The value under a key that is no marker's, in a stripped tree, is the
/// stripped value of what the tree holds there.
pub proof fn lemma_member_or_null_of_stripped(j: Json, key: Seq<u8>)
    requires
        !is_marker_name(key),
    ensures
        member(strip_markers(j), key) == (match member(j, key) {
            Some(v) => Some(strip_markers(v)),
            None => None,
        }),
{
    match j {
        Json::Object { members } => {
            lemma_member_of_stripped(members, key);
        },
        _ => {},
    }
}

/// The hinted class hash does not see empty markers: a class and the same
/// class without them, at whatever depth they stood, have one hinted hash.
pub proof fn lemma_hinted_hash_ignores_empty_markers(class: Json)
    ensures
        hinted_class_hash(strip_markers(class)) == hinted_class_hash(class),
{
    lemma_keys();
    assert(!is_marker_name("abi".spec_bytes()));
    assert(!is_marker_name("program".spec_bytes()));
    lemma_member_or_null_of_stripped(class, "abi".spec_bytes());
    lemma_member_or_null_of_stripped(class, "program".spec_bytes());
    lemma_hinted_hash_of_stripped_parts(class, strip_markers(class));
}

} // verus!
