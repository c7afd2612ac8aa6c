//! Contract classes and their class hashes.
use vstd::prelude::*;
use vstd::string::StringSliceAdditionalSpecFns;
use crate::canonical::{compute_hinted_class_hash, hinted_class_hash, is_marker_name, lemma_hinted_hash_of_stripped_parts, lemma_member_or_null_of_stripped, member_or_null, strip_markers};
use crate::error::Error;
use crate::felt::{hex_pairs, parse_prefixed_hex, Felt};
use crate::hash::{felt_values, pedersen_array, pedersen_hash_array};
use crate::json::{first_member, member, views_of, Json, JsonMember, JsonValue};
use crate::json_text::{parse_json, parsed_json};
use crate::numeral::{numeral_u64, parse_u64};
use crate::traits::{error_is, HashFault, HashProducer};

verus! {

/// The kinds of entry point of a class.
#[derive(Debug, Clone, Copy, PartialEq, Eq, Hash)]
pub enum EntryPointType {
    External,
    L1Handler,
    Constructor,
}

/// An entry point of a class: the selector of a function and the offset of its code.
#[derive(Debug, Clone, Copy, PartialEq, Eq)]
pub struct EntryPoint {
    pub selector: Felt,
    pub offset: u64,
}

/// A class in its parsed form. Its hash was computed when it was parsed, by
/// the algorithm of that form, and is carried with it.
#[derive(Debug, Clone, Copy, PartialEq, Eq)]
pub struct StructuredClass {
    class_hash: Felt,
}

/// The two forms in which a class is held.
#[derive(Debug, PartialEq, Eq)]
pub enum ContractClassInner {
    Structured(StructuredClass),
    RawJson(JsonValue),
}

/// A contract class.
#[derive(Debug, PartialEq, Eq)]
pub struct ContractClass(pub ContractClassInner);

/// A contract class as mathematics sees it.
pub enum ClassModel {
    Structured { class_hash: nat },
    RawJson { json: Json },
}

/// The key under which a class lists its entry points of a kind.
pub open spec fn entry_point_key(kind: EntryPointType) -> Seq<u8> {
    match kind {
        EntryPointType::External => "EXTERNAL".spec_bytes(),
        EntryPointType::L1Handler => "L1_HANDLER".spec_bytes(),
        EntryPointType::Constructor => "CONSTRUCTOR".spec_bytes(),
    }
}

/// The offset that a tree spells: a decimal number, or a string of `0x` and
/// hex digits, that fits 64 bits.
pub open spec fn offset_value(j: Json) -> Option<nat> {
    match j {
        Json::Number { digits } => numeral_u64(digits, 10),
        Json::String { text } => if text.len() >= 2 && text[0] == 0x30 && text[1] == 0x78 {
            numeral_u64(text.skip(2), 16)
        } else {
            None
        },
        _ => None,
    }
}

/// The selector and the offset of an entry point given as a tree.
pub open spec fn entry_point_pair(item: Json) -> Result<(nat, nat), HashFault> {
    match member(item, "selector".spec_bytes()) {
        Some(Json::String { text }) => match parse_prefixed_hex(text) {
            None => Err(HashFault::InvalidFelt),
            Some(selector) => match member(item, "offset".spec_bytes()) {
                None => Err(HashFault::Malformed),
                Some(o) => match offset_value(o) {
                    None => Err(HashFault::Malformed),
                    Some(offset) => Ok((selector, offset)),
                },
            },
        },
        _ => Err(HashFault::Malformed),
    }
}

/// Selector and offset of each entry point of a list, flattened in order; the
/// fault of the first entry point that has one.
pub open spec fn entry_point_felts(items: Seq<Json>) -> Result<Seq<nat>, HashFault>
    decreases items.len(),
{
    if items.len() == 0 {
        Ok(Seq::empty())
    } else {
        match entry_point_felts(items.drop_last()) {
            Err(fault) => Err(fault),
            Ok(front) => match entry_point_pair(items.last()) {
                Err(fault) => Err(fault),
                Ok(pair) => Ok(front.push(pair.0).push(pair.1)),
            },
        }
    }
}

/// The hash of the entry points of one kind.
pub open spec fn entry_points_hash(by_type: Json, kind: EntryPointType) -> Result<nat, HashFault> {
    match member(by_type, entry_point_key(kind)) {
        Some(Json::Array { items }) => match entry_point_felts(items) {
            Err(fault) => Err(fault),
            Ok(felts) => Ok(pedersen_array(felts)),
        },
        _ => Err(HashFault::Malformed),
    }
}

/// The items under `key`, where `program` holds an array there; none otherwise.
pub open spec fn items_or_none(program: Json, key: Seq<u8>) -> Seq<Json> {
    match member(program, key) {
        Some(Json::Array { items }) => items,
        _ => Seq::empty(),
    }
}

/// The text that is parsed in place of a builtin's name: `0x` and two
/// lower-case hex digits for each byte of the name.
pub open spec fn builtin_text(name: Seq<u8>) -> Seq<u8> {
    seq![0x30u8, 0x78u8] + hex_pairs(name)
}

/// The field element that stands for a builtin given as a tree.
pub open spec fn builtin_felt(item: Json) -> Result<nat, HashFault> {
    match item {
        Json::String { text } => match parse_prefixed_hex(builtin_text(text)) {
            Some(v) => Ok(v),
            None => Err(HashFault::InvalidFelt),
        },
        _ => Err(HashFault::Malformed),
    }
}

/// The field element that a word of the program's data spells.
pub open spec fn data_felt(item: Json) -> Result<nat, HashFault> {
    match item {
        Json::String { text } => match parse_prefixed_hex(text) {
            Some(v) => Ok(v),
            None => Err(HashFault::InvalidFelt),
        },
        _ => Err(HashFault::Malformed),
    }
}

/// The field elements of a list of builtins (`builtins` true) or of data
/// words, in order; the fault of the first item that has one.
pub open spec fn program_felts(items: Seq<Json>, builtins: bool) -> Result<Seq<nat>, HashFault>
    decreases items.len(),
{
    if items.len() == 0 {
        Ok(Seq::empty())
    } else {
        match program_felts(items.drop_last(), builtins) {
            Err(fault) => Err(fault),
            Ok(front) => match (if builtins {
                builtin_felt(items.last())
            } else {
                data_felt(items.last())
            }) {
                Err(fault) => Err(fault),
                Ok(v) => Ok(front.push(v)),
            },
        }
    }
}

/// The hash of a list of builtins or of data words.
pub open spec fn program_hash(items: Seq<Json>, builtins: bool) -> Result<nat, HashFault> {
    match program_felts(items, builtins) {
        Err(fault) => Err(fault),
        Ok(felts) => Ok(pedersen_array(felts)),
    }
}

/// The class hash of a class given as a JSON tree: the hash of the sequence
/// of zero, the hashes of the external, L1 handler and constructor entry
/// points, of the builtins, the hinted class hash and the hash of the data.
/// The first fault met in that order, where there is one.
pub open spec fn raw_class_hash(class: Json) -> Result<nat, HashFault> {
    match member(class, "entry_points_by_type".spec_bytes()) {
        None => Err(HashFault::Malformed),
        Some(by_type) => match entry_points_hash(by_type, EntryPointType::External) {
            Err(fault) => Err(fault),
            Ok(external) => match entry_points_hash(by_type, EntryPointType::L1Handler) {
                Err(fault) => Err(fault),
                Ok(l1_handler) => match entry_points_hash(by_type, EntryPointType::Constructor) {
                    Err(fault) => Err(fault),
                    Ok(constructor) => match member(class, "program".spec_bytes()) {
                        None => Err(HashFault::Malformed),
                        Some(program) => match program_hash(
                            items_or_none(program, "builtins".spec_bytes()),
                            true,
                        ) {
                            Err(fault) => Err(fault),
                            Ok(builtins) => match program_hash(
                                items_or_none(program, "data".spec_bytes()),
                                false,
                            ) {
                                Err(fault) => Err(fault),
                                Ok(data) => Ok(
                                    pedersen_array(
                                        seq![
                                            0nat,
                                            external,
                                            l1_handler,
                                            constructor,
                                            builtins,
                                            hinted_class_hash(class),
                                            data,
                                        ],
                                    ),
                                ),
                            },
                        },
                    },
                },
            },
        },
    }
}

/// The member with its value stripped of empty markers where its key is
/// `abi` or `program`.
pub open spec fn strip_hashed_member(m: JsonMember) -> JsonMember {
    if m.key == "abi".spec_bytes() || m.key == "program".spec_bytes() {
        JsonMember { key: m.key, value: strip_markers(m.value) }
    } else {
        m
    }
}

/// The class without the empty markers inside its `abi` and its `program`.
pub open spec fn without_markers_in_hashed_parts(class: Json) -> Json {
    match class {
        Json::Object { members } => Json::Object {
            members: Seq::new(members.len(), |i: int| strip_hashed_member(members[i])),
        },
        _ => class,
    }
}

/// The lengths of the keys that the class hash looks at.
proof fn lemma_class_keys()
    ensures
        "abi".spec_bytes().len() == 3,
        "program".spec_bytes().len() == 7,
        "entry_points_by_type".spec_bytes().len() == 20,
        "builtins".spec_bytes().len() == 8,
        "data".spec_bytes().len() == 4,
        "attributes".spec_bytes().len() == 10,
        "accessible_scopes".spec_bytes().len() == 17,
{
    reveal_strlit("abi");
    reveal_strlit("program");
    reveal_strlit("entry_points_by_type");
    reveal_strlit("builtins");
    reveal_strlit("data");
    reveal_strlit("attributes");
    reveal_strlit("accessible_scopes");
    vstd::string::is_ascii_spec_bytes("abi");
    vstd::string::is_ascii_spec_bytes("program");
    vstd::string::is_ascii_spec_bytes("entry_points_by_type");
    vstd::string::is_ascii_spec_bytes("builtins");
    vstd::string::is_ascii_spec_bytes("data");
    vstd::string::is_ascii_spec_bytes("attributes");
    vstd::string::is_ascii_spec_bytes("accessible_scopes");
}

/// What members hold under a key after the hashed parts are stripped.
proof fn lemma_member_of_hashed_parts(members: Seq<JsonMember>, key: Seq<u8>)
    ensures
        first_member(Seq::new(members.len(), |i: int| strip_hashed_member(members[i])), key) == (
        match first_member(members, key) {
            Some(v) => Some(strip_hashed_member(JsonMember { key, value: v }).value),
            None => None,
        }),
    decreases members.len(),
{
    let mapped = Seq::new(members.len(), |i: int| strip_hashed_member(members[i]));
    if members.len() > 0 {
        lemma_member_of_hashed_parts(members.drop_first(), key);
        assert(mapped.drop_first() =~= Seq::new(
            members.drop_first().len(),
            |i: int| strip_hashed_member(members.drop_first()[i]),
        ));
        assert(mapped[0] == strip_hashed_member(members[0]));
    }
}

/// Stripped items spell the same field elements as the items themselves.
proof fn lemma_program_felts_of_stripped(items: Seq<Json>, stripped: Seq<Json>, builtins: bool)
    requires
        stripped.len() == items.len(),
        forall|i: int| 0 <= i < items.len() ==> stripped[i] == strip_markers(items[i]),
    ensures
        program_felts(stripped, builtins) == program_felts(items, builtins),
    decreases items.len(),
{
    if items.len() > 0 {
        lemma_program_felts_of_stripped(items.drop_last(), stripped.drop_last(), builtins);
        assert(stripped.last() == strip_markers(items.last()));
    }
}

/// A stripped program has the same hash of builtins, or of data, as the program.
proof fn lemma_program_hash_of_stripped(program: Json, key: Seq<u8>, builtins: bool)
    requires
        key == "builtins".spec_bytes() || key == "data".spec_bytes(),
    ensures
        program_hash(items_or_none(strip_markers(program), key), builtins) == program_hash(
            items_or_none(program, key),
            builtins,
        ),
{
    lemma_class_keys();
    assert(!is_marker_name(key));
    lemma_member_or_null_of_stripped(program, key);
    match member(program, key) {
        Some(Json::Array { items }) => {
            let stripped = strip_markers(Json::Array { items })->items;
            lemma_program_felts_of_stripped(items, stripped, builtins);
        },
        _ => {},
    }
}

/// The class hash does not see empty markers inside `abi` and `program`: a
/// class and the same class without them, at whatever depth they stood, have
/// one class hash, or one fault.
pub proof fn lemma_class_hash_ignores_empty_markers(class: Json)
    ensures
        raw_class_hash(without_markers_in_hashed_parts(class)) == raw_class_hash(class),
{
    lemma_class_keys();
    let other = without_markers_in_hashed_parts(class);
    let abi_key = "abi".spec_bytes();
    let program_key = "program".spec_bytes();
    let by_type_key = "entry_points_by_type".spec_bytes();
    match class {
        Json::Object { members } => {
            lemma_member_of_hashed_parts(members, abi_key);
            lemma_member_of_hashed_parts(members, program_key);
            lemma_member_of_hashed_parts(members, by_type_key);
            assert(member(other, by_type_key) == member(class, by_type_key));
            assert(member_or_null(other, abi_key) == strip_markers(member_or_null(class, abi_key)));
            assert(member_or_null(other, program_key) == strip_markers(
                member_or_null(class, program_key),
            ));
            lemma_hinted_hash_of_stripped_parts(class, other);
            match member(class, program_key) {
                Some(program) => {
                    lemma_program_hash_of_stripped(program, "builtins".spec_bytes(), true);
                    lemma_program_hash_of_stripped(program, "data".spec_bytes(), false);
                },
                None => {},
            }
        },
        _ => {},
    }
}

/// The error that reports a class as malformed, with `msg` for its message.
fn malformed(msg: &str) -> (e: Error)
    ensures
        e matches Error::MalformedClass { msg: text } && text@ == msg@,
{
    Error::MalformedClass { msg: msg.to_owned() }
}

/// The offset that a tree spells.
fn offset_of(value: &JsonValue) -> (r: Option<u64>)
    ensures
        match r {
            Some(v) => offset_value(value@) == Some(v as nat),
            None => offset_value(value@) is None,
        },
{
    match value {
        JsonValue::Number(digits) => {
            assert(digits@.skip(0) =~= digits@);
            parse_u64(digits.as_slice(), 0, 10)
        },
        JsonValue::String(text) => {
            if text.len() >= 2 && text[0] == 0x30 && text[1] == 0x78 {
                parse_u64(text.as_slice(), 2, 16)
            } else {
                None
            }
        },
        _ => None,
    }
}

impl EntryPoint {
    /// The entry point that a tree spells.
    pub fn from_json(item: &JsonValue) -> (r: Result<EntryPoint, Error>)
        ensures
            match entry_point_pair(item@) {
                Ok(pair) => r matches Ok(p) && p.selector@ == pair.0 && p.offset == pair.1,
                Err(fault) => r matches Err(e) && error_is(e, fault),
            },
    {
        let selector_text = match item.get("selector") {
            Some(value) => value.as_str_bytes(),
            None => None,
        };
        let selector = match selector_text {
            Some(text) => match Felt::from_prefixed_hex_bytes(text.as_slice()) {
                Ok(f) => f,
                Err(e) => {
                    return Err(e);
                },
            },
            None => {
                return Err(malformed("expected an entry point with a selector"));
            },
        };
        let offset = match item.get("offset") {
            Some(value) => offset_of(value),
            None => None,
        };
        match offset {
            Some(offset) => Ok(EntryPoint { selector, offset }),
            None => Err(malformed("expected an entry point with an offset")),
        }
    }
}

/// The hash of the entry points of one kind of a class.
#[verifier::loop_isolation(false)]
fn entry_points_hash_by_type(by_type: &JsonValue, kind: EntryPointType) -> (r: Result<Felt, Error>)
    ensures
        match entry_points_hash(by_type@, kind) {
            Ok(h) => r matches Ok(f) && f@ == h,
            Err(fault) => r matches Err(e) && error_is(e, fault),
        },
{
    let found = match kind {
        EntryPointType::External => by_type.get("EXTERNAL"),
        EntryPointType::L1Handler => by_type.get("L1_HANDLER"),
        EntryPointType::Constructor => by_type.get("CONSTRUCTOR"),
    };
    let items = match found {
        Some(list) => match list.as_array() {
            Some(items) => items,
            None => {
                return Err(malformed("expected a list of entry points"));
            },
        },
        None => {
            return Err(malformed("missing entry point type"));
        },
    };
    let ghost views = views_of(items@);
    let mut felts: Vec<Felt> = Vec::new();
    let mut i: usize = 0;
    proof {
        assert(views.take(0) =~= Seq::<Json>::empty());
        assert(felt_values(felts@) =~= Seq::<nat>::empty());
    }
    while i < items.len()
        invariant
            i <= items.len(),
            views == views_of(items@),
            entry_point_felts(views.take(i as int)) == Ok::<Seq<nat>, HashFault>(felt_values(felts@)),
        decreases items.len() - i,
    {
        let ghost next = views.take(i + 1);
        let ghost before = felt_values(felts@);
        proof {
            assert(next.drop_last() =~= views.take(i as int));
            assert(next.last() == items[i as int]@);
        }
        match EntryPoint::from_json(&items[i]) {
            Ok(entry_point) => {
                let offset = Felt::from_u128(entry_point.offset as u128);
                felts.push(entry_point.selector);
                felts.push(offset);
                proof {
                    assert(felt_values(felts@) =~= before.push(entry_point.selector@).push(offset@));
                }
            },
            Err(e) => {
                proof {
                    lemma_entry_point_fault(views, i as int);
                }
                return Err(e);
            },
        }
        i += 1;
    }
    proof {
        assert(views =~= views.take(items.len() as int));
    }
    Ok(pedersen_hash_array(felts.as_slice()))
}

/// A list whose prefix has a fault has that fault itself.
proof fn lemma_entry_point_fault(items: Seq<Json>, n: int)
    requires
        0 <= n < items.len(),
        entry_point_felts(items.take(n)) is Ok,
        entry_point_pair(items[n]) is Err,
    ensures
        entry_point_felts(items) == Err::<Seq<nat>, HashFault>(entry_point_pair(items[n])->Err_0),
    decreases items.len(),
{
    if n == items.len() - 1 {
        assert(items.drop_last() =~= items.take(n));
    } else {
        assert(items.drop_last().take(n) =~= items.take(n));
        lemma_entry_point_fault(items.drop_last(), n);
    }
}

/// A list whose prefix has a fault has that fault itself.
proof fn lemma_program_fault(items: Seq<Json>, n: int, builtins: bool)
    requires
        0 <= n < items.len(),
        program_felts(items.take(n), builtins) is Ok,
        (if builtins {
            builtin_felt(items[n])
        } else {
            data_felt(items[n])
        }) is Err,
    ensures
        program_felts(items, builtins) == Err::<Seq<nat>, HashFault>(
            (if builtins {
                builtin_felt(items[n])
            } else {
                data_felt(items[n])
            })->Err_0,
        ),
    decreases items.len(),
{
    if n == items.len() - 1 {
        assert(items.drop_last() =~= items.take(n));
    } else {
        assert(items.drop_last().take(n) =~= items.take(n));
        lemma_program_fault(items.drop_last(), n, builtins);
    }
}

/// The text `0x` and two lower-case hex digits for each byte of `name`.
fn encode_builtin(name: &[u8]) -> (r: Vec<u8>)
    ensures
        r@ == builtin_text(name@),
{
    let mut r: Vec<u8> = Vec::new();
    r.push(0x30);
    r.push(0x78);
    let mut i: usize = 0;
    proof {
        assert(name@.take(0) =~= Seq::<u8>::empty());
        assert(r@ =~= seq![0x30u8, 0x78u8] + hex_pairs(name@.take(0)));
    }
    while i < name.len()
        invariant
            i <= name.len(),
            r@ == seq![0x30u8, 0x78u8] + hex_pairs(name@.take(i as int)),
        decreases name.len() - i,
    {
        let b = name[i];
        let hi = b / 16;
        let lo = b % 16;
        proof {
            let next = name@.take(i + 1);
            assert(next.drop_last() =~= name@.take(i as int));
            assert(next.last() == b);
        }
        r.push(if hi < 10 {
            0x30 + hi
        } else {
            0x57 + hi
        });
        r.push(if lo < 10 {
            0x30 + lo
        } else {
            0x57 + lo
        });
        proof {
            assert(r@ =~= seq![0x30u8, 0x78u8] + hex_pairs(name@.take(i + 1)));
        }
        i += 1;
    }
    proof {
        assert(name@ =~= name@.take(name.len() as int));
    }
    r
}

/// The hash of the builtins (`builtins` true) or of the data words that
/// `program` holds under `key`; of no items where it holds no array there.
#[verifier::loop_isolation(false)]
fn program_hash_of(program: &JsonValue, key: &str, builtins: bool) -> (r: Result<Felt, Error>)
    ensures
        match program_hash(items_or_none(program@, key.spec_bytes()), builtins) {
            Ok(h) => r matches Ok(f) && f@ == h,
            Err(fault) => r matches Err(e) && error_is(e, fault),
        },
{
    let mut felts: Vec<Felt> = Vec::new();
    proof {
        assert(felt_values(felts@) =~= Seq::<nat>::empty());
    }
    let found = match program.get(key) {
        Some(list) => list.as_array(),
        None => None,
    };
    match found {
        Some(items) => {
            let ghost views = views_of(items@);
            let mut i: usize = 0;
            proof {
                assert(views.take(0) =~= Seq::<Json>::empty());
            }
            while i < items.len()
                invariant
                    i <= items.len(),
                    views == views_of(items@),
                    program_felts(views.take(i as int), builtins) == Ok::<Seq<nat>, HashFault>(
                        felt_values(felts@),
                    ),
                decreases items.len() - i,
            {
                let ghost next = views.take(i + 1);
                let ghost before = felt_values(felts@);
                proof {
                    assert(next.drop_last() =~= views.take(i as int));
                    assert(next.last() == items[i as int]@);
                }
                let parsed = match items[i].as_str_bytes() {
                    Some(text) => {
                        if builtins {
                            let encoded = encode_builtin(text.as_slice());
                            Felt::from_prefixed_hex_bytes(encoded.as_slice())
                        } else {
                            Felt::from_prefixed_hex_bytes(text.as_slice())
                        }
                    },
                    None => Err(malformed("expected string")),
                };
                match parsed {
                    Ok(f) => {
                        felts.push(f);
                        proof {
                            assert(felt_values(felts@) =~= before.push(f@));
                        }
                    },
                    Err(e) => {
                        proof {
                            lemma_program_fault(views, i as int, builtins);
                        }
                        return Err(e);
                    },
                }
                i += 1;
            }
            proof {
                assert(views =~= views.take(items.len() as int));
            }
        },
        None => {},
    }
    Ok(pedersen_hash_array(felts.as_slice()))
}

/// The class hash of a class given as a JSON tree.
pub fn compute_class_hash(class: &JsonValue) -> (r: Result<Felt, Error>)
    ensures
        match raw_class_hash(class@) {
            Ok(h) => r matches Ok(f) && f@ == h,
            Err(fault) => r matches Err(e) && error_is(e, fault),
        },
{
    let by_type = match class.get("entry_points_by_type") {
        Some(by_type) => by_type,
        None => {
            return Err(malformed("missing entry_points_by_type entry"));
        },
    };
    let external = match entry_points_hash_by_type(by_type, EntryPointType::External) {
        Ok(h) => h,
        Err(e) => {
            return Err(e);
        },
    };
    let l1_handler = match entry_points_hash_by_type(by_type, EntryPointType::L1Handler) {
        Ok(h) => h,
        Err(e) => {
            return Err(e);
        },
    };
    let constructor = match entry_points_hash_by_type(by_type, EntryPointType::Constructor) {
        Ok(h) => h,
        Err(e) => {
            return Err(e);
        },
    };
    let program = match class.get("program") {
        Some(program) => program,
        None => {
            return Err(malformed("missing program entry"));
        },
    };
    let builtins = match program_hash_of(program, "builtins", true) {
        Ok(h) => h,
        Err(e) => {
            return Err(e);
        },
    };
    let hinted = compute_hinted_class_hash(class);
    let data = match program_hash_of(program, "data", false) {
        Ok(h) => h,
        Err(e) => {
            return Err(e);
        },
    };
    let mut hashes: Vec<Felt> = Vec::new();
    hashes.push(Felt::from_u128(0));
    hashes.push(external);
    hashes.push(l1_handler);
    hashes.push(constructor);
    hashes.push(builtins);
    hashes.push(hinted);
    hashes.push(data);
    proof {
        assert(felt_values(hashes@) =~= seq![
            0nat,
            external@,
            l1_handler@,
            constructor@,
            builtins@,
            hinted@,
            data@,
        ]);
    }
    Ok(pedersen_hash_array(hashes.as_slice()))
}

impl StructuredClass {
    /// A parsed class that carries the hash `class_hash`.
    pub fn new(class_hash: Felt) -> (r: StructuredClass)
        ensures
            r.class_hash()@ == class_hash@,
    {
        StructuredClass { class_hash }
    }

    pub closed spec fn class_hash(self) -> Felt {
        self.class_hash
    }

    /// The hash that the class carries.
    pub fn get_class_hash(&self) -> (r: Felt)
        ensures
            r@ == self.class_hash()@,
    {
        self.class_hash
    }
}

impl View for ContractClass {
    type V = ClassModel;

    open spec fn view(&self) -> ClassModel {
        match self.0 {
            ContractClassInner::Structured(class) => ClassModel::Structured {
                class_hash: class.class_hash()@,
            },
            ContractClassInner::RawJson(json) => ClassModel::RawJson { json: json@ },
        }
    }
}

impl Clone for ContractClass {
    fn clone(&self) -> (r: ContractClass)
        ensures
            r@ == self@,
    {
        match &self.0 {
            ContractClassInner::Structured(class) => ContractClass(
                ContractClassInner::Structured(*class),
            ),
            ContractClassInner::RawJson(json) => ContractClass(
                ContractClassInner::RawJson(json.duplicate()),
            ),
        }
    }
}

impl ContractClass {
    /// The class that a JSON text spells, held as the tree of that text.
    pub fn from_json_str(json_str: &str) -> (r: Result<ContractClass, Error>)
        ensures
            match parsed_json(json_str@) {
                Some(json) => r matches Ok(class) && class@ == (ClassModel::RawJson { json }),
                None => r matches Err(e) && e is MalformedClass,
            },
    {
        match parse_json(json_str) {
            Ok(tree) => Ok(ContractClass(ContractClassInner::RawJson(tree))),
            Err(msg) => Err(Error::MalformedClass { msg }),
        }
    }

    /// The class of a tree.
    pub fn from_json(json: JsonValue) -> (r: ContractClass)
        ensures
            r@ == (ClassModel::RawJson { json: json@ }),
    {
        ContractClass(ContractClassInner::RawJson(json))
    }

    /// The class of a parsed class.
    pub fn from_structured(class: StructuredClass) -> (r: ContractClass)
        ensures
            r@ == (ClassModel::Structured { class_hash: class.class_hash()@ }),
    {
        ContractClass(ContractClassInner::Structured(class))
    }
}

/// The class hash of a class: the hash that a parsed class carries, the
/// computed hash of a JSON tree.
pub open spec fn class_hash_of(class: ClassModel) -> Result<nat, HashFault> {
    match class {
        ClassModel::Structured { class_hash } => Ok(class_hash),
        ClassModel::RawJson { json } => raw_class_hash(json),
    }
}

/// Classes with the same content have the same hash, or the same fault.
pub proof fn lemma_class_hash_deterministic(a: ContractClass, b: ContractClass)
    requires
        a@ == b@,
    ensures
        a.hash_of() == b.hash_of(),
{
}

impl HashProducer for ContractClass {
    open spec fn hash_of(&self) -> Result<nat, HashFault> {
        class_hash_of(self@)
    }

    fn generate_hash(&self) -> (r: Result<Felt, Error>) {
        match &self.0 {
            ContractClassInner::Structured(class) => Ok(class.get_class_hash()),
            ContractClassInner::RawJson(json) => compute_class_hash(json),
        }
    }
}

} // verus!
