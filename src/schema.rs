//! The shapes a typed value takes on the wire: tagged and untagged structs,
//! tagged enums. Each shape is built as a `Value` on the way out and checked
//! against its declaration on the way in.
use vstd::prelude::*;

use crate::de::ValidationError;
use crate::integer::Int;
use crate::value::{
    lemma_pair_views_index, lemma_pair_views_push, lemma_views_index, pair_views, views, Value,
    ValueModel,
};

verus! {

/// How a tagged struct declares one field: its integer tag and whether it may
/// be absent.
#[derive(Clone, Copy, Debug, PartialEq, Eq, Structural)]
pub struct FieldDecl {
    pub tag: u32,
    pub optional: bool,
}

/// How a tagged enum declares one variant: its integer tag and whether it holds
/// one field (else none).
#[derive(Clone, Copy, Debug, PartialEq, Eq, Structural)]
pub struct VariantDecl {
    pub tag: u32,
    pub has_payload: bool,
}

/// The model of an optional value.
pub open spec fn opt_view(o: Option<Value>) -> Option<ValueModel> {
    match o {
        Some(v) => Some(v@),
        None => None,
    }
}

/// The models of a sequence of optional values.
pub open spec fn opt_views(s: Seq<Option<Value>>) -> Seq<Option<ValueModel>> {
    Seq::new(s.len(), |i: int| opt_view(s[i]))
}

/// A map key read as a field or variant tag.
pub open spec fn key_tag(k: ValueModel) -> Result<int, ValidationError> {
    match k {
        ValueModel::Int(i) => if 0 <= i <= u32::MAX {
            Ok(i)
        } else {
            Err(ValidationError::IntegerOutOfRange)
        },
        _ => Err(ValidationError::InvalidType),
    }
}

/// The index of the first field declared with tag `t`, or -1.
pub open spec fn find_field(decls: Seq<FieldDecl>, t: int) -> int
    decreases decls.len(),
{
    if decls.len() == 0 {
        -1
    } else {
        let r = find_field(decls.drop_last(), t);
        if r >= 0 {
            r
        } else if decls.last().tag == t {
            decls.len() - 1
        } else {
            -1
        }
    }
}

/// The index of the first variant declared with tag `t`, or -1.
pub open spec fn find_variant(decls: Seq<VariantDecl>, t: int) -> int
    decreases decls.len(),
{
    if decls.len() == 0 {
        -1
    } else {
        let r = find_variant(decls.drop_last(), t);
        if r >= 0 {
            r
        } else if decls.last().tag == t {
            decls.len() - 1
        } else {
            -1
        }
    }
}

/// Goes through map entries in order, filling `acc` (one slot per declared
/// field): a known tag fills its slot, a tag seen before fails with
/// `DuplicatedField`, an unknown tag is skipped.
pub open spec fn fill_fields(
    entries: Seq<(ValueModel, ValueModel)>,
    decls: Seq<FieldDecl>,
    acc: Seq<Option<ValueModel>>,
) -> Result<Seq<Option<ValueModel>>, ValidationError>
    decreases entries.len(),
{
    if entries.len() == 0 {
        Ok(acc)
    } else {
        match key_tag(entries[0].0) {
            Err(e) => Err(e),
            Ok(t) => {
                let j = find_field(decls, t);
                if j < 0 {
                    fill_fields(entries.drop_first(), decls, acc)
                } else if acc[j] is Some {
                    Err(ValidationError::DuplicatedField)
                } else {
                    fill_fields(entries.drop_first(), decls, acc.update(j, Some(entries[0].1)))
                }
            },
        }
    }
}

/// `n` empty field slots.
pub open spec fn no_fields(n: nat) -> Seq<Option<ValueModel>> {
    Seq::new(n, |i: int| None)
}

/// Whether a required field is left without a value.
pub open spec fn missing_field(decls: Seq<FieldDecl>, filled: Seq<Option<ValueModel>>) -> bool {
    exists|j: int| 0 <= j < decls.len() && !decls[j].optional && #[trigger] filled[j] is None
}

/// The fields of a tagged struct read from a value: one slot per declared
/// field, `None` for an absent optional field.
pub open spec fn struct_fields(m: ValueModel, decls: Seq<FieldDecl>) -> Result<
    Seq<Option<ValueModel>>,
    ValidationError,
> {
    match m {
        ValueModel::Pairs(entries) => match fill_fields(entries, decls, no_fields(decls.len())) {
            Err(e) => Err(e),
            Ok(filled) => if missing_field(decls, filled) {
                Err(ValidationError::MissingField)
            } else {
                Ok(filled)
            },
        },
        _ => Err(ValidationError::InvalidType),
    }
}

/// The map entries of a tagged struct: `(tag, value)` for each field present,
/// in order.
pub open spec fn struct_entries(fields: Seq<(u32, Option<Value>)>) -> Seq<(ValueModel, ValueModel)>
    decreases fields.len(),
{
    if fields.len() == 0 {
        Seq::empty()
    } else {
        let rest = struct_entries(fields.drop_first());
        match fields[0].1 {
            Some(v) => seq![(ValueModel::Int(fields[0].0 as int), v@)] + rest,
            None => rest,
        }
    }
}

/// The fields of an untagged struct or tuple struct of `n` fields read from a
/// value.
pub open spec fn tuple_fields(m: ValueModel, n: nat) -> Result<Seq<ValueModel>, ValidationError> {
    match m {
        ValueModel::Array(items) => if items.len() == n {
            Ok(items)
        } else {
            Err(ValidationError::InvalidLength)
        },
        _ => Err(ValidationError::InvalidType),
    }
}

/// A tagged enum value: the bare tag for a variant without a field, the array
/// `[tag, payload]` for a variant with one.
pub open spec fn enum_value(tag: u32, payload: Option<ValueModel>) -> ValueModel {
    match payload {
        None => ValueModel::Int(tag as int),
        Some(p) => ValueModel::Array(seq![ValueModel::Int(tag as int), p]),
    }
}

/// The variant named by tag `t`, which must have a payload exactly when
/// `payload` holds one.
pub open spec fn pick_variant(decls: Seq<VariantDecl>, t: Result<int, ValidationError>, payload: Option<ValueModel>) -> Result<(int, Option<ValueModel>), ValidationError> {
    match t {
        Err(e) => Err(e),
        Ok(t) => {
            let j = find_variant(decls, t);
            if j < 0 {
                Err(ValidationError::UnknownVariant)
            } else if decls[j].has_payload != (payload is Some) {
                Err(ValidationError::InvalidType)
            } else {
                Ok((j, payload))
            }
        },
    }
}

/// The variant of a tagged enum read from a value, with its payload.
pub open spec fn enum_variant(m: ValueModel, decls: Seq<VariantDecl>) -> Result<
    (int, Option<ValueModel>),
    ValidationError,
> {
    match m {
        ValueModel::Int(i) => pick_variant(decls, key_tag(m), None),
        ValueModel::Array(items) => if items.len() != 2 {
            Err(ValidationError::InvalidLength)
        } else {
            pick_variant(decls, key_tag(items[0]), Some(items[1]))
        },
        _ => Err(ValidationError::InvalidType),
    }
}

/// Reads a map key as a tag.
fn tag_of(k: &Value) -> (r: Result<u32, ValidationError>)
    ensures
        match key_tag(k@) {
            Ok(t) => r is Ok && r->Ok_0 as int == t,
            Err(e) => r == Err::<u32, ValidationError>(e),
        },
{
    match k {
        Value::Int(i) => match i.try_into_u32() {
            Ok(t) => Ok(t),
            Err(_) => Err(ValidationError::IntegerOutOfRange),
        },
        _ => Err(ValidationError::InvalidType),
    }
}

/// The index of the first declared field with tag `t`.
fn field_index(decls: &Vec<FieldDecl>, t: u32) -> (r: Option<usize>)
    ensures
        match r {
            Some(j) => find_field(decls@, t as int) == j,
            None => find_field(decls@, t as int) == -1,
        },
{
    let mut i: usize = 0;
    while i < decls.len()
        invariant
            i <= decls@.len(),
            find_field(decls@.take(i as int), t as int) == -1,
        decreases decls@.len() - i,
    {
        assert(decls@.take(i + 1).drop_last() =~= decls@.take(i as int));
        if decls[i].tag == t {
            proof {
                lemma_find_field_prefix(decls@, i + 1, t as int);
            }
            return Some(i);
        }
        i = i + 1;
    }
    assert(decls@.take(i as int) =~= decls@);
    None
}

/// The index of the first declared variant with tag `t`.
fn variant_index(decls: &Vec<VariantDecl>, t: u32) -> (r: Option<usize>)
    ensures
        match r {
            Some(j) => find_variant(decls@, t as int) == j,
            None => find_variant(decls@, t as int) == -1,
        },
{
    let mut i: usize = 0;
    while i < decls.len()
        invariant
            i <= decls@.len(),
            find_variant(decls@.take(i as int), t as int) == -1,
        decreases decls@.len() - i,
    {
        assert(decls@.take(i + 1).drop_last() =~= decls@.take(i as int));
        if decls[i].tag == t {
            proof {
                lemma_find_variant_prefix(decls@, i + 1, t as int);
            }
            return Some(i);
        }
        i = i + 1;
    }
    assert(decls@.take(i as int) =~= decls@);
    None
}

/// A match found in a prefix is the match in the whole sequence.
proof fn lemma_find_field_prefix(decls: Seq<FieldDecl>, n: int, t: int)
    requires
        0 <= n <= decls.len(),
        find_field(decls.take(n), t) >= 0,
    ensures
        find_field(decls, t) == find_field(decls.take(n), t),
    decreases decls.len() - n,
{
    if n < decls.len() {
        assert(decls.take(n + 1).drop_last() =~= decls.take(n));
        lemma_find_field_prefix(decls, n + 1, t);
    } else {
        assert(decls.take(n) =~= decls);
    }
}

/// A match found in a prefix is the match in the whole sequence.
proof fn lemma_find_variant_prefix(decls: Seq<VariantDecl>, n: int, t: int)
    requires
        0 <= n <= decls.len(),
        find_variant(decls.take(n), t) >= 0,
    ensures
        find_variant(decls, t) == find_variant(decls.take(n), t),
    decreases decls.len() - n,
{
    if n < decls.len() {
        assert(decls.take(n + 1).drop_last() =~= decls.take(n));
        lemma_find_variant_prefix(decls, n + 1, t);
    } else {
        assert(decls.take(n) =~= decls);
    }
}

/// The index found for a tag lies within the declarations and names that tag.
proof fn lemma_find_field_bounds(decls: Seq<FieldDecl>, t: int)
    ensures
        -1 <= find_field(decls, t) < decls.len(),
        find_field(decls, t) >= 0 ==> decls[find_field(decls, t)].tag == t,
    decreases decls.len(),
{
    if decls.len() > 0 {
        lemma_find_field_bounds(decls.drop_last(), t);
    }
}

/// The index found for a tag lies within the declarations and names that tag.
proof fn lemma_find_variant_bounds(decls: Seq<VariantDecl>, t: int)
    ensures
        -1 <= find_variant(decls, t) < decls.len(),
        find_variant(decls, t) >= 0 ==> decls[find_variant(decls, t)].tag == t,
    decreases decls.len(),
{
    if decls.len() > 0 {
        lemma_find_variant_bounds(decls.drop_last(), t);
    }
}

/// Reads the fields of a tagged struct from a map value: one slot per declared
/// field, in declaration order. Entries under unknown tags are skipped; a tag
/// that occurs twice fails with `DuplicatedField`; a required field left
/// without a value fails with `MissingField`; a value that is not a map, or a
/// key that is not an integer, fails with `InvalidType`.
///
/// The whole map is checked here, before any field value is read as its own
/// type: a caller reads the values afterwards. So a map that both lacks a
/// required field and holds a field value of the wrong type fails with
/// `MissingField`, where reading each value as its entry comes would fail
/// first with that value's own error (for `{0: "x"}` with a `u32` under tag 0
/// and a required field under tag 1, `MissingField` rather than
/// `InvalidType`).
pub fn tagged_struct_fields(v: Value, decls: &Vec<FieldDecl>) -> (r: Result<
    Vec<Option<Value>>,
    ValidationError,
>)
    ensures
        match struct_fields(v@, decls@) {
            Ok(f) => r is Ok && opt_views(r->Ok_0@) == f,
            Err(e) => r == Err::<Vec<Option<Value>>, ValidationError>(e),
        },
{
    let ghost vm = v@;
    let mut entries = match v {
        Value::Pairs(entries) => entries,
        _ => {
            return Err(ValidationError::InvalidType);
        },
    };
    let mut filled: Vec<Option<Value>> = Vec::new();
    let mut i: usize = 0;
    while i < decls.len()
        invariant
            i <= decls@.len(),
            filled@.len() == i,
            forall|k: int| 0 <= k < i ==> #[trigger] filled@[k] is None,
        decreases decls@.len() - i,
    {
        filled.push(None);
        i = i + 1;
    }
    let ghost all = pair_views(entries@);
    let ghost empty = opt_views(filled@);
    assert(empty =~= no_fields(decls@.len()));
    while entries.len() > 0
        invariant
            vm == v@,
            vm == ValueModel::Pairs(all),
            empty == no_fields(decls@.len()),
            filled@.len() == decls@.len(),
            fill_fields(all, decls@, empty) == fill_fields(
                pair_views(entries@),
                decls@,
                opt_views(filled@),
            ),
        decreases entries@.len(),
    {
        proof {
            lemma_pair_views_index(entries@);
            lemma_pair_views_index(entries@.remove(0));
            assert(pair_views(entries@.remove(0)) =~= pair_views(entries@).drop_first());
        }
        let (key, val) = entries.remove(0);
        let t = tag_of(&key)?;
        match field_index(decls, t) {
            None => {},
            Some(j) => {
                proof {
                    lemma_find_field_bounds(decls@, t as int);
                }
                if filled[j].is_some() {
                    assert(opt_views(filled@)[j as int] is Some);
                    return Err(ValidationError::DuplicatedField);
                }
                assert(opt_views(filled@)[j as int] is None);
                let ghost before = opt_views(filled@);
                filled.set(j, Some(val));
                assert(opt_views(filled@) =~= before.update(j as int, Some(val@)));
            },
        }
    }
    assert(pair_views(entries@) =~= Seq::<(ValueModel, ValueModel)>::empty());
    let mut j: usize = 0;
    while j < decls.len()
        invariant
            vm == v@,
            struct_fields(vm, decls@) == if missing_field(decls@, opt_views(filled@)) {
                Err(ValidationError::MissingField)
            } else {
                Ok(opt_views(filled@))
            },
            filled@.len() == decls@.len(),
            j <= decls@.len(),
            forall|k: int|
                0 <= k < j ==> decls@[k].optional || #[trigger] opt_views(filled@)[k] is Some,
        decreases decls@.len() - j,
    {
        if !decls[j].optional && filled[j].is_none() {
            assert(opt_views(filled@)[j as int] is None);
            assert(missing_field(decls@, opt_views(filled@)));
            return Err(ValidationError::MissingField);
        }
        j = j + 1;
    }
    Ok(filled)
}

/// The map value of a tagged struct: `(tag, value)` for each present field, in
/// the order given; an absent optional field is left out. A flattened struct's
/// fields are spliced into `fields` by the caller.
pub fn tagged_struct_value(fields: Vec<(u32, Option<Value>)>) -> (r: Value)
    ensures
        r@ == ValueModel::Pairs(struct_entries(fields@)),
{
    let ghost all = fields@;
    let mut fields = fields;
    let mut entries: Vec<(Value, Value)> = Vec::new();
    while fields.len() > 0
        invariant
            struct_entries(all) == pair_views(entries@) + struct_entries(fields@),
        decreases fields@.len(),
    {
        let ghost before = fields@;
        let (tag, value) = fields.remove(0);
        assert(fields@ =~= before.drop_first());
        match value {
            Some(v) => {
                let key = Value::Int(Int::from_u64(tag as u64));
                proof {
                    lemma_pair_views_push(entries@, (key, v));
                }
                let ghost pv = pair_views(entries@);
                entries.push((key, v));
                assert(pv + (seq![(ValueModel::Int(tag as int), v@)] + struct_entries(fields@))
                    =~= pair_views(entries@) + struct_entries(fields@));
            },
            None => {},
        }
    }
    assert(pair_views(entries@) + Seq::<(ValueModel, ValueModel)>::empty() =~= pair_views(entries@));
    Value::Pairs(entries)
}

/// Reads the `n` fields of an untagged struct or a tuple struct from an array
/// value; an array of another length fails with `InvalidLength`.
pub fn tuple_struct_fields(v: Value, n: usize) -> (r: Result<Vec<Value>, ValidationError>)
    ensures
        match tuple_fields(v@, n as nat) {
            Ok(items) => r is Ok && views(r->Ok_0@) == items,
            Err(e) => r == Err::<Vec<Value>, ValidationError>(e),
        },
{
    match v {
        Value::Array(items) => {
            proof {
                lemma_views_index(items@);
            }
            if items.len() == n {
                Ok(items)
            } else {
                Err(ValidationError::InvalidLength)
            }
        },
        _ => Err(ValidationError::InvalidType),
    }
}

/// The value of a tagged enum variant: the bare tag, or `[tag, payload]`.
pub fn tagged_enum_value(tag: u32, payload: Option<Value>) -> (r: Value)
    ensures
        r@ == enum_value(tag, opt_view(payload)),
{
    let key = Value::Int(Int::from_u64(tag as u64));
    match payload {
        None => key,
        Some(p) => {
            let items = vec![key, p];
            proof {
                lemma_views_index(items@);
                assert(views(items@) =~= seq![ValueModel::Int(tag as int), p@]);
            }
            Value::Array(items)
        },
    }
}

/// Reads which variant of a tagged enum a value names, and its payload.
pub fn tagged_enum_variant(v: Value, decls: &Vec<VariantDecl>) -> (r: Result<
    (usize, Option<Value>),
    ValidationError,
>)
    ensures
        match enum_variant(v@, decls@) {
            Ok((j, p)) => r is Ok && r->Ok_0.0 as int == j && opt_view(r->Ok_0.1) == p,
            Err(e) => r == Err::<(usize, Option<Value>), ValidationError>(e),
        },
{
    let (t, payload) = match v {
        Value::Int(i) => {
            let t = tag_of(&Value::Int(i))?;
            (t, None)
        },
        Value::Array(items) => {
            proof {
                lemma_views_index(items@);
            }
            if items.len() != 2 {
                return Err(ValidationError::InvalidLength);
            }
            let mut items = items;
            let ghost iv = views(items@);
            let p = items.pop().unwrap();
            let k = items.pop().unwrap();
            assert(k@ == iv[0] && p@ == iv[1]);
            let t = tag_of(&k)?;
            (t, Some(p))
        },
        _ => {
            return Err(ValidationError::InvalidType);
        },
    };
    match variant_index(decls, t) {
        None => Err(ValidationError::UnknownVariant),
        Some(j) => {
            proof {
                lemma_find_variant_bounds(decls@, t as int);
            }
            if decls[j].has_payload != payload.is_some() {
                Err(ValidationError::InvalidType)
            } else {
                Ok((j, payload))
            }
        },
    }
}

/// Whether no two fields are declared with the same tag.
pub open spec fn distinct_field_tags(decls: Seq<FieldDecl>) -> bool {
    forall|i: int, j: int| 0 <= i < j < decls.len() ==> decls[i].tag != decls[j].tag
}

/// Whether no two variants are declared with the same tag.
pub open spec fn distinct_variant_tags(decls: Seq<VariantDecl>) -> bool {
    forall|i: int, j: int| 0 <= i < j < decls.len() ==> decls[i].tag != decls[j].tag
}

/// Checks a struct declaration: every tag is used by one field only.
pub fn check_field_tags(decls: &Vec<FieldDecl>) -> (r: bool)
    ensures
        r == distinct_field_tags(decls@),
{
    let mut j: usize = 0;
    while j < decls.len()
        invariant
            j <= decls@.len(),
            forall|a: int, b: int| 0 <= a < b < j ==> decls@[a].tag != decls@[b].tag,
        decreases decls@.len() - j,
    {
        let mut i: usize = 0;
        while i < j
            invariant
                i <= j < decls@.len(),
                forall|a: int, b: int| 0 <= a < b < j ==> decls@[a].tag != decls@[b].tag,
                forall|a: int| 0 <= a < i ==> decls@[a].tag != decls@[j as int].tag,
            decreases j - i,
        {
            if decls[i].tag == decls[j].tag {
                return false;
            }
            i = i + 1;
        }
        j = j + 1;
    }
    true
}

/// Checks an enum declaration: every tag is used by one variant only.
pub fn check_variant_tags(decls: &Vec<VariantDecl>) -> (r: bool)
    ensures
        r == distinct_variant_tags(decls@),
{
    let mut j: usize = 0;
    while j < decls.len()
        invariant
            j <= decls@.len(),
            forall|a: int, b: int| 0 <= a < b < j ==> decls@[a].tag != decls@[b].tag,
        decreases decls@.len() - j,
    {
        let mut i: usize = 0;
        while i < j
            invariant
                i <= j < decls@.len(),
                forall|a: int, b: int| 0 <= a < b < j ==> decls@[a].tag != decls@[b].tag,
                forall|a: int| 0 <= a < i ==> decls@[a].tag != decls@[j as int].tag,
            decreases j - i,
        {
            if decls[i].tag == decls[j].tag {
                return false;
            }
            i = i + 1;
        }
        j = j + 1;
    }
    true
}

/// Whether every key of `entries` reads as a tag.
pub open spec fn keys_are_tags(entries: Seq<(ValueModel, ValueModel)>) -> bool {
    forall|i: int| 0 <= i < entries.len() ==> #[trigger] key_tag(entries[i].0) is Ok
}

proof fn lemma_fill_skips_unknown(
    e1: Seq<(ValueModel, ValueModel)>,
    extra: (ValueModel, ValueModel),
    e2: Seq<(ValueModel, ValueModel)>,
    decls: Seq<FieldDecl>,
    acc: Seq<Option<ValueModel>>,
)
    requires
        key_tag(extra.0) is Ok,
        find_field(decls, key_tag(extra.0)->Ok_0) == -1,
    ensures
        fill_fields(e1 + seq![extra] + e2, decls, acc) == fill_fields(e1 + e2, decls, acc),
    decreases e1.len(),
{
    if e1.len() == 0 {
        assert((e1 + seq![extra] + e2).drop_first() =~= e1 + e2);
        assert((e1 + seq![extra] + e2)[0] == extra);
    } else {
        assert((e1 + seq![extra] + e2).drop_first() =~= e1.drop_first() + seq![extra] + e2);
        assert((e1 + e2).drop_first() =~= e1.drop_first() + e2);
        assert((e1 + seq![extra] + e2)[0] == e1[0]);
        assert((e1 + e2)[0] == e1[0]);
        let t = key_tag(e1[0].0);
        if t is Ok {
            let j = find_field(decls, t->Ok_0);
            if j >= 0 && acc[j] is None {
                lemma_fill_skips_unknown(
                    e1.drop_first(),
                    extra,
                    e2,
                    decls,
                    acc.update(j, Some(e1[0].1)),
                );
            } else {
                lemma_fill_skips_unknown(e1.drop_first(), extra, e2, decls, acc);
            }
        }
    }
}

/// Decoding a tagged struct from a map that holds, besides its own entries, one
/// entry under a tag that no field declares gives the same result as without
/// that entry, whatever the entry's value is (a scalar or a nested array or
/// map).
pub proof fn law_unknown_key_ignored(
    e1: Seq<(ValueModel, ValueModel)>,
    extra: (ValueModel, ValueModel),
    e2: Seq<(ValueModel, ValueModel)>,
    decls: Seq<FieldDecl>,
)
    requires
        key_tag(extra.0) is Ok,
        find_field(decls, key_tag(extra.0)->Ok_0) == -1,
    ensures
        struct_fields(ValueModel::Pairs(e1 + seq![extra] + e2), decls) == struct_fields(
            ValueModel::Pairs(e1 + e2),
            decls,
        ),
{
    lemma_fill_skips_unknown(e1, extra, e2, decls, no_fields(decls.len()));
}

proof fn lemma_fill_duplicate(
    e: Seq<(ValueModel, ValueModel)>,
    decls: Seq<FieldDecl>,
    acc: Seq<Option<ValueModel>>,
    t: int,
    j: int,
)
    requires
        keys_are_tags(e),
        acc.len() == decls.len(),
        0 <= j < e.len(),
        key_tag(e[j].0) == Ok::<int, ValidationError>(t),
        find_field(decls, t) >= 0,
        acc[find_field(decls, t)] is Some || exists|i: int|
            0 <= i < j && #[trigger] key_tag(e[i].0) == Ok::<int, ValidationError>(t),
    ensures
        fill_fields(e, decls, acc) == Err::<Seq<Option<ValueModel>>, ValidationError>(
            ValidationError::DuplicatedField,
        ),
    decreases e.len(),
{
    lemma_find_field_bounds(decls, t);
    assert(key_tag(e[0].0) is Ok);
    let t0 = key_tag(e[0].0)->Ok_0;
    let j0 = find_field(decls, t0);
    lemma_find_field_bounds(decls, t0);
    let tail = e.drop_first();
    assert forall|i: int| 0 <= i < tail.len() implies #[trigger] key_tag(tail[i].0) is Ok by {
        assert(tail[i] == e[i + 1]);
    }
    if j == 0 {
    } else if j0 < 0 {
        assert(tail[j - 1] == e[j]);
        if !(acc[find_field(decls, t)] is Some) {
            let i = choose|i: int| 0 <= i < j && #[trigger] key_tag(e[i].0) == Ok::<int, ValidationError>(t);
            assert(i != 0);
            assert(tail[i - 1] == e[i]);
        }
        lemma_fill_duplicate(tail, decls, acc, t, j - 1);
    } else if acc[j0] is Some {
    } else {
        let acc2 = acc.update(j0, Some(e[0].1));
        assert(tail[j - 1] == e[j]);
        if t0 != t {
            assert(j0 != find_field(decls, t));
            if !(acc[find_field(decls, t)] is Some) {
                let i = choose|i: int| 0 <= i < j && #[trigger] key_tag(e[i].0) == Ok::<int, ValidationError>(t);
                assert(i != 0);
                assert(tail[i - 1] == e[i]);
            }
        }
        lemma_fill_duplicate(tail, decls, acc2, t, j - 1);
    }
}

/// A map whose keys are all tags and in which two entries carry the same
/// declared tag fails to decode as a tagged struct with `DuplicatedField`,
/// whichever of the two would hold the field.
pub proof fn law_duplicate_tag_rejected(
    entries: Seq<(ValueModel, ValueModel)>,
    decls: Seq<FieldDecl>,
    i: int,
    j: int,
)
    requires
        keys_are_tags(entries),
        0 <= i < j < entries.len(),
        key_tag(entries[i].0) == key_tag(entries[j].0),
        find_field(decls, key_tag(entries[i].0)->Ok_0) >= 0,
    ensures
        struct_fields(ValueModel::Pairs(entries), decls) == Err::<
            Seq<Option<ValueModel>>,
            ValidationError,
        >(ValidationError::DuplicatedField),
{
    assert(key_tag(entries[i].0) is Ok);
    let t = key_tag(entries[i].0)->Ok_0;
    lemma_fill_duplicate(entries, decls, no_fields(decls.len()), t, j);
}

} // verus!
