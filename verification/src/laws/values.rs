//! What holds of the values that come over the bus and in documents.
use crate::dbus::{
    as_bool, as_i16, as_text, as_u32, as_u8, bytes_in, entry_in, entry_text, entry_u32, field_in,
    peeled, raw_in, texts_in, Datum,
};
use crate::json::{
    at, exact_of, integer_tree, member_in, millis_of, natural_of, text_of, tree_of, Json, Tree,
};
use crate::modules::mpris::value::{
    forward, last_in, loose_flag, loose_integer, loose_list, loose_rate, loose_text, Rate,
};
use vstd::prelude::*;

verus! {

/// A property is found by its own name, the first of it, without the variants
/// around it.
pub proof fn law_properties_are_found_by_their_name(
    entries: Seq<(String, Datum)>,
    name: Seq<char>,
)
    ensures
        field_in(entries, name) is None <==> forall|i: int|
            0 <= i < entries.len() ==> (#[trigger] entries[i]).0@ != name,
        raw_in(entries, name) is None <==> forall|i: int|
            0 <= i < entries.len() ==> (#[trigger] entries[i]).0@ != name,
        forall|i: int|
            0 <= i < entries.len() && (#[trigger] entries[i]).0@ == name && (forall|k: int|
                0 <= k < i ==> (#[trigger] entries[k]).0@ != name) ==> field_in(entries, name)
                == Some(peeled(entries[i].1)) && raw_in(entries, name) == Some(entries[i].1),
    decreases entries.len(),
{
    if entries.len() > 0 {
        let rest = entries.skip(1);
        law_properties_are_found_by_their_name(rest, name);
        assert forall|i: int| 0 < i < entries.len() implies (#[trigger] entries[i]) == rest[i
            - 1] by {}
        if entries[0].0@ != name {
            assert forall|i: int|
                0 <= i < entries.len() && (#[trigger] entries[i]).0@ == name && (forall|k: int|
                    0 <= k < i ==> (#[trigger] entries[k]).0@ != name) implies field_in(
                entries,
                name,
            ) == Some(peeled(entries[i].1)) && raw_in(entries, name) == Some(entries[i].1) by {
                assert(rest[i - 1] == entries[i]);
                assert forall|k: int| 0 <= k < i - 1 implies (#[trigger] rest[k]).0@ != name by {
                    assert(rest[k] == entries[k + 1]);
                }
            }
        }
    }
}

/// To peel takes off every variant and nothing else.
pub proof fn law_peeling_takes_variants_off(value: Datum)
    ensures
        !(peeled(value) is Variant),
        !(value is Variant) ==> peeled(value) == value,
        peeled(Datum::Variant(Box::new(value))) == peeled(value),
        peeled(peeled(value)) == peeled(value),
    decreases value,
{
    match value {
        Datum::Variant(inner) => {
            law_peeling_takes_variants_off(*inner);
        },
        _ => {},
    }
}

/// The integer that a value holds, where it holds one.
pub open spec fn held_by(value: Datum) -> Option<int> {
    match value {
        Datum::U8(n) => Some(n as int),
        Datum::I16(n) => Some(n as int),
        Datum::U16(n) => Some(n as int),
        Datum::I32(n) => Some(n as int),
        Datum::U32(n) => Some(n as int),
        Datum::I64(n) => Some(n as int),
        Datum::U64(n) => Some(n as int),
        _ => None,
    }
}

/// A value that is read as a number is that number, whatever it came as, and one
/// that does not fit is not read.
pub proof fn law_numbers_are_read_as_they_are(value: Datum)
    ensures
        as_u32(value) matches Some(n) ==> held_by(value) == Some(n as int),
        as_u8(value) matches Some(n) ==> held_by(value) == Some(n as int),
        as_i16(value) matches Some(n) ==> held_by(value) == Some(n as int),
        value matches Datum::U32(n) ==> as_u32(value) == Some(n),
        value matches Datum::U8(n) ==> as_u8(value) == Some(n) && as_u32(value) == Some(n as u32)
            && as_i16(value) == Some(n as i16),
        value matches Datum::I16(n) ==> as_i16(value) == Some(n),
        value matches Datum::I32(n) ==> (as_u32(value) is Some <==> n >= 0),
        value matches Datum::U64(n) ==> (as_u32(value) is Some <==> n <= 0xffff_ffff),
        as_bool(value) matches Some(b) ==> value == Datum::Bool(b),
        value matches Datum::Bool(b) ==> as_bool(value) == Some(b),
        value matches Datum::Str(s) ==> as_text(value) == Some(s@),
        value matches Datum::Path(s) ==> as_text(value) == Some(s@),
        as_text(value) is Some ==> value is Str || value is Path,
{
}

/// The texts and the bytes of a list are its own, in their order.
pub proof fn law_lists_are_read_in_their_order(list: Seq<Datum>)
    ensures
        (forall|i: int| 0 <= i < list.len() ==> (#[trigger] list[i]) is Str) ==> texts_in(list).len()
            == list.len() && forall|i: int|
            0 <= i < list.len() ==> texts_in(list)[i] == (#[trigger] list[i])->Str_0@,
        (forall|i: int| 0 <= i < list.len() ==> (#[trigger] list[i]) is U8) ==> bytes_in(list).len()
            == list.len() && forall|i: int|
            0 <= i < list.len() ==> bytes_in(list)[i] == (#[trigger] list[i])->U8_0,
        (forall|i: int| 0 <= i < list.len() ==> (#[trigger] list[i]) is Str) ==> loose_list(
            list,
        ).len() == list.len() && forall|i: int|
            0 <= i < list.len() ==> loose_list(list)[i] == (#[trigger] list[i])->Str_0@,
    decreases list.len(),
{
    if list.len() > 0 {
        let before = list.drop_last();
        law_lists_are_read_in_their_order(before);
        assert forall|i: int| 0 <= i < before.len() implies (#[trigger] before[i]) == list[i] by {}
        if forall|i: int| 0 <= i < list.len() ==> (#[trigger] list[i]) is Str {
            assert(list[list.len() - 1] is Str);
            assert forall|i: int| 0 <= i < before.len() implies (#[trigger] before[i]) is Str by {
                assert(list[i] is Str);
            }
            assert forall|i: int| 0 <= i < list.len() implies texts_in(list)[i] == (
            #[trigger] list[i])->Str_0@ && loose_list(list)[i] == list[i]->Str_0@ by {
                if i < before.len() {
                    assert(before[i] == list[i]);
                }
            }
        }
        if forall|i: int| 0 <= i < list.len() ==> (#[trigger] list[i]) is U8 {
            assert(list[list.len() - 1] is U8);
            assert forall|i: int| 0 <= i < before.len() implies (#[trigger] before[i]) is U8 by {
                assert(list[i] is U8);
            }
            assert forall|i: int| 0 <= i < list.len() implies bytes_in(list)[i] == (
            #[trigger] list[i])->U8_0 by {
                if i < before.len() {
                    assert(before[i] == list[i]);
                }
            }
        }
    }
}

/// An entry is found by its own key, the first of it.
pub proof fn law_entries_are_found_by_their_key(
    pairs: Seq<(Datum, Datum)>,
    key: String,
    value: Datum,
    i: int,
)
    requires
        0 <= i < pairs.len(),
        pairs[i] == (Datum::Str(key), value),
        forall|k: int|
            0 <= k < i ==> ((#[trigger] pairs[k]).0 matches Datum::Str(other) && other@ != key@),
    ensures
        entry_in(pairs, key@) == Some(peeled(value)),
        value matches Datum::Str(s) ==> entry_text(pairs, key@) == Some(s@),
        value matches Datum::U32(n) ==> entry_u32(pairs, key@) == Some(n),
    decreases pairs.len(),
{
    if i > 0 {
        let rest = pairs.skip(1);
        assert(pairs[0].0 matches Datum::Str(other) && other@ != key@);
        assert(rest[i - 1] == pairs[i]);
        assert forall|k: int| 0 <= k < i - 1 implies ((#[trigger] rest[k]).0 matches Datum::Str(
            other,
        ) && other@ != key@) by {
            assert(rest[k] == pairs[k + 1]);
        }
        law_entries_are_found_by_their_key(rest, key, value, i - 1);
    }
}

/// A loose number is the number that was sent, in whatever width, and through
/// variants.
pub proof fn law_loose_numbers_are_what_was_sent(value: Datum)
    ensures
        value matches Datum::I64(n) ==> loose_integer(value) == Some(n),
        value matches Datum::I32(n) ==> loose_integer(value) == Some(n as i64),
        value matches Datum::U32(n) ==> loose_integer(value) == Some(n as i64),
        value matches Datum::U64(n) ==> (n <= 0x7fff_ffff_ffff_ffff ==> loose_integer(value) is Some
            && loose_integer(value)->0 == n),
        value matches Datum::F64 { bits, whole } ==> loose_integer(value) == Some(whole)
            && loose_rate(value) == Some(Rate::Double(bits)),
        loose_integer(Datum::Variant(Box::new(value))) == loose_integer(value),
        value matches Datum::Str(s) ==> loose_text(value) == Some(s@) && loose_integer(value) is None,
        loose_text(Datum::Variant(Box::new(value))) == loose_text(value),
        value matches Datum::Bool(b) ==> loose_flag(value) == Some(b) && loose_flag(
            Datum::Variant(Box::new(value)),
        ) == Some(b),
        value matches Datum::I64(n) ==> loose_rate(value) == Some(Rate::Whole(n)),
{
}

/// A rate is forward where it is above nought and a number.
pub proof fn law_rates_are_forward_above_nought(n: i64, bits: u64)
    ensures
        forward(Rate::Whole(n)) <==> n > 0,
        forward(Rate::Double(bits)) <==> bits != 0 && bits <= 0x7ff0_0000_0000_0000,
{
}

/// Of the entries of a dictionary with one key the last one counts.
pub proof fn law_the_last_entry_counts(
    pairs: Seq<(Datum, Datum)>,
    key: String,
    value: Datum,
    other: String,
)
    ensures
        last_in(pairs.push((Datum::Str(key), value)), key@) == Some(value),
        other@ != key@ ==> last_in(pairs.push((Datum::Str(key), value)), other@) == last_in(
            pairs,
            other@,
        ),
{
    assert(pairs.push((Datum::Str(key), value)).drop_last() =~= pairs);
}

/// A member of a document is found by its own name, the first of it; what is not
/// there is null.
pub proof fn law_members_are_found_by_their_name(
    members: Seq<(Seq<char>, Tree)>,
    name: Seq<char>,
    i: int,
)
    requires
        0 <= i < members.len(),
        members[i].0 == name,
        forall|k: int| 0 <= k < i ==> (#[trigger] members[k]).0 != name,
    ensures
        member_in(members, name) == Some(members[i].1),
        at(Tree::Object(members), name) == members[i].1,
    decreases members.len(),
{
    if i > 0 {
        let rest = members.skip(1);
        assert(members[0].0 != name);
        assert(rest[i - 1] == members[i]);
        assert forall|k: int| 0 <= k < i - 1 implies (#[trigger] rest[k]).0 != name by {
            assert(rest[k] == members[k + 1]);
        }
        law_members_are_found_by_their_name(rest, name, i - 1);
    }
}

/// A number that is written is read back.
pub proof fn law_numbers_are_read_back(n: i64)
    ensures
        exact_of(integer_tree(n)) == Some(n),
        millis_of(integer_tree(n)) == Some(n),
        n >= 0 ==> natural_of(integer_tree(n)) == Some(n as u64),
        n < 0 ==> natural_of(integer_tree(n)) is None,
{
}

/// A document is seen as what it is.
pub proof fn law_documents_are_seen_as_they_are(json: Json)
    ensures
        json == Json::Null <==> tree_of(json) == Tree::Null,
        json matches Json::Text(s) ==> text_of(tree_of(json)) == Some(s@),
        json matches Json::Bool(b) ==> tree_of(json) == Tree::Bool(b),
        json matches Json::Share(part, of) ==> tree_of(json) == Tree::Share(part, of),
        json matches Json::Number { exact, natural, whole } ==> exact_of(tree_of(json)) == exact
            && natural_of(tree_of(json)) == natural,
        json matches Json::List(items) ==> (tree_of(json) matches Tree::List(list) && list.len()
            == items@.len() && forall|i: int|
            0 <= i < list.len() ==> #[trigger] list[i] == tree_of(items@[i])),
        json matches Json::Object(members) ==> (tree_of(json) matches Tree::Object(list)
            && list.len() == members@.len() && forall|i: int|
            0 <= i < list.len() ==> (#[trigger] list[i]).0 == members@[i].0@ && list[i].1 == tree_of(
                members@[i].1,
            )),
{
}

} // verus!
