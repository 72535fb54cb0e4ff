//! Values as players send them: careless about types, so whatever fits is
//! taken.
use crate::dbus::Datum;
use crate::text::{opt_text, same, texts};
use vstd::prelude::*;
use vstd::string::*;

verus! {

/// A text, an object path, or what a variant or the first place of a list
/// holds of them.
pub open spec fn loose_text(value: Datum) -> Option<Seq<char>>
    decreases value,
{
    match value {
        Datum::Str(s) => Some(s@),
        Datum::Path(s) => Some(s@),
        Datum::Variant(inner) => loose_text(*inner),
        Datum::List(list) => if list@.len() > 0 {
            loose_text(list@[0])
        } else {
            None
        },
        _ => None,
    }
}

pub fn text_value(value: &Datum) -> (r: Option<String>)
    ensures
        opt_text(r) == loose_text(*value),
    decreases value,
{
    match value {
        Datum::Str(s) => Some(s.as_str().to_owned()),
        Datum::Path(s) => Some(s.as_str().to_owned()),
        Datum::Variant(inner) => text_value(inner),
        Datum::List(list) => if list.len() > 0 {
            text_value(&list[0])
        } else {
            None
        },
        _ => None,
    }
}

/// The signed number with the same bits.
pub open spec fn wrapped(n: u64) -> i64 {
    if n <= i64::MAX {
        n as i64
    } else {
        (n - 0x1_0000_0000_0000_0000) as i64
    }
}

pub open spec fn loose_integer(value: Datum) -> Option<i64>
    decreases value,
{
    match value {
        Datum::I64(n) => Some(n),
        Datum::U64(n) => Some(wrapped(n)),
        Datum::I32(n) => Some(n as i64),
        Datum::U32(n) => Some(n as i64),
        Datum::I16(n) => Some(n as i64),
        Datum::U16(n) => Some(n as i64),
        Datum::U8(n) => Some(n as i64),
        Datum::F64 { bits, whole } => Some(whole),
        Datum::Variant(inner) => loose_integer(*inner),
        _ => None,
    }
}

pub fn integer_value(value: &Datum) -> (r: Option<i64>)
    ensures
        r == loose_integer(*value),
    decreases value,
{
    match value {
        Datum::I64(n) => Some(*n),
        Datum::U64(n) => Some(
            if *n <= i64::MAX as u64 {
                *n as i64
            } else {
                -((u64::MAX - *n) as i64) - 1
            },
        ),
        Datum::I32(n) => Some(*n as i64),
        Datum::U32(n) => Some(*n as i64),
        Datum::I16(n) => Some(*n as i64),
        Datum::U16(n) => Some(*n as i64),
        Datum::U8(n) => Some(*n as i64),
        Datum::F64 { bits, whole } => Some(*whole),
        Datum::Variant(inner) => integer_value(inner),
        _ => None,
    }
}

/// How fast a stream runs: a double by its bits, or a whole number.
#[derive(Debug, Clone, Copy, PartialEq, Eq, Structural)]
pub enum Rate {
    Double(u64),
    Whole(i64),
}

/// Bits of the greatest double, which is infinite.
pub const INFINITE: u64 = 0x7ff0_0000_0000_0000;

/// Whether a rate is above nought.
pub open spec fn forward(rate: Rate) -> bool {
    match rate {
        Rate::Double(bits) => 0 < bits <= INFINITE,
        Rate::Whole(n) => n > 0,
    }
}

pub fn is_forward(rate: Rate) -> (r: bool)
    ensures
        r == forward(rate),
{
    match rate {
        Rate::Double(bits) => 0 < bits && bits <= INFINITE,
        Rate::Whole(n) => n > 0,
    }
}

pub open spec fn loose_rate(value: Datum) -> Option<Rate> {
    match value {
        Datum::F64 { bits, whole } => Some(Rate::Double(bits)),
        _ => match loose_integer(value) {
            Some(n) => Some(Rate::Whole(n)),
            None => None,
        },
    }
}

pub fn number(value: &Datum) -> (r: Option<Rate>)
    ensures
        r == loose_rate(*value),
{
    match value {
        Datum::F64 { bits, whole } => Some(Rate::Double(*bits)),
        _ => match integer_value(value) {
            Some(n) => Some(Rate::Whole(n)),
            None => None,
        },
    }
}

pub open spec fn loose_flag(value: Datum) -> Option<bool> {
    match value {
        Datum::Bool(b) => Some(b),
        Datum::Variant(inner) => match *inner {
            Datum::Bool(b) => Some(b),
            _ => None,
        },
        _ => None,
    }
}

pub fn flag(value: &Datum) -> (r: Option<bool>)
    ensures
        r == loose_flag(*value),
{
    match value {
        Datum::Bool(b) => Some(*b),
        Datum::Variant(inner) => match &**inner {
            Datum::Bool(b) => Some(*b),
            _ => None,
        },
        _ => None,
    }
}

/// The texts in a list.
pub open spec fn loose_list(list: Seq<Datum>) -> Seq<Seq<char>>
    decreases list.len(),
{
    if list.len() == 0 {
        Seq::empty()
    } else {
        let before = loose_list(list.drop_last());
        match loose_text(list.last()) {
            Some(s) => before.push(s),
            None => before,
        }
    }
}

/// The texts in a list, or a text alone.
pub open spec fn loose_texts(value: Datum) -> Seq<Seq<char>>
    decreases value,
{
    match value {
        Datum::List(list) => loose_list(list@),
        Datum::Variant(inner) => loose_texts(*inner),
        _ => match loose_text(value) {
            Some(s) => seq![s],
            None => Seq::empty(),
        },
    }
}

pub fn strings(value: &Datum) -> (r: Vec<String>)
    ensures
        texts(r@) == loose_texts(*value),
    decreases value,
{
    match value {
        Datum::List(list) => {
            let ghost all = list@;
            let mut out: Vec<String> = Vec::new();
            let mut i: usize = 0;
            assert(texts(out@) =~= Seq::empty());
            while i < list.len()
                invariant
                    i <= all.len(),
                    all == list@,
                    texts(out@) == loose_list(all.take(i as int)),
                decreases all.len() - i,
            {
                proof {
                    assert(all.take(i + 1).drop_last() =~= all.take(i as int));
                    assert(all.take(i + 1).last() == all[i as int]);
                }
                let ghost had = out@;
                match text_value(&list[i]) {
                    Some(s) => {
                        out.push(s);
                        assert(texts(out@) =~= texts(had).push(s@));
                    },
                    None => {},
                }
                i += 1;
            }
            assert(all.take(i as int) =~= all);
            out
        },
        Datum::Variant(inner) => strings(inner),
        _ => {
            let mut out: Vec<String> = Vec::new();
            match text_value(value) {
                Some(s) => {
                    out.push(s);
                    assert(texts(out@) =~= seq![s@]);
                },
                None => {
                    assert(texts(out@) =~= Seq::empty());
                },
            }
            out
        },
    }
}

/// The last value under a name.
pub open spec fn last_in(pairs: Seq<(Datum, Datum)>, name: Seq<char>) -> Option<Datum>
    decreases pairs.len(),
{
    if pairs.len() == 0 {
        None
    } else if loose_text(pairs.last().0) == Some(name) {
        Some(pairs.last().1)
    } else {
        last_in(pairs.drop_last(), name)
    }
}

/// What a dictionary has under a name, variants around it or not.
pub open spec fn loose_entry(value: Datum, name: Seq<char>) -> Option<Datum>
    decreases value,
{
    match value {
        Datum::Dict(pairs) => last_in(pairs@, name),
        Datum::Variant(inner) => loose_entry(*inner, name),
        _ => None,
    }
}

pub fn entry<'a>(value: &'a Datum, name: &str) -> (r: Option<&'a Datum>)
    ensures
        match r {
            Some(found) => loose_entry(*value, name@) == Some(*found),
            None => loose_entry(*value, name@) is None,
        },
    decreases value,
{
    match value {
        Datum::Dict(pairs) => {
            let ghost all = pairs@;
            let mut n: usize = pairs.len();
            assert(all.take(n as int) =~= all);
            while n > 0
                invariant
                    n <= all.len(),
                    all == pairs@,
                    loose_entry(*value, name@) == last_in(all, name@),
                    last_in(all.take(n as int), name@) == last_in(all, name@),
                decreases n,
            {
                proof {
                    assert(all.take(n as int).last() == all[n - 1]);
                    assert(all.take(n as int).drop_last() =~= all.take(n - 1));
                }
                match text_value(&pairs[n - 1].0) {
                    Some(key) => {
                        if same(key.as_str(), name) {
                            return Some(&pairs[n - 1].1);
                        }
                    },
                    None => {},
                }
                n -= 1;
            }
            None
        },
        Datum::Variant(inner) => entry(inner, name),
        _ => None,
    }
}

} // verus!
