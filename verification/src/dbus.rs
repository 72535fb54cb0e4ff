//! D-Bus values.
use crate::text::{from_utf8_lossy, lossy, opt_text, same, texts};
use vstd::prelude::*;
use vstd::string::*;

verus! {

/// A D-Bus value.
#[derive(Debug)]
pub enum Datum {
    Bool(bool),
    U8(u8),
    I16(i16),
    U16(u16),
    I32(i32),
    U32(u32),
    I64(i64),
    U64(u64),
    /// A double: its bits, and its whole part, which stops at the least and the
    /// greatest integer and is 0 of what is no number.
    F64 { bits: u64, whole: i64 },
    Str(String),
    Path(String),
    List(Vec<Datum>),
    Dict(Vec<(Datum, Datum)>),
    /// A value in a variant.
    Variant(Box<Datum>),
    /// Anything else.
    Other,
}

/// The properties of an object, of which no two have the same name.
#[derive(Debug)]
pub struct Props {
    pub entries: Vec<(String, Datum)>,
}

/// The value that nested variants carry.
pub open spec fn peeled(value: Datum) -> Datum
    decreases value,
{
    match value {
        Datum::Variant(inner) => peeled(*inner),
        _ => value,
    }
}

pub fn peel<'a>(value: &'a Datum) -> (r: &'a Datum)
    ensures
        *r == peeled(*value),
    decreases value,
{
    match value {
        Datum::Variant(inner) => peel(inner),
        _ => value,
    }
}

/// The value under that name, out of its variants.
pub open spec fn field_in(entries: Seq<(String, Datum)>, name: Seq<char>) -> Option<Datum>
    decreases entries.len(),
{
    if entries.len() == 0 {
        None
    } else if entries[0].0@ == name {
        Some(peeled(entries[0].1))
    } else {
        field_in(entries.skip(1), name)
    }
}

/// The value under that name, as it is.
pub open spec fn raw_in(entries: Seq<(String, Datum)>, name: Seq<char>) -> Option<Datum>
    decreases entries.len(),
{
    if entries.len() == 0 {
        None
    } else if entries[0].0@ == name {
        Some(entries[0].1)
    } else {
        raw_in(entries.skip(1), name)
    }
}

pub open spec fn as_u32(value: Datum) -> Option<u32> {
    match value {
        Datum::U32(n) => Some(n),
        Datum::I32(n) => if n >= 0 {
            Some(n as u32)
        } else {
            None
        },
        Datum::U16(n) => Some(n as u32),
        Datum::U8(n) => Some(n as u32),
        Datum::U64(n) => if n <= u32::MAX {
            Some(n as u32)
        } else {
            None
        },
        _ => None,
    }
}

pub open spec fn as_u8(value: Datum) -> Option<u8> {
    match value {
        Datum::U8(n) => Some(n),
        Datum::U32(n) => if n <= u8::MAX {
            Some(n as u8)
        } else {
            None
        },
        Datum::I32(n) => if 0 <= n <= u8::MAX {
            Some(n as u8)
        } else {
            None
        },
        _ => None,
    }
}

pub open spec fn as_i16(value: Datum) -> Option<i16> {
    match value {
        Datum::I16(n) => Some(n),
        Datum::I32(n) => if i16::MIN <= n <= i16::MAX {
            Some(n as i16)
        } else {
            None
        },
        Datum::U8(n) => Some(n as i16),
        _ => None,
    }
}

pub open spec fn as_bool(value: Datum) -> Option<bool> {
    match value {
        Datum::Bool(b) => Some(b),
        _ => None,
    }
}

/// The text of a string or an object path.
pub open spec fn as_text(value: Datum) -> Option<Seq<char>> {
    match value {
        Datum::Str(s) => Some(s@),
        Datum::Path(s) => Some(s@),
        _ => None,
    }
}

/// The texts in a list, out of their variants.
pub open spec fn texts_in(list: Seq<Datum>) -> Seq<Seq<char>>
    decreases list.len(),
{
    if list.len() == 0 {
        Seq::empty()
    } else {
        let before = texts_in(list.drop_last());
        match as_text(peeled(list.last())) {
            Some(s) => before.push(s),
            None => before,
        }
    }
}

/// The bytes in a list, out of their variants.
pub open spec fn bytes_in(list: Seq<Datum>) -> Seq<u8>
    decreases list.len(),
{
    if list.len() == 0 {
        Seq::empty()
    } else {
        let before = bytes_in(list.drop_last());
        match peeled(list.last()) {
            Datum::U8(b) => before.push(b),
            _ => before,
        }
    }
}

impl Props {
    pub open spec fn field(self, name: Seq<char>) -> Option<Datum> {
        field_in(self.entries@, name)
    }

    pub open spec fn raw(self, name: Seq<char>) -> Option<Datum> {
        raw_in(self.entries@, name)
    }

    pub open spec fn u32_at(self, name: Seq<char>) -> Option<u32> {
        match self.field(name) {
            Some(value) => as_u32(value),
            None => None,
        }
    }

    pub open spec fn u8_at(self, name: Seq<char>) -> Option<u8> {
        match self.field(name) {
            Some(value) => as_u8(value),
            None => None,
        }
    }

    pub open spec fn i16_at(self, name: Seq<char>) -> Option<i16> {
        match self.field(name) {
            Some(value) => as_i16(value),
            None => None,
        }
    }

    pub open spec fn bool_at(self, name: Seq<char>) -> Option<bool> {
        match self.field(name) {
            Some(value) => as_bool(value),
            None => None,
        }
    }

    pub open spec fn text_at(self, name: Seq<char>) -> Option<Seq<char>> {
        match self.field(name) {
            Some(value) => as_text(value),
            None => None,
        }
    }

    pub open spec fn texts_at(self, name: Seq<char>) -> Seq<Seq<char>> {
        match self.field(name) {
            Some(Datum::List(list)) => texts_in(list@),
            _ => Seq::empty(),
        }
    }

    pub fn get(&self, name: &str) -> (r: Option<&Datum>)
        ensures
            match r {
                Some(value) => self.field(name@) == Some(*value),
                None => self.field(name@) is None,
            },
    {
        let ghost all = self.entries@;
        let mut i: usize = 0;
        assert(all.skip(0) =~= all);
        while i < self.entries.len()
            invariant
                i <= all.len(),
                all == self.entries@,
                field_in(all.skip(i as int), name@) == field_in(all, name@),
            decreases all.len() - i,
        {
            proof {
                assert(all.skip(i as int)[0] == all[i as int]);
                assert(all.skip(i as int).skip(1) =~= all.skip(i + 1));
            }
            if same(self.entries[i].0.as_str(), name) {
                return Some(peel(&self.entries[i].1));
            }
            i += 1;
        }
        None
    }

    /// The value under that name, as it is.
    pub fn get_raw(&self, name: &str) -> (r: Option<&Datum>)
        ensures
            match r {
                Some(value) => self.raw(name@) == Some(*value),
                None => self.raw(name@) is None,
            },
    {
        let ghost all = self.entries@;
        let mut i: usize = 0;
        assert(all.skip(0) =~= all);
        while i < self.entries.len()
            invariant
                i <= all.len(),
                all == self.entries@,
                raw_in(all.skip(i as int), name@) == raw_in(all, name@),
            decreases all.len() - i,
        {
            proof {
                assert(all.skip(i as int)[0] == all[i as int]);
                assert(all.skip(i as int).skip(1) =~= all.skip(i + 1));
            }
            if same(self.entries[i].0.as_str(), name) {
                return Some(&self.entries[i].1);
            }
            i += 1;
        }
        None
    }

    pub fn u32_of(&self, name: &str) -> (r: Option<u32>)
        ensures
            r == self.u32_at(name@),
    {
        match self.get(name) {
            Some(value) => match value {
                Datum::U32(n) => Some(*n),
                Datum::I32(n) => if *n >= 0 {
                    Some(*n as u32)
                } else {
                    None
                },
                Datum::U16(n) => Some(*n as u32),
                Datum::U8(n) => Some(*n as u32),
                Datum::U64(n) => if *n <= u32::MAX as u64 {
                    Some(*n as u32)
                } else {
                    None
                },
                _ => None,
            },
            None => None,
        }
    }

    pub fn u8_of(&self, name: &str) -> (r: Option<u8>)
        ensures
            r == self.u8_at(name@),
    {
        match self.get(name) {
            Some(value) => match value {
                Datum::U8(n) => Some(*n),
                Datum::U32(n) => if *n <= u8::MAX as u32 {
                    Some(*n as u8)
                } else {
                    None
                },
                Datum::I32(n) => if 0 <= *n && *n <= u8::MAX as i32 {
                    Some(*n as u8)
                } else {
                    None
                },
                _ => None,
            },
            None => None,
        }
    }

    pub fn i16_of(&self, name: &str) -> (r: Option<i16>)
        ensures
            r == self.i16_at(name@),
    {
        match self.get(name) {
            Some(value) => match value {
                Datum::I16(n) => Some(*n),
                Datum::I32(n) => if i16::MIN as i32 <= *n && *n <= i16::MAX as i32 {
                    Some(*n as i16)
                } else {
                    None
                },
                Datum::U8(n) => Some(*n as i16),
                _ => None,
            },
            None => None,
        }
    }

    pub fn bool_of(&self, name: &str) -> (r: Option<bool>)
        ensures
            r == self.bool_at(name@),
    {
        match self.get(name) {
            Some(value) => match value {
                Datum::Bool(b) => Some(*b),
                _ => None,
            },
            None => None,
        }
    }

    pub fn string_of(&self, name: &str) -> (r: Option<String>)
        ensures
            opt_text(r) == self.text_at(name@),
    {
        match self.get(name) {
            Some(value) => match value {
                Datum::Str(s) => Some(s.as_str().to_owned()),
                Datum::Path(s) => Some(s.as_str().to_owned()),
                _ => None,
            },
            None => None,
        }
    }

    pub fn paths_of(&self, name: &str) -> (r: Vec<String>)
        ensures
            texts(r@) == self.texts_at(name@),
    {
        let mut out: Vec<String> = Vec::new();
        assert(texts(out@) =~= Seq::empty());
        match self.get(name) {
            Some(Datum::List(list)) => {
                let ghost all = list@;
                let mut i: usize = 0;
                while i < list.len()
                    invariant
                        i <= all.len(),
                        all == list@,
                        texts(out@) == texts_in(all.take(i as int)),
                    decreases all.len() - i,
                {
                    proof {
                        assert(all.take(i + 1).drop_last() =~= all.take(i as int));
                        assert(all.take(i + 1).last() == all[i as int]);
                    }
                    let ghost had = out@;
                    match peel(&list[i]) {
                        Datum::Str(s) => {
                            out.push(s.as_str().to_owned());
                            assert(texts(out@) =~= texts(had).push(s@));
                        },
                        Datum::Path(s) => {
                            out.push(s.as_str().to_owned());
                            assert(texts(out@) =~= texts(had).push(s@));
                        },
                        _ => {},
                    }
                    i += 1;
                }
                assert(all.take(i as int) =~= all);
            },
            _ => {},
        }
        out
    }
}

/// The network name among properties: bytes, which need not all be UTF-8.
pub open spec fn ssid_in(props: Props) -> Option<Seq<char>> {
    let value = match props.field("Ssid"@) {
        Some(value) => Some(value),
        None => props.field("ssid"@),
    };
    match value {
        Some(Datum::List(list)) => Some(lossy(bytes_in(list@))),
        _ => None,
    }
}

pub fn ssid_of(props: &Props) -> (r: Option<String>)
    ensures
        opt_text(r) == ssid_in(*props),
{
    let value = match props.get("Ssid") {
        Some(value) => Some(value),
        None => props.get("ssid"),
    };
    match value {
        Some(Datum::List(list)) => {
            let ghost all = list@;
            let mut bytes: Vec<u8> = Vec::new();
            let mut i: usize = 0;
            while i < list.len()
                invariant
                    i <= all.len(),
                    all == list@,
                    bytes@ == bytes_in(all.take(i as int)),
                decreases all.len() - i,
            {
                proof {
                    assert(all.take(i + 1).drop_last() =~= all.take(i as int));
                    assert(all.take(i + 1).last() == all[i as int]);
                }
                match peel(&list[i]) {
                    Datum::U8(b) => {
                        bytes.push(*b);
                    },
                    _ => {},
                }
                i += 1;
            }
            assert(all.take(i as int) =~= all);
            Some(from_utf8_lossy(&bytes))
        },
        _ => None,
    }
}

pub open spec fn path_char(c: char) -> bool {
    'a' <= c <= 'z' || 'A' <= c <= 'Z' || '0' <= c <= '9' || c == '_'
}

/// An object path: names of letters, digits and underscores, a slash before
/// each of them, or a slash alone.
pub open spec fn object_path(s: Seq<char>) -> bool {
    &&& s.len() > 0
    &&& s[0] == '/'
    &&& forall|i: int| 0 <= i < s.len() ==> path_char(#[trigger] s[i]) || s[i] == '/'
    &&& forall|i: int, j: int|
        0 <= i < j < s.len() && j == i + 1 ==> !(#[trigger] s[i] == '/' && #[trigger] s[j] == '/')
    &&& s.len() > 1 ==> s.last() != '/'
}

/// `zbus::zvariant::ObjectPath::try_from`, which takes the texts that are
/// object paths: a slash, then names of ASCII letters, digits and underscores
/// with a slash between them.
#[verifier::external_body]
pub(crate) fn is_object_path(s: &str) -> (r: bool)
    ensures
        r == object_path(s@),
{
    zbus::zvariant::ObjectPath::try_from(s).is_ok()
}

/// The value under a name in a dictionary, out of its variants.
pub open spec fn entry_in(pairs: Seq<(Datum, Datum)>, name: Seq<char>) -> Option<Datum>
    decreases pairs.len(),
{
    if pairs.len() == 0 {
        None
    } else if peeled(pairs[0].0) matches Datum::Str(key) && key@ == name {
        Some(peeled(pairs[0].1))
    } else {
        entry_in(pairs.skip(1), name)
    }
}

pub fn entry_of<'a>(pairs: &'a Vec<(Datum, Datum)>, name: &str) -> (r: Option<&'a Datum>)
    ensures
        match r {
            Some(value) => entry_in(pairs@, name@) == Some(*value),
            None => entry_in(pairs@, name@) is None,
        },
{
    let ghost all = pairs@;
    let mut i: usize = 0;
    assert(all.skip(0) =~= all);
    while i < pairs.len()
        invariant
            i <= all.len(),
            all == pairs@,
            entry_in(all.skip(i as int), name@) == entry_in(all, name@),
        decreases all.len() - i,
    {
        proof {
            assert(all.skip(i as int)[0] == all[i as int]);
            assert(all.skip(i as int).skip(1) =~= all.skip(i + 1));
        }
        match peel(&pairs[i].0) {
            Datum::Str(key) => if same(key.as_str(), name) {
                return Some(peel(&pairs[i].1));
            },
            _ => {},
        }
        i += 1;
    }
    None
}

/// The string under a name in a dictionary.
pub open spec fn entry_text(pairs: Seq<(Datum, Datum)>, name: Seq<char>) -> Option<Seq<char>> {
    match entry_in(pairs, name) {
        Some(Datum::Str(s)) => Some(s@),
        _ => None,
    }
}

pub fn dict_string(pairs: &Vec<(Datum, Datum)>, name: &str) -> (r: Option<String>)
    ensures
        opt_text(r) == entry_text(pairs@, name@),
{
    match entry_of(pairs, name) {
        Some(Datum::Str(s)) => Some(s.as_str().to_owned()),
        _ => None,
    }
}

/// The number under a name in a dictionary.
pub open spec fn entry_u32(pairs: Seq<(Datum, Datum)>, name: Seq<char>) -> Option<u32> {
    match entry_in(pairs, name) {
        Some(Datum::U32(n)) => Some(n),
        Some(Datum::I32(n)) => if n >= 0 {
            Some(n as u32)
        } else {
            None
        },
        _ => None,
    }
}

pub fn dict_u32(pairs: &Vec<(Datum, Datum)>, name: &str) -> (r: Option<u32>)
    ensures
        r == entry_u32(pairs@, name@),
{
    match entry_of(pairs, name) {
        Some(Datum::U32(n)) => Some(*n),
        Some(Datum::I32(n)) => if *n >= 0 {
            Some(*n as u32)
        } else {
            None
        },
        _ => None,
    }
}

} // verus!
