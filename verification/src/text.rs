//! Text as sequences of characters: searching, splitting, trimming, joining.
//!
//! A string is specified by its characters, so every function here says which
//! characters it hands back.
use vstd::prelude::*;
use vstd::string::*;

verus! {

/// `String::push` appends the character it is given and leaves the rest of the
/// string as it was.
pub assume_specification[ String::push ](s: &mut String, c: char)
    ensures
        final(s)@ == old(s)@.push(c),
;

/// The texts of a list of strings.
pub open spec fn texts(list: Seq<String>) -> Seq<Seq<char>> {
    list.map_values(|s: String| s@)
}

/// Unicode's `White_Space` property.
pub open spec fn is_white(c: char) -> bool {
    let n = c as u32;
    ||| 0x09 <= n <= 0x0d
    ||| n == 0x20
    ||| n == 0x85
    ||| n == 0xa0
    ||| n == 0x1680
    ||| 0x2000 <= n <= 0x200a
    ||| n == 0x2028
    ||| n == 0x2029
    ||| n == 0x202f
    ||| n == 0x205f
    ||| n == 0x3000
}

/// Whether `c` is one of Unicode's white space characters.
pub fn white(c: char) -> (r: bool)
    ensures
        r == is_white(c),
{
    let n: u32 = c as u32;
    (0x09 <= n && n <= 0x0d) || n == 0x20 || n == 0x85 || n == 0xa0 || n == 0x1680 || (0x2000 <= n
        && n <= 0x200a) || n == 0x2028 || n == 0x2029 || n == 0x202f || n == 0x205f || n == 0x3000
}

pub open spec fn is_digit(c: char) -> bool {
    '0' <= c <= '9'
}

pub fn digit(c: char) -> (r: bool)
    ensures
        r == is_digit(c),
{
    '0' <= c && c <= '9'
}

/// The characters of a string.
pub fn chars_of(s: &str) -> (v: Vec<char>)
    ensures
        v@ == s@,
{
    let mut v: Vec<char> = Vec::new();
    for c in it: s.chars()
        invariant
            v@ == it.seq().take(it.index()),
            it.seq() == s@,
    {
        v.push(c);
    }
    v
}

/// The characters from `from` up to `to`, as a string.
pub fn string_of(v: &Vec<char>, from: usize, to: usize) -> (s: String)
    requires
        from <= to <= v@.len(),
    ensures
        s@ == v@.subrange(from as int, to as int),
{
    let mut s = String::new();
    let mut i: usize = from;
    while i < to
        invariant
            from <= i <= to <= v@.len(),
            s@ == v@.subrange(from as int, i as int),
        decreases to - i,
    {
        s.push(v[i]);
        i += 1;
    }
    s
}

/// Whether two strings hold the same characters.
pub fn same(a: &str, b: &str) -> (r: bool)
    ensures
        r == (a@ == b@),
{
    let x = chars_of(a);
    let y = chars_of(b);
    if x.len() != y.len() {
        return false;
    }
    let mut i: usize = 0;
    while i < x.len()
        invariant
            x@ == a@,
            y@ == b@,
            x@.len() == y@.len(),
            i <= x@.len(),
            forall|j: int| 0 <= j < i ==> x@[j] == y@[j],
        decreases x@.len() - i,
    {
        if x[i] != y[i] {
            return false;
        }
        i += 1;
    }
    assert(a@ =~= b@);
    true
}

/// The texts of a list of literals.
pub open spec fn literals(list: Seq<&'static str>) -> Seq<Seq<char>> {
    list.map_values(|s: &'static str| s@)
}

/// Whether a list of literals holds the text `s`.
pub fn listed(list: &[&'static str], s: &str) -> (r: bool)
    ensures
        r == literals(list@).contains(s@),
{
    let mut i: usize = 0;
    while i < list.len()
        invariant
            i <= list@.len(),
            forall|j: int| 0 <= j < i ==> #[trigger] literals(list@)[j] != s@,
        decreases list@.len() - i,
    {
        if same(list[i], s) {
            assert(literals(list@)[i as int] == s@);
            return true;
        }
        i += 1;
    }
    false
}

/// Unicode's lower case of a text.
pub uninterp spec fn lowercase(s: Seq<char>) -> Seq<char>;

/// `str::to_lowercase` of the standard library: the result is a function of
/// the text alone, and is not described further.
#[verifier::external_body]
pub(crate) fn to_lowercase(s: &str) -> (r: String)
    ensures
        r@ == lowercase(s@),
{
    s.to_lowercase()
}

/// The text of bytes that may not all be UTF-8.
pub uninterp spec fn lossy(bytes: Seq<u8>) -> Seq<char>;

/// `String::from_utf8_lossy` of the standard library: the result is a function
/// of the bytes alone, and is not described further.
#[verifier::external_body]
pub(crate) fn from_utf8_lossy(bytes: &Vec<u8>) -> (r: String)
    ensures
        r@ == lossy(bytes@),
{
    String::from_utf8_lossy(bytes).into_owned()
}

/// How many bytes a character takes in UTF-8.
pub open spec fn utf8_width(c: char) -> nat {
    let n = c as u32;
    if n < 0x80 {
        1
    } else if n < 0x800 {
        2
    } else if n < 0x10000 {
        3
    } else {
        4
    }
}

/// How many bytes a text takes in UTF-8.
pub open spec fn utf8_len(s: Seq<char>) -> nat
    decreases s.len(),
{
    if s.len() == 0 {
        0
    } else {
        utf8_len(s.drop_last()) + utf8_width(s.last())
    }
}

proof fn lemma_utf8_len_grows(s: Seq<char>, n: int)
    requires
        0 <= n <= s.len(),
    ensures
        utf8_len(s.take(n)) <= utf8_len(s),
    decreases s.len() - n,
{
    if n == s.len() {
        assert(s.take(n) =~= s);
    } else {
        lemma_utf8_len_grows(s, n + 1);
        assert(s.take(n + 1).drop_last() =~= s.take(n));
    }
}

/// Whether a text takes at least `limit` bytes in UTF-8.
pub fn fills(s: &str, limit: usize) -> (r: bool)
    ensures
        r == (utf8_len(s@) >= limit),
{
    let v = chars_of(s);
    let mut n: usize = 0;
    let mut i: usize = 0;
    while i < v.len() && n < limit
        invariant
            v@ == s@,
            i <= s@.len(),
            n == utf8_len(s@.take(i as int)),
        decreases s@.len() - i,
    {
        let c: u32 = v[i] as u32;
        let width: usize = if c < 0x80 {
            1
        } else if c < 0x800 {
            2
        } else if c < 0x10000 {
            3
        } else {
            4
        };
        proof {
            assert(s@.take(i + 1).drop_last() =~= s@.take(i as int));
        }
        if width >= limit - n {
            proof {
                lemma_utf8_len_grows(s@, i + 1);
            }
            return true;
        }
        n += width;
        i += 1;
    }
    proof {
        assert(s@.take(s@.len() as int) =~= s@);
        lemma_utf8_len_grows(s@, i as int);
    }
    n >= limit
}

/// How many bytes a text takes in UTF-8.
pub fn byte_len(s: &str) -> (r: u128)
    ensures
        r == utf8_len(s@),
{
    let v = chars_of(s);
    let mut n: u128 = 0;
    let mut i: usize = 0;
    while i < v.len()
        invariant
            v@ == s@,
            i <= s@.len(),
            n == utf8_len(s@.take(i as int)),
            n <= 4 * i,
        decreases s@.len() - i,
    {
        let c: u32 = v[i] as u32;
        let width: u128 = if c < 0x80 {
            1
        } else if c < 0x800 {
            2
        } else if c < 0x10000 {
            3
        } else {
            4
        };
        proof {
            assert(s@.take(i + 1).drop_last() =~= s@.take(i as int));
        }
        n += width;
        i += 1;
    }
    assert(s@.take(i as int) =~= s@);
    n
}

/// Where `c` first stands in `s`.
pub fn find(s: &str, c: char) -> (r: Option<usize>)
    ensures
        match r {
            Some(i) => i < s@.len() && s@.index_of_first(c) == Some(i as int),
            None => s@.index_of_first(c) is None && !s@.contains(c),
        },
{
    let v = chars_of(s);
    proof {
        s@.index_of_first_ensures(c);
    }
    let mut i: usize = 0;
    while i < v.len()
        invariant
            v@ == s@,
            i <= v@.len(),
            forall|j: int| 0 <= j < i ==> v@[j] != c,
            match s@.index_of_first(c) {
                Some(k) => 0 <= k < s@.len() && s@[k] == c && forall|j: int|
                    0 <= j < k < s@.len() ==> s@[j] != c,
                None => !s@.contains(c),
            },
        decreases v@.len() - i,
    {
        if v[i] == c {
            return Some(i);
        }
        i += 1;
    }
    None
}

/// Where `c` last stands in `s`.
pub fn rfind(s: &str, c: char) -> (r: Option<usize>)
    ensures
        match r {
            Some(i) => i < s@.len() && s@.index_of_last(c) == Some(i as int),
            None => s@.index_of_last(c) is None && !s@.contains(c),
        },
{
    let v = chars_of(s);
    proof {
        s@.index_of_last_ensures(c);
    }
    let mut i: usize = v.len();
    while i > 0
        invariant
            v@ == s@,
            i <= v@.len(),
            forall|j: int| i <= j < v@.len() ==> v@[j] != c,
            match s@.index_of_last(c) {
                Some(k) => 0 <= k < s@.len() && s@[k] == c && forall|j: int|
                    k < j < s@.len() ==> s@[j] != c,
                None => !s@.contains(c),
            },
        decreases i,
    {
        i -= 1;
        if v[i] == c {
            return Some(i);
        }
    }
    None
}

/// `s` before and after the first `c`.
pub open spec fn cut(s: Seq<char>, c: char) -> Option<(Seq<char>, Seq<char>)> {
    match s.index_of_first(c) {
        Some(i) => Some((s.take(i), s.skip(i + 1))),
        None => None,
    }
}

pub fn split_once<'a>(s: &'a str, c: char) -> (r: Option<(&'a str, &'a str)>)
    ensures
        match r {
            Some((a, b)) => cut(s@, c) == Some((a@, b@)),
            None => cut(s@, c) is None,
        },
{
    match find(s, c) {
        Some(i) => {
            let n = s.unicode_len();
            Some((s.substring_char(0, i), s.substring_char(i + 1, n)))
        },
        None => None,
    }
}

/// `s` before and after the last `c`.
pub open spec fn rcut(s: Seq<char>, c: char) -> Option<(Seq<char>, Seq<char>)> {
    match s.index_of_last(c) {
        Some(i) => Some((s.take(i), s.skip(i + 1))),
        None => None,
    }
}

pub fn rsplit_once<'a>(s: &'a str, c: char) -> (r: Option<(&'a str, &'a str)>)
    ensures
        match r {
            Some((a, b)) => rcut(s@, c) == Some((a@, b@)),
            None => rcut(s@, c) is None,
        },
{
    match rfind(s, c) {
        Some(i) => {
            let n = s.unicode_len();
            Some((s.substring_char(0, i), s.substring_char(i + 1, n)))
        },
        None => None,
    }
}

/// `s` up to the first `c`, or all of it.
pub open spec fn head(s: Seq<char>, c: char) -> Seq<char> {
    match cut(s, c) {
        Some((a, _)) => a,
        None => s,
    }
}

pub fn up_to<'a>(s: &'a str, c: char) -> (r: &'a str)
    ensures
        r@ == head(s@, c),
{
    match split_once(s, c) {
        Some((a, _)) => a,
        None => s,
    }
}

/// What follows the last `c` in `s`, or all of it.
pub open spec fn tail(s: Seq<char>, c: char) -> Seq<char> {
    match rcut(s, c) {
        Some((_, b)) => b,
        None => s,
    }
}

pub fn after_last<'a>(s: &'a str, c: char) -> (r: &'a str)
    ensures
        r@ == tail(s@, c),
{
    match rsplit_once(s, c) {
        Some((_, b)) => b,
        None => s,
    }
}

/// Whether `s` begins with `prefix`.
pub fn starts_with(s: &str, prefix: &str) -> (r: bool)
    ensures
        r == prefix@.is_prefix_of(s@),
{
    let n = prefix.unicode_len();
    if n > s.unicode_len() {
        return false;
    }
    same(s.substring_char(0, n), prefix)
}

/// `s` without `prefix`, where it begins with it.
pub open spec fn unprefixed(s: Seq<char>, prefix: Seq<char>) -> Option<Seq<char>> {
    if prefix.is_prefix_of(s) {
        Some(s.skip(prefix.len() as int))
    } else {
        None
    }
}

pub fn strip_prefix<'a>(s: &'a str, prefix: &str) -> (r: Option<&'a str>)
    ensures
        match r {
            Some(rest) => unprefixed(s@, prefix@) == Some(rest@),
            None => unprefixed(s@, prefix@) is None,
        },
{
    if starts_with(s, prefix) {
        Some(s.substring_char(prefix.unicode_len(), s.unicode_len()))
    } else {
        None
    }
}

/// `s` without `suffix`, where it ends with it.
pub open spec fn unsuffixed(s: Seq<char>, suffix: Seq<char>) -> Option<Seq<char>> {
    if suffix.is_suffix_of(s) {
        Some(s.take(s.len() - suffix.len()))
    } else {
        None
    }
}

pub fn strip_suffix<'a>(s: &'a str, suffix: &str) -> (r: Option<&'a str>)
    ensures
        match r {
            Some(rest) => unsuffixed(s@, suffix@) == Some(rest@),
            None => unsuffixed(s@, suffix@) is None,
        },
{
    let n = suffix.unicode_len();
    let all = s.unicode_len();
    if n > all {
        return None;
    }
    if same(s.substring_char(all - n, all), suffix) {
        assert(s@.take(all - n) =~= s@.subrange(0, all - n));
        Some(s.substring_char(0, all - n))
    } else {
        None
    }
}

/// `s` without the white space at its end.
pub open spec fn trimmed_end(s: Seq<char>) -> Seq<char>
    decreases s.len(),
{
    if s.len() > 0 && is_white(s.last()) {
        trimmed_end(s.drop_last())
    } else {
        s
    }
}

pub fn trim_end<'a>(s: &'a str) -> (r: &'a str)
    ensures
        r@ == trimmed_end(s@),
{
    let v = chars_of(s);
    let mut n: usize = v.len();
    assert(s@.take(n as int) =~= s@);
    while n > 0 && white(v[n - 1])
        invariant
            v@ == s@,
            n <= s@.len(),
            trimmed_end(s@.take(n as int)) == trimmed_end(s@),
        ensures
            n <= s@.len(),
            trimmed_end(s@.take(n as int)) == trimmed_end(s@),
            n > 0 ==> !is_white(s@[n - 1]),
        decreases n,
    {
        assert(s@.take(n as int).drop_last() =~= s@.take(n - 1));
        n -= 1;
    }
    s.substring_char(0, n)
}

/// `s` without the white space at its start.
pub open spec fn trimmed_start(s: Seq<char>) -> Seq<char>
    decreases s.len(),
{
    if s.len() > 0 && is_white(s[0]) {
        trimmed_start(s.skip(1))
    } else {
        s
    }
}

pub fn trim_start<'a>(s: &'a str) -> (r: &'a str)
    ensures
        r@ == trimmed_start(s@),
{
    let v = chars_of(s);
    let mut n: usize = 0;
    assert(s@.skip(0) =~= s@);
    while n < v.len() && white(v[n])
        invariant
            v@ == s@,
            n <= s@.len(),
            trimmed_start(s@.skip(n as int)) == trimmed_start(s@),
        ensures
            n <= s@.len(),
            trimmed_start(s@.skip(n as int)) == trimmed_start(s@),
            n < s@.len() ==> !is_white(s@[n as int]),
        decreases s@.len() - n,
    {
        assert(s@.skip(n as int).skip(1) =~= s@.skip(n + 1));
        n += 1;
    }
    s.substring_char(n, v.len())
}

/// `s` without the white space at either end.
pub open spec fn trimmed(s: Seq<char>) -> Seq<char> {
    trimmed_end(trimmed_start(s))
}

pub fn trim<'a>(s: &'a str) -> (r: &'a str)
    ensures
        r@ == trimmed(s@),
{
    trim_end(trim_start(s))
}

/// `s` cut at every `c`, which no piece holds.
pub open spec fn pieces(s: Seq<char>, c: char) -> Seq<Seq<char>>
    decreases s.len(),
{
    if s.len() == 0 {
        seq![Seq::empty()]
    } else {
        let before = pieces(s.drop_last(), c);
        if s.last() == c {
            before.push(Seq::empty())
        } else {
            before.drop_last().push(before.last().push(s.last()))
        }
    }
}

/// There is always a piece.
pub proof fn lemma_pieces_nonempty(s: Seq<char>, c: char)
    ensures
        pieces(s, c).len() > 0,
    decreases s.len(),
{
    if s.len() > 0 {
        lemma_pieces_nonempty(s.drop_last(), c);
    }
}

pub fn split(s: &str, c: char) -> (r: Vec<String>)
    ensures
        texts(r@) == pieces(s@, c),
        r@.len() > 0,
{
    let v = chars_of(s);
    let mut done: Vec<String> = Vec::new();
    let mut piece = String::new();
    let mut i: usize = 0;
    assert(s@.take(0) =~= Seq::<char>::empty());
    assert(texts(done@).push(piece@) =~= seq![Seq::<char>::empty()]);
    while i < v.len()
        invariant
            v@ == s@,
            i <= s@.len(),
            texts(done@).push(piece@) == pieces(s@.take(i as int), c),
        decreases s@.len() - i,
    {
        proof {
            let before = s@.take(i as int);
            let now = s@.take(i + 1);
            assert(now.drop_last() =~= before);
            assert(now.last() == s@[i as int]);
            assert(pieces(before, c).drop_last() =~= texts(done@));
        }
        if v[i] == c {
            proof {
                assert(texts(done@.push(piece)) =~= texts(done@).push(piece@));
            }
            done.push(piece);
            piece = String::new();
        } else {
            piece.push(v[i]);
        }
        i += 1;
    }
    assert(s@.take(i as int) =~= s@);
    assert(texts(done@.push(piece)) =~= texts(done@).push(piece@));
    done.push(piece);
    done
}

/// The parts, in order, with `sep` between each two.
pub open spec fn joined(parts: Seq<Seq<char>>, sep: Seq<char>) -> Seq<char>
    decreases parts.len(),
{
    if parts.len() == 0 {
        Seq::empty()
    } else if parts.len() == 1 {
        parts[0]
    } else {
        joined(parts.drop_last(), sep) + sep + parts.last()
    }
}

pub fn join(parts: &Vec<String>, sep: &str) -> (r: String)
    ensures
        r@ == joined(texts(parts@), sep@),
{
    let mut out = String::new();
    let mut i: usize = 0;
    while i < parts.len()
        invariant
            i <= parts@.len(),
            out@ == joined(texts(parts@).take(i as int), sep@),
        decreases parts@.len() - i,
    {
        proof {
            assert(texts(parts@).take(i + 1).drop_last() =~= texts(parts@).take(i as int));
        }
        if i > 0 {
            out.append(sep);
        }
        out.append(parts[i].as_str());
        i += 1;
    }
    assert(texts(parts@).take(i as int) =~= texts(parts@));
    out
}

/// The text of a line that a line feed ended: a carriage return before the
/// line feed belongs to the ending.
pub open spec fn unreturned(line: Seq<char>) -> Seq<char> {
    if line.len() > 0 && line.last() == '\r' {
        line.drop_last()
    } else {
        line
    }
}

/// The lines of `s`; a last line need not be ended.
pub open spec fn text_lines(s: Seq<char>) -> Seq<Seq<char>> {
    let all = pieces(s, '\n');
    let ended = all.drop_last().map_values(|line: Seq<char>| unreturned(line));
    if all.last().len() == 0 {
        ended
    } else {
        ended.push(all.last())
    }
}

pub fn lines(s: &str) -> (r: Vec<String>)
    ensures
        texts(r@) == text_lines(s@),
{
    let mut all = split(s, '\n');
    let ghost whole = all@;
    let last = all.pop().unwrap();
    proof {
        assert(pieces(s@, '\n').last() == last@);
        assert(texts(all@) =~= pieces(s@, '\n').drop_last());
    }
    let mut out: Vec<String> = Vec::new();
    let mut i: usize = 0;
    while i < all.len()
        invariant
            i <= all@.len(),
            out@.len() == i,
            forall|j: int| 0 <= j < i ==> (#[trigger] out@[j])@ == unreturned(all@[j]@),
        decreases all@.len() - i,
    {
        let line = all[i].as_str();
        let n = line.unicode_len();
        if n > 0 && line.get_char(n - 1) == '\r' {
            let cut = line.substring_char(0, n - 1);
            assert(cut@ =~= line@.drop_last());
            out.push(cut.to_owned());
        } else {
            out.push(line.to_owned());
        }
        i += 1;
    }
    proof {
        assert(texts(out@) =~= pieces(s@, '\n').drop_last().map_values(
            |line: Seq<char>| unreturned(line),
        ));
        assert(texts(out@.push(last)) =~= texts(out@).push(last@));
    }
    if !last.as_str().is_empty() {
        out.push(last);
    }
    out
}

/// The words of `s`: its runs of characters that are not white space.
pub open spec fn text_words(s: Seq<char>) -> Seq<Seq<char>>
    decreases s.len(),
{
    if s.len() == 0 {
        Seq::empty()
    } else {
        let before = text_words(s.drop_last());
        if is_white(s.last()) {
            before
        } else if s.len() > 1 && !is_white(s[s.len() - 2]) {
            before.drop_last().push(before.last().push(s.last()))
        } else {
            before.push(seq![s.last()])
        }
    }
}

pub fn words(s: &str) -> (r: Vec<String>)
    ensures
        texts(r@) == text_words(s@),
{
    let v = chars_of(s);
    let mut done: Vec<String> = Vec::new();
    let mut word: Option<String> = None;
    let mut i: usize = 0;
    while i < v.len()
        invariant
            v@ == s@,
            i <= s@.len(),
            word is Some <==> (i > 0 && !is_white(s@[i - 1])),
            match word {
                Some(w) => texts(done@).push(w@) == text_words(s@.take(i as int)),
                None => texts(done@) == text_words(s@.take(i as int)),
            },
        decreases s@.len() - i,
    {
        let ghost before = s@.take(i as int);
        let ghost now = s@.take(i + 1);
        let ghost was = word;
        proof {
            assert(now.drop_last() =~= before);
            assert(now.last() == s@[i as int]);
            if word is Some {
                assert(text_words(before).drop_last() =~= texts(done@));
            }
        }
        if white(v[i]) {
            match word {
                Some(w) => {
                    proof {
                        assert(texts(done@.push(w)) =~= texts(done@).push(w@));
                    }
                    done.push(w);
                },
                None => {},
            }
            word = None;
        } else {
            let mut w = match word {
                Some(w) => w,
                None => String::new(),
            };
            let ghost prior = w@;
            w.push(v[i]);
            proof {
                if was is None {
                    assert(w@ =~= seq![s@[i as int]]);
                }
            }
            word = Some(w);
        }
        i += 1;
    }
    assert(s@.take(i as int) =~= s@);
    match word {
        Some(w) => {
            proof {
                assert(texts(done@.push(w)) =~= texts(done@).push(w@));
            }
            done.push(w);
        },
        None => {},
    }
    done
}

/// `s` in at most `limit` characters: a longer text gives up its end to an
/// ellipsis.
pub open spec fn elided(s: Seq<char>, limit: nat) -> Seq<char> {
    if s.len() <= limit {
        s
    } else if limit == 0 {
        seq!['…']
    } else {
        s.take(limit - 1).push('…')
    }
}

pub fn elide(text: &str, limit: usize) -> (r: String)
    ensures
        r@ == elided(text@, limit as nat),
{
    if text.unicode_len() <= limit {
        return text.to_owned();
    }
    let kept: usize = if limit == 0 {
        0
    } else {
        limit - 1
    };
    let mut out = text.substring_char(0, kept).to_owned();
    out.push('…');
    assert(limit == 0 ==> out@ =~= seq!['…']);
    out
}

/// An elided text fits, and one that fits is not touched.
pub proof fn law_elided_fits(s: Seq<char>, limit: nat)
    requires
        limit > 0,
    ensures
        elided(s, limit).len() <= limit,
        s.len() <= limit ==> elided(s, limit) == s,
        s.len() > limit ==> elided(s, limit).last() == '…',
{
}

/// `s` before and after the first `sep`.
pub open spec fn cut_at(s: Seq<char>, sep: Seq<char>) -> Option<(Seq<char>, Seq<char>)>
    decreases s.len(),
{
    if sep.is_prefix_of(s) {
        Some((Seq::empty(), s.skip(sep.len() as int)))
    } else if s.len() == 0 {
        None
    } else {
        match cut_at(s.skip(1), sep) {
            Some((a, b)) => Some((seq![s[0]] + a, b)),
            None => None,
        }
    }
}

pub fn split_at_text<'a>(s: &'a str, sep: &str) -> (r: Option<(&'a str, &'a str)>)
    ensures
        match r {
            Some((a, b)) => cut_at(s@, sep@) == Some((a@, b@)),
            None => cut_at(s@, sep@) is None,
        },
{
    let n = s.unicode_len();
    let k = sep.unicode_len();
    let mut i: usize = 0;
    assert(s@.skip(0) =~= s@);
    proof {
        match cut_at(s@, sep@) {
            Some((a, b)) => assert(s@.take(0) + a =~= a),
            None => {},
        }
    }
    loop
        invariant
            n == s@.len(),
            k == sep@.len(),
            i <= n,
            match cut_at(s@.skip(i as int), sep@) {
                Some((a, b)) => cut_at(s@, sep@) == Some((s@.take(i as int) + a, b)),
                None => cut_at(s@, sep@) is None,
            },
        decreases n - i,
    {
        let rest = s.substring_char(i, n);
        assert(rest@ == s@.skip(i as int));
        if starts_with(rest, sep) {
            proof {
                assert(s@.take(i as int) + Seq::empty() =~= s@.take(i as int));
                assert(s@.skip(i as int).skip(k as int) =~= s@.subrange(i + k, n as int));
            }
            return Some((s.substring_char(0, i), s.substring_char(i + k, n)));
        }
        if i == n {
            return None;
        }
        proof {
            assert(s@.skip(i as int).skip(1) =~= s@.skip(i + 1));
            match cut_at(s@.skip(i + 1), sep@) {
                Some((a, b)) => {
                    assert(s@.take(i as int) + (seq![s@[i as int]] + a) =~= s@.take(i + 1) + a);
                },
                None => {},
            }
        }
        i += 1;
    }
}

/// The runs of decimal digits in `s`.
pub open spec fn digit_runs(s: Seq<char>) -> Seq<Seq<char>>
    decreases s.len(),
{
    if s.len() == 0 {
        Seq::empty()
    } else {
        let before = digit_runs(s.drop_last());
        if !is_digit(s.last()) {
            before
        } else if s.len() > 1 && is_digit(s[s.len() - 2]) {
            before.drop_last().push(before.last().push(s.last()))
        } else {
            before.push(seq![s.last()])
        }
    }
}

pub fn runs_of_digits(s: &str) -> (r: Vec<String>)
    ensures
        texts(r@) == digit_runs(s@),
{
    let v = chars_of(s);
    let mut done: Vec<String> = Vec::new();
    let mut run: Option<String> = None;
    let mut i: usize = 0;
    while i < v.len()
        invariant
            v@ == s@,
            i <= s@.len(),
            run is Some <==> (i > 0 && is_digit(s@[i - 1])),
            match run {
                Some(w) => texts(done@).push(w@) == digit_runs(s@.take(i as int)),
                None => texts(done@) == digit_runs(s@.take(i as int)),
            },
        decreases s@.len() - i,
    {
        let ghost before = s@.take(i as int);
        let ghost now = s@.take(i + 1);
        let ghost was = run;
        proof {
            assert(now.drop_last() =~= before);
            assert(now.last() == s@[i as int]);
            if run is Some {
                assert(digit_runs(before).drop_last() =~= texts(done@));
            }
        }
        if !digit(v[i]) {
            match run {
                Some(w) => {
                    proof {
                        assert(texts(done@.push(w)) =~= texts(done@).push(w@));
                    }
                    done.push(w);
                },
                None => {},
            }
            run = None;
        } else {
            let mut w = match run {
                Some(w) => w,
                None => String::new(),
            };
            w.push(v[i]);
            proof {
                if was is None {
                    assert(w@ =~= seq![s@[i as int]]);
                }
            }
            run = Some(w);
        }
        i += 1;
    }
    assert(s@.take(i as int) =~= s@);
    match run {
        Some(w) => {
            proof {
                assert(texts(done@.push(w)) =~= texts(done@).push(w@));
            }
            done.push(w);
        },
        None => {},
    }
    done
}

/// `s` with every `from` turned into `to`.
pub open spec fn replaced(s: Seq<char>, from: char, to: char) -> Seq<char> {
    s.map_values(
        |c: char|
            if c == from {
                to
            } else {
                c
            },
    )
}

pub fn replace(s: &str, from: char, to: char) -> (r: String)
    ensures
        r@ == replaced(s@, from, to),
{
    let v = chars_of(s);
    let mut out = String::new();
    let mut i: usize = 0;
    while i < v.len()
        invariant
            v@ == s@,
            i <= s@.len(),
            out@ == replaced(s@, from, to).take(i as int),
        decreases s@.len() - i,
    {
        out.push(
            if v[i] == from {
                to
            } else {
                v[i]
            },
        );
        assert(out@ =~= replaced(s@, from, to).take(i + 1));
        i += 1;
    }
    assert(out@ =~= replaced(s@, from, to));
    out
}

/// Two texts, one after the other.
pub fn concat(a: &str, b: &str) -> (r: String)
    ensures
        r@ == a@ + b@,
{
    let mut out = a.to_owned();
    out.append(b);
    out
}

/// Three texts, one after the other.
pub fn concat3(a: &str, b: &str, c: &str) -> (r: String)
    ensures
        r@ == a@ + b@ + c@,
{
    let mut out = a.to_owned();
    out.append(b);
    out.append(c);
    out
}

/// Four texts, one after the other.
pub fn concat4(a: &str, b: &str, c: &str, d: &str) -> (r: String)
    ensures
        r@ == a@ + b@ + c@ + d@,
{
    let mut out = a.to_owned();
    out.append(b);
    out.append(c);
    out.append(d);
    out
}

/// The text of an optional string slice.
pub open spec fn opt_str(s: Option<&str>) -> Option<Seq<char>> {
    match s {
        Some(s) => Some(s@),
        None => None,
    }
}

/// The text of an optional string.
pub open spec fn opt_text(s: Option<String>) -> Option<Seq<char>> {
    match s {
        Some(s) => Some(s@),
        None => None,
    }
}

/// Whether `a` comes before `b` in the order of their characters' code points.
pub open spec fn text_before(a: Seq<char>, b: Seq<char>) -> bool
    decreases b.len(),
{
    if b.len() == 0 {
        false
    } else if a.len() == 0 {
        true
    } else if a[0] == b[0] {
        text_before(a.skip(1), b.skip(1))
    } else {
        a[0] < b[0]
    }
}

pub fn comes_before(a: &str, b: &str) -> (r: bool)
    ensures
        r == text_before(a@, b@),
{
    let x = chars_of(a);
    let y = chars_of(b);
    let mut i: usize = 0;
    assert(a@.skip(0) =~= a@);
    assert(b@.skip(0) =~= b@);
    while i < x.len() && i < y.len() && x[i] == y[i]
        invariant
            x@ == a@,
            y@ == b@,
            i <= x@.len(),
            i <= y@.len(),
            text_before(a@.skip(i as int), b@.skip(i as int)) == text_before(a@, b@),
        ensures
            i <= x@.len(),
            i <= y@.len(),
            i < x@.len() && i < y@.len() ==> x@[i as int] != y@[i as int],
            text_before(a@.skip(i as int), b@.skip(i as int)) == text_before(a@, b@),
        decreases x@.len() - i,
    {
        assert(a@.skip(i as int).skip(1) =~= a@.skip(i + 1));
        assert(b@.skip(i as int).skip(1) =~= b@.skip(i + 1));
        i += 1;
    }
    if i == y.len() {
        false
    } else if i == x.len() {
        true
    } else {
        x[i] < y[i]
    }
}

/// Of two different texts exactly one comes before the other.
pub proof fn lemma_text_order_total(a: Seq<char>, b: Seq<char>)
    ensures
        !text_before(a, a),
        a != b ==> (text_before(a, b) <==> !text_before(b, a)),
    decreases a.len(),
{
    if a.len() > 0 {
        if b.len() > 0 {
            lemma_text_order_total(a.skip(1), b.skip(1));
            if a[0] == b[0] && a.skip(1) == b.skip(1) {
                assert(a =~= seq![a[0]] + a.skip(1));
                assert(b =~= seq![b[0]] + b.skip(1));
            }
        } else {
            lemma_text_order_total(a.skip(1), b);
        }
    } else if b.len() == 0 {
        assert(a =~= b);
    }
}

/// What comes before what comes before a text comes before it.
pub proof fn lemma_text_order_transitive(a: Seq<char>, b: Seq<char>, c: Seq<char>)
    requires
        text_before(a, b),
        text_before(b, c),
    ensures
        text_before(a, c),
    decreases a.len(),
{
    if a.len() > 0 && a[0] == b[0] && b[0] == c[0] {
        lemma_text_order_transitive(a.skip(1), b.skip(1), c.skip(1));
    }
}

/// Whether a text is among others.
pub fn is_among(list: &Vec<String>, s: &str) -> (r: bool)
    ensures
        r == texts(list@).contains(s@),
{
    let mut i: usize = 0;
    while i < list.len()
        invariant
            i <= list@.len(),
            forall|j: int| 0 <= j < i ==> (#[trigger] list@[j])@ != s@,
        decreases list@.len() - i,
    {
        if same(list[i].as_str(), s) {
            assert(texts(list@)[i as int] == s@);
            return true;
        }
        i += 1;
    }
    assert forall|j: int| 0 <= j < texts(list@).len() implies texts(list@)[j] != s@ by {
        assert(texts(list@)[j] == list@[j]@);
    }
    false
}

/// The lower case of an ASCII letter; any other character as it is.
pub open spec fn ascii_lower(c: char) -> char {
    if 'A' <= c <= 'Z' {
        (c as int + 32) as char
    } else {
        c
    }
}

/// `s` with its ASCII letters in lower case.
pub open spec fn folded(s: Seq<char>) -> Seq<char> {
    s.map_values(|c: char| ascii_lower(c))
}

fn lower(c: char) -> (r: char)
    ensures
        r == ascii_lower(c),
{
    if 'A' <= c && c <= 'Z' {
        (c as u8 + 32) as char
    } else {
        c
    }
}

/// Whether two texts are the same but for the case of their ASCII letters.
pub fn same_folded(a: &str, b: &str) -> (r: bool)
    ensures
        r == (folded(a@) == folded(b@)),
{
    let x = chars_of(a);
    let y = chars_of(b);
    if x.len() != y.len() {
        assert(folded(a@).len() != folded(b@).len());
        return false;
    }
    let mut i: usize = 0;
    while i < x.len()
        invariant
            x@ == a@,
            y@ == b@,
            x@.len() == y@.len(),
            i <= x@.len(),
            forall|j: int| 0 <= j < i ==> folded(a@)[j] == folded(b@)[j],
        decreases x@.len() - i,
    {
        if lower(x[i]) != lower(y[i]) {
            assert(folded(a@)[i as int] != folded(b@)[i as int]);
            return false;
        }
        i += 1;
    }
    assert(folded(a@) =~= folded(b@));
    true
}

/// Unicode's control characters.
pub open spec fn is_control(c: char) -> bool {
    (c as u32) < 0x20 || 0x7f <= (c as u32) <= 0x9f
}

/// `s` without its control characters.
pub open spec fn printable(s: Seq<char>) -> Seq<char> {
    s.filter(|c: char| !is_control(c))
}

/// `out` with the characters of `s` that are no control characters.
pub fn append_printable(out: &mut String, s: &str)
    ensures
        final(out)@ == old(out)@ + printable(s@),
{
    let v = chars_of(s);
    let ghost start = out@;
    let ghost keep = |c: char| !is_control(c);
    let mut i: usize = 0;
    assert(s@.take(0).filter(keep) =~= Seq::empty()) by {
        reveal(Seq::filter);
    }
    while i < v.len()
        invariant
            v@ == s@,
            i <= s@.len(),
            keep == (|c: char| !is_control(c)),
            out@ == start + s@.take(i as int).filter(keep),
        decreases s@.len() - i,
    {
        let c = v[i];
        proof {
            reveal(Seq::filter);
            assert(s@.take(i + 1).drop_last() =~= s@.take(i as int));
            assert(s@.take(i + 1).last() == c);
        }
        let n: u32 = c as u32;
        if !(n < 0x20 || (0x7f <= n && n <= 0x9f)) {
            out.push(c);
            assert(out@ =~= start + s@.take(i + 1).filter(keep));
        }
        i += 1;
    }
    assert(s@.take(i as int) =~= s@);
}

} // verus!
