//! What holds of the text functions: how what they give back relates to what
//! they were given.
use crate::number::{digits_value, two_digits};
use crate::text::{
    cut, cut_at, digit_runs, elided, folded, head, is_control, is_digit, is_white, joined,
    lemma_pieces_nonempty, pieces, printable, rcut, replaced, tail, text_before, text_lines,
    text_words, trimmed, trimmed_end, trimmed_start, unprefixed, unreturned, unsuffixed, utf8_len,
};
use vstd::prelude::*;
use vstd::string::*;

verus! {

/// A text is cut at the first place that holds the character, and put together
/// again by it.
pub proof fn law_cuts_are_at_the_first_place(s: Seq<char>, c: char)
    ensures
        cut(s, c) is Some <==> s.contains(c),
        cut(s, c) matches Some((a, b)) ==> s == a + seq![c] + b && !a.contains(c) && head(s, c) == a,
        cut(s, c) is None ==> head(s, c) == s,
{
    s.index_of_first_ensures(c);
    match cut(s, c) {
        Some((a, b)) => {
            assert(s =~= a + seq![c] + b);
            if a.contains(c) {
                let k = choose|k: int| 0 <= k < a.len() && a[k] == c;
                assert(s[k] == c);
            }
        },
        None => {},
    }
}

/// A text is cut from behind at the last place that holds the character.
pub proof fn law_cuts_from_behind_are_at_the_last_place(s: Seq<char>, c: char)
    ensures
        rcut(s, c) is Some <==> s.contains(c),
        rcut(s, c) matches Some((a, b)) ==> s == a + seq![c] + b && !b.contains(c) && tail(s, c)
            == b,
        rcut(s, c) is None ==> tail(s, c) == s,
{
    s.index_of_last_ensures(c);
    match rcut(s, c) {
        Some((a, b)) => {
            assert(s =~= a + seq![c] + b);
            if b.contains(c) {
                let k = choose|k: int| 0 <= k < b.len() && b[k] == c;
                assert(s[a.len() + 1 + k] == c);
            }
        },
        None => {},
    }
}

/// What is taken off the start or the end of a text makes it whole again.
pub proof fn law_what_is_taken_off_makes_it_whole(s: Seq<char>, part: Seq<char>, rest: Seq<char>)
    ensures
        unprefixed(part + rest, part) == Some(rest),
        unprefixed(s, part) matches Some(left) ==> s == part + left,
        unsuffixed(rest + part, part) == Some(rest),
        unsuffixed(s, part) matches Some(left) ==> s == left + part,
{
    let (a, b) = (part + rest, rest + part);
    assert(a.subrange(0, part.len() as int) =~= part);
    assert(a.skip(part.len() as int) =~= rest);
    assert(b.subrange(rest.len() as int, b.len() as int) =~= part);
    assert(b.take(rest.len() as int) =~= rest);
    assert(part.is_suffix_of(b));
    assert(part.is_prefix_of(a));
    if unprefixed(s, part) is Some {
        assert(s =~= part + unprefixed(s, part)->0);
    }
    if unsuffixed(s, part) is Some {
        assert(s =~= unsuffixed(s, part)->0 + part);
    }
}

/// Whether a text is white space throughout.
pub open spec fn all_white(s: Seq<char>) -> bool {
    forall|i: int| 0 <= i < s.len() ==> is_white(#[trigger] s[i])
}

/// To trim takes white space off both ends, all of it and nothing else.
pub proof fn law_trimming_takes_white_space_off_the_ends(s: Seq<char>)
    ensures
        exists|a: Seq<char>, b: Seq<char>|
            s == #[trigger] (a + trimmed(s) + b) && all_white(a) && all_white(b),
        trimmed(s).len() > 0 ==> !is_white(trimmed(s)[0]) && !is_white(trimmed(s).last()),
        all_white(s) <==> trimmed(s).len() == 0,
        trimmed(trimmed(s)) == trimmed(s),
        exists|b: Seq<char>| s == #[trigger] (trimmed_end(s) + b) && all_white(b),
        exists|a: Seq<char>| s == #[trigger] (a + trimmed_start(s)) && all_white(a),
        trimmed_end(s).len() > 0 ==> !is_white(trimmed_end(s).last()),
        trimmed_start(s).len() > 0 ==> !is_white(trimmed_start(s)[0]),
{
    let a = lemma_start(s);
    let mid = trimmed_start(s);
    let b = lemma_end(mid);
    assert(s =~= a + trimmed(s) + b);
    let e = lemma_end(s);
    assert(s =~= trimmed_end(s) + e);
    let t = trimmed(s);
    if t.len() > 0 {
        assert(mid[0] == t[0]);
    }
    lemma_stays(t);
    if t.len() == 0 {
        assert(s =~= a + b);
    } else {
        assert(s[a.len() as int] == t[0]);
    }
}

proof fn lemma_start(s: Seq<char>) -> (a: Seq<char>)
    ensures
        s == a + trimmed_start(s),
        all_white(a),
        trimmed_start(s).len() > 0 ==> !is_white(trimmed_start(s)[0]),
    decreases s.len(),
{
    if s.len() > 0 && is_white(s[0]) {
        let a = lemma_start(s.skip(1));
        let all = seq![s[0]] + a;
        assert(s =~= all + trimmed_start(s)) by {
            assert(s =~= seq![s[0]] + s.skip(1));
        }
        all
    } else {
        assert(s =~= Seq::<char>::empty() + s);
        Seq::empty()
    }
}

proof fn lemma_end(s: Seq<char>) -> (b: Seq<char>)
    ensures
        s == trimmed_end(s) + b,
        all_white(b),
        trimmed_end(s).len() > 0 ==> !is_white(trimmed_end(s).last()),
    decreases s.len(),
{
    if s.len() > 0 && is_white(s.last()) {
        let b = lemma_end(s.drop_last());
        let all = b.push(s.last());
        assert(s =~= trimmed_end(s) + all) by {
            assert(s =~= s.drop_last().push(s.last()));
        }
        all
    } else {
        assert(s =~= s + Seq::<char>::empty());
        Seq::empty()
    }
}

proof fn lemma_stays(t: Seq<char>)
    requires
        t.len() > 0 ==> !is_white(t[0]) && !is_white(t.last()),
    ensures
        trimmed(t) == t,
{
}

/// The pieces of a text hold no separator, and joined by it they are the text.
pub proof fn law_pieces_joined_are_the_text(s: Seq<char>, c: char)
    ensures
        pieces(s, c).len() > 0,
        joined(pieces(s, c), seq![c]) == s,
        forall|i: int|
            0 <= i < pieces(s, c).len() ==> !(#[trigger] pieces(s, c)[i]).contains(c),
    decreases s.len(),
{
    lemma_pieces_nonempty(s, c);
    if s.len() > 0 {
        let before = s.drop_last();
        let some = pieces(before, c);
        let all = pieces(s, c);
        lemma_pieces_nonempty(before, c);
        law_pieces_joined_are_the_text(before, c);
        if s.last() == c {
            assert(all.drop_last() =~= some);
            assert(joined(all, seq![c]) =~= s);
        } else {
            assert(all.drop_last() =~= some.drop_last());
            let (x, y) = (some.last(), all.last());
            assert(y == x.push(s.last()));
            assert(some[some.len() - 1] == x);
            assert(!x.contains(c));
            assert(!y.contains(c)) by {
                if y.contains(c) {
                    let k = choose|k: int| 0 <= k < y.len() && y[k] == c;
                    if k < x.len() {
                        assert(x[k] == c);
                    }
                }
            }
            assert(before.push(s.last()) =~= s);
            if all.len() == 1 {
                assert(joined(some, seq![c]) == x);
            } else {
                let start = joined(some.drop_last(), seq![c]) + seq![c];
                assert(joined(some, seq![c]) == start + x);
                assert(joined(all, seq![c]) == start + y);
                assert(start + y =~= (start + x).push(s.last()));
            }
        }
        assert forall|i: int| 0 <= i < all.len() implies !(#[trigger] all[i]).contains(c) by {
            if i < all.len() - 1 {
                assert(all[i] == some[i]);
            }
        }
    }
}

/// The lines of a text are what stands between its line feeds, each without the
/// carriage return before one; a text that ends with one has no line behind it.
pub proof fn law_lines_stand_between_line_feeds(s: Seq<char>)
    ensures
        ({
            let all = pieces(s, '\n');
            &&& text_lines(s).len() == if all.last().len() == 0 {
                all.len() - 1
            } else {
                all.len() as int
            }
            &&& forall|i: int|
                0 <= i < all.len() - 1 ==> (#[trigger] text_lines(s)[i]) == unreturned(all[i])
            &&& all.last().len() > 0 ==> text_lines(s).last() == all.last()
        }),
        forall|i: int| 0 <= i < text_lines(s).len() ==> !(#[trigger] text_lines(s)[i]).contains('\n'),
        forall|line: Seq<char>|
            unreturned(#[trigger] line.push('\r')) == line,
{
    let all = pieces(s, '\n');
    law_pieces_joined_are_the_text(s, '\n');
    assert forall|i: int| 0 <= i < text_lines(s).len() implies !(#[trigger] text_lines(
        s,
    )[i]).contains('\n') by {
        let line = text_lines(s)[i];
        if line.contains('\n') {
            let k = choose|k: int| 0 <= k < line.len() && line[k] == '\n';
            assert(all[i][k] == '\n');
            assert(all[i].contains('\n'));
        }
    }
    assert forall|line: Seq<char>| unreturned(#[trigger] line.push('\r')) == line by {
        assert(line.push('\r').drop_last() =~= line);
    }
}

/// A word is a run without white space: a text of one word is that word, and
/// white space parts the words before it from those behind it.
pub proof fn law_white_space_parts_words(a: Seq<char>, w: char, b: Seq<char>)
    requires
        is_white(w),
    ensures
        text_words(a + seq![w] + b) == text_words(a) + text_words(b),
        (forall|i: int| 0 <= i < b.len() ==> !is_white(#[trigger] b[i])) && b.len() > 0
            ==> text_words(b) == seq![b],
        all_white(b) ==> text_words(b).len() == 0,
    decreases b.len(),
{
    let all = a + seq![w] + b;
    if b.len() == 0 {
        assert(all.drop_last() =~= a);
        assert(text_words(a) + text_words(b) =~= text_words(a));
    } else {
        let before = b.drop_last();
        law_white_space_parts_words(a, w, before);
        assert(all.drop_last() =~= a + seq![w] + before);
        assert(all.last() == b.last());
        assert(all[all.len() - 2] == if b.len() > 1 {
            b[b.len() - 2]
        } else {
            w
        });
        lemma_word_goes_on(before);
        let (x, y) = (text_words(a), text_words(before));
        if is_white(b.last()) {
        } else if b.len() > 1 && !is_white(b[b.len() - 2]) {
            assert(y.len() > 0);
            assert((x + y).drop_last() =~= x + y.drop_last());
            assert((x + y).last() == y.last());
            assert(text_words(all) =~= x + text_words(b));
        } else {
            assert(text_words(all) =~= x + text_words(b));
        }
        if forall|i: int| 0 <= i < b.len() ==> !is_white(#[trigger] b[i]) {
            assert forall|i: int| 0 <= i < before.len() implies !is_white(#[trigger] before[i]) by {
                assert(before[i] == b[i]);
            }
            assert(!is_white(b[b.len() - 1]));
            if b.len() > 1 {
                assert(!is_white(b[b.len() - 2]));
                assert(before.push(b.last()) =~= b);
                assert(text_words(b) =~= seq![b]);
            } else {
                assert(seq![b.last()] =~= b);
                assert(text_words(before) =~= Seq::empty());
                assert(text_words(b) =~= seq![b]);
            }
        }
        if all_white(b) {
            assert(is_white(b[b.len() - 1]));
            assert forall|i: int| 0 <= i < before.len() implies is_white(#[trigger] before[i]) by {
                assert(before[i] == b[i]);
            }
        }
    }
}

proof fn lemma_word_goes_on(s: Seq<char>)
    ensures
        s.len() > 0 && !is_white(s.last()) ==> text_words(s).len() > 0,
{
}

/// A run of digits is found whole, and what is no digit parts the runs.
pub proof fn law_other_characters_part_runs_of_digits(a: Seq<char>, c: char, b: Seq<char>)
    requires
        !is_digit(c),
    ensures
        digit_runs(a + seq![c] + b) == digit_runs(a) + digit_runs(b),
        (forall|i: int| 0 <= i < b.len() ==> is_digit(#[trigger] b[i])) && b.len() > 0
            ==> digit_runs(b) == seq![b],
    decreases b.len(),
{
    let all = a + seq![c] + b;
    if b.len() == 0 {
        assert(all.drop_last() =~= a);
        assert(digit_runs(a) + digit_runs(b) =~= digit_runs(a));
    } else {
        let before = b.drop_last();
        law_other_characters_part_runs_of_digits(a, c, before);
        assert(all.drop_last() =~= a + seq![c] + before);
        assert(all.last() == b.last());
        assert(all[all.len() - 2] == if b.len() > 1 {
            b[b.len() - 2]
        } else {
            c
        });
        let (x, y) = (digit_runs(a), digit_runs(before));
        if !is_digit(b.last()) {
        } else if b.len() > 1 && is_digit(b[b.len() - 2]) {
            assert(before.last() == b[b.len() - 2]);
            assert(y.len() > 0);
            assert((x + y).drop_last() =~= x + y.drop_last());
            assert((x + y).last() == y.last());
            assert(digit_runs(all) =~= x + digit_runs(b));
        } else {
            assert(digit_runs(all) =~= x + digit_runs(b));
        }
        if forall|i: int| 0 <= i < b.len() ==> is_digit(#[trigger] b[i]) {
            assert forall|i: int| 0 <= i < before.len() implies is_digit(#[trigger] before[i]) by {
                assert(before[i] == b[i]);
            }
            assert(is_digit(b[b.len() - 1]));
            if b.len() > 1 {
                assert(is_digit(b[b.len() - 2]));
                assert(before.push(b.last()) =~= b);
                assert(digit_runs(b) =~= seq![b]);
            } else {
                assert(seq![b.last()] =~= b);
                assert(digit_runs(before) =~= Seq::empty());
                assert(digit_runs(b) =~= seq![b]);
            }
        }
    }
}

/// A text that is cut short keeps its start.
pub proof fn law_cut_short_keeps_the_start(s: Seq<char>, limit: nat)
    requires
        0 < limit < s.len(),
    ensures
        elided(s, limit).len() == limit,
        elided(s, limit).take(limit - 1) == s.take(limit - 1),
        elided(s, limit).last() == '…',
{
    assert(elided(s, limit).take(limit - 1) =~= s.take(limit - 1));
}

/// A text is cut at the first place that starts with the separator.
pub proof fn law_cuts_at_a_text_are_at_its_first_place(s: Seq<char>, sep: Seq<char>)
    ensures
        cut_at(s, sep) matches Some((a, b)) ==> s == a + sep + b && forall|i: int|
            0 <= i < a.len() ==> !sep.is_prefix_of(#[trigger] s.skip(i)),
        cut_at(s, sep) is None ==> forall|i: int|
            0 <= i <= s.len() ==> !sep.is_prefix_of(#[trigger] s.skip(i)),
    decreases s.len(),
{
    assert(s.skip(0) =~= s);
    if sep.is_prefix_of(s) {
        assert(s =~= Seq::empty() + sep + s.skip(sep.len() as int));
    } else if s.len() > 0 {
        let rest = s.skip(1);
        law_cuts_at_a_text_are_at_its_first_place(rest, sep);
        assert forall|i: int| 0 < i <= s.len() implies #[trigger] s.skip(i) == rest.skip(i - 1) by {
            assert(s.skip(i) =~= rest.skip(i - 1));
        }
        match cut_at(rest, sep) {
            Some((a, b)) => {
                assert(s =~= seq![s[0]] + rest);
                assert(seq![s[0]] + (a + sep + b) =~= seq![s[0]] + a + sep + b);
                assert forall|i: int| 0 <= i < a.len() + 1 implies !sep.is_prefix_of(
                    #[trigger] s.skip(i),
                ) by {
                    if i > 0 {
                        assert(s.skip(i) == rest.skip(i - 1));
                    }
                }
            },
            None => {
                assert forall|i: int| 0 <= i <= s.len() implies !sep.is_prefix_of(
                    #[trigger] s.skip(i),
                ) by {
                    if i > 0 {
                        assert(s.skip(i) == rest.skip(i - 1));
                    }
                }
            },
        }
    }
}

/// A text comes before another where it is its start, or where the first
/// character that differs comes before.
pub proof fn law_texts_come_in_the_order_of_their_characters(
    common: Seq<char>,
    x: char,
    a: Seq<char>,
    y: char,
    b: Seq<char>,
)
    requires
        x < y,
    ensures
        text_before(common + seq![x] + a, common + seq![y] + b),
        !text_before(common + seq![y] + b, common + seq![x] + a),
        text_before(common, common + seq![x] + a),
        !text_before(common + seq![x] + a, common),
    decreases common.len(),
{
    let (s, t) = (common + seq![x] + a, common + seq![y] + b);
    if common.len() > 0 {
        let rest = common.skip(1);
        law_texts_come_in_the_order_of_their_characters(rest, x, a, y, b);
        assert(s.skip(1) =~= rest + seq![x] + a);
        assert(t.skip(1) =~= rest + seq![y] + b);
        assert(s[0] == common[0] && t[0] == common[0]);
    } else {
        assert(s[0] == x && t[0] == y);
    }
}

/// A character is replaced wherever it stands, and nothing else is.
pub proof fn law_replacing_reaches_every_place(s: Seq<char>, from: char, to: char, i: int)
    requires
        0 <= i < s.len(),
    ensures
        replaced(s, from, to).len() == s.len(),
        s[i] == from ==> replaced(s, from, to)[i] == to,
        s[i] != from ==> replaced(s, from, to)[i] == s[i],
{
}

/// What is folded differs in the case of its letters only.
pub proof fn law_folding_lowers_letters(s: Seq<char>, i: int)
    requires
        0 <= i < s.len(),
    ensures
        folded(s).len() == s.len(),
        'A' <= s[i] <= 'Z' ==> folded(s)[i] as int == s[i] as int + 32,
        !('A' <= s[i] <= 'Z') ==> folded(s)[i] == s[i],
        folded(folded(s))[i] == folded(s)[i],
{
}

/// What is printable is kept, in its order, and control characters are not.
pub proof fn law_only_control_characters_are_left_out(s: Seq<char>)
    ensures
        forall|i: int|
            0 <= i < printable(s).len() ==> !is_control(#[trigger] printable(s)[i]) && s.contains(
                printable(s)[i],
            ),
        forall|i: int|
            0 <= i < s.len() && !is_control(#[trigger] s[i]) ==> printable(s).contains(s[i]),
        (forall|i: int| 0 <= i < s.len() ==> !is_control(#[trigger] s[i])) ==> printable(s) == s,
    decreases s.len(),
{
    reveal(Seq::filter);
    let keeps = |c: char| !is_control(c);
    if s.len() > 0 {
        let before = s.drop_last();
        law_only_control_characters_are_left_out(before);
        let some = printable(before);
        let all = printable(s);
        assert(s[s.len() - 1] == s.last());
        assert forall|i: int| 0 <= i < all.len() implies !is_control(#[trigger] all[i])
            && s.contains(all[i]) by {
            if i < some.len() {
                assert(all[i] == some[i]);
                let k = choose|k: int| 0 <= k < before.len() && before[k] == some[i];
                assert(s[k] == some[i]);
            }
        }
        assert forall|i: int| 0 <= i < s.len() && !is_control(
            #[trigger] s[i],
        ) implies all.contains(s[i]) by {
            if i < before.len() {
                assert(before[i] == s[i]);
                let k = choose|k: int| 0 <= k < some.len() && some[k] == before[i];
                assert(all[k] == some[k]);
            } else {
                assert(all[all.len() - 1] == s[i]);
            }
        }
        if forall|i: int| 0 <= i < s.len() ==> !is_control(#[trigger] s[i]) {
            assert forall|i: int| 0 <= i < before.len() implies !is_control(#[trigger] before[i]) by {
                assert(before[i] == s[i]);
            }
            assert(before.push(s.last()) =~= s);
        }
    }
}

/// A text is as long in bytes as its parts, and an ASCII one as its characters.
pub proof fn law_lengths_in_bytes_add_up(a: Seq<char>, b: Seq<char>)
    ensures
        utf8_len(a + b) == utf8_len(a) + utf8_len(b),
        (forall|i: int| 0 <= i < b.len() ==> (#[trigger] b[i] as u32) < 0x80) ==> utf8_len(b)
            == b.len(),
        b.len() <= utf8_len(b) <= 4 * b.len(),
    decreases b.len(),
{
    if b.len() == 0 {
        assert(a + b =~= a);
    } else {
        let before = b.drop_last();
        law_lengths_in_bytes_add_up(a, before);
        assert((a + b).drop_last() =~= a + before);
        assert((a + b).last() == b.last());
        if forall|i: int| 0 <= i < b.len() ==> (#[trigger] b[i] as u32) < 0x80 {
            assert((b[b.len() - 1] as u32) < 0x80);
            assert forall|i: int| 0 <= i < before.len() implies (#[trigger] before[i] as u32)
                < 0x80 by {
                assert(before[i] == b[i]);
            }
        }
    }
}

/// Two digits are two digits, tens before ones.
pub proof fn law_two_digits_are_tens_and_ones(n: nat)
    requires
        n < 100,
    ensures
        two_digits(n).len() == 2,
        digits_value(two_digits(n)) == n,
        two_digits(n)[0] as int == '0' as int + n / 10,
        two_digits(n)[1] as int == '0' as int + n % 10,
{
    reveal_with_fuel(crate::number::decimal, 3);
    reveal_with_fuel(digits_value, 3);
}

} // verus!
