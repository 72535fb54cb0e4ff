//! CPU module: package temperature and usage on the bar; threads, sensors and
//! the busiest processes in the popup.
use crate::modules::card::{
    block, blocks, column_view, field, field_view, meter_tone, metered, put, put_block, under,
    with_block, Gauge, Line, LineView, Thread, ThreadView, Tone,
};
use crate::modules::sampled::Measured;
use crate::number::{decimal, parse_u64, unsigned, whole};
use crate::order::{in_line, sort, Ranked};
use crate::reading::{Reading, EIGHTY_FIVE, NINETY, SEVENTY_FIVE, SIXTY, THIRTY};
use crate::text::{
    comes_before, concat, concat3, concat4, cut, elide, elided, lines, opt_text, rcut, rsplit_once, same, split_once,
    starts_with, strip_prefix, strip_suffix, text_before, text_lines, text_words, texts, trim,
    trimmed, unprefixed, unsuffixed, words,
};
use std::collections::HashMap;
use vstd::prelude::*;
use vstd::string::*;

verus! {

broadcast use vstd::std_specs::hash::group_hash_axioms;

pub const ICON: &'static str = "\u{f035b}";

pub const ICON_ALERT: &'static str = "\u{f0028}";

pub const TEMP_LOW: &'static str = "\u{f10c3}";

pub const TEMP_MIDDLE: &'static str = "\u{f050f}";

pub const TEMP_HIGH: &'static str = "\u{f10c2}";

pub const TEMP_ALERT: &'static str = "\u{f0026}";

/// Columns that the threads are listed in.
pub const CORE_COLUMNS: usize = 2;

/// Processes listed in the popup.
pub const TOP_PROCESSES: usize = 5;

/// Longest model name in the popup.
pub const MODEL_LIMIT: usize = 32;

/// Whether usage is plain, to be warned of, or critical.
pub open spec fn tier_of(usage: i64) -> u8 {
    if usage >= NINETY {
        2
    } else if usage >= SEVENTY_FIVE {
        1
    } else {
        0
    }
}

pub fn usage_tier(usage: i64) -> (r: u8)
    ensures
        r == tier_of(usage),
{
    if usage >= NINETY {
        2
    } else if usage >= SEVENTY_FIVE {
        1
    } else {
        0
    }
}

pub open spec fn usage_glyph_of(usage: i64) -> Seq<char> {
    if tier_of(usage) == 0 {
        ICON@
    } else {
        ICON_ALERT@
    }
}

pub fn usage_glyph(usage: i64) -> (r: &'static str)
    ensures
        r@ == usage_glyph_of(usage),
{
    if usage_tier(usage) == 0 {
        ICON
    } else {
        ICON_ALERT
    }
}

/// The glyph and tier of a temperature: the glyph steps every thirty degrees up
/// to the critical ninety, the colour at eighty-five and ninety.
pub open spec fn temp_of(temp: i64) -> (Seq<char>, u8) {
    if temp >= NINETY {
        (TEMP_ALERT@, 2)
    } else {
        (
            if temp < THIRTY {
                TEMP_LOW@
            } else if temp < SIXTY {
                TEMP_MIDDLE@
            } else {
                TEMP_HIGH@
            },
            if temp >= EIGHTY_FIVE {
                1
            } else {
                0
            },
        )
    }
}

pub fn temp_visual(temp: i64) -> (r: (&'static str, u8))
    ensures
        (r.0@, r.1) == temp_of(temp),
{
    if temp >= NINETY {
        return (TEMP_ALERT, 2);
    }
    let glyph: &'static str = if temp < THIRTY {
        TEMP_LOW
    } else if temp < SIXTY {
        TEMP_MIDDLE
    } else {
        TEMP_HIGH
    };
    (
        glyph,
        if temp >= EIGHTY_FIVE {
            1
        } else {
            0
        },
    )
}

/// What the bar cell draws of a temperature.
#[derive(Debug, Clone)]
pub struct Temp {
    pub shown: String,
    pub glyph: &'static str,
    pub tier: u8,
}

/// What the bar cell draws, and nothing else.
#[derive(Debug, Clone)]
pub struct BarKey {
    pub temp: Option<Temp>,
    pub usage: String,
    pub glyph: &'static str,
    pub tier: u8,
}

pub struct BarKeyView {
    pub temp: Option<(Seq<char>, Seq<char>, u8)>,
    pub usage: Seq<char>,
    pub glyph: Seq<char>,
    pub tier: u8,
}

impl View for BarKey {
    type V = BarKeyView;

    open spec fn view(&self) -> BarKeyView {
        BarKeyView {
            temp: match self.temp {
                Some(temp) => Some((temp.shown@, temp.glyph@, temp.tier)),
                None => None,
            },
            usage: self.usage@,
            glyph: self.glyph@,
            tier: self.tier,
        }
    }
}

pub open spec fn key_of(total: Reading, package: Option<Reading>) -> BarKeyView {
    BarKeyView {
        temp: match package {
            Some(temp) => Some(
                (temp.shown@ + "°C"@, temp_of(temp.order).0, temp_of(temp.order).1),
            ),
            None => None,
        },
        usage: total.shown@ + "%"@,
        glyph: usage_glyph_of(total.order),
        tier: tier_of(total.order),
    }
}

/// The bar cell for a reading of usage and, where there is one, of temperature.
pub fn bar_key(total: &Reading, package: &Option<Reading>) -> (r: BarKey)
    ensures
        r@ == key_of(*total, *package),
{
    BarKey {
        temp: match package {
            Some(temp) => {
                let (glyph, tier) = temp_visual(temp.order);
                Some(Temp { shown: concat(temp.shown.as_str(), "°C"), glyph, tier })
            },
            None => None,
        },
        usage: concat(total.shown.as_str(), "%"),
        glyph: usage_glyph(total.order),
        tier: usage_tier(total.order),
    }
}

impl BarKey {
    pub fn is(&self, other: &BarKey) -> (r: bool)
        ensures
            r == (self@ == other@),
    {
        let temps = match (&self.temp, &other.temp) {
            (Some(a), Some(b)) => same(a.shown.as_str(), b.shown.as_str()) && same(
                a.glyph,
                b.glyph,
            ) && a.tier == b.tier,
            (None, None) => true,
            _ => false,
        };
        temps && same(self.usage.as_str(), other.usage.as_str()) && same(self.glyph, other.glyph)
            && self.tier == other.tier
    }
}

/// Which samples reach the bar.
#[derive(Debug, Clone)]
pub struct Gate {
    pub drawn: Option<BarKey>,
}

pub open spec fn drawn_view(drawn: Option<BarKey>) -> Option<BarKeyView> {
    match drawn {
        Some(key) => Some(key@),
        None => None,
    }
}

impl Gate {
    pub fn new() -> (r: Gate)
        ensures
            r.drawn is None,
    {
        Gate { drawn: None }
    }

    /// Whether a sample is to be sent: every one while the popup is on screen,
    /// else one that draws another cell than the last that was sent.
    pub fn passes(&mut self, total: &Reading, package: &Option<Reading>, detailed: bool) -> (r:
        bool)
        ensures
            r == (detailed || drawn_view(old(self).drawn) != Some(key_of(*total, *package))),
            drawn_view(final(self).drawn) == Some(key_of(*total, *package)),
    {
        let key = bar_key(total, package);
        let same = match &self.drawn {
            Some(drawn) => drawn.is(&key),
            None => false,
        };
        self.drawn = Some(key);
        detailed || !same
    }
}

/// Time counters of one line: all time, and idle time.
#[derive(Debug, Clone, Copy, PartialEq, Eq, Structural)]
pub struct Times {
    pub total: u128,
    pub idle: u128,
}

/// A counter, nought where it cannot be read.
pub open spec fn counter(word: Seq<char>) -> nat {
    match whole(word) {
        Some(n) => if n <= u64::MAX {
            n
        } else {
            0
        },
        None => 0,
    }
}

/// The sum of the counters.
pub open spec fn summed(counters: Seq<Seq<char>>) -> nat
    decreases counters.len(),
{
    if counters.len() == 0 {
        0
    } else {
        summed(counters.drop_last()) + counter(counters.last())
    }
}

/// The counters that count: the eight behind the line's name, for guest time is
/// already part of user time.
pub open spec fn counters(line: Seq<char>) -> Seq<Seq<char>> {
    let words = text_words(line);
    if words.len() == 0 {
        Seq::empty()
    } else if words.len() > 9 {
        words.subrange(1, 9)
    } else {
        words.skip(1)
    }
}

pub open spec fn times_of(line: Seq<char>) -> Option<Times> {
    let fields = counters(line);
    if fields.len() < 5 {
        None
    } else {
        Some(
            Times {
                total: summed(fields) as u128,
                idle: (counter(fields[3]) + counter(fields[4])) as u128,
            },
        )
    }
}

fn count(word: &str) -> (r: u64)
    ensures
        r == counter(word@),
{
    match parse_u64(word) {
        Some(n) => n,
        None => 0,
    }
}

pub fn times(line: &str) -> (r: Option<Times>)
    ensures
        r == times_of(line@),
{
    let fields = words(line);
    let ghost all = counters(line@);
    assert(texts(fields@).len() == fields@.len());
    if fields.len() < 6 {
        return None;
    }
    let end: usize = if fields.len() > 9 {
        9
    } else {
        fields.len()
    };
    let mut total: u128 = 0;
    let mut i: usize = 1;
    while i < end
        invariant
            1 <= i <= end <= 9,
            end <= fields@.len(),
            all.len() == end - 1,
            forall|j: int| 0 <= j < all.len() ==> #[trigger] all[j] == fields@[j + 1]@,
            total == summed(all.take(i - 1)),
            total <= (i - 1) * 0xffff_ffff_ffff_ffff,
        decreases end - i,
    {
        proof {
            assert(all.take(i as int).drop_last() =~= all.take(i - 1));
            assert(all.take(i as int).last() == all[i - 1]);
        }
        let n: u64 = count(fields[i].as_str());
        total += n as u128;
        i += 1;
    }
    proof {
        assert(all.take(i - 1) =~= all);
        assert(all[3] == fields@[4]@);
        assert(all[4] == fields@[5]@);
    }
    Some(
        Times {
            total,
            idle: count(fields[4].as_str()) as u128 + count(fields[5].as_str()) as u128,
        },
    )
}

/// The counters of the lines that start the text, the machine's first, then one
/// for each thread.
pub open spec fn all_times(lines: Seq<Seq<char>>) -> Seq<Times>
    decreases lines.len(),
{
    if lines.len() == 0 || !"cpu"@.is_prefix_of(lines[0]) {
        Seq::empty()
    } else {
        let rest = all_times(lines.skip(1));
        match times_of(lines[0]) {
            Some(times) => seq![times] + rest,
            None => rest,
        }
    }
}

pub fn read_stat(text: &str) -> (r: Vec<Times>)
    ensures
        r@ == all_times(text_lines(text@)),
{
    let list = lines(text);
    let ghost all = text_lines(text@);
    let mut out: Vec<Times> = Vec::new();
    let mut i: usize = 0;
    assert(all.skip(0) =~= all);
    assert(texts(list@).len() == list@.len());
    assert(out@ + all_times(all) =~= all_times(all));
    while i < list.len()
        invariant
            i <= list@.len(),
            all == texts(list@),
            all.len() == list@.len(),
            all == text_lines(text@),
            out@ + all_times(all.skip(i as int)) == all_times(all),
        decreases list@.len() - i,
    {
        let ghost had = out@;
        let line = list[i].as_str();
        proof {
            assert(all.skip(i as int)[0] == line@);
            assert(all.skip(i as int).skip(1) =~= all.skip(i + 1));
        }
        if !starts_with(line, "cpu") {
            assert(out@ + Seq::<Times>::empty() =~= out@);
            return out;
        }
        match times(line) {
            Some(times) => {
                out.push(times);
                assert(out@ + all_times(all.skip(i + 1)) =~= had + (seq![times] + all_times(
                    all.skip(i + 1),
                )));
            },
            None => {},
        }
        i += 1;
    }
    assert(all.skip(i as int) =~= Seq::empty());
    assert(out@ + Seq::<Times>::empty() =~= out@);
    out
}

/// What is over of `a` without `b`, nothing at the least.
pub open spec fn over(a: u128, b: u128) -> u128 {
    if a > b {
        (a - b) as u128
    } else {
        0
    }
}

fn less(a: u128, b: u128) -> (r: u128)
    ensures
        r == over(a, b),
{
    if a > b {
        a - b
    } else {
        0
    }
}

/// How much time was spent, and how much time there was.
#[derive(Debug, Clone, Copy, PartialEq, Eq, Structural)]
pub struct Spent {
    pub busy: u128,
    pub total: u128,
}

pub open spec fn spent_between(now: Times, before: Times) -> Spent {
    let total = over(now.total, before.total);
    Spent { busy: over(total, over(now.idle, before.idle)), total }
}

/// No more time is ever spent than there was.
pub proof fn law_usage_is_a_part(now: Times, before: Times)
    ensures
        spent_between(now, before).busy <= spent_between(now, before).total,
{
}

/// The processes' times at the last sample, and the machine's.
#[derive(Debug, Clone)]
pub struct Sampler {
    pub prev: Vec<Times>,
    pub prev_procs: HashMap<u32, u128>,
}

/// What a sample gives.
#[derive(Debug, Clone)]
pub enum Sampled {
    /// Nothing could be read.
    Nothing,
    /// The first sample, or the number of threads changed: there is nothing to
    /// compare with yet.
    Baseline,
    /// What each line spent since the last sample.
    Spent(Vec<Spent>),
}

/// What every line spent.
pub open spec fn all_spent(now: Seq<Times>, before: Seq<Times>) -> Seq<Spent> {
    Seq::new(now.len(), |i: int| spent_between(now[i], before[i]))
}

/// Whether a line spent what its own counters grew by: so much in all, and all of
/// it but what it was idle for. Counters that fell back spent nothing.
pub open spec fn own_time(now: Times, before: Times, spent: Spent) -> bool {
    &&& now.total >= before.total ==> spent.total == now.total - before.total
    &&& now.total < before.total ==> spent.total == 0
    &&& now.idle >= before.idle && spent.total >= now.idle - before.idle ==> spent.busy
        == spent.total - (now.idle - before.idle)
    &&& now.idle < before.idle ==> spent.busy == spent.total
    &&& now.idle >= before.idle && spent.total < now.idle - before.idle ==> spent.busy == 0
}

impl Sampler {
    pub fn new() -> (r: Sampler)
        ensures
            r.prev@.len() == 0,
            r.prev_procs@ == Map::<u32, u128>::empty(),
    {
        Sampler { prev: Vec::new(), prev_procs: HashMap::new() }
    }

    /// Compare the counters with those of the last sample.
    pub fn sample(&mut self, stat: &str) -> (r: Sampled)
        ensures
            final(self).prev_procs == old(self).prev_procs,
            ({
                let now = all_times(text_lines(stat@));
                if now.len() == 0 {
                    r is Nothing && final(self).prev == old(self).prev
                } else {
                    &&& final(self).prev@ == now
                    &&& if old(self).prev@.len() != now.len() {
                        r is Baseline
                    } else {
                        r matches Sampled::Spent(spent) && spent@ == all_spent(now, old(self).prev@)
                    }
                }
            }),
            r matches Sampled::Spent(spent) ==> {
                &&& spent@.len() == final(self).prev@.len()
                &&& forall|i: int|
                    0 <= i < spent@.len() ==> own_time(
                        final(self).prev@[i],
                        old(self).prev@[i],
                        #[trigger] spent@[i],
                    )
            },
    {
        let now = read_stat(stat);
        if now.len() == 0 {
            return Sampled::Nothing;
        }
        if self.prev.len() != now.len() {
            self.prev = now;
            return Sampled::Baseline;
        }
        let mut out: Vec<Spent> = Vec::new();
        let mut i: usize = 0;
        while i < now.len()
            invariant
                i <= now@.len(),
                now@.len() == self.prev@.len(),
                *self == *old(self),
                out@.len() == i,
                forall|j: int|
                    0 <= j < i ==> #[trigger] out@[j] == spent_between(now@[j], self.prev@[j]),
            decreases now@.len() - i,
        {
            let total: u128 = less(now[i].total, self.prev[i].total);
            let idle: u128 = less(now[i].idle, self.prev[i].idle);
            out.push(Spent { busy: less(total, idle), total });
            i += 1;
        }
        assert(out@ =~= all_spent(now@, self.prev@));
        self.prev = now;
        Sampled::Spent(out)
    }

    /// Keep the processes' times for the next sample.
    pub fn keep(&mut self, now: &Vec<(u32, u128)>)
        ensures
            final(self).prev == old(self).prev,
            final(self).prev_procs@ == kept(now@),
    {
        let mut procs: HashMap<u32, u128> = HashMap::new();
        let mut i: usize = 0;
        while i < now.len()
            invariant
                i <= now@.len(),
                procs@ == kept(now@.take(i as int)),
            decreases now@.len() - i,
        {
            proof {
                assert(now@.take(i + 1).drop_last() =~= now@.take(i as int));
                assert(now@.take(i + 1).last() == now@[i as int]);
            }
            procs.insert(now[i].0, now[i].1);
            i += 1;
        }
        assert(now@.take(i as int) =~= now@);
        self.prev_procs = procs;
    }

    /// The processes that ran the most since the last sample, of a machine
    /// that counted `total` in that time.
    pub fn top(&mut self, now: &Vec<(u32, u128)>, total: u128) -> (r: Vec<Ran>)
        ensures
            final(self).prev == old(self).prev,
            final(self).prev_procs@ == kept(now@),
            r@ == if total == 0 {
                Seq::empty()
            } else {
                busiest(old(self).prev_procs@, now@)
            },
    {
        let mut ran: Vec<Ran> = Vec::new();
        let ghost prev = self.prev_procs@;
        if total != 0 {
            let mut i: usize = 0;
            while i < now.len()
                invariant
                    i <= now@.len(),
                    *self == *old(self),
                    prev == self.prev_procs@,
                    ran@ == ran_since(prev, now@.take(i as int)),
                decreases now@.len() - i,
            {
                proof {
                    assert(now@.take(i + 1).drop_last() =~= now@.take(i as int));
                    assert(now@.take(i + 1).last() == now@[i as int]);
                }
                let (pid, ticks) = (now[i].0, now[i].1);
                match self.prev_procs.get(&pid) {
                    Some(before) => {
                        let delta: u128 = less(ticks, *before);
                        if delta > 0 {
                            ran.push(Ran { pid, ticks: delta });
                        }
                    },
                    None => {},
                }
                i += 1;
            }
            assert(now@.take(i as int) =~= now@);
            ran = sort(ran);
            if ran.len() > TOP_PROCESSES {
                ran.truncate(TOP_PROCESSES);
            }
        }
        self.keep(now);
        ran
    }
}

/// Processes' times by their numbers.
pub open spec fn kept(now: Seq<(u32, u128)>) -> Map<u32, u128>
    decreases now.len(),
{
    if now.len() == 0 {
        Map::empty()
    } else {
        kept(now.drop_last()).insert(now.last().0, now.last().1)
    }
}

/// How long a process ran.
#[derive(Debug, Clone, Copy, PartialEq, Eq, Structural)]
pub struct Ran {
    pub pid: u32,
    pub ticks: u128,
}

impl Ranked for Ran {
    open spec fn precedes(&self, other: &Self) -> bool {
        self.ticks > other.ticks
    }

    fn before(&self, other: &Self) -> (r: bool) {
        self.ticks > other.ticks
    }
}

/// The processes that ran since the last sample.
pub open spec fn ran_since(prev: Map<u32, u128>, now: Seq<(u32, u128)>) -> Seq<Ran>
    decreases now.len(),
{
    if now.len() == 0 {
        Seq::empty()
    } else {
        let before = ran_since(prev, now.drop_last());
        let (pid, ticks) = now.last();
        if prev.contains_key(pid) && ticks > prev[pid] {
            before.push(Ran { pid, ticks: over(ticks, prev[pid]) })
        } else {
            before
        }
    }
}

pub open spec fn busiest(prev: Map<u32, u128>, now: Seq<(u32, u128)>) -> Seq<Ran> {
    let line = in_line(ran_since(prev, now));
    if line.len() > TOP_PROCESSES {
        line.take(TOP_PROCESSES as int)
    } else {
        line
    }
}

/// User and system time of a process. Its name stands in brackets and may hold
/// anything, so the numbers start behind the last one.
pub open spec fn ticks_of(stat: Seq<char>) -> Option<u128> {
    match rcut(stat, ')') {
        Some((_, rest)) => {
            let fields = text_words(rest);
            if fields.len() < 13 {
                None
            } else {
                match (whole(fields[11]), whole(fields[12])) {
                    (Some(user), Some(system)) => if user <= u64::MAX && system <= u64::MAX {
                        Some((user + system) as u128)
                    } else {
                        None
                    },
                    _ => None,
                }
            }
        },
        None => None,
    }
}

pub fn process_ticks(stat: &str) -> (r: Option<u128>)
    ensures
        r == ticks_of(stat@),
{
    match rsplit_once(stat, ')') {
        Some((_, rest)) => {
            let fields = words(rest);
            assert(texts(fields@).len() == fields@.len());
            if fields.len() < 13 {
                return None;
            }
            assert(texts(fields@)[11] == fields@[11]@);
            assert(texts(fields@)[12] == fields@[12]@);
            match (parse_u64(fields[11].as_str()), parse_u64(fields[12].as_str())) {
                (Some(user), Some(system)) => Some(user as u128 + system as u128),
                _ => None,
            }
        },
        None => None,
    }
}

/// A process's name, or its number in brackets.
pub fn process_name(pid: u32, name: Option<&str>) -> (r: String)
    ensures
        r@ == match name {
            Some(name) => trimmed(name@),
            None => "["@ + decimal(pid as nat) + "]"@,
        },
{
    match name {
        Some(name) => trim(name).to_owned(),
        None => {
            let number = unsigned(pid as u64);
            concat3("[", number.as_str(), "]")
        },
    }
}

/// The value behind the colon of a line that starts with `key`.
pub open spec fn value_of(line: Seq<char>, key: Seq<char>) -> Option<Seq<char>> {
    match unprefixed(line, key) {
        Some(rest) => match cut(rest, ':') {
            Some((_, value)) => Some(trimmed(value)),
            None => None,
        },
        None => None,
    }
}

fn value<'a>(line: &'a str, key: &str) -> (r: Option<&'a str>)
    ensures
        match r {
            Some(value) => value_of(line@, key@) == Some(value@),
            None => value_of(line@, key@) is None,
        },
{
    match strip_prefix(line, key) {
        Some(rest) => match split_once(rest, ':') {
            Some((_, value)) => Some(trim(value)),
            None => None,
        },
        None => None,
    }
}

/// A text without any of that suffix at its end.
pub open spec fn shorn(s: Seq<char>, suffix: Seq<char>) -> Seq<char>
    decreases s.len(),
{
    if suffix.len() == 0 {
        s
    } else {
        match unsuffixed(s, suffix) {
            Some(rest) => if rest.len() < s.len() {
                shorn(rest, suffix)
            } else {
                s
            },
            None => s,
        }
    }
}

fn shear<'a>(s: &'a str, suffix: &str) -> (r: &'a str)
    requires
        suffix@.len() > 0,
    ensures
        r@ == shorn(s@, suffix@),
    decreases s@.len(),
{
    match strip_suffix(s, suffix) {
        Some(rest) => shear(rest, suffix),
        None => s,
    }
}

/// The machine's own name among the lines on its threads.
pub open spec fn model_in(lines: Seq<Seq<char>>) -> Seq<char>
    decreases lines.len(),
{
    if lines.len() == 0 {
        "cpu"@
    } else {
        match value_of(lines[0], "model name"@) {
            Some(name) => shorn(name, " Processor"@),
            None => model_in(lines.skip(1)),
        }
    }
}

pub fn model(text: &str) -> (r: String)
    ensures
        r@ == model_in(text_lines(text@)),
{
    let list = lines(text);
    let ghost all = text_lines(text@);
    let mut i: usize = 0;
    assert(all.skip(0) =~= all);
    assert(texts(list@).len() == list@.len());
    while i < list.len()
        invariant
            i <= list@.len(),
            all == texts(list@),
            all.len() == list@.len(),
            all == text_lines(text@),
            model_in(all.skip(i as int)) == model_in(all),
        decreases list@.len() - i,
    {
        let line = list[i].as_str();
        proof {
            assert(all.skip(i as int)[0] == line@);
            assert(all.skip(i as int).skip(1) =~= all.skip(i + 1));
            reveal_strlit(" Processor");
            assert(" Processor"@.len() == 10);
        }
        match value(line, "model name") {
            Some(name) => {
                return shear(name, " Processor").to_owned();
            },
            None => {},
        }
        i += 1;
    }
    assert(all.skip(i as int) =~= Seq::empty());
    "cpu".to_owned()
}

/// What the lines say of the threads' clocks.
pub open spec fn clocks_in(lines: Seq<Seq<char>>) -> Seq<Seq<char>>
    decreases lines.len(),
{
    if lines.len() == 0 {
        Seq::empty()
    } else {
        let before = clocks_in(lines.drop_last());
        match value_of(lines.last(), "cpu MHz"@) {
            Some(mhz) => before.push(mhz),
            None => before,
        }
    }
}

pub fn clocks(text: &str) -> (r: Vec<String>)
    ensures
        texts(r@) == clocks_in(text_lines(text@)),
{
    let list = lines(text);
    let ghost all = text_lines(text@);
    let mut out: Vec<String> = Vec::new();
    let mut i: usize = 0;
    assert(texts(list@).len() == list@.len());
    assert(texts(out@) =~= Seq::empty());
    while i < list.len()
        invariant
            i <= list@.len(),
            all == texts(list@),
            all.len() == list@.len(),
            texts(out@) == clocks_in(all.take(i as int)),
        decreases list@.len() - i,
    {
        let line = list[i].as_str();
        proof {
            assert(all.take(i + 1).drop_last() =~= all.take(i as int));
            assert(all.take(i + 1).last() == line@);
        }
        let ghost had = out@;
        match value(line, "cpu MHz") {
            Some(mhz) => {
                out.push(mhz.to_owned());
                assert(texts(out@) =~= texts(had).push(mhz@));
            },
            None => {},
        }
        i += 1;
    }
    assert(all.take(i as int) =~= all);
    out
}

/// The load averages as they are written, and how many tasks run of how many.
pub fn loadavg(text: &str) -> (r: (Vec<String>, String))
    ensures
        ({
            let fields = text_words(text@);
            &&& texts(r.0@) == if fields.len() > 3 {
                fields.take(3)
            } else {
                fields
            }
            &&& r.1@ == if fields.len() > 3 {
                fields[3]
            } else {
                Seq::empty()
            }
        }),
{
    let mut fields = words(text);
    let ghost all = fields@;
    assert(texts(all).len() == all.len());
    let entities: String = if fields.len() > 3 {
        assert(texts(all)[3] == all[3]@);
        fields[3].as_str().to_owned()
    } else {
        String::new()
    };
    if fields.len() > 3 {
        fields.truncate(3);
        assert(texts(fields@) =~= texts(all).take(3));
    }
    (fields, entities)
}

/// The file of a sensor's readings, where this is the file of its name.
pub fn sensor_input(file: &str) -> (r: Option<String>)
    ensures
        opt_text(r) == match unsuffixed(file@, "_label"@) {
            Some(stem) => Some(stem + "_input"@),
            None => None,
        },
{
    match strip_suffix(file, "_label") {
        Some(stem) => Some(concat(stem, "_input")),
        None => None,
    }
}

/// A sensor: its name, and the file of its readings.
#[derive(Debug, Clone)]
pub struct Sensor {
    pub label: String,
    pub input: String,
}

pub open spec fn is_package(label: Seq<char>) -> bool {
    label == "Tctl"@
}

/// The package's sensor first, then by name.
impl Ranked for Sensor {
    open spec fn precedes(&self, other: &Self) -> bool {
        if is_package(self.label@) != is_package(other.label@) {
            is_package(self.label@)
        } else {
            text_before(self.label@, other.label@)
        }
    }

    fn before(&self, other: &Self) -> (r: bool) {
        let a = same(self.label.as_str(), "Tctl");
        let b = same(other.label.as_str(), "Tctl");
        if a != b {
            a
        } else {
            comes_before(self.label.as_str(), other.label.as_str())
        }
    }
}

pub fn sort_sensors(sensors: Vec<Sensor>) -> (r: Vec<Sensor>)
    ensures
        r@ == in_line(sensors@),
{
    sort(sensors)
}

/// Whether a device is the one that reports the package's temperature.
pub fn is_sensor_device(name: &str) -> (r: bool)
    ensures
        r == (trimmed(name@) == "k10temp"@),
{
    same(trim(name), "k10temp")
}

/// Which of the temperatures is the package's: the one that says so, else the
/// first.
pub open spec fn package_of(labels: Seq<Seq<char>>) -> Option<int>
    decreases labels.len(),
{
    if labels.len() == 0 {
        None
    } else if exists|i: int| 0 <= i < labels.len() && is_package(#[trigger] labels[i]) {
        Some(first_package(labels))
    } else {
        Some(0int)
    }
}

pub open spec fn first_package(labels: Seq<Seq<char>>) -> int
    decreases labels.len(),
{
    if labels.len() == 0 || is_package(labels[0]) {
        0
    } else {
        1 + first_package(labels.skip(1))
    }
}

proof fn lemma_first_package(labels: Seq<Seq<char>>, k: int)
    requires
        0 <= k < labels.len(),
        is_package(labels[k]),
        forall|j: int| 0 <= j < k ==> !is_package(#[trigger] labels[j]),
    ensures
        first_package(labels) == k,
    decreases labels.len(),
{
    if k > 0 {
        let rest = labels.skip(1);
        assert(!is_package(labels[0]));
        assert(rest[k - 1] == labels[k]);
        assert forall|j: int| 0 <= j < k - 1 implies !is_package(#[trigger] rest[j]) by {
            assert(rest[j] == labels[j + 1]);
        }
        lemma_first_package(rest, k - 1);
    }
}

pub fn package(labels: &Vec<String>) -> (r: Option<usize>)
    ensures
        match r {
            Some(i) => i < labels@.len() && package_of(texts(labels@)) == Some(i as int),
            None => package_of(texts(labels@)) is None,
        },
{
    let ghost all = texts(labels@);
    assert(all.len() == labels@.len());
    let mut i: usize = 0;
    while i < labels.len()
        invariant
            i <= labels@.len(),
            all == texts(labels@),
            all.len() == labels@.len(),
            forall|j: int| 0 <= j < i ==> !is_package(#[trigger] all[j]),
        decreases labels@.len() - i,
    {
        if same(labels[i].as_str(), "Tctl") {
            proof {
                assert(is_package(all[i as int]));
                lemma_first_package(all, i as int);
            }
            return Some(i);
        }
        assert(!is_package(all[i as int]));
        i += 1;
    }
    if labels.len() > 0 {
        Some(0)
    } else {
        None
    }
}

/// How many threads stand in one column of the popup.
pub fn per_column(threads: usize) -> (r: usize)
    ensures
        r >= 1,
        r * CORE_COLUMNS >= threads,
        r > 1 ==> (r - 1) * CORE_COLUMNS < threads,
{
    let half: usize = threads / CORE_COLUMNS + threads % CORE_COLUMNS;
    if half < 1 {
        1
    } else {
        half
    }
}

pub const ICON_CLOCK: &'static str = "\u{f04c5}";

pub const ICON_LOAD: &'static str = "\u{f0430}";

/// How busy a thread was, as it is printed and as its meter orders it.
#[derive(Debug, Clone)]
pub struct Core {
    pub busy: String,
    pub meter: i64,
}

/// A temperature, as it is ordered and as it is printed.
#[derive(Debug, Clone)]
pub struct Warmth {
    pub label: String,
    pub order: i64,
    pub degrees: String,
}

/// A process that the popup lists, with its share as it is printed.
#[derive(Debug, Clone)]
pub struct Process {
    pub pid: u32,
    pub name: String,
    pub share: String,
}

/// What is read for the popup only: the load over one, five and fifteen minutes,
/// what could run, and the clocks in GHz, all as they are printed. `peak` orders
/// the highest clock.
#[derive(Debug, Clone)]
pub struct Detail {
    pub model: String,
    pub load_one: String,
    pub load_five: String,
    pub load_fifteen: String,
    pub entities: String,
    pub peak: i64,
    pub ghz_average: String,
    pub ghz_peak: String,
    pub processes: Vec<Process>,
}

/// A reading of the processor.
#[derive(Debug, Clone)]
pub struct Sample {
    pub total: Reading,
    pub meter: i64,
    pub cores: Vec<Core>,
    pub temps: Vec<Warmth>,
    pub detail: Option<Detail>,
}

pub open spec fn thread_view(cores: Seq<Core>, i: int) -> ThreadView {
    ThreadView {
        number: i,
        value: cores[i].busy@,
        tone: meter_tone(tier_of(cores[i].meter), Tone::Blue),
    }
}

/// The threads from one to another, in a column.
pub open spec fn column_of(cores: Seq<Core>, from: int, to: int) -> Seq<ThreadView> {
    Seq::new((to - from) as nat, |i: int| thread_view(cores, from + i))
}

/// The threads in two columns, of which the first is no shorter.
pub open spec fn columns_of(cores: Seq<Core>) -> Seq<Seq<ThreadView>> {
    let n = cores.len() as int;
    let half = (n + 1) / 2;
    if n > half {
        seq![column_of(cores, 0, half), column_of(cores, half, n)]
    } else {
        seq![column_of(cores, 0, half)]
    }
}

/// What the processor is busy with; its clocks where they are known.
pub open spec fn activity_block(d: Detail) -> Seq<LineView> {
    let load = d.load_one@ + " "@ + d.load_five@ + " "@ + d.load_fifteen@ + "   "@ + d.entities@
        + " runnable"@;
    let start = seq![
        LineView::Section("activity"@),
        field_view(ICON_LOAD@, "load"@, load, Tone::Muted),
    ];
    if d.peak > 0 {
        start.push(
            field_view(
                ICON_CLOCK@,
                "clock"@,
                d.ghz_average@ + " GHz avg   "@ + d.ghz_peak@ + " GHz peak"@,
                Tone::Muted,
            ),
        )
    } else {
        start
    }
}

pub open spec fn temp_line(t: Warmth) -> LineView {
    field_view(
        temp_of(t.order).0,
        t.label@,
        t.degrees@ + "°C"@,
        Tone::Tier(temp_of(t.order).1),
    )
}

pub open spec fn process_line(p: Process) -> LineView {
    LineView::Process { pid: p.pid, name: p.name@, value: p.share@ + "%"@, tone: Tone::Blue }
}

/// The model, where it was read, over how busy the processor is.
pub open spec fn heading_of(s: Sample) -> Seq<LineView> {
    seq![
        LineView::Title {
            name: elided(
                match s.detail {
                    Some(d) => d.model@,
                    None => "cpu"@,
                },
                MODEL_LIMIT as nat,
            ),
            value: s.total.shown@ + "%"@,
            tone: Tone::Tier(tier_of(s.total.order)),
        },
        LineView::Meter { gauge: Gauge::Usage, tone: meter_tone(tier_of(s.meter), Tone::Blue) },
    ]
}

/// The popup: the processor and how busy it is, then its threads, what it is
/// busy with, its temperatures and its processes, as far as there are any.
pub open spec fn card_of(s: Sample) -> Seq<Seq<LineView>> {
    let threads = with_block(
        seq![heading_of(s)],
        s.cores@.len() > 0,
        seq![LineView::Section("cores"@), LineView::Threads(columns_of(s.cores@))],
    );
    let active = match s.detail {
        Some(d) => threads.push(activity_block(d)),
        None => threads,
    };
    let warm = with_block(
        active,
        s.temps@.len() > 0,
        seq![LineView::Section("temperatures"@)] + s.temps@.map_values(|t: Warmth| temp_line(t)),
    );
    match s.detail {
        Some(d) => with_block(
            warm,
            d.processes@.len() > 0,
            seq![LineView::Section("processes"@)] + d.processes@.map_values(
                |p: Process| process_line(p),
            ),
        ),
        None => warm,
    }
}

fn column(cores: &Vec<Core>, from: usize, to: usize) -> (r: Vec<Thread>)
    requires
        from <= to <= cores@.len(),
    ensures
        column_view(r) == column_of(cores@, from as int, to as int),
{
    let mut out: Vec<Thread> = Vec::new();
    let mut i: usize = from;
    while i < to
        invariant
            from <= i <= to <= cores@.len(),
            out@.len() == i - from,
            forall|j: int|
                0 <= j < out@.len() ==> (#[trigger] out@[j])@ == thread_view(cores@, from + j),
        decreases to - i,
    {
        let core = &cores[i];
        out.push(
            Thread {
                number: i,
                value: core.busy.as_str().to_owned(),
                tone: metered(usage_tier(core.meter), Tone::Blue),
            },
        );
        i += 1;
    }
    assert(column_view(out) =~= column_of(cores@, from as int, to as int));
    out
}

fn threads_block(cores: &Vec<Core>) -> (r: Vec<Line>)
    requires
        cores@.len() > 0,
    ensures
        block(r@) == seq![LineView::Section("cores"@), LineView::Threads(columns_of(cores@))],
{
    let n: usize = cores.len();
    let half: usize = per_column(n);
    let mut columns: Vec<Vec<Thread>> = Vec::new();
    columns.push(column(cores, 0, half));
    if n > half {
        columns.push(column(cores, half, n));
    }
    let line = Line::Threads(columns);
    assert(line@->Threads_0 =~= columns_of(cores@));
    let mut lines = under("cores");
    put(&mut lines, line);
    assert(block(lines@) =~= seq![
        LineView::Section("cores"@),
        LineView::Threads(columns_of(cores@)),
    ]);
    lines
}

fn activity_lines(d: &Detail) -> (r: Vec<Line>)
    ensures
        block(r@) == activity_block(*d),
{
    let start = concat4(d.load_one.as_str(), " ", d.load_five.as_str(), " ");
    let load = concat4(start.as_str(), d.load_fifteen.as_str(), "   ", d.entities.as_str());
    let mut lines = under("activity");
    put(&mut lines, field(ICON_LOAD, "load", concat(load.as_str(), " runnable"), Tone::Muted));
    if d.peak > 0 {
        let clocks = concat4(
            d.ghz_average.as_str(),
            " GHz avg   ",
            d.ghz_peak.as_str(),
            " GHz peak",
        );
        put(&mut lines, field(ICON_CLOCK, "clock", clocks, Tone::Muted));
    }
    assert(block(lines@) =~= activity_block(*d));
    lines
}

fn temps_block(temps: &Vec<Warmth>) -> (r: Vec<Line>)
    ensures
        block(r@) == seq![LineView::Section("temperatures"@)] + temps@.map_values(
            |t: Warmth| temp_line(t),
        ),
{
    let mut lines = under("temperatures");
    let ghost all = temps@.map_values(|t: Warmth| temp_line(t));
    let ghost head = seq![LineView::Section("temperatures"@)];
    let mut i: usize = 0;
    assert(block(lines@) =~= head + all.take(0));
    while i < temps.len()
        invariant
            i <= temps@.len(),
            all == temps@.map_values(|t: Warmth| temp_line(t)),
            block(lines@) == head + all.take(i as int),
        decreases temps@.len() - i,
    {
        let t = &temps[i];
        let (glyph, tier) = temp_visual(t.order);
        let degrees = concat(t.degrees.as_str(), "°C");
        put(&mut lines, field(glyph, t.label.as_str(), degrees, Tone::Tier(tier)));
        assert(block(lines@) =~= head + all.take(i + 1));
        i += 1;
    }
    assert(all.take(all.len() as int) =~= all);
    lines
}

fn processes_block(list: &Vec<Process>) -> (r: Vec<Line>)
    ensures
        block(r@) == seq![LineView::Section("processes"@)] + list@.map_values(
            |p: Process| process_line(p),
        ),
{
    let mut lines = under("processes");
    let ghost all = list@.map_values(|p: Process| process_line(p));
    let ghost head = seq![LineView::Section("processes"@)];
    let mut i: usize = 0;
    assert(block(lines@) =~= head + all.take(0));
    while i < list.len()
        invariant
            i <= list@.len(),
            all == list@.map_values(|p: Process| process_line(p)),
            block(lines@) == head + all.take(i as int),
        decreases list@.len() - i,
    {
        let p = &list[i];
        let name = p.name.as_str().to_owned();
        let value = concat(p.share.as_str(), "%");
        put(&mut lines, Line::Process { pid: p.pid, name, value, tone: Tone::Blue });
        assert(block(lines@) =~= head + all.take(i + 1));
        i += 1;
    }
    assert(all.take(all.len() as int) =~= all);
    lines
}

impl Measured for Sample {
    open spec fn shows(&self) -> Seq<Seq<LineView>> {
        card_of(*self)
    }

    fn card(&self) -> (r: Vec<Vec<Line>>) {
        let name = match &self.detail {
            Some(d) => elide(d.model.as_str(), MODEL_LIMIT),
            None => elide("cpu", MODEL_LIMIT),
        };
        let mut heading: Vec<Line> = Vec::new();
        assert(block(heading@) =~= Seq::empty());
        let value = concat(self.total.shown.as_str(), "%");
        put(
            &mut heading,
            Line::Title { name, value, tone: Tone::Tier(usage_tier(self.total.order)) },
        );
        let tone = metered(usage_tier(self.meter), Tone::Blue);
        put(&mut heading, Line::Meter { gauge: Gauge::Usage, tone });
        let mut card: Vec<Vec<Line>> = Vec::new();
        assert(blocks(card@) =~= Seq::empty());
        let ghost first = heading_of(*self);
        assert(block(heading@) =~= first);
        put_block(&mut card, heading);
        assert(blocks(card@) =~= seq![first]);
        if self.cores.len() > 0 {
            put_block(&mut card, threads_block(&self.cores));
        }
        if let Some(d) = &self.detail {
            put_block(&mut card, activity_lines(d));
        }
        if self.temps.len() > 0 {
            put_block(&mut card, temps_block(&self.temps));
        }
        if let Some(d) = &self.detail {
            if d.processes.len() > 0 {
                put_block(&mut card, processes_block(&d.processes));
            }
        }
        assert(blocks(card@) =~= card_of(*self));
        card
    }
}

} // verus!
