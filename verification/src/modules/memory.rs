//! Memory module: memory in use on the bar; a breakdown and the largest
//! processes in the popup.
use crate::modules::card::{
    block, blocks, field, field_view, meter_tone, metered, put, put_block, under, with_block, Gauge,
    Line, LineView, Tone,
};
use crate::modules::sampled::Measured;
use crate::number::{parse_u64, whole};
use crate::order::{in_line, sort, Ranked};
use crate::reading::{Reading, NINETY, SEVENTY_FIVE};
use crate::text::{
    concat, concat4, cut, lines, same, split_once, text_lines, text_words, texts, words,
};
use vstd::prelude::*;
use vstd::string::*;

verus! {

pub const ICON: &'static str = "\u{f061a}";

pub const ICON_ALERT: &'static str = "\u{f0027}";

/// Processes listed in the popup.
pub const TOP_PROCESSES: usize = 5;

pub const PAGE_BYTES: u128 = 4096;

/// What the kernel tells of memory, in KiB.
#[derive(Debug, Clone, Copy, PartialEq, Eq, Structural)]
pub struct Meminfo {
    pub total_kib: u64,
    pub available_kib: u64,
    pub cached_kib: u64,
    pub swap_total_kib: u64,
    pub swap_free_kib: u64,
}

/// The number that a line gives for `key`.
pub open spec fn given(line: Seq<char>, key: Seq<char>) -> Option<u64> {
    match cut(line, ':') {
        Some((name, value)) => if name == key && text_words(value).len() > 0 {
            match whole(text_words(value)[0]) {
                Some(n) => if n <= u64::MAX {
                    Some(n as u64)
                } else {
                    None
                },
                None => None,
            }
        } else {
            None
        },
        None => None,
    }
}

/// The number that the last line to give one gives for `key`, else nought.
pub open spec fn figure(lines: Seq<Seq<char>>, key: Seq<char>) -> u64
    decreases lines.len(),
{
    if lines.len() == 0 {
        0
    } else {
        match given(lines.last(), key) {
            Some(n) => n,
            None => figure(lines.drop_last(), key),
        }
    }
}

pub open spec fn meminfo_of(lines: Seq<Seq<char>>) -> Meminfo {
    Meminfo {
        total_kib: figure(lines, "MemTotal"@),
        available_kib: figure(lines, "MemAvailable"@),
        cached_kib: figure(lines, "Cached"@),
        swap_total_kib: figure(lines, "SwapTotal"@),
        swap_free_kib: figure(lines, "SwapFree"@),
    }
}

/// What a line gives: a name, and a number.
fn figure_in(line: &str) -> (r: Option<(&str, u64)>)
    ensures
        match r {
            Some((name, n)) => forall|key: Seq<char>|
                #![trigger given(line@, key)]
                given(line@, key) == if key == name@ {
                    Some(n)
                } else {
                    None
                },
            None => forall|key: Seq<char>| #![trigger given(line@, key)] given(line@, key) is None,
        },
{
    let (name, value) = match split_once(line, ':') {
        Some((name, value)) => (name, value),
        None => {
            return None;
        },
    };
    let fields = words(value);
    assert(texts(fields@).len() == fields@.len());
    if fields.len() == 0 {
        return None;
    }
    assert(texts(fields@)[0] == fields@[0]@);
    match parse_u64(fields[0].as_str()) {
        Some(n) => Some((name, n)),
        None => None,
    }
}

/// What the kernel tells, unless it does not tell how much memory there is.
pub fn parse(text: &str) -> (r: Option<Meminfo>)
    ensures
        ({
            let info = meminfo_of(text_lines(text@));
            r == if info.total_kib == 0 {
                None
            } else {
                Some(info)
            }
        }),
{
    let list = lines(text);
    let ghost all = text_lines(text@);
    let mut info = Meminfo {
        total_kib: 0,
        available_kib: 0,
        cached_kib: 0,
        swap_total_kib: 0,
        swap_free_kib: 0,
    };
    let mut i: usize = 0;
    assert(texts(list@).len() == list@.len());
    while i < list.len()
        invariant
            i <= list@.len(),
            all == texts(list@),
            all.len() == list@.len(),
            info == meminfo_of(all.take(i as int)),
        decreases list@.len() - i,
    {
        let line = list[i].as_str();
        proof {
            assert(all.take(i + 1).drop_last() =~= all.take(i as int));
            assert(all.take(i + 1).last() == line@);
            reveal_strlit("MemTotal");
            reveal_strlit("MemAvailable");
            reveal_strlit("Cached");
            reveal_strlit("SwapTotal");
            reveal_strlit("SwapFree");
            assert("MemTotal"@.len() == 8);
            assert("MemAvailable"@.len() == 12);
            assert("Cached"@.len() == 6);
            assert("SwapTotal"@.len() == 9);
            assert("SwapFree"@[0] == 'S');
            assert("MemTotal"@[0] == 'M');
        }
        match figure_in(line) {
            Some((name, kib)) => {
                if same(name, "MemTotal") {
                    info.total_kib = kib;
                } else if same(name, "MemAvailable") {
                    info.available_kib = kib;
                } else if same(name, "Cached") {
                    info.cached_kib = kib;
                } else if same(name, "SwapTotal") {
                    info.swap_total_kib = kib;
                } else if same(name, "SwapFree") {
                    info.swap_free_kib = kib;
                }
            },
            None => {},
        }
        proof {
            let now = all.take(i + 1);
            assert(given(line@, "MemTotal"@) == given(now.last(), "MemTotal"@));
            assert(given(line@, "MemAvailable"@) == given(now.last(), "MemAvailable"@));
            assert(given(line@, "Cached"@) == given(now.last(), "Cached"@));
            assert(given(line@, "SwapTotal"@) == given(now.last(), "SwapTotal"@));
            assert(given(line@, "SwapFree"@) == given(now.last(), "SwapFree"@));
        }
        i += 1;
    }
    assert(all.take(i as int) =~= all);
    if info.total_kib == 0 {
        None
    } else {
        Some(info)
    }
}

impl Meminfo {
    /// Memory in use: all that is not available.
    pub fn used_kib(&self) -> (r: u64)
        ensures
            r == if self.total_kib > self.available_kib {
                self.total_kib - self.available_kib
            } else {
                0
            },
    {
        if self.total_kib > self.available_kib {
            self.total_kib - self.available_kib
        } else {
            0
        }
    }

    pub fn swap_used_kib(&self) -> (r: u64)
        ensures
            r == if self.swap_total_kib > self.swap_free_kib {
                self.swap_total_kib - self.swap_free_kib
            } else {
                0
            },
    {
        if self.swap_total_kib > self.swap_free_kib {
            self.swap_total_kib - self.swap_free_kib
        } else {
            0
        }
    }
}

/// Whether usage is plain, to be warned of, or critical.
pub open spec fn tier_of(percent: i64) -> u8 {
    if percent >= NINETY {
        2
    } else if percent >= SEVENTY_FIVE {
        1
    } else {
        0
    }
}

pub fn tier(percent: i64) -> (r: u8)
    ensures
        r == tier_of(percent),
{
    if percent >= NINETY {
        2
    } else if percent >= SEVENTY_FIVE {
        1
    } else {
        0
    }
}

/// The figures of the cell, as they are printed: GiB in use to a tenth, GiB in
/// all without a fraction, and the percentage.
#[derive(Debug, Clone)]
pub struct Figures {
    pub used: String,
    pub total: String,
    pub percent: Reading,
}

/// What the bar cell draws, and nothing else.
#[derive(Debug, Clone)]
pub struct BarKey {
    pub glyph: &'static str,
    pub text: String,
    pub tier: u8,
}

pub struct BarKeyView {
    pub glyph: Seq<char>,
    pub text: Seq<char>,
    pub tier: u8,
}

impl View for BarKey {
    type V = BarKeyView;

    open spec fn view(&self) -> BarKeyView {
        BarKeyView { glyph: self.glyph@, text: self.text@, tier: self.tier }
    }
}

pub open spec fn key_of(f: Figures) -> BarKeyView {
    BarKeyView {
        glyph: if tier_of(f.percent.order) == 0 {
            ICON@
        } else {
            ICON_ALERT@
        },
        text: f.used@ + "/"@ + f.total@ + "G "@ + (f.percent.shown@ + "%"@),
        tier: tier_of(f.percent.order),
    }
}

impl Figures {
    pub fn bar_key(&self) -> (r: BarKey)
        ensures
            r@ == key_of(*self),
    {
        let tier: u8 = tier(self.percent.order);
        let size = concat4(self.used.as_str(), "/", self.total.as_str(), "G ");
        let percent = concat(self.percent.shown.as_str(), "%");
        BarKey {
            glyph: if tier == 0 {
                ICON
            } else {
                ICON_ALERT
            },
            text: concat(size.as_str(), percent.as_str()),
            tier,
        }
    }
}

/// Which samples reach the bar.
#[derive(Debug, Clone)]
pub struct Gate {
    pub drawn: Option<BarKey>,
}

pub open spec fn drawn_view(drawn: Option<BarKey>) -> Option<BarKeyView> {
    match drawn {
        Some(key) => Some(key@),
        None => None,
    }
}

impl Gate {
    pub fn new() -> (r: Gate)
        ensures
            r.drawn is None,
    {
        Gate { drawn: None }
    }

    /// Whether a sample is to be sent: every one while the popup is on screen,
    /// else one that draws another cell than the last that was sent.
    pub fn passes(&mut self, figures: &Figures, detailed: bool) -> (r: bool)
        ensures
            r == (detailed || drawn_view(old(self).drawn) != Some(key_of(*figures))),
            drawn_view(final(self).drawn) == Some(key_of(*figures)),
    {
        let key = figures.bar_key();
        let known = match &self.drawn {
            Some(drawn) => same(drawn.glyph, key.glyph) && same(
                drawn.text.as_str(),
                key.text.as_str(),
            ) && drawn.tier == key.tier,
            None => false,
        };
        self.drawn = Some(key);
        detailed || !known
    }
}

/// The memory that a process has resident, from its own account of pages.
pub open spec fn resident_of(statm: Seq<char>) -> Option<u128> {
    let fields = text_words(statm);
    if fields.len() < 2 {
        None
    } else {
        match whole(fields[1]) {
            Some(pages) => if pages <= u64::MAX {
                Some((pages * PAGE_BYTES) as u128)
            } else {
                None
            },
            None => None,
        }
    }
}

pub fn resident(statm: &str) -> (r: Option<u128>)
    ensures
        r == resident_of(statm@),
{
    let fields = words(statm);
    assert(texts(fields@).len() == fields@.len());
    if fields.len() < 2 {
        return None;
    }
    assert(texts(fields@)[1] == fields@[1]@);
    match parse_u64(fields[1].as_str()) {
        Some(pages) => Some(pages as u128 * PAGE_BYTES),
        None => None,
    }
}

/// A process's resident memory.
#[derive(Debug, Clone, Copy, PartialEq, Eq, Structural)]
pub struct Resident {
    pub pid: u32,
    pub bytes: u128,
}

impl Ranked for Resident {
    open spec fn precedes(&self, other: &Self) -> bool {
        self.bytes > other.bytes
    }

    fn before(&self, other: &Self) -> (r: bool) {
        self.bytes > other.bytes
    }
}

/// The largest processes, largest first.
pub fn top(processes: Vec<Resident>) -> (r: Vec<Resident>)
    ensures
        r@ == if processes@.len() > TOP_PROCESSES {
            in_line(processes@).take(TOP_PROCESSES as int)
        } else {
            in_line(processes@)
        },
{
    let mut line = sort(processes);
    if line.len() > TOP_PROCESSES {
        line.truncate(TOP_PROCESSES);
    }
    line
}

/// What the meters of the listed processes are measured against: the largest
/// of them, and never nought.
pub fn largest(processes: &Vec<Resident>) -> (r: u128)
    ensures
        r >= 1,
        forall|i: int| 0 <= i < processes@.len() ==> (#[trigger] processes@[i]).bytes <= r,
        r > 1 ==> exists|i: int| 0 <= i < processes@.len() && (#[trigger] processes@[i]).bytes == r,
{
    let mut most: u128 = 1;
    let mut i: usize = 0;
    while i < processes.len()
        invariant
            i <= processes@.len(),
            most >= 1,
            forall|j: int| 0 <= j < i ==> (#[trigger] processes@[j]).bytes <= most,
            most > 1 ==> exists|j: int| 0 <= j < i && (#[trigger] processes@[j]).bytes == most,
        decreases processes@.len() - i,
    {
        if processes[i].bytes > most {
            most = processes[i].bytes;
        }
        i += 1;
    }
    most
}

pub const ICON_SWAP: &'static str = "\u{f04e1}";

pub const ICON_CACHE: &'static str = "\u{f01bc}";

pub const ICON_FREE: &'static str = "\u{f0130}";

/// A process that the popup lists, with the MiB it holds as they are printed.
#[derive(Debug, Clone)]
pub struct Process {
    pub pid: u32,
    pub name: String,
    pub held: String,
}

/// A reading of memory. GiB are as they are printed, and `meter` orders the
/// percentage as the meter has it.
#[derive(Debug, Clone)]
pub struct Sample {
    pub info: Meminfo,
    pub percent: Reading,
    pub meter: i64,
    pub used: String,
    pub total: String,
    pub available: String,
    pub cached: String,
    pub swap_used: String,
    pub swap_total: String,
    pub processes: Vec<Process>,
}

/// What is swapped out of how much; any of it is worth noticing.
pub open spec fn swap_line(s: Sample) -> LineView {
    field_view(
        ICON_SWAP@,
        "swap"@,
        if s.info.swap_total_kib == 0 {
            "none"@
        } else {
            s.swap_used@ + " / "@ + s.swap_total@ + " GiB"@
        },
        if s.info.swap_total_kib > s.info.swap_free_kib {
            Tone::Peach
        } else {
            Tone::Muted
        },
    )
}

pub open spec fn process_line(p: Process) -> LineView {
    LineView::Process { pid: p.pid, name: p.name@, value: p.held@ + " MiB"@, tone: Tone::Mauve }
}

/// The processes, each over a meter.
pub open spec fn process_lines(list: Seq<Process>) -> Seq<LineView>
    decreases list.len(),
{
    if list.len() == 0 {
        Seq::empty()
    } else {
        process_lines(list.drop_last()).push(process_line(list.last())).push(
            LineView::Meter {
                gauge: Gauge::Process((list.len() - 1) as usize),
                tone: Tone::Mauve,
            },
        )
    }
}

/// The popup: how much is in use, the breakdown, and the processes where any are
/// listed.
pub open spec fn card_of(s: Sample) -> Seq<Seq<LineView>> {
    let start = seq![
        seq![
            LineView::Title {
                name: s.used@ + " GiB of "@ + s.total@ + " GiB"@,
                value: s.percent.shown@ + "%"@,
                tone: Tone::Tier(tier_of(s.percent.order)),
            },
            LineView::Meter {
                gauge: Gauge::Usage,
                tone: meter_tone(tier_of(s.meter), Tone::Mauve),
            },
        ],
        seq![
            LineView::Section("breakdown"@),
            field_view(ICON_FREE@, "available"@, s.available@ + " GiB"@, Tone::Green),
            field_view(ICON_CACHE@, "page cache"@, s.cached@ + " GiB"@, Tone::Blue),
            swap_line(s),
        ],
    ];
    with_block(
        start,
        s.processes@.len() > 0,
        seq![LineView::Section("processes"@)] + process_lines(s.processes@),
    )
}

fn processes_block(list: &Vec<Process>) -> (r: Vec<Line>)
    ensures
        block(r@) == seq![LineView::Section("processes"@)] + process_lines(list@),
{
    let mut lines = under("processes");
    let mut i: usize = 0;
    assert(list@.take(0) =~= Seq::empty());
    assert(block(lines@) =~= seq![LineView::Section("processes"@)] + process_lines(list@.take(0)));
    while i < list.len()
        invariant
            i <= list@.len(),
            block(lines@) == seq![LineView::Section("processes"@)] + process_lines(
                list@.take(i as int),
            ),
        decreases list@.len() - i,
    {
        let p = &list[i];
        let name = p.name.as_str().to_owned();
        let value = concat(p.held.as_str(), " MiB");
        put(&mut lines, Line::Process { pid: p.pid, name, value, tone: Tone::Mauve });
        put(&mut lines, Line::Meter { gauge: Gauge::Process(i), tone: Tone::Mauve });
        assert(list@.take(i + 1).drop_last() =~= list@.take(i as int));
        assert(block(lines@) =~= seq![LineView::Section("processes"@)] + process_lines(
            list@.take(i + 1),
        ));
        i += 1;
    }
    assert(list@.take(list@.len() as int) =~= list@);
    lines
}

impl Measured for Sample {
    open spec fn shows(&self) -> Seq<Seq<LineView>> {
        card_of(*self)
    }

    fn card(&self) -> (r: Vec<Vec<Line>>) {
        let mut heading: Vec<Line> = Vec::new();
        assert(block(heading@) =~= Seq::empty());
        let name = concat4(self.used.as_str(), " GiB of ", self.total.as_str(), " GiB");
        let value = concat(self.percent.shown.as_str(), "%");
        put(&mut heading, Line::Title { name, value, tone: Tone::Tier(tier(self.percent.order)) });
        let tone = metered(tier(self.meter), Tone::Mauve);
        put(&mut heading, Line::Meter { gauge: Gauge::Usage, tone });
        let swap = if self.info.swap_total_kib == 0 {
            "none".to_owned()
        } else {
            concat4(self.swap_used.as_str(), " / ", self.swap_total.as_str(), " GiB")
        };
        let swapping = if self.info.swap_used_kib() > 0 {
            Tone::Peach
        } else {
            Tone::Muted
        };
        let mut breakdown = under("breakdown");
        let available = concat(self.available.as_str(), " GiB");
        put(&mut breakdown, field(ICON_FREE, "available", available, Tone::Green));
        let cached = concat(self.cached.as_str(), " GiB");
        put(&mut breakdown, field(ICON_CACHE, "page cache", cached, Tone::Blue));
        put(&mut breakdown, field(ICON_SWAP, "swap", swap, swapping));
        assert(block(heading@) =~= card_of(*self)[0]);
        assert(block(breakdown@) =~= card_of(*self)[1]);
        let mut card: Vec<Vec<Line>> = Vec::new();
        assert(blocks(card@) =~= Seq::empty());
        put_block(&mut card, heading);
        put_block(&mut card, breakdown);
        if self.processes.len() > 0 {
            put_block(&mut card, processes_block(&self.processes));
        }
        assert(blocks(card@) =~= card_of(*self));
        card
    }
}

} // verus!
