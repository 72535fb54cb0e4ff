//! GPU module: temperature and utilization on the bar; clocks, power and the
//! processes that hold memory in the popup.
use crate::modules::card::{
    block, blocks, field, field_view, put, put_block, under, with_block, Gauge, Line, LineView, Tone,
};
use crate::modules::sampled::Measured;
use crate::number::{decimal, unsigned};
use crate::order::{in_line, sort, Ranked};
use crate::text::{concat, concat4, elide, elided};
use vstd::prelude::*;
use vstd::string::*;

verus! {

/// Delays before a driver that does not answer is tried again, in seconds.
pub const RETRY_BACKOFF: [u64; 5] = [2, 5, 15, 60, 300];

/// A session that lasted this long, in seconds, was healthy.
pub const STABLE_SESSION: u64 = 60;

pub const ICON: &'static str = "\u{f08ae}";

pub const ICON_ALERT: &'static str = "\u{f0026}";

/// Processes listed in the popup.
pub const MAX_PROCESSES: usize = 6;

/// The critical temperature of a device that does not tell its own.
pub const TEMP_CRITICAL: u32 = 90;

pub const TEMP_WARNING_MARGIN: u32 = 10;

/// Longest device name in the popup.
pub const NAME_LIMIT: usize = 26;

/// How hot the device is.
#[derive(Debug, Clone, Copy, PartialEq, Eq, Structural)]
pub enum Heat {
    Fine,
    /// Within ten degrees of where the device throttles itself.
    Warm,
    Critical,
}

pub open spec fn heat_of(temp_c: u32, slowdown_c: Option<u32>) -> Heat {
    let critical = match slowdown_c {
        Some(limit) => limit,
        None => TEMP_CRITICAL,
    };
    if temp_c >= critical {
        Heat::Critical
    } else if temp_c + TEMP_WARNING_MARGIN >= critical {
        Heat::Warm
    } else {
        Heat::Fine
    }
}

pub fn heat(temp_c: u32, slowdown_c: Option<u32>) -> (r: Heat)
    ensures
        r == heat_of(temp_c, slowdown_c),
{
    let critical: u32 = match slowdown_c {
        Some(limit) => limit,
        None => TEMP_CRITICAL,
    };
    if temp_c >= critical {
        Heat::Critical
    } else if temp_c as u64 + TEMP_WARNING_MARGIN as u64 >= critical as u64 {
        Heat::Warm
    } else {
        Heat::Fine
    }
}

/// What the bar cell draws.
#[derive(Debug, Clone)]
pub struct Cell {
    pub glyph: &'static str,
    pub text: String,
    pub heat: Heat,
}

/// The bar cell for a temperature and a utilization.
pub fn cell(temp_c: u32, gpu_percent: u32, slowdown_c: Option<u32>) -> (r: Cell)
    ensures
        r.glyph@ == if heat_of(temp_c, slowdown_c) == Heat::Critical {
            ICON_ALERT@
        } else {
            ICON@
        },
        r.text@ == decimal(temp_c as nat) + "°C "@ + decimal(gpu_percent as nat) + "%"@,
        r.heat == heat_of(temp_c, slowdown_c),
{
    let heat = heat(temp_c, slowdown_c);
    let temp = unsigned(temp_c as u64);
    let usage = unsigned(gpu_percent as u64);
    Cell {
        glyph: if heat == Heat::Critical {
            ICON_ALERT
        } else {
            ICON
        },
        text: concat4(temp.as_str(), "°C ", usage.as_str(), "%"),
        heat,
    }
}

/// Which samples reach the bar: with the device's limit fixed, the two numbers
/// that the cell prints are all there is to it.
#[derive(Debug, Clone)]
pub struct Gate {
    pub drawn: Option<(u32, u32)>,
}

impl Gate {
    pub fn new() -> (r: Gate)
        ensures
            r.drawn is None,
    {
        Gate { drawn: None }
    }

    pub fn passes(&mut self, temp_c: u32, gpu_percent: u32, detailed: bool) -> (r: bool)
        ensures
            r == (detailed || old(self).drawn != Some((temp_c, gpu_percent))),
            final(self).drawn == Some((temp_c, gpu_percent)),
    {
        let known = match self.drawn {
            Some((temp, usage)) => temp == temp_c && usage == gpu_percent,
            None => false,
        };
        self.drawn = Some((temp_c, gpu_percent));
        detailed || !known
    }
}

/// The heading's temperature, with the device's limit where it tells one.
pub open spec fn temp_of(temp_c: u32, slowdown_c: Option<u32>) -> Seq<char> {
    match slowdown_c {
        Some(limit) => decimal(temp_c as nat) + "°C / "@ + decimal(limit as nat) + "°C"@,
        None => decimal(temp_c as nat) + "°C"@,
    }
}

pub fn temp_text(temp_c: u32, slowdown_c: Option<u32>) -> (r: String)
    ensures
        r@ == temp_of(temp_c, slowdown_c),
{
    let temp = unsigned(temp_c as u64);
    match slowdown_c {
        Some(limit) => {
            let limit = unsigned(limit as u64);
            concat4(temp.as_str(), "°C / ", limit.as_str(), "°C")
        },
        None => concat(temp.as_str(), "°C"),
    }
}

/// A clock, with its maximum where that is known.
pub open spec fn clock_text(mhz: u32, max: Option<u32>) -> Seq<char> {
    match max {
        Some(max) => decimal(mhz as nat) + " / "@ + decimal(max as nat) + " MHz"@,
        None => decimal(mhz as nat) + " MHz"@,
    }
}

pub fn clock(mhz: u32, max: Option<u32>) -> (r: String)
    ensures
        r@ == clock_text(mhz, max),
{
    let clock = unsigned(mhz as u64);
    match max {
        Some(max) => {
            let max = unsigned(max as u64);
            concat4(clock.as_str(), " / ", max.as_str(), " MHz")
        },
        None => concat(clock.as_str(), " MHz"),
    }
}

pub fn percent(n: u32) -> (r: String)
    ensures
        r@ == decimal(n as nat) + "%"@,
{
    let text = unsigned(n as u64);
    concat(text.as_str(), "%")
}

/// The device's name in the heading.
pub fn title(name: &str) -> (r: String)
    ensures
        r@ == elided(name@, NAME_LIMIT as nat),
{
    elide(name, NAME_LIMIT)
}

/// A process and the memory it holds, where the driver attributes it any.
#[derive(Debug, Clone, Copy, PartialEq, Eq, Structural)]
pub struct Holding {
    pub pid: u32,
    pub bytes: Option<u64>,
}

/// Whether `a` is the larger attribution.
pub open spec fn larger(a: Option<u64>, b: Option<u64>) -> bool {
    match (a, b) {
        (Some(a), Some(b)) => a > b,
        (Some(_), None) => true,
        _ => false,
    }
}

fn is_larger(a: Option<u64>, b: Option<u64>) -> (r: bool)
    ensures
        r == larger(a, b),
{
    match (a, b) {
        (Some(a), Some(b)) => a > b,
        (Some(_), None) => true,
        _ => false,
    }
}

impl Ranked for Holding {
    open spec fn precedes(&self, other: &Self) -> bool {
        larger(self.bytes, other.bytes)
    }

    fn before(&self, other: &Self) -> (r: bool) {
        is_larger(self.bytes, other.bytes)
    }
}

/// Where a process stands among others.
pub open spec fn place(rows: Seq<Holding>, pid: u32) -> Option<int>
    decreases rows.len(),
{
    if rows.len() == 0 {
        None
    } else if rows[0].pid == pid {
        Some(0int)
    } else {
        match place(rows.skip(1), pid) {
            Some(i) => Some(i + 1),
            None => None,
        }
    }
}

proof fn lemma_place(rows: Seq<Holding>, pid: u32, k: int)
    requires
        0 <= k <= rows.len(),
        forall|j: int| 0 <= j < k ==> (#[trigger] rows[j]).pid != pid,
        k < rows.len() ==> rows[k].pid == pid,
    ensures
        place(rows, pid) == if k < rows.len() {
            Some(k)
        } else {
            None::<int>
        },
    decreases rows.len(),
{
    if k > 0 && rows.len() > 0 {
        let rest = rows.skip(1);
        assert(rows[0].pid != pid);
        assert forall|j: int| 0 <= j < k - 1 implies (#[trigger] rest[j]).pid != pid by {
            assert(rest[j] == rows[j + 1]);
        }
        lemma_place(rest, pid, k - 1);
    }
}

proof fn lemma_placed(rows: Seq<Holding>, pid: u32)
    ensures
        match place(rows, pid) {
            Some(i) => 0 <= i < rows.len() && rows[i].pid == pid,
            None => forall|j: int| 0 <= j < rows.len() ==> (#[trigger] rows[j]).pid != pid,
        },
    decreases rows.len(),
{
    if rows.len() > 0 && rows[0].pid != pid {
        let rest = rows.skip(1);
        lemma_placed(rest, pid);
        if place(rest, pid) is None {
            assert forall|j: int| 0 <= j < rows.len() implies (#[trigger] rows[j]).pid != pid by {
                if j > 0 {
                    assert(rest[j - 1] == rows[j]);
                }
            }
        }
    }
}

/// One row for each process, with the largest attribution it has.
pub open spec fn held(all: Seq<Holding>) -> Seq<Holding>
    decreases all.len(),
{
    if all.len() == 0 {
        Seq::empty()
    } else {
        let rows = held(all.drop_last());
        let one = all.last();
        match place(rows, one.pid) {
            Some(i) => if larger(one.bytes, rows[i].bytes) {
                rows.update(i, one)
            } else {
                rows
            },
            None => rows.push(one),
        }
    }
}

/// Whether a process has a row with no smaller attribution.
pub open spec fn listed(rows: Seq<Holding>, one: Holding) -> bool {
    exists|i: int|
        0 <= i < rows.len() && (#[trigger] rows[i]).pid == one.pid && !larger(
            one.bytes,
            rows[i].bytes,
        )
}

proof fn lemma_listed(rows: Seq<Holding>, i: int, one: Holding, other: Holding)
    requires
        0 <= i < rows.len(),
        rows[i].pid == one.pid,
        larger(one.bytes, rows[i].bytes),
        listed(rows, other),
    ensures
        listed(rows.update(i, one), other),
{
    let k = choose|k: int|
        0 <= k < rows.len() && (#[trigger] rows[k]).pid == other.pid && !larger(
            other.bytes,
            rows[k].bytes,
        );
    let after = rows.update(i, one);
    if k == i {
        assert(after[i] == one);
    } else {
        assert(after[k] == rows[k]);
    }
}

/// No two rows are of one process.
pub open spec fn distinct(rows: Seq<Holding>) -> bool {
    forall|i: int, j: int|
        0 <= i < j < rows.len() ==> (#[trigger] rows[i]).pid != (#[trigger] rows[j]).pid
}

proof fn lemma_distinct(all: Seq<Holding>)
    ensures
        distinct(held(all)),
    decreases all.len(),
{
    if all.len() > 0 {
        lemma_distinct(all.drop_last());
        lemma_placed(held(all.drop_last()), all.last().pid);
    }
}

proof fn lemma_among(all: Seq<Holding>, i: int)
    requires
        0 <= i < held(all).len(),
    ensures
        all.contains(held(all)[i]),
    decreases all.len(),
{
    if all.len() > 0 {
        let most = all.drop_last();
        let rows = held(most);
        let one = all.last();
        let after = held(all);
        lemma_placed(rows, one.pid);
        assert(all[all.len() - 1] == one);
        if after[i] != one {
            assert(rows[i] == after[i]);
            lemma_among(most, i);
            let k = choose|k: int| 0 <= k < most.len() && most[k] == rows[i];
            assert(all[k] == rows[i]);
        }
    }
}

proof fn lemma_all_listed(all: Seq<Holding>, k: int)
    requires
        0 <= k < all.len(),
    ensures
        listed(held(all), all[k]),
    decreases all.len(),
{
    let most = all.drop_last();
    let rows = held(most);
    let one = all.last();
    let after = held(all);
    lemma_placed(rows, one.pid);
    if k == most.len() {
        match place(rows, one.pid) {
            Some(i) => {
                assert(after[i].pid == one.pid && !larger(one.bytes, after[i].bytes));
            },
            None => {
                assert(after[rows.len() as int] == one);
            },
        }
    } else {
        lemma_all_listed(most, k);
        assert(most[k] == all[k]);
        match place(rows, one.pid) {
            Some(i) => {
                if larger(one.bytes, rows[i].bytes) {
                    lemma_listed(rows, i, one, all[k]);
                }
            },
            None => {
                let m = choose|m: int|
                    0 <= m < rows.len() && (#[trigger] rows[m]).pid == all[k].pid && !larger(
                        all[k].bytes,
                        rows[m].bytes,
                    );
                assert(after[m] == rows[m]);
            },
        }
    }
}

/// A process with several contexts has one row, with the largest of what they
/// hold, and none is added up.
pub proof fn law_no_process_counts_twice(all: Seq<Holding>)
    ensures
        distinct(held(all)),
        forall|i: int| 0 <= i < held(all).len() ==> all.contains(#[trigger] held(all)[i]),
        forall|k: int| 0 <= k < all.len() ==> listed(held(all), #[trigger] all[k]),
{
    lemma_distinct(all);
    assert forall|i: int| 0 <= i < held(all).len() implies all.contains(
        #[trigger] held(all)[i],
    ) by {
        lemma_among(all, i);
    }
    assert forall|k: int| 0 <= k < all.len() implies listed(held(all), #[trigger] all[k]) by {
        lemma_all_listed(all, k);
    }
}

/// The processes that hold memory, largest first, as many as are listed. The
/// compute contexts come first in `all`, then the graphics contexts.
pub fn processes(all: &Vec<Holding>) -> (r: Vec<Holding>)
    ensures
        r@ == {
            let line = in_line(held(all@));
            if line.len() > MAX_PROCESSES {
                line.take(MAX_PROCESSES as int)
            } else {
                line
            }
        },
{
    let mut rows: Vec<Holding> = Vec::new();
    let mut n: usize = 0;
    while n < all.len()
        invariant
            n <= all@.len(),
            rows@ == held(all@.take(n as int)),
        decreases all@.len() - n,
    {
        let one = all[n];
        proof {
            assert(all@.take(n + 1).drop_last() =~= all@.take(n as int));
            assert(all@.take(n + 1).last() == one);
        }
        let mut i: usize = 0;
        while i < rows.len() && rows[i].pid != one.pid
            invariant
                i <= rows@.len(),
                forall|j: int| 0 <= j < i ==> (#[trigger] rows@[j]).pid != one.pid,
            ensures
                i <= rows@.len(),
                forall|j: int| 0 <= j < i ==> (#[trigger] rows@[j]).pid != one.pid,
                i < rows@.len() ==> rows@[i as int].pid == one.pid,
            decreases rows@.len() - i,
        {
            i += 1;
        }
        proof {
            lemma_place(rows@, one.pid, i as int);
        }
        if i < rows.len() {
            if is_larger(one.bytes, rows[i].bytes) {
                rows[i] = one;
            }
        } else {
            rows.push(one);
        }
        n += 1;
    }
    assert(all@.take(n as int) =~= all@);
    let mut line = sort(rows);
    if line.len() > MAX_PROCESSES {
        line.truncate(MAX_PROCESSES);
    }
    line
}

pub const ICON_VRAM: &'static str = "\u{f01bc}";

pub const ICON_POWER: &'static str = "\u{f0241}";

pub const ICON_CLOCK: &'static str = "\u{f04c5}";

pub const ICON_FAN: &'static str = "\u{f0210}";

pub const ICON_BUS: &'static str = "\u{f035b}";

/// A process that the popup lists, with the MiB it holds as they are printed.
#[derive(Debug, Clone)]
pub struct Process {
    pub pid: u32,
    pub name: String,
    pub held: Option<String>,
}

/// What is read for the popup only. Watts are as they are printed.
#[derive(Debug, Clone)]
pub struct Detail {
    pub memory_percent: u32,
    pub power: Option<String>,
    pub power_limit: Option<String>,
    pub sm_mhz: Option<u32>,
    pub sm_max_mhz: Option<u32>,
    pub mem_mhz: Option<u32>,
    pub mem_max_mhz: Option<u32>,
    pub fan_percent: Option<u32>,
    pub processes: Vec<Process>,
}

/// A reading of the device. GiB are as they are printed.
#[derive(Debug, Clone)]
pub struct Sample {
    pub name: String,
    pub slowdown_c: Option<u32>,
    pub temp_c: u32,
    pub gpu_percent: u32,
    pub vram_used: String,
    pub vram_total: String,
    pub detail: Option<Detail>,
}

pub open spec fn heat_tone(heat: Heat) -> Tone {
    match heat {
        Heat::Fine => Tone::Tier(0),
        Heat::Warm => Tone::Tier(1),
        Heat::Critical => Tone::Tier(2),
    }
}

pub open spec fn percent_text(n: u32) -> Seq<char> {
    decimal(n as nat) + "%"@
}

/// The power that is drawn: beside its limit, with a meter, where that is known.
pub open spec fn power_lines(d: Detail) -> Seq<LineView> {
    match (d.power, d.power_limit) {
        (Some(power), Some(limit)) => seq![
            field_view(ICON_POWER@, "power"@, power@ + " / "@ + limit@ + " W"@, Tone::Peach),
            LineView::Meter { gauge: Gauge::Power, tone: Tone::Peach },
        ],
        (Some(power), None) => seq![
            field_view(ICON_POWER@, "power"@, power@ + " W"@, Tone::Peach),
        ],
        _ => Seq::empty(),
    }
}

/// How much of the device is in use.
pub open spec fn usage_block(s: Sample) -> Seq<LineView> {
    seq![
        LineView::Section("usage"@),
        field_view(ICON@, "utilization"@, percent_text(s.gpu_percent), Tone::Green),
        LineView::Meter { gauge: Gauge::Usage, tone: Tone::Green },
        field_view(
            ICON_VRAM@,
            "vram"@,
            s.vram_used@ + " / "@ + s.vram_total@ + " GiB"@,
            Tone::Mauve,
        ),
        LineView::Meter { gauge: Gauge::Memory, tone: Tone::Mauve },
    ] + match s.detail {
        Some(d) => power_lines(d).push(
            field_view(ICON_BUS@, "memory bus"@, percent_text(d.memory_percent), Tone::Teal),
        ),
        None => Seq::empty(),
    }
}

/// A clock, where the device tells it.
pub open spec fn clock_lines(label: Seq<char>, mhz: Option<u32>, max: Option<u32>) -> Seq<LineView> {
    match mhz {
        Some(mhz) => seq![field_view(ICON_CLOCK@, label, clock_text(mhz, max), Tone::Blue)],
        None => Seq::empty(),
    }
}

pub open spec fn clocks_block(d: Detail) -> Seq<LineView> {
    seq![LineView::Section("clocks"@)] + clock_lines("sm clock"@, d.sm_mhz, d.sm_max_mhz)
        + clock_lines("mem clock"@, d.mem_mhz, d.mem_max_mhz)
}

/// A fan that stands still is muted.
pub open spec fn cooling_block(fan: u32) -> Seq<LineView> {
    seq![
        LineView::Section("cooling"@),
        field_view(
            ICON_FAN@,
            "fan"@,
            percent_text(fan),
            if fan == 0 {
                Tone::Muted
            } else {
                Tone::Teal
            },
        ),
    ]
}

pub open spec fn process_line(p: Process) -> LineView {
    LineView::Process {
        pid: p.pid,
        name: p.name@,
        value: match p.held {
            Some(held) => held@ + " MiB"@,
            None => "—"@,
        },
        tone: Tone::Mauve,
    }
}

pub open spec fn processes_block(list: Seq<Process>) -> Seq<LineView> {
    seq![LineView::Section("processes"@)] + if list.len() == 0 {
        seq![LineView::Note("no processes holding vram"@)]
    } else {
        list.map_values(|p: Process| process_line(p))
    }
}

/// The popup: the device and its temperature, its usage, and then, where there
/// is detail, its clocks and its fan as far as they are known, and who holds its
/// memory.
pub open spec fn card_of(s: Sample) -> Seq<Seq<LineView>> {
    let start = seq![
        seq![
            LineView::Title {
                name: elided(s.name@, NAME_LIMIT as nat),
                value: temp_of(s.temp_c, s.slowdown_c),
                tone: heat_tone(heat_of(s.temp_c, s.slowdown_c)),
            },
        ],
        usage_block(s),
    ];
    match s.detail {
        Some(d) => {
            let clocked = with_block(
                start,
                d.sm_mhz is Some || d.mem_mhz is Some,
                clocks_block(d),
            );
            let cooled = match d.fan_percent {
                Some(fan) => clocked.push(cooling_block(fan)),
                None => clocked,
            };
            cooled.push(processes_block(d.processes@))
        },
        None => start,
    }
}

fn usage_lines(s: &Sample) -> (r: Vec<Line>)
    ensures
        block(r@) == usage_block(*s),
{
    let mut lines = under("usage");
    put(&mut lines, field(ICON, "utilization", percent(s.gpu_percent), Tone::Green));
    put(&mut lines, Line::Meter { gauge: Gauge::Usage, tone: Tone::Green });
    let vram = concat4(s.vram_used.as_str(), " / ", s.vram_total.as_str(), " GiB");
    put(&mut lines, field(ICON_VRAM, "vram", vram, Tone::Mauve));
    put(&mut lines, Line::Meter { gauge: Gauge::Memory, tone: Tone::Mauve });
    if let Some(d) = &s.detail {
        match (&d.power, &d.power_limit) {
            (Some(power), Some(limit)) => {
                let text = concat4(power.as_str(), " / ", limit.as_str(), " W");
                put(&mut lines, field(ICON_POWER, "power", text, Tone::Peach));
                put(&mut lines, Line::Meter { gauge: Gauge::Power, tone: Tone::Peach });
            },
            (Some(power), None) => {
                let text = concat(power.as_str(), " W");
                put(&mut lines, field(ICON_POWER, "power", text, Tone::Peach));
            },
            _ => {},
        }
        put(&mut lines, field(ICON_BUS, "memory bus", percent(d.memory_percent), Tone::Teal));
    }
    assert(block(lines@) =~= usage_block(*s));
    lines
}

fn clocks_lines(d: &Detail) -> (r: Vec<Line>)
    ensures
        block(r@) == clocks_block(*d),
{
    let mut lines = under("clocks");
    if let Some(mhz) = d.sm_mhz {
        put(&mut lines, field(ICON_CLOCK, "sm clock", clock(mhz, d.sm_max_mhz), Tone::Blue));
    }
    if let Some(mhz) = d.mem_mhz {
        put(&mut lines, field(ICON_CLOCK, "mem clock", clock(mhz, d.mem_max_mhz), Tone::Blue));
    }
    assert(block(lines@) =~= clocks_block(*d));
    lines
}

fn processes_lines(list: &Vec<Process>) -> (r: Vec<Line>)
    ensures
        block(r@) == processes_block(list@),
{
    let mut lines = under("processes");
    if list.len() == 0 {
        put(&mut lines, Line::Note("no processes holding vram"));
    }
    let mut i: usize = 0;
    let ghost all = list@.map_values(|p: Process| process_line(p));
    assert(list@.len() > 0 ==> block(lines@) =~= seq![LineView::Section("processes"@)] + all.take(
        0,
    ));
    while i < list.len()
        invariant
            i <= list@.len(),
            all == list@.map_values(|p: Process| process_line(p)),
            list@.len() == 0 ==> block(lines@) == processes_block(list@),
            list@.len() > 0 ==> block(lines@) == seq![LineView::Section("processes"@)] + all.take(
                i as int,
            ),
        decreases list@.len() - i,
    {
        let p = &list[i];
        let value = match &p.held {
            Some(held) => concat(held.as_str(), " MiB"),
            None => "—".to_owned(),
        };
        let name = p.name.as_str().to_owned();
        put(&mut lines, Line::Process { pid: p.pid, name, value, tone: Tone::Mauve });
        assert(block(lines@) =~= seq![LineView::Section("processes"@)] + all.take(i + 1));
        i += 1;
    }
    assert(all.take(all.len() as int) =~= all);
    lines
}

impl Measured for Sample {
    open spec fn shows(&self) -> Seq<Seq<LineView>> {
        card_of(*self)
    }

    fn card(&self) -> (r: Vec<Vec<Line>>) {
        let tone = match heat(self.temp_c, self.slowdown_c) {
            Heat::Fine => Tone::Tier(0),
            Heat::Warm => Tone::Tier(1),
            Heat::Critical => Tone::Tier(2),
        };
        let mut heading: Vec<Line> = Vec::new();
        assert(block(heading@) =~= Seq::empty());
        let name = title(self.name.as_str());
        put(
            &mut heading,
            Line::Title { name, value: temp_text(self.temp_c, self.slowdown_c), tone },
        );
        let mut card: Vec<Vec<Line>> = Vec::new();
        assert(blocks(card@) =~= Seq::empty());
        put_block(&mut card, heading);
        put_block(&mut card, usage_lines(self));
        if let Some(d) = &self.detail {
            if d.sm_mhz.is_some() || d.mem_mhz.is_some() {
                put_block(&mut card, clocks_lines(d));
            }
            if let Some(fan) = d.fan_percent {
                let tone = if fan == 0 {
                    Tone::Muted
                } else {
                    Tone::Teal
                };
                let mut lines = under("cooling");
                put(&mut lines, field(ICON_FAN, "fan", percent(fan), tone));
                assert(block(lines@) =~= cooling_block(fan));
                put_block(&mut card, lines);
            }
            put_block(&mut card, processes_lines(&d.processes));
        }
        assert(blocks(card@) =~= card_of(*self));
        card
    }
}

} // verus!
