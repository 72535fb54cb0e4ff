//! The displays, and the writes that change them.
use crate::modules::brightness::level::{
    from_percent, law_percentages_survive_their_scale, lemma_raw, percent_of, raw_of,
};
use crate::text::{concat3, same};
use vstd::prelude::*;
use vstd::string::*;

verus! {

/// sysfs panels never go fully dark.
pub const SYSFS_FLOOR: u32 = 1;

/// Where one display's brightness is read and written.
#[derive(Debug, Clone, PartialEq, Eq, Hash)]
pub enum Sink {
    /// `/sys/class/backlight/<name>`, `max` raw units.
    Backlight { name: String, max: u32 },
    /// External monitor: `bus` is its i2c bus number, which survives display
    /// renumbering. `max` is the monitor's own maximum.
    Ddc { bus: u32, max: u32 },
}

/// What tells two sinks apart.
pub enum SinkView {
    Backlight { name: Seq<char>, max: u32 },
    Ddc { bus: u32, max: u32 },
}

impl View for Sink {
    type V = SinkView;

    open spec fn view(&self) -> SinkView {
        match self {
            Sink::Backlight { name, max } => SinkView::Backlight { name: name@, max: *max },
            Sink::Ddc { bus, max } => SinkView::Ddc { bus: *bus, max: *max },
        }
    }
}

/// The hardware value a percentage is written as: 0% on a panel is 1%, not
/// off.
pub open spec fn raw_at(sink: SinkView, percent: u32) -> nat {
    match sink {
        SinkView::Backlight { max, .. } => raw_of(
            if percent < SYSFS_FLOOR {
                SYSFS_FLOOR as nat
            } else {
                percent as nat
            },
            max as nat,
        ),
        SinkView::Ddc { max, .. } => raw_of(percent as nat, max as nat),
    }
}

impl Sink {
    /// The hardware value `percent` is written as. Two levels are the same
    /// brightness on this display exactly when these agree.
    pub fn raw(&self, percent: u32) -> (r: u32)
        ensures
            r == raw_at(self@, percent),
    {
        match self {
            Sink::Backlight { max, .. } => from_percent(
                if percent < SYSFS_FLOOR {
                    SYSFS_FLOOR
                } else {
                    percent
                },
                *max,
            ),
            Sink::Ddc { max, .. } => from_percent(percent, *max),
        }
    }

    pub fn is(&self, other: &Sink) -> (r: bool)
        ensures
            r == (self@ == other@),
    {
        match (self, other) {
            (Sink::Backlight { name: a, max: m }, Sink::Backlight { name: b, max: n }) => same(
                a.as_str(),
                b.as_str(),
            ) && *m == *n,
            (Sink::Ddc { bus: a, max: m }, Sink::Ddc { bus: b, max: n }) => *a == *b && *m == *n,
            _ => false,
        }
    }
}

/// A display that was found.
#[derive(Debug, Clone)]
pub struct Found {
    pub sink: Sink,
    /// Monitor model, or the backlight device name.
    pub label: String,
    /// DRM connector (`DP-1`), when it is known.
    pub connector: Option<String>,
    pub percent: u32,
}

/// What a mode calls a display.
pub open spec fn key_of(found: Found) -> Seq<char> {
    match found.connector {
        Some(connector) => connector@,
        None => found.label@,
    }
}

impl Found {
    /// What a mode calls this display: its connector, which is stable across
    /// replugs and matches the compositor's name for it, or else its label.
    pub fn key(&self) -> (r: &str)
        ensures
            r@ == key_of(*self),
    {
        match &self.connector {
            Some(connector) => connector.as_str(),
            None => self.label.as_str(),
        }
    }
}

#[derive(Debug, Clone)]
pub struct Display {
    pub found: Found,
    /// Newest value the user asked for while a write was in flight.
    pub pending: Option<u32>,
    pub writing: bool,
}

/// What a click or a scroll applies to.
#[derive(Debug, Clone, Copy, PartialEq, Eq, Structural)]
pub enum Target {
    One(usize),
    All,
}

pub open spec fn capped(percent: u32) -> u32 {
    if percent > 100 {
        100
    } else {
        percent
    }
}

/// A display after it was asked for a level: the bar follows the pointer at
/// once, and the hardware catches up. While a write is in flight the level
/// waits for it.
pub open spec fn asked(d: Display, percent: u32) -> Display {
    let wanted = capped(percent);
    if wanted == d.found.percent && d.pending is None {
        d
    } else {
        Display {
            found: Found { percent: wanted, ..d.found },
            pending: if d.writing {
                Some(wanted)
            } else {
                d.pending
            },
            writing: true,
        }
    }
}

/// Whether asking a display for a level starts a write.
pub open spec fn begins(d: Display, percent: u32) -> bool {
    !(capped(percent) == d.found.percent && d.pending is None) && !d.writing
}

pub fn ask(d: &mut Display, percent: u32) -> (r: Option<u32>)
    ensures
        *final(d) == asked(*old(d), percent),
        r == if begins(*old(d), percent) {
            Some(capped(percent))
        } else {
            None
        },
{
    let wanted: u32 = if percent > 100 {
        100
    } else {
        percent
    };
    if wanted == d.found.percent && d.pending.is_none() {
        return None;
    }
    d.found.percent = wanted;
    if d.writing {
        d.pending = Some(wanted);
        return None;
    }
    d.writing = true;
    Some(wanted)
}

/// A write that is to be made.
#[derive(Debug, Clone, Copy, PartialEq, Eq, Structural)]
pub struct Write {
    pub index: usize,
    pub percent: u32,
}

/// The displays after each was asked for the level `f` gives it, if any.
pub open spec fn all_asked(ds: Seq<Display>, f: spec_fn(int) -> Option<u32>) -> Seq<Display> {
    Seq::new(
        ds.len(),
        |i: int|
            match f(i) {
                Some(percent) => asked(ds[i], percent),
                None => ds[i],
            },
    )
}

/// The writes that this starts among the first `n` displays.
pub open spec fn all_begun(ds: Seq<Display>, f: spec_fn(int) -> Option<u32>, n: int) -> Seq<Write>
    decreases n,
{
    if n <= 0 {
        Seq::empty()
    } else {
        let before = all_begun(ds, f, n - 1);
        match f(n - 1) {
            Some(percent) => if begins(ds[n - 1], percent) {
                before.push(Write { index: (n - 1) as usize, percent: capped(percent) })
            } else {
                before
            },
            None => before,
        }
    }
}

/// What a write's end makes of a display, and the write that follows it: one
/// with the newest level where the user moved on meanwhile.
pub open spec fn after_write(d: Display, percent: u32) -> (Display, Option<u32>) {
    match d.pending {
        Some(newest) => if newest != percent {
            (Display { pending: None, writing: true, ..d }, Some(newest))
        } else {
            (Display { pending: None, writing: false, ..d }, None)
        },
        None => (Display { pending: None, writing: false, ..d }, None),
    }
}

pub fn finish_write(d: &mut Display, percent: u32) -> (r: Option<u32>)
    ensures
        *final(d) == after_write(*old(d), percent).0,
        r == after_write(*old(d), percent).1,
{
    d.writing = false;
    match d.pending {
        Some(newest) => {
            d.pending = None;
            if newest != percent {
                d.writing = true;
                return Some(newest);
            }
            None
        },
        None => None,
    }
}

/// What the bar shows is what the hardware was told, or will be once the write
/// in flight has ended.
pub open spec fn settled(d: Display, told: u32) -> bool {
    match d.pending {
        Some(newest) => d.writing && newest == d.found.percent,
        None => d.found.percent == told,
    }
}

/// Never two writes in flight for one display, and the newest level wins: when
/// asking starts a write none was in flight, and whatever is asked meanwhile,
/// the last write that follows carries the level the bar shows.
pub proof fn law_the_newest_level_wins(d: Display, told: u32, percent: u32)
    requires
        settled(d, told),
    ensures
        begins(d, percent) ==> !d.writing && settled(asked(d, percent), capped(percent)),
        !begins(d, percent) ==> settled(asked(d, percent), told),
        d.writing ==> {
            let (next, follow) = after_write(d, told);
            &&& follow matches Some(newest) ==> next.writing && settled(next, newest)
            &&& follow is None ==> !next.writing && next.pending is None && next.found.percent
                == told
        },
{
}

/// How a display introduces itself.
pub open spec fn heading_of(found: Found) -> Seq<char> {
    match found.connector {
        Some(connector) => connector@ + " · "@ + found.label@,
        None => found.label@,
    }
}

/// How a display introduces itself. The connector leads when it is known,
/// because `DP-1` is what the compositor and this bar's own per-output cells
/// call that monitor.
pub fn heading(found: &Found) -> (r: String)
    ensures
        r@ == heading_of(*found),
{
    match &found.connector {
        Some(connector) => concat3(connector.as_str(), " · ", found.label.as_str()),
        None => found.label.as_str().to_owned(),
    }
}

/// The cell's icon, brighter in four steps.
pub open spec fn glyph_of(percent: u32) -> Seq<char> {
    if percent >= 75 {
        "\u{f00e0}"@
    } else if percent >= 50 {
        "\u{f00de}"@
    } else if percent >= 25 {
        "\u{f00dd}"@
    } else {
        "\u{f00dc}"@
    }
}

pub fn glyph(percent: u32) -> (r: &'static str)
    ensures
        r@ == glyph_of(percent),
{
    if percent >= 75 {
        "\u{f00e0}"
    } else if percent >= 50 {
        "\u{f00de}"
    } else if percent >= 25 {
        "\u{f00dd}"
    } else {
        "\u{f00dc}"
    }
}

/// The greatest hardware value of a sink.
pub open spec fn max_of(sink: SinkView) -> u32 {
    match sink {
        SinkView::Backlight { max, .. } => max,
        SinkView::Ddc { max, .. } => max,
    }
}

/// A level that is written and read back counts as the same level; and nothing
/// turns a panel off.
pub proof fn law_a_level_read_back_is_the_same_level(sink: SinkView, percent: u32)
    ensures
        raw_at(sink, percent_of(raw_at(sink, percent), max_of(sink) as nat) as u32) == raw_at(
            sink,
            percent,
        ),
        sink is Backlight ==> raw_at(sink, 0) == raw_at(sink, 1),
{
    let max = max_of(sink) as nat;
    let raw = raw_at(sink, percent);
    let back = percent_of(raw, max);
    assert(back <= 100);
    if sink is Backlight {
        let asked: nat = if percent < SYSFS_FLOOR {
            SYSFS_FLOOR as nat
        } else {
            percent as nat
        };
        law_percentages_survive_their_scale(asked, max);
        if back == 0 {
            lemma_raw(0, max);
            lemma_raw(1, max);
            let asked: nat = if asked > 100 {
                100
            } else {
                asked
            };
            lemma_raw(asked, max);
            if asked > 1 {
                assert(max <= 25) by (nonlinear_arith)
                    requires
                        asked * max <= 50,
                        asked > 1,
                ;
            }
        }
    } else {
        law_percentages_survive_their_scale(percent as nat, max);
    }
}

} // verus!
