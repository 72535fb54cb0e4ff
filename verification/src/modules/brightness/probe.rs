//! What `ddcutil` says of the monitors.
use crate::modules::brightness::display::{Found, Sink};
use crate::modules::brightness::level::{percent_of, to_percent};
use crate::number::{decimal, parse_u32, unsigned, whole};
use crate::text::{
    after_last, concat, cut, lines, opt_text, pieces, split, split_once, starts_with, strip_prefix,
    tail, text_lines, text_words, texts, trim, trim_start, trimmed, trimmed_start, unprefixed,
    words,
};
use vstd::prelude::*;
use vstd::string::*;

verus! {

/// A monitor that answers on an i2c bus.
#[derive(Debug, Clone)]
pub struct Monitor {
    pub bus: u32,
    pub connector: Option<String>,
    pub label: Option<String>,
}

pub struct MonitorView {
    pub bus: u32,
    pub connector: Option<Seq<char>>,
    pub label: Option<Seq<char>>,
}

impl View for Monitor {
    type V = MonitorView;

    open spec fn view(&self) -> MonitorView {
        MonitorView {
            bus: self.bus,
            connector: opt_text(self.connector),
            label: opt_text(self.label),
        }
    }
}

/// What has been read of a listing: the monitors that are complete, and what
/// is known of the one being read.
pub struct Listing {
    pub found: Seq<MonitorView>,
    pub bus: Option<u32>,
    pub connector: Option<Seq<char>>,
    pub label: Option<Seq<char>>,
}

/// A text as a `u32`, where it is one.
pub open spec fn u32_of(s: Seq<char>) -> Option<u32> {
    match whole(s) {
        Some(n) => if n <= u32::MAX {
            Some(n as u32)
        } else {
            None
        },
        None => None,
    }
}

/// The end of one monitor's listing; one without a bus is dropped.
pub open spec fn flushed(l: Listing) -> Listing {
    Listing {
        found: match l.bus {
            Some(bus) => l.found.push(
                MonitorView { bus, connector: l.connector, label: l.label },
            ),
            None => l.found,
        },
        bus: None,
        connector: None,
        label: None,
    }
}

/// `card1-DP-2` is the connector that the compositor calls `DP-2`.
pub open spec fn connector_of(value: Seq<char>) -> Option<Seq<char>> {
    match cut(value, '-') {
        Some((_, rest)) => if rest.len() > 0 {
            Some(rest)
        } else {
            None
        },
        None => None,
    }
}

/// The model in `MFG:MODEL:SERIAL`, or all of it.
pub open spec fn model_of(value: Seq<char>) -> Seq<char> {
    let parts = pieces(value, ':');
    if parts.len() > 1 && parts[1].len() > 0 {
        parts[1]
    } else {
        value
    }
}

/// A listing with one more line read.
pub open spec fn with_line(l: Listing, raw: Seq<char>) -> Listing {
    let line = trimmed(raw);
    let bus = unprefixed(line, "I2C bus:"@);
    let connector = unprefixed(line, "DRM connector:"@);
    let monitor = unprefixed(line, "Monitor:"@);
    if "Display "@.is_prefix_of(line) || "Invalid display"@.is_prefix_of(line) {
        flushed(l)
    } else if bus is Some {
        Listing { bus: u32_of(tail(trimmed(bus->0), '-')), ..l }
    } else if connector is Some {
        Listing { connector: connector_of(trimmed(connector->0)), ..l }
    } else if monitor is Some {
        Listing { label: Some(model_of(trimmed(monitor->0))), ..l }
    } else {
        l
    }
}

pub open spec fn listing_of(lines: Seq<Seq<char>>) -> Listing
    decreases lines.len(),
{
    if lines.len() == 0 {
        Listing { found: Seq::empty(), bus: None, connector: None, label: None }
    } else {
        with_line(listing_of(lines.drop_last()), lines.last())
    }
}

/// The monitors in the output of `ddcutil detect --brief`.
pub open spec fn monitors_in(output: Seq<char>) -> Seq<MonitorView> {
    flushed(listing_of(text_lines(output))).found
}

pub open spec fn monitor_views(list: Seq<Monitor>) -> Seq<MonitorView> {
    list.map_values(|m: Monitor| m@)
}

/// Read the output of `ddcutil detect --brief`.
pub fn read_detect(output: &str) -> (r: Vec<Monitor>)
    ensures
        monitor_views(r@) == monitors_in(output@),
{
    let all = lines(output);
    let ghost whole = texts(all@);
    let mut found: Vec<Monitor> = Vec::new();
    let mut bus: Option<u32> = None;
    let mut connector: Option<String> = None;
    let mut label: Option<String> = None;
    let mut i: usize = 0;
    assert(monitor_views(found@) =~= Seq::empty());
    while i < all.len()
        invariant
            i <= all@.len(),
            whole == texts(all@),
            listing_of(whole.take(i as int)) == (Listing {
                found: monitor_views(found@),
                bus,
                connector: opt_text(connector),
                label: opt_text(label),
            }),
        decreases all@.len() - i,
    {
        proof {
            assert(whole.take(i + 1).drop_last() =~= whole.take(i as int));
            assert(whole.take(i + 1).last() == all@[i as int]@);
        }
        let line = trim(all[i].as_str());
        if starts_with(line, "Display ") || starts_with(line, "Invalid display") {
            match bus {
                Some(n) => {
                    let ghost had = found@;
                    let ghost next = MonitorView {
                        bus: n,
                        connector: opt_text(connector),
                        label: opt_text(label),
                    };
                    found.push(Monitor { bus: n, connector, label });
                    assert(monitor_views(found@) =~= monitor_views(had).push(next));
                },
                None => {},
            }
            bus = None;
            connector = None;
            label = None;
        } else {
            match strip_prefix(line, "I2C bus:") {
                Some(value) => {
                    bus = parse_u32(after_last(trim(value), '-'));
                },
                None => match strip_prefix(line, "DRM connector:") {
                    Some(value) => {
                        connector = match split_once(trim(value), '-') {
                            Some((_, rest)) => if rest.is_empty() {
                                None
                            } else {
                                Some(rest.to_owned())
                            },
                            None => None,
                        };
                    },
                    None => match strip_prefix(line, "Monitor:") {
                        Some(value) => {
                            let value = trim(value);
                            let parts = split(value, ':');
                            assert(parts@.len() > 1 ==> texts(parts@)[1] == parts@[1]@);
                            label = if parts.len() > 1 && !parts[1].as_str().is_empty() {
                                Some(parts[1].as_str().to_owned())
                            } else {
                                Some(value.to_owned())
                            };
                        },
                        None => {},
                    },
                },
            }
        }
        i += 1;
    }
    assert(whole.take(i as int) =~= whole);
    match bus {
        Some(n) => {
            let ghost had = found@;
            let ghost next = MonitorView {
                bus: n,
                connector: opt_text(connector),
                label: opt_text(label),
            };
            found.push(Monitor { bus: n, connector, label });
            assert(monitor_views(found@) =~= monitor_views(had).push(next));
        },
        None => {},
    }
    found
}

/// A monitor that answered with its current level and its maximum.
pub fn found_monitor(monitor: Monitor, current: u32, max: u32) -> (r: Found)
    ensures
        r.percent == percent_of(current as nat, max as nat),
        r.sink == (Sink::Ddc { bus: monitor.bus, max }),
        r.label@ == match monitor@.label {
            Some(label) => label,
            None => "i2c-"@ + decimal(monitor.bus as nat),
        },
        r.connector == monitor.connector,
{
    Found {
        percent: to_percent(current, max),
        sink: Sink::Ddc { bus: monitor.bus, max },
        label: match monitor.label {
            Some(label) => label,
            None => concat("i2c-", unsigned(monitor.bus as u64).as_str()),
        },
        connector: monitor.connector,
    }
}

/// An internal panel's level, where it has a scale.
pub fn found_panel(name: String, current: u32, max: u32) -> (r: Option<Found>)
    ensures
        match r {
            Some(found) => {
                &&& max > 0
                &&& found.percent == percent_of(current as nat, max as nat)
                &&& found.sink@ == (Sink::Backlight { name, max })@
                &&& found.label@ == name@
                &&& found.connector is None
            },
            None => max == 0,
        },
{
    if max == 0 {
        return None;
    }
    Some(
        Found {
            percent: to_percent(current, max),
            label: name.as_str().to_owned(),
            sink: Sink::Backlight { name, max },
            connector: None,
        },
    )
}

/// Why a monitor's level could not be read.
#[derive(Debug, Clone)]
pub enum Unread {
    /// The output names no brightness.
    Missing,
    /// This line of it holds no number.
    Unparsable(String),
}

/// The line of the output that tells the brightness.
pub open spec fn vcp_line(lines: Seq<Seq<char>>) -> Option<Seq<char>>
    decreases lines.len(),
{
    if lines.len() == 0 {
        None
    } else if "VCP 10"@.is_prefix_of(trimmed_start(lines[0])) {
        Some(lines[0])
    } else {
        vcp_line(lines.skip(1))
    }
}

/// The current level and the maximum in `VCP 10 C <current> <max>`; a maximum
/// that is missing is 100, and none is 0.
pub open spec fn vcp_of(line: Seq<char>) -> Option<(u32, u32)> {
    let fields = text_words(line);
    let current = if fields.len() > 3 {
        u32_of(fields[3])
    } else {
        None
    };
    let max = if fields.len() > 4 {
        match u32_of(fields[4]) {
            Some(max) => max,
            None => 100,
        }
    } else {
        100
    };
    match current {
        Some(current) => Some(
            (
                current,
                if max < 1 {
                    1
                } else {
                    max
                },
            ),
        ),
        None => None,
    }
}

/// Read the output of `ddcutil getvcp 10 --brief`.
pub fn read_vcp(output: &str) -> (r: Result<(u32, u32), Unread>)
    ensures
        match vcp_line(text_lines(output@)) {
            Some(line) => match vcp_of(line) {
                Some(levels) => r == Ok::<(u32, u32), Unread>(levels),
                None => r matches Err(Unread::Unparsable(said)) && said@ == line,
            },
            None => r matches Err(Unread::Missing),
        },
{
    let all = lines(output);
    let ghost whole = texts(all@);
    let mut i: usize = 0;
    assert(whole.skip(0) =~= whole);
    while i < all.len()
        invariant
            i <= all@.len(),
            whole == texts(all@),
            whole == text_lines(output@),
            vcp_line(whole.skip(i as int)) == vcp_line(whole),
        decreases all@.len() - i,
    {
        proof {
            assert(whole.skip(i as int)[0] == all@[i as int]@);
            assert(whole.skip(i as int).skip(1) =~= whole.skip(i + 1));
        }
        let line = all[i].as_str();
        if starts_with(trim_start(line), "VCP 10") {
            let fields = words(line);
            proof {
                if fields@.len() > 3 {
                    assert(texts(fields@)[3] == fields@[3]@);
                }
                if fields@.len() > 4 {
                    assert(texts(fields@)[4] == fields@[4]@);
                }
            }
            let current = if fields.len() > 3 {
                parse_u32(fields[3].as_str())
            } else {
                None
            };
            let max: u32 = if fields.len() > 4 {
                match parse_u32(fields[4].as_str()) {
                    Some(max) => max,
                    None => 100,
                }
            } else {
                100
            };
            return match current {
                Some(current) => Ok(
                    (
                        current,
                        if max < 1 {
                            1
                        } else {
                            max
                        },
                    ),
                ),
                None => Err(Unread::Unparsable(line.to_owned())),
            };
        }
        i += 1;
    }
    Err(Unread::Missing)
}

} // verus!
