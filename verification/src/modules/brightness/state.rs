//! The brightness module's state.
use crate::modules::brightness::display::{
    after_write, all_asked, all_begun, ask, capped, finish_write, key_of, raw_at, Display, Found,
    Sink, SinkView, Target, Write,
};
use crate::modules::brightness::modes::{contents, same_modes, Levels, Loaded, Mode};
use crate::text::{
    append_printable, concat, folded, opt_str, opt_text, printable, rfind, same, same_folded, trim,
    trim_end, trimmed, trimmed_end,
};
use vstd::prelude::*;
use vstd::string::*;

verus! {

/// Scroll step, in percent.
pub const STEP: u32 = 5;

/// Shortest gap between two accepted wheel notches, in nanoseconds.
pub const NUDGE_DEBOUNCE: u64 = 80_000_000;

/// Presets offered in the popup.
pub const PRESETS: [u32; 5] = [10, 25, 50, 75, 100];

#[derive(Debug)]
pub enum Event {
    Detected(Vec<Found>),
    /// Live values from the popup-only refresh.
    Refreshed(Vec<(Sink, u32)>),
    SetLevel(Target, u32),
    Nudge(Target, i32),
    Wrote { index: usize, percent: u32, result: Result<(), String> },
    /// The saved modes, read at startup and on a reload.
    ModesLoaded(Result<Loaded, String>),
    ApplyMode(usize),
    /// A mode picked by name.
    ApplyNamed(String),
    /// Step to the mode after the one in effect.
    CycleMode,
    /// Open the editor on a new mode, which will hold the current levels.
    NewMode,
    /// Apply a mode and open it in the editor: the sliders are how its levels
    /// are changed.
    EditMode(usize),
    /// Text typed into the editor's name.
    Typed(String),
    /// Backspace; with Ctrl, the whole last word.
    Erase { word: bool },
    SaveMode,
    DeleteMode,
    CancelEdit,
    Saved(Result<(), String>),
}

/// A mode being named, and what saving it will replace.
#[derive(Debug, Clone)]
pub struct Editor {
    /// The mode being edited, or `None` for a new one.
    pub target: Option<usize>,
    pub name: String,
}

#[derive(Debug, Clone)]
pub struct State {
    pub displays: Vec<Display>,
    /// When the last wheel notch was accepted.
    pub nudged_at: Option<u64>,
    pub error: Option<String>,
    pub modes: Vec<Mode>,
    /// False until the modes file has been read, and while it cannot be: a
    /// save then would overwrite whatever made it unreadable, so editing waits
    /// for a reload that reads it.
    pub modes_readable: bool,
    /// Why the modes file could not be read or written.
    pub modes_error: Option<String>,
    /// The mode applied last, so cycling from levels that match no mode still
    /// moves on from where it was rather than starting over.
    pub last_mode: Option<usize>,
    pub editor: Option<Editor>,
    /// Bumped per edit; orders the saves.
    pub saves: u64,
}

impl Default for State {
    fn default() -> (r: State)
        ensures
            r.displays@.len() == 0,
            r.nudged_at is None,
            r.error is None,
            r.modes@.len() == 0,
            !r.modes_readable,
            r.modes_error is None,
            r.last_mode is None,
            r.editor is None,
            r.saves == 0,
            r.wf(),
    {
        State {
            displays: Vec::new(),
            nudged_at: None,
            error: None,
            modes: Vec::new(),
            modes_readable: false,
            modes_error: None,
            last_mode: None,
            editor: None,
            saves: 0,
        }
    }
}

/// What is to be done about an event.
#[derive(Debug, Clone)]
pub struct Effects {
    /// Writes to make, by display.
    pub writes: Vec<Write>,
    /// Whether the modes are to be saved, as the generation the state counts.
    pub save: bool,
}

pub open spec fn modes_wf(modes: Seq<Mode>) -> bool {
    forall|i: int| 0 <= i < modes.len() ==> (#[trigger] modes[i]).wf()
}

/// Whether every display that the mode names is at its level; a mode that
/// names none of the displays present is never in effect.
pub open spec fn mode_in_effect(mode: Mode, ds: Seq<Display>) -> bool {
    &&& exists|i: int|
        0 <= i < ds.len() && mode.levels.at(key_of((#[trigger] ds[i]).found)) is Some
    &&& forall|i: int|
        0 <= i < ds.len() ==> match mode.levels.at(key_of((#[trigger] ds[i]).found)) {
            Some(level) => raw_at(ds[i].found.sink@, level) == raw_at(
                ds[i].found.sink@,
                ds[i].found.percent,
            ),
            None => true,
        }
}

pub open spec fn in_effect_at(modes: Seq<Mode>, ds: Seq<Display>, i: int) -> bool {
    0 <= i < modes.len() && mode_in_effect(modes[i], ds)
}

/// The mode in effect: the one applied last while it still is, else the first
/// that is.
pub open spec fn is_active(
    modes: Seq<Mode>,
    ds: Seq<Display>,
    last: Option<usize>,
    r: Option<usize>,
) -> bool {
    if last matches Some(i) && in_effect_at(modes, ds, i as int) {
        r == last
    } else {
        match r {
            Some(i) => in_effect_at(modes, ds, i as int) && forall|j: int|
                0 <= j < i ==> !in_effect_at(modes, ds, j),
            None => forall|j: int| !in_effect_at(modes, ds, j),
        }
    }
}

/// The level that the first `n` displays give a key; the last of two displays
/// with one key counts.
pub open spec fn level_shown(ds: Seq<Display>, key: Seq<char>) -> Option<u32>
    decreases ds.len(),
{
    if ds.len() == 0 {
        None
    } else if key_of(ds.last().found) == key {
        Some(ds.last().found.percent)
    } else {
        level_shown(ds.drop_last(), key)
    }
}

impl State {
    /// The modes' levels are in order, and the mode applied last is one of the
    /// modes.
    pub open spec fn wf(self) -> bool {
        &&& modes_wf(self.modes@)
        &&& self.last_mode matches Some(i) ==> i < self.modes@.len()
    }

    /// Whether every display mode `index` names is at its level.
    pub fn in_effect(&self, index: usize) -> (r: bool)
        ensures
            r == in_effect_at(self.modes@, self.displays@, index as int),
    {
        if index >= self.modes.len() {
            return false;
        }
        let mode = &self.modes[index];
        let ghost ds = self.displays@;
        let mut named: bool = false;
        let mut i: usize = 0;
        while i < self.displays.len()
            invariant
                i <= ds.len(),
                ds == self.displays@,
                mode == self.modes@[index as int],
                index < self.modes@.len(),
                named == exists|j: int|
                    0 <= j < i && mode.levels.at(key_of((#[trigger] ds[j]).found)) is Some,
                forall|j: int|
                    0 <= j < i ==> match mode.levels.at(key_of((#[trigger] ds[j]).found)) {
                        Some(level) => raw_at(ds[j].found.sink@, level) == raw_at(
                            ds[j].found.sink@,
                            ds[j].found.percent,
                        ),
                        None => true,
                    },
            decreases ds.len() - i,
        {
            let found = &self.displays[i].found;
            match mode.levels.get(found.key()) {
                Some(level) => {
                    named = true;
                    if found.sink.raw(level) != found.sink.raw(found.percent) {
                        assert(raw_at(ds[i as int].found.sink@, level) != raw_at(
                            ds[i as int].found.sink@,
                            ds[i as int].found.percent,
                        ));
                        assert(mode.levels.at(key_of(ds[i as int].found)) == Some(level));
                        return false;
                    }
                },
                None => {},
            }
            i += 1;
        }
        named
    }

    /// The mode in effect: the one applied last while it still is, else the
    /// first that is. Modes can share levels — or one can name a subset of
    /// another's displays — and cycling has to move on from the one it applied.
    pub fn active_mode(&self) -> (r: Option<usize>)
        ensures
            is_active(self.modes@, self.displays@, self.last_mode, r),
    {
        match self.last_mode {
            Some(index) => {
                if self.in_effect(index) {
                    return Some(index);
                }
            },
            None => {},
        }
        let mut i: usize = 0;
        while i < self.modes.len()
            invariant
                i <= self.modes@.len(),
                forall|j: int| 0 <= j < i ==> !in_effect_at(self.modes@, self.displays@, j),
                !(self.last_mode matches Some(k) && in_effect_at(
                    self.modes@,
                    self.displays@,
                    k as int,
                )),
            decreases self.modes@.len() - i,
        {
            if self.in_effect(i) {
                return Some(i);
            }
            i += 1;
        }
        None
    }

    /// Every display's level right now, as a mode stores it.
    pub fn levels(&self) -> (r: Levels)
        ensures
            r.wf(),
            forall|key: Seq<char>| #[trigger] r.at(key) == level_shown(self.displays@, key),
    {
        let ghost ds = self.displays@;
        let mut levels = Levels::new();
        let mut i: usize = 0;
        while i < self.displays.len()
            invariant
                i <= ds.len(),
                ds == self.displays@,
                levels.wf(),
                forall|key: Seq<char>| #[trigger]
                    levels.at(key) == level_shown(ds.take(i as int), key),
            decreases ds.len() - i,
        {
            let found = &self.displays[i].found;
            proof {
                assert(ds.take(i + 1).drop_last() =~= ds.take(i as int));
                assert(ds.take(i + 1).last() == ds[i as int]);
            }
            levels.insert(found.key().to_owned(), found.percent);
            i += 1;
        }
        assert(ds.take(i as int) =~= ds);
        levels
    }
}

/// The sum of the displays' levels.
pub open spec fn total(ds: Seq<Display>) -> nat
    decreases ds.len(),
{
    if ds.len() == 0 {
        0
    } else {
        total(ds.drop_last()) + ds.last().found.percent as nat
    }
}

/// Whether another mode than the one being edited has that name.
pub open spec fn taken(modes: Seq<Mode>, target: Option<usize>, name: Seq<char>) -> bool {
    exists|i: int|
        0 <= i < modes.len() && target != Some(i as usize) && folded(
            trimmed((#[trigger] modes[i]).name@),
        ) == folded(name)
}

/// The editor's name, trimmed, when it can be saved: not empty, and not another
/// mode's.
pub open spec fn draft_of(editor: Option<Editor>, modes: Seq<Mode>) -> Option<Seq<char>> {
    match editor {
        Some(editor) => {
            let name = trimmed(editor.name@);
            if name.len() > 0 && !taken(modes, editor.target, name) {
                Some(name)
            } else {
                None
            }
        },
        None => None,
    }
}

/// How a level changes: to a value, or by one step up or down.
#[derive(Clone, Copy, PartialEq, Eq, Structural, Debug)]
pub enum Change {
    To(u32),
    Up,
    Down,
}

pub open spec fn changed(percent: u32, change: Change) -> u32 {
    // Read as a signed number, as a level is when a step is added to it.
    let level = if percent > i32::MAX {
        percent - 0x1_0000_0000
    } else {
        percent as int
    };
    let clamped = |n: int|
        if n < 0 {
            0u32
        } else if n > 100 {
            100
        } else {
            n as u32
        };
    match change {
        Change::To(percent) => percent,
        Change::Up => clamped(level + STEP),
        Change::Down => clamped(level - STEP),
    }
}

fn change_of(percent: u32, change: Change) -> (r: u32)
    ensures
        r == changed(percent, change),
{
    let level: i64 = if percent > i32::MAX as u32 {
        percent as i64 - 0x1_0000_0000
    } else {
        percent as i64
    };
    let wanted: i64 = match change {
        Change::To(percent) => {
            return percent;
        },
        Change::Up => level + STEP as i64,
        Change::Down => level - STEP as i64,
    };
    if wanted < 0 {
        0
    } else if wanted > 100 {
        100
    } else {
        wanted as u32
    }
}

/// The level a change asks of each display it applies to.
pub open spec fn by_target(
    ds: Seq<Display>,
    target: Target,
    change: Change,
) -> spec_fn(int) -> Option<u32> {
    |i: int|
        if target == Target::All || target == Target::One(i as usize) {
            Some(changed(ds[i].found.percent, change))
        } else {
            None
        }
}

/// The level a mode asks of each display it names.
pub open spec fn by_mode(ds: Seq<Display>, mode: Mode) -> spec_fn(int) -> Option<u32> {
    |i: int|
        match mode.levels.at(key_of(ds[i].found)) {
            Some(level) => Some(capped(level)),
            None => None,
        }
}

/// Whether display `i` is the one on that output.
pub open spec fn shown_on(ds: Seq<Display>, i: int, output: Option<Seq<char>>) -> bool {
    0 <= i < ds.len() && output is Some && opt_text(ds[i].found.connector) == output
}

/// The display a bar cell speaks for: the first on its output, otherwise the
/// only one, otherwise every display at once.
pub open spec fn speaks_for(ds: Seq<Display>, output: Option<Seq<char>>, r: Target) -> bool {
    if exists|i: int| shown_on(ds, i, output) {
        r matches Target::One(at) && shown_on(ds, at as int, output) && forall|j: int|
            0 <= j < at ==> !shown_on(ds, j, output)
    } else if ds.len() == 1 {
        r == Target::One(0)
    } else {
        r == Target::All
    }
}

/// One display's level, or the average of all of them.
pub open spec fn shown_percent(ds: Seq<Display>, target: Target) -> nat {
    match target {
        Target::One(i) => if i < ds.len() {
            ds[i as int].found.percent as nat
        } else {
            0
        },
        Target::All => if ds.len() == 0 {
            0
        } else {
            total(ds) / ds.len()
        },
    }
}

impl State {
    /// The display this bar cell speaks for: the one on this output when the
    /// connector is known, otherwise every display at once.
    pub fn target(&self, output: Option<&str>) -> (r: Target)
        ensures
            speaks_for(self.displays@, opt_str(output), r),
    {
        match output {
            Some(name) => {
                let mut i: usize = 0;
                while i < self.displays.len()
                    invariant
                        i <= self.displays@.len(),
                        output == Some(name),
                        forall|j: int|
                            0 <= j < i ==> !shown_on(self.displays@, j, opt_str(output)),
                    decreases self.displays@.len() - i,
                {
                    match &self.displays[i].found.connector {
                        Some(connector) => if same(connector.as_str(), name) {
                            assert(shown_on(self.displays@, i as int, opt_str(output)));
                            return Target::One(i);
                        },
                        None => {},
                    }
                    i += 1;
                }
            },
            None => {},
        }
        if self.displays.len() == 1 {
            Target::One(0)
        } else {
            Target::All
        }
    }

    /// The number the bar cell shows: one display's value, or the average when
    /// the cell speaks for all of them.
    pub fn percent(&self, target: Target) -> (r: u32)
        ensures
            r == shown_percent(self.displays@, target),
    {
        match target {
            Target::One(i) => if i < self.displays.len() {
                self.displays[i].found.percent
            } else {
                0
            },
            Target::All => {
                let n: usize = self.displays.len();
                if n == 0 {
                    return 0;
                }
                let ghost ds = self.displays@;
                let mut sum: u128 = 0;
                let mut i: usize = 0;
                while i < n
                    invariant
                        n == ds.len(),
                        i <= n,
                        ds == self.displays@,
                        sum == total(ds.take(i as int)),
                        sum <= i * 0xffff_ffff,
                    decreases n - i,
                {
                    proof {
                        assert(ds.take(i + 1).drop_last() =~= ds.take(i as int));
                        assert(i * 0xffff_ffff <= 0xffff_ffff_ffff_ffff * 0xffff_ffff)
                            by (nonlinear_arith)
                            requires
                                i <= 0xffff_ffff_ffff_ffff,
                        ;
                    }
                    sum = sum + self.displays[i].found.percent as u128;
                    i += 1;
                }
                assert(ds.take(i as int) =~= ds);
                assert(sum / (n as u128) <= 0xffff_ffff) by (nonlinear_arith)
                    requires
                        sum <= n * 0xffff_ffff,
                        n > 0,
                ;
                (sum / n as u128) as u32
            },
        }
    }

    /// The editor's name, trimmed, when it can be saved: not empty, and not
    /// another mode's, since a mode is picked by its name.
    pub fn draft_name(&self) -> (r: Option<String>)
        ensures
            opt_text(r) == draft_of(self.editor, self.modes@),
    {
        match &self.editor {
            Some(editor) => {
                let name = trim(editor.name.as_str());
                if name.is_empty() {
                    return None;
                }
                let mut i: usize = 0;
                while i < self.modes.len()
                    invariant
                        i <= self.modes@.len(),
                        self.editor matches Some(e) && e == *editor,
                        name@ == trimmed(editor.name@),
                        forall|j: int|
                            0 <= j < i ==> editor.target == Some(j as usize) || folded(
                                trimmed((#[trigger] self.modes@[j]).name@),
                            ) != folded(name@),
                    decreases self.modes@.len() - i,
                {
                    let own = match editor.target {
                        Some(target) => target == i,
                        None => false,
                    };
                    if !own && same_folded(trim(self.modes[i].name.as_str()), name) {
                        assert(taken(self.modes@, editor.target, name@)) by {
                            assert(folded(trimmed(self.modes@[i as int].name@)) == folded(name@));
                        }
                        return None;
                    }
                    i += 1;
                }
                Some(name.to_owned())
            },
            None => None,
        }
    }

    /// Change one or every display, coalescing against writes in flight.
    pub fn apply(&mut self, target: Target, change: Change) -> (writes: Vec<Write>)
        ensures
            *final(self) == (State { displays: final(self).displays, ..*old(self) }),
            final(self).displays@ == all_asked(
                old(self).displays@,
                by_target(old(self).displays@, target, change),
            ),
            writes@ == all_begun(
                old(self).displays@,
                by_target(old(self).displays@, target, change),
                old(self).displays@.len() as int,
            ),
    {
        let ghost ds = self.displays@;
        let ghost f = by_target(ds, target, change);
        let mut writes: Vec<Write> = Vec::new();
        let n: usize = self.displays.len();
        let mut i: usize = 0;
        while i < n
            invariant
                n == ds.len(),
                i <= n,
                f == by_target(ds, target, change),
                self.displays@.len() == n,
                *self == (State { displays: self.displays, ..*old(self) }),
                forall|j: int| 0 <= j < i ==> #[trigger] self.displays@[j] == all_asked(ds, f)[j],
                forall|j: int| i <= j < n ==> #[trigger] self.displays@[j] == ds[j],
                writes@ == all_begun(ds, f, i as int),
            decreases n - i,
        {
            let applies = match target {
                Target::All => true,
                Target::One(at) => at == i,
            };
            if applies {
                let wanted: u32 = change_of(self.displays[i].found.percent, change);
                assert(f(i as int) == Some(wanted));
                match ask(&mut self.displays[i], wanted) {
                    Some(percent) => {
                        writes.push(Write { index: i, percent });
                    },
                    None => {},
                }
            } else {
                assert(f(i as int) is None);
            }
            i += 1;
        }
        assert(self.displays@ =~= all_asked(ds, f));
        writes
    }

    /// Apply mode `index`; displays it does not name are left alone.
    pub fn apply_mode(&mut self, index: usize) -> (writes: Vec<Write>)
        ensures
            index >= old(self).modes@.len() ==> *final(self) == *old(self) && writes@.len() == 0,
            index < old(self).modes@.len() ==> {
                let f = by_mode(old(self).displays@, old(self).modes@[index as int]);
                &&& *final(self) == (State {
                    displays: final(self).displays,
                    last_mode: Some(index),
                    ..*old(self)
                })
                &&& final(self).displays@ == all_asked(old(self).displays@, f)
                &&& writes@ == all_begun(
                    old(self).displays@,
                    f,
                    old(self).displays@.len() as int,
                )
            },
    {
        let mut writes: Vec<Write> = Vec::new();
        if index >= self.modes.len() {
            return writes;
        }
        let ghost ds = self.displays@;
        let ghost mode = self.modes@[index as int];
        let ghost f = by_mode(ds, mode);
        self.last_mode = Some(index);
        let n: usize = self.displays.len();
        let mut i: usize = 0;
        while i < n
            invariant
                n == ds.len(),
                i <= n,
                index < self.modes@.len(),
                mode == self.modes@[index as int],
                f == by_mode(ds, mode),
                self.displays@.len() == n,
                *self == (State {
                    displays: self.displays,
                    last_mode: Some(index),
                    ..*old(self)
                }),
                forall|j: int| 0 <= j < i ==> #[trigger] self.displays@[j] == all_asked(ds, f)[j],
                forall|j: int| i <= j < n ==> #[trigger] self.displays@[j] == ds[j],
                writes@ == all_begun(ds, f, i as int),
            decreases n - i,
        {
            let level = self.modes[index].levels.get(self.displays[i].found.key());
            match level {
                Some(level) => {
                    let wanted: u32 = if level > 100 {
                        100
                    } else {
                        level
                    };
                    assert(f(i as int) == Some(wanted));
                    match ask(&mut self.displays[i], wanted) {
                        Some(percent) => {
                            writes.push(Write { index: i, percent });
                        },
                        None => {},
                    }
                },
                None => {
                    assert(f(i as int) is None);
                },
            }
            i += 1;
        }
        assert(self.displays@ =~= all_asked(ds, f));
        writes
    }
}

/// The displays with one live value taken in: a display that is being written
/// to keeps the value the pointer picked.
pub open spec fn refreshed_one(ds: Seq<Display>, sink: SinkView, percent: u32) -> Seq<Display>
    decreases ds.len(),
{
    if ds.len() == 0 {
        ds
    } else if ds[0].found.sink@ == sink {
        if !ds[0].writing && ds[0].pending is None {
            ds.update(0, Display { found: Found { percent, ..ds[0].found }, ..ds[0] })
        } else {
            ds
        }
    } else {
        seq![ds[0]] + refreshed_one(ds.skip(1), sink, percent)
    }
}

/// The displays with live values taken in, in order.
pub open spec fn refreshed(ds: Seq<Display>, values: Seq<(Sink, u32)>) -> Seq<Display>
    decreases values.len(),
{
    if values.len() == 0 {
        ds
    } else {
        refreshed_one(
            refreshed(ds, values.drop_last()),
            values.last().0@,
            values.last().1,
        )
    }
}

/// The first mode of that name, whatever its case.
pub open spec fn is_named(modes: Seq<Mode>, name: Seq<char>, i: int) -> bool {
    0 <= i < modes.len() && folded(trimmed(modes[i].name@)) == folded(trimmed(name))
}

/// What is left of a name when its last word is erased.
pub open spec fn without_word(name: Seq<char>) -> Seq<char> {
    match trimmed_end(name).index_of_last(' ') {
        Some(i) => name.take(i + 1),
        None => Seq::empty(),
    }
}

/// Whether `after` is `before` with a mode applied, and `writes` the writes
/// this starts.
pub open spec fn is_applied(before: State, index: int, after: State, writes: Seq<Write>) -> bool {
    if 0 <= index < before.modes@.len() {
        let f = by_mode(before.displays@, before.modes@[index]);
        &&& after == (State {
            displays: after.displays,
            last_mode: Some(index as usize),
            ..before
        })
        &&& after.displays@ == all_asked(before.displays@, f)
        &&& writes == all_begun(before.displays@, f, before.displays@.len() as int)
    } else {
        after == before && writes.len() == 0
    }
}

/// Whether `after` is `before` with displays changed, and `writes` the writes
/// this starts.
pub open spec fn is_changed(
    before: State,
    target: Target,
    change: Change,
    after: State,
    writes: Seq<Write>,
) -> bool {
    let f = by_target(before.displays@, target, change);
    &&& after == (State { displays: after.displays, ..before })
    &&& after.displays@ == all_asked(before.displays@, f)
    &&& writes == all_begun(before.displays@, f, before.displays@.len() as int)
}

/// Whether `after` is `before` with the draft saved under that name.
pub open spec fn is_saved(before: State, editor: Editor, name: Seq<char>, after: State) -> bool {
    let ds = before.displays@;
    &&& after == (State {
        modes: after.modes,
        last_mode: after.last_mode,
        editor: None,
        saves: (before.saves + 1) as u64,
        ..before
    })
    &&& modes_wf(after.modes@)
    &&& match editor.target {
        Some(i) if i < before.modes@.len() => {
            // A display that is unplugged right now keeps the level the mode
            // already had for it.
            let mode = after.modes@[i as int];
            &&& after.last_mode == Some(i)
            &&& after.modes@ == before.modes@.update(i as int, mode)
            &&& mode.name@ == name
            &&& forall|key: Seq<char>| #[trigger]
                mode.levels.at(key) == match level_shown(ds, key) {
                    Some(level) => Some(level),
                    None => before.modes@[i as int].levels.at(key),
                }
        },
        _ => {
            let mode = after.modes@.last();
            &&& after.last_mode == Some(before.modes@.len() as usize)
            &&& after.modes@ == before.modes@.push(mode)
            &&& mode.name@ == name
            &&& forall|key: Seq<char>| #[trigger] mode.levels.at(key) == level_shown(ds, key)
        },
    }
}

/// Whether `after` is `before` with modes taken in from the file.
pub open spec fn is_loaded(before: State, loaded: Loaded, after: State) -> bool {
    if loaded.generation < before.saves {
        // Read before an edit's save ran: the save writes what is here
        // already, over what was read.
        after == before
    } else if contents(loaded.modes@) == contents(before.modes@) {
        after == (State { modes_readable: true, modes_error: None, ..before })
    } else {
        &&& after == (State {
            modes: loaded.modes,
            modes_readable: true,
            modes_error: after.modes_error,
            last_mode: None,
            // The list may have been reordered under an open editor.
            editor: if before.editor matches Some(editor) && editor.target is Some {
                None
            } else {
                before.editor
            },
            ..before
        })
        // A save that failed left edits only in memory; say where they went.
        &&& opt_text(after.modes_error) == match before.modes_error {
            Some(error) => if before.modes_readable {
                Some(error@ + "; unsaved changes were replaced by the file"@)
            } else {
                None
            },
            None => None,
        }
    }
}

/// The mode that the editor would delete.
pub open spec fn doomed(editor: Option<Editor>, modes: Seq<Mode>) -> Option<usize> {
    match editor {
        Some(editor) => match editor.target {
            Some(i) => if i < modes.len() {
                Some(i)
            } else {
                None
            },
            None => None,
        },
        None => None,
    }
}

/// Whether an event changes the modes, which are then to be saved.
pub open spec fn will_save(before: State, event: Event) -> bool {
    match event {
        Event::SaveMode => draft_of(before.editor, before.modes@) is Some,
        Event::DeleteMode => doomed(before.editor, before.modes@) is Some,
        _ => false,
    }
}

/// Whether `after`, `writes` and `save` are what comes of an event.
pub open spec fn follows(
    before: State,
    event: Event,
    now: u64,
    after: State,
    writes: Seq<Write>,
    save: bool,
) -> bool {
    match event {
        Event::Detected(found) => {
            &&& after == (State { displays: after.displays, ..before })
            &&& after.displays@ == found@.map_values(
                |f: Found| Display { found: f, pending: None, writing: false },
            )
            &&& writes.len() == 0 && !save
        },
        Event::Refreshed(values) => {
            &&& after == (State { displays: after.displays, ..before })
            &&& after.displays@ == refreshed(before.displays@, values@)
            &&& writes.len() == 0 && !save
        },
        Event::SetLevel(target, percent) => !save && is_changed(
            before,
            target,
            Change::To(percent),
            after,
            writes,
        ),
        Event::Nudge(target, steps) => {
            let soon = before.nudged_at matches Some(last) && (now < last || now - last
                < NUDGE_DEBOUNCE);
            if steps == 0 || soon {
                after == before && writes.len() == 0 && !save
            } else {
                !save && is_changed(
                    State { nudged_at: Some(now), ..before },
                    target,
                    if steps > 0 {
                        Change::Up
                    } else {
                        Change::Down
                    },
                    after,
                    writes,
                )
            }
        },
        Event::Wrote { index, percent, result } => {
            let error = match result {
                Ok(_) => None,
                Err(error) => Some(error),
            };
            &&& !save
            &&& if index < before.displays@.len() {
                let (display, follow) = after_write(before.displays@[index as int], percent);
                &&& after == (State { displays: after.displays, error, ..before })
                &&& after.displays@ == before.displays@.update(index as int, display)
                &&& writes == match follow {
                    Some(newest) => seq![Write { index, percent: newest }],
                    None => Seq::empty(),
                }
            } else {
                after == (State { error, ..before }) && writes.len() == 0
            }
        },
        Event::ModesLoaded(Ok(loaded)) => !save && writes.len() == 0 && is_loaded(
            before,
            loaded,
            after,
        ),
        Event::ModesLoaded(Err(error)) => !save && writes.len() == 0 && after == (State {
            modes_readable: false,
            modes_error: Some(error),
            editor: None,
            ..before
        }),
        Event::ApplyMode(index) => !save && is_applied(before, index as int, after, writes),
        Event::ApplyNamed(name) => {
            &&& !save
            &&& if exists|i: int| is_named(before.modes@, name@, i) {
                exists|i: int|
                    {
                        &&& #[trigger] is_named(before.modes@, name@, i)
                        &&& forall|j: int| 0 <= j < i ==> !is_named(before.modes@, name@, j)
                        &&& is_applied(before, i, after, writes)
                    }
            } else {
                after == before && writes.len() == 0
            }
        },
        Event::CycleMode => {
            &&& !save
            &&& if before.modes@.len() == 0 {
                after == before && writes.len() == 0
            } else {
                exists|active: Option<usize>|
                    #![trigger is_active(
                        before.modes@,
                        before.displays@,
                        before.last_mode,
                        active,
                    )]
                    {
                        let from = if active is Some {
                            active
                        } else {
                            before.last_mode
                        };
                        let next = match from {
                            Some(i) => (i + 1) % before.modes@.len() as int,
                            None => 0,
                        };
                        &&& is_active(before.modes@, before.displays@, before.last_mode, active)
                        &&& is_applied(before, next, after, writes)
                    }
            }
        },
        Event::NewMode => {
            &&& !save && writes.len() == 0
            &&& if before.modes_readable {
                &&& after == (State { editor: after.editor, ..before })
                &&& after.editor matches Some(editor) && editor.target is None
                    && editor.name@.len() == 0
            } else {
                after == before
            }
        },
        Event::EditMode(index) => {
            &&& !save
            &&& if before.modes_readable && index < before.modes@.len() {
                &&& after.editor matches Some(editor) && editor.target == Some(index)
                    && editor.name@ == before.modes@[index as int].name@
                &&& is_applied(
                    State { editor: after.editor, ..before },
                    index as int,
                    after,
                    writes,
                )
            } else {
                after == before && writes.len() == 0
            }
        },
        Event::Typed(text) => {
            &&& !save && writes.len() == 0
            &&& match before.editor {
                Some(editor) => {
                    &&& after == (State { editor: after.editor, ..before })
                    &&& after.editor matches Some(e) && e.target == editor.target && e.name@
                        == editor.name@ + printable(text@)
                },
                None => after == before,
            }
        },
        Event::Erase { word } => {
            &&& !save && writes.len() == 0
            &&& match before.editor {
                Some(editor) => {
                    &&& after == (State { editor: after.editor, ..before })
                    &&& after.editor matches Some(e) && e.target == editor.target && e.name@
                        == if word {
                        without_word(editor.name@)
                    } else if editor.name@.len() > 0 {
                        editor.name@.drop_last()
                    } else {
                        editor.name@
                    }
                },
                None => after == before,
            }
        },
        Event::SaveMode => {
            // An unsaveable draft stays open to be fixed.
            &&& writes.len() == 0
            &&& match draft_of(before.editor, before.modes@) {
                Some(name) => save && is_saved(before, before.editor->0, name, after),
                None => !save && after == before,
            }
        },
        Event::DeleteMode => {
            &&& writes.len() == 0
            &&& if doomed(before.editor, before.modes@) is Some {
                &&& save
                &&& after == (State {
                    modes: after.modes,
                    last_mode: None,
                    editor: None,
                    saves: (before.saves + 1) as u64,
                    ..before
                })
                &&& after.modes@ == before.modes@.remove(
                    doomed(before.editor, before.modes@)->0 as int,
                )
            } else {
                !save && after == (State { editor: None, ..before })
            }
        },
        Event::CancelEdit => !save && writes.len() == 0 && after == (State {
            editor: None,
            ..before
        }),
        Event::Saved(result) => !save && writes.len() == 0 && after == (State {
            modes_error: match result {
                Ok(_) => None,
                Err(error) => Some(error),
            },
            ..before
        }),
    }
}

proof fn lemma_refreshed_one(ds: Seq<Display>, sink: SinkView, percent: u32, k: int)
    requires
        0 <= k <= ds.len(),
        forall|j: int| 0 <= j < k ==> (#[trigger] ds[j]).found.sink@ != sink,
        k < ds.len() ==> ds[k].found.sink@ == sink,
    ensures
        refreshed_one(ds, sink, percent) == if k < ds.len() && !ds[k].writing
            && ds[k].pending is None {
            ds.update(k, Display { found: Found { percent, ..ds[k].found }, ..ds[k] })
        } else {
            ds
        },
    decreases ds.len(),
{
    if ds.len() > 0 && k > 0 {
        let rest = ds.skip(1);
        assert forall|j: int| 0 <= j < k - 1 implies (#[trigger] rest[j]).found.sink@ != sink by {
            assert(rest[j] == ds[j + 1]);
        }
        assert(ds[0].found.sink@ != sink);
        lemma_refreshed_one(rest, sink, percent, k - 1);
        assert(seq![ds[0]] + rest =~= ds);
        if k < ds.len() && !ds[k].writing && ds[k].pending is None {
            let d = Display { found: Found { percent, ..ds[k].found }, ..ds[k] };
            assert(seq![ds[0]] + rest.update(k - 1, d) =~= ds.update(k, d));
        }
    }
}

fn take_in(displays: &mut Vec<Display>, sink: &Sink, percent: u32)
    ensures
        final(displays)@ == refreshed_one(old(displays)@, sink@, percent),
{
    let mut i: usize = 0;
    while i < displays.len() && !displays[i].found.sink.is(sink)
        invariant
            i <= displays@.len(),
            displays@ == old(displays)@,
            forall|j: int| 0 <= j < i ==> (#[trigger] displays@[j]).found.sink@ != sink@,
        ensures
            i <= displays@.len(),
            displays@ == old(displays)@,
            forall|j: int| 0 <= j < i ==> (#[trigger] displays@[j]).found.sink@ != sink@,
            i < displays@.len() ==> displays@[i as int].found.sink@ == sink@,
        decreases displays@.len() - i,
    {
        i += 1;
    }
    proof {
        lemma_refreshed_one(displays@, sink@, percent, i as int);
    }
    if i < displays.len() {
        let display = &mut displays[i];
        if !display.writing && display.pending.is_none() {
            display.found.percent = percent;
        }
    }
}

fn fresh(found: Vec<Found>) -> (r: Vec<Display>)
    ensures
        r@ == found@.map_values(|f: Found| Display { found: f, pending: None, writing: false }),
{
    let ghost all = found@;
    let mut rest = found;
    let mut out: Vec<Display> = Vec::new();
    assert(all.skip(0) =~= all);
    while rest.len() > 0
        invariant
            out@.len() + rest@.len() == all.len(),
            rest@ == all.skip(out@.len() as int),
            forall|j: int|
                0 <= j < out@.len() ==> #[trigger] out@[j] == (Display {
                    found: all[j],
                    pending: None,
                    writing: false,
                }),
        decreases rest@.len(),
    {
        let ghost n = out@.len() as int;
        let found = rest.remove(0);
        assert(found == all[n]);
        assert(rest@ =~= all.skip(n + 1));
        out.push(Display { found, pending: None, writing: false });
    }
    assert(out@ =~= all.map_values(
        |f: Found| Display { found: f, pending: None, writing: false },
    ));
    out
}

/// A name without its last word.
fn erase_word(name: &str) -> (r: String)
    ensures
        r@ == without_word(name@),
{
    proof {
        lemma_trimmed_end_is_prefix(name@);
    }
    let all = name.unicode_len();
    match rfind(trim_end(name), ' ') {
        Some(i) => {
            assert(i < all);
            let kept = name.substring_char(0, i + 1);
            assert(kept@ =~= name@.take(i + 1));
            kept.to_owned()
        },
        None => String::new(),
    }
}

/// What is trimmed at the end keeps its front.
pub proof fn lemma_trimmed_end_is_prefix(s: Seq<char>)
    ensures
        trimmed_end(s).len() <= s.len(),
        forall|i: int| 0 <= i < trimmed_end(s).len() ==> #[trigger] trimmed_end(s)[i] == s[i],
    decreases s.len(),
{
    if s.len() > 0 {
        lemma_trimmed_end_is_prefix(s.drop_last());
    }
}

impl State {
    fn named(&self, name: &str) -> (r: Option<usize>)
        ensures
            match r {
                Some(i) => is_named(self.modes@, name@, i as int) && forall|j: int|
                    0 <= j < i ==> !is_named(self.modes@, name@, j),
                None => forall|j: int| !is_named(self.modes@, name@, j),
            },
    {
        let wanted = trim(name);
        let mut i: usize = 0;
        while i < self.modes.len()
            invariant
                i <= self.modes@.len(),
                wanted@ == trimmed(name@),
                forall|j: int| 0 <= j < i ==> !is_named(self.modes@, name@, j),
            decreases self.modes@.len() - i,
        {
            if same_folded(trim(self.modes[i].name.as_str()), wanted) {
                return Some(i);
            }
            i += 1;
        }
        None
    }

    fn load(&mut self, loaded: Loaded)
        requires
            modes_wf(loaded.modes@),
            old(self).wf(),
        ensures
            is_loaded(*old(self), loaded, *final(self)),
            final(self).wf(),
    {
        if loaded.generation < self.saves {
            return;
        }
        let readable = self.modes_readable;
        let error = self.modes_error.take();
        self.modes_readable = true;
        if !same_modes(&loaded.modes, &self.modes) {
            self.modes_error = match error {
                Some(error) => if readable {
                    Some(concat(error.as_str(), "; unsaved changes were replaced by the file"))
                } else {
                    None
                },
                None => None,
            };
            self.modes = loaded.modes;
            self.last_mode = None;
            let stale = match &self.editor {
                Some(editor) => editor.target.is_some(),
                None => false,
            };
            if stale {
                self.editor = None;
            }
        }
    }

    fn save_draft(&mut self, editor: Editor, name: String)
        requires
            old(self).wf(),
            old(self).saves < u64::MAX,
            old(self).editor is None,
        ensures
            is_saved(*old(self), editor, name@, *final(self)),
            final(self).wf(),
    {
        let mut levels = self.levels();
        let ghost ds = self.displays@;
        let ghost shown = levels;
        let target: Option<usize> = match editor.target {
            Some(i) => if i < self.modes.len() {
                Some(i)
            } else {
                None
            },
            None => None,
        };
        match target {
            Some(i) => {
                let ghost had = self.modes@[i as int].levels;
                let mut kept = Levels::new();
                core::mem::swap(&mut kept, &mut self.modes[i].levels);
                kept.extend(levels);
                self.modes[i].name = name;
                self.modes[i].levels = kept;
                self.last_mode = Some(i);
                proof {
                    assert(self.modes@ =~= old(self).modes@.update(i as int, self.modes@[i as int]));
                }
            },
            None => {
                self.last_mode = Some(self.modes.len());
                self.modes.push(Mode { name, levels });
            },
        }
        self.saves = self.saves + 1;
    }

    /// Take an event in; what is to be done about it.
    pub fn update(&mut self, event: Event, now: u64) -> (effects: Effects)
        requires
            old(self).wf(),
            will_save(*old(self), event) ==> old(self).saves < u64::MAX,
            event matches Event::ModesLoaded(Ok(loaded)) ==> modes_wf(loaded.modes@),
        ensures
            follows(*old(self), event, now, *final(self), effects.writes@, effects.save),
            final(self).wf(),
    {
        let mut writes: Vec<Write> = Vec::new();
        let mut save: bool = false;
        match event {
            Event::Detected(found) => {
                self.displays = fresh(found);
            },
            Event::Refreshed(values) => {
                let ghost ds = self.displays@;
                let mut i: usize = 0;
                while i < values.len()
                    invariant
                        i <= values@.len(),
                        *self == (State { displays: self.displays, ..*old(self) }),
                        self.displays@ == refreshed(ds, values@.take(i as int)),
                    decreases values@.len() - i,
                {
                    proof {
                        assert(values@.take(i + 1).drop_last() =~= values@.take(i as int));
                    }
                    take_in(&mut self.displays, &values[i].0, values[i].1);
                    i += 1;
                }
                assert(values@.take(i as int) =~= values@);
            },
            Event::SetLevel(target, percent) => {
                writes = self.apply(target, Change::To(percent));
            },
            Event::Nudge(target, steps) => {
                let soon = match self.nudged_at {
                    Some(last) => now < last || now - last < NUDGE_DEBOUNCE,
                    None => false,
                };
                if steps != 0 && !soon {
                    self.nudged_at = Some(now);
                    let change = if steps > 0 {
                        Change::Up
                    } else {
                        Change::Down
                    };
                    writes = self.apply(target, change);
                }
            },
            Event::Wrote { index, percent, result } => {
                self.error = match result {
                    Ok(_) => None,
                    Err(error) => Some(error),
                };
                if index < self.displays.len() {
                    match finish_write(&mut self.displays[index], percent) {
                        Some(newest) => {
                            writes.push(Write { index, percent: newest });
                            assert(writes@ =~= seq![Write { index, percent: newest }]);
                        },
                        None => {},
                    }
                }
            },
            Event::ModesLoaded(Ok(loaded)) => {
                self.load(loaded);
            },
            Event::ModesLoaded(Err(error)) => {
                self.modes_readable = false;
                self.modes_error = Some(error);
                self.editor = None;
            },
            Event::ApplyMode(index) => {
                writes = self.apply_mode(index);
            },
            Event::ApplyNamed(name) => {
                match self.named(name.as_str()) {
                    Some(index) => {
                        assert(is_named(self.modes@, name@, index as int));
                        writes = self.apply_mode(index);
                    },
                    None => {},
                }
            },
            Event::CycleMode => {
                let n: usize = self.modes.len();
                if n > 0 {
                    let active = self.active_mode();
                    let ghost shown = active;
                    assert(is_active(self.modes@, self.displays@, self.last_mode, shown));
                    let from = match active {
                        Some(i) => Some(i),
                        None => self.last_mode,
                    };
                    let next: usize = match from {
                        Some(i) => (i + 1) % n,
                        None => 0,
                    };
                    writes = self.apply_mode(next);
                }
            },
            Event::NewMode => {
                if self.modes_readable {
                    self.editor = Some(Editor { target: None, name: String::new() });
                }
            },
            Event::EditMode(index) => {
                if self.modes_readable && index < self.modes.len() {
                    let name = self.modes[index].name.as_str().to_owned();
                    self.editor = Some(Editor { target: Some(index), name });
                    writes = self.apply_mode(index);
                }
            },
            Event::Typed(text) => {
                match self.editor.take() {
                    Some(editor) => {
                        let mut name = editor.name;
                        append_printable(&mut name, text.as_str());
                        self.editor = Some(Editor { target: editor.target, name });
                    },
                    None => {},
                }
            },
            Event::Erase { word } => {
                match self.editor.take() {
                    Some(editor) => {
                        let n = editor.name.as_str().unicode_len();
                        let name = if word {
                            erase_word(editor.name.as_str())
                        } else if n > 0 {
                            let kept = editor.name.as_str().substring_char(0, n - 1);
                            assert(kept@ =~= editor.name@.drop_last());
                            kept.to_owned()
                        } else {
                            editor.name
                        };
                        self.editor = Some(Editor { target: editor.target, name });
                    },
                    None => {},
                }
            },
            Event::SaveMode => {
                match self.draft_name() {
                    Some(name) => {
                        match self.editor.take() {
                            Some(editor) => {
                                self.save_draft(editor, name);
                                save = true;
                            },
                            None => {},
                        }
                    },
                    None => {},
                }
            },
            Event::DeleteMode => {
                match self.editor.take() {
                    Some(editor) => match editor.target {
                        Some(index) => {
                            if index < self.modes.len() {
                                let _ = self.modes.remove(index);
                                self.last_mode = None;
                                self.saves = self.saves + 1;
                                save = true;
                            }
                        },
                        None => {},
                    },
                    None => {},
                }
            },
            Event::CancelEdit => {
                self.editor = None;
            },
            Event::Saved(result) => {
                self.modes_error = match result {
                    Ok(_) => None,
                    Err(error) => Some(error),
                };
            },
        }
        Effects { writes, save }
    }
}

} // verus!
