//! What the brightness popup shows.
use crate::modules::brightness::display::{
    all_asked, asked, capped, glyph, glyph_of, heading, heading_of, key_of, raw_at, Display,
    Target, Write,
};
use crate::modules::brightness::modes::{summary, summary_of, Levels, Mode};
use crate::modules::brightness::state::{
    by_mode, draft_of, follows, in_effect_at, is_active, level_shown, mode_in_effect,
    shown_percent, speaks_for, Editor, Event, State,
};
use crate::number::{decimal, unsigned};
use crate::text::{concat, opt_str, opt_text};
use vstd::prelude::*;
use vstd::string::*;

verus! {

/// A key pressed while the mode editor is on screen.
#[derive(Clone, Copy, PartialEq, Eq, Structural, Debug)]
pub enum Key {
    Enter,
    Escape,
    Backspace,
    Other,
}

/// What a key means to the mode editor, with the text it types. Shortcuts are
/// not text, whatever the layout makes of them.
pub fn key_event(
    key: Key,
    control: bool,
    alt: bool,
    logo: bool,
    text: Option<String>,
) -> (r: Option<Event>)
    ensures
        r == match key {
            Key::Enter => Some(Event::SaveMode),
            Key::Escape => Some(Event::CancelEdit),
            Key::Backspace => Some(Event::Erase { word: control }),
            Key::Other => if control || alt || logo {
                None
            } else {
                match text {
                    Some(text) => Some(Event::Typed(text)),
                    None => None,
                }
            },
        },
{
    match key {
        Key::Enter => Some(Event::SaveMode),
        Key::Escape => Some(Event::CancelEdit),
        Key::Backspace => Some(Event::Erase { word: control }),
        Key::Other => {
            if control || alt || logo {
                return None;
            }
            match text {
                Some(text) => Some(Event::Typed(text)),
                None => None,
            }
        },
    }
}

/// One row of the popup's modes.
#[derive(Clone, Copy, PartialEq, Eq, Structural, Debug)]
pub enum ModesRow {
    /// A mode, and whether it is the one in effect.
    Mode { index: usize, active: bool },
    /// The editor, in place of the mode it is editing, or of a new one.
    Editor,
    /// How to save the first mode.
    Hint,
}

/// The row of mode `i`.
pub open spec fn mode_row(editing: Option<Option<usize>>, active: Option<usize>, i: int) -> ModesRow {
    if editing == Some(Some(i as usize)) {
        ModesRow::Editor
    } else {
        ModesRow::Mode { index: i as usize, active: active == Some(i as usize) }
    }
}

/// What the editor is open on.
pub open spec fn editing(state: State) -> Option<Option<usize>> {
    match state.editor {
        Some(editor) => Some(editor.target),
        None => None,
    }
}

/// The rows of the popup's modes: one per mode, then the editor of a new one,
/// or a hint while there is nothing to show.
pub open spec fn modes_rows(state: State, active: Option<usize>) -> Seq<ModesRow> {
    let n = state.modes@.len();
    let rows = Seq::new(n, |i: int| mode_row(editing(state), active, i));
    if editing(state) == Some(None::<usize>) {
        rows.push(ModesRow::Editor)
    } else if n == 0 && state.modes_readable {
        rows.push(ModesRow::Hint)
    } else {
        rows
    }
}

/// What the popup offers about its modes.
#[derive(Debug, Clone)]
pub struct ModesBlock {
    /// Whether there is a mode to step to.
    pub can_cycle: bool,
    /// Whether a mode can be added or edited: one edit at a time, and none
    /// while the file cannot be trusted.
    pub can_edit: bool,
    pub rows: Vec<ModesRow>,
}

/// What the editor offers.
#[derive(Debug, Clone)]
pub struct EditorRow {
    pub can_save: bool,
    /// Only a mode that exists can be deleted.
    pub can_delete: bool,
    /// `saves DP-1 80%`
    pub detail: String,
}

/// Whether a block is what the popup shows of the modes.
pub open spec fn shows_modes(state: State, block: ModesBlock) -> bool {
    &&& block.can_cycle == (state.modes@.len() > 0)
    &&& block.can_edit == (state.modes_readable && state.editor is None)
    &&& exists|active: Option<usize>|
        is_active(state.modes@, state.displays@, state.last_mode, active) && block.rows@
            == #[trigger] modes_rows(state, active)
}

/// A display's slider, under its heading.
#[derive(Debug, Clone)]
pub struct Slider {
    pub heading: String,
    pub percent: u32,
}

/// What the popup shows.
#[derive(Debug)]
pub struct Popup {
    pub sliders: Vec<Slider>,
    pub modes: ModesBlock,
    pub error: Option<String>,
}

/// What the module listens to.
#[derive(Debug, Clone, Copy, PartialEq, Eq, Structural)]
pub enum Listens {
    /// For displays to be found, which is the only thing worth doing until then.
    Displays,
    /// Nobody is looking, and reading a display again is slow.
    Nothing,
    /// For the displays' levels, and for keys while a name is being typed.
    Levels { keys: bool },
}

impl State {
    /// What to listen to while the popup is open, or is not.
    pub fn listens(&self, open: bool) -> (r: Listens)
        ensures
            r == if self.displays@.len() == 0 {
                Listens::Displays
            } else if open {
                Listens::Levels { keys: self.editor is Some }
            } else {
                Listens::Nothing
            },
    {
        if self.displays.len() == 0 {
            Listens::Displays
        } else if open {
            Listens::Levels { keys: self.editor.is_some() }
        } else {
            Listens::Nothing
        }
    }

    /// A cell is clickable once there is a display.
    pub open spec fn pops_up(self) -> bool {
        self.displays@.len() > 0
    }

    pub fn has_popup(&self) -> (r: bool)
        ensures
            r == self.pops_up(),
    {
        self.displays.len() > 0
    }

    /// Whether a right-click has a mode to step to.
    pub fn has_modes(&self) -> (r: bool)
        ensures
            r == (self.modes@.len() > 0 && self.displays@.len() > 0),
    {
        self.modes.len() > 0 && self.displays.len() > 0
    }

    pub fn modes_block(&self) -> (r: ModesBlock)
        ensures
            shows_modes(*self, r),
    {
        let active = self.active_mode();
        let open: Option<Option<usize>> = match &self.editor {
            Some(editor) => Some(editor.target),
            None => None,
        };
        let mut rows: Vec<ModesRow> = Vec::new();
        let mut i: usize = 0;
        while i < self.modes.len()
            invariant
                i <= self.modes@.len(),
                open == editing(*self),
                rows@.len() == i,
                forall|j: int| 0 <= j < i ==> #[trigger] rows@[j] == mode_row(open, active, j),
            decreases self.modes@.len() - i,
        {
            let edited = match open {
                Some(Some(at)) => at == i,
                _ => false,
            };
            if edited {
                rows.push(ModesRow::Editor);
            } else {
                let on = match active {
                    Some(at) => at == i,
                    None => false,
                };
                rows.push(ModesRow::Mode { index: i, active: on });
            }
            i += 1;
        }
        let new = match open {
            Some(None) => true,
            _ => false,
        };
        if new {
            rows.push(ModesRow::Editor);
        } else if self.modes.len() == 0 && self.modes_readable {
            rows.push(ModesRow::Hint);
        }
        assert(rows@ =~= modes_rows(*self, active));
        ModesBlock {
            can_cycle: self.modes.len() > 0,
            can_edit: self.modes_readable && self.editor.is_none(),
            rows,
        }
    }

    /// The editor's verbs, over the levels saving will store.
    pub fn editor_row(&self) -> (r: Option<EditorRow>)
        ensures
            match self.editor {
                Some(editor) => {
                    &&& r matches Some(row)
                    &&& row.can_save == (draft_of(self.editor, self.modes@) is Some)
                    &&& row.can_delete == (editor.target is Some)
                    &&& exists|levels: Levels|
                        {
                            &&& levels.wf()
                            &&& forall|key: Seq<char>| #[trigger]
                                levels.at(key) == level_shown(self.displays@, key)
                            &&& row.detail@ == "saves "@ + #[trigger] summary_of(levels.pairs())
                        }
                },
                None => r is None,
            },
    {
        match &self.editor {
            Some(editor) => {
                let levels = self.levels();
                Some(
                    EditorRow {
                        can_save: self.draft_name().is_some(),
                        can_delete: editor.target.is_some(),
                        detail: concat("saves ", summary(&levels).as_str()),
                    },
                )
            },
            None => None,
        }
    }
}

impl State {
    /// The popup, where there is a display.
    pub fn popup(&self) -> (r: Option<Popup>)
        ensures
            r is Some <==> self.pops_up(),
            r matches Some(p) ==> {
                &&& p.sliders@.len() == self.displays@.len()
                &&& forall|i: int|
                    0 <= i < self.displays@.len() ==> (#[trigger] p.sliders@[i]).heading@
                        == heading_of(self.displays@[i].found) && p.sliders@[i].percent
                        == self.displays@[i].found.percent
                &&& shows_modes(*self, p.modes)
                &&& opt_text(p.error) == opt_text(self.error)
            },
    {
        if self.displays.len() == 0 {
            return None;
        }
        let mut sliders: Vec<Slider> = Vec::new();
        let mut i: usize = 0;
        while i < self.displays.len()
            invariant
                i <= self.displays@.len(),
                sliders@.len() == i,
                forall|j: int|
                    0 <= j < i ==> (#[trigger] sliders@[j]).heading@ == heading_of(
                        self.displays@[j].found,
                    ) && sliders@[j].percent == self.displays@[j].found.percent,
            decreases self.displays@.len() - i,
        {
            let found = &self.displays[i].found;
            sliders.push(Slider { heading: heading(found), percent: found.percent });
            i += 1;
        }
        let error = match &self.error {
            Some(error) => Some(error.as_str().to_owned()),
            None => None,
        };
        Some(Popup { sliders, modes: self.modes_block(), error })
    }
}

/// What the bar cell shows, and whether it shows an error.
#[derive(Debug, Clone)]
pub struct BarCell {
    pub glyph: &'static str,
    pub text: String,
    pub failed: bool,
    /// What scrolling the cell changes.
    pub target: Target,
}

impl State {
    /// The bar cell on that output; none where there is nothing to show.
    pub fn cell(&self, output: Option<&str>) -> (r: Option<BarCell>)
        ensures
            match r {
                Some(cell) => {
                    &&& self.displays@.len() > 0
                    &&& cell.failed == (self.error is Some)
                    &&& speaks_for(self.displays@, opt_str(output), cell.target)
                    &&& cell.glyph@ == glyph_of(
                        shown_percent(self.displays@, cell.target) as u32,
                    )
                    &&& cell.text@ == decimal(shown_percent(self.displays@, cell.target)) + "%"@
                },
                None => self.displays@.len() == 0,
            },
    {
        if self.displays.len() == 0 {
            return None;
        }
        let target = self.target(output);
        let percent: u32 = self.percent(target);
        Some(
            BarCell {
                glyph: glyph(percent),
                text: concat(unsigned(percent as u64).as_str(), "%"),
                failed: self.error.is_some(),
                target,
            },
        )
    }
}

/// Applying a mode moves the displays that it names to its levels and leaves
/// every other one alone; a mode that is not there changes nothing. The modes
/// and the editor stay as they were.
pub proof fn law_a_mode_moves_what_it_names(
    before: State,
    index: usize,
    now: u64,
    after: State,
    writes: Seq<Write>,
    save: bool,
)
    requires
        follows(before, Event::ApplyMode(index), now, after, writes, save),
    ensures
        after.modes == before.modes,
        after.editor == before.editor,
        after.displays@.len() == before.displays@.len(),
        index >= before.modes@.len() ==> after == before,
        index < before.modes@.len() ==> {
            let levels = before.modes@[index as int].levels;
            &&& after.last_mode == Some(index)
            &&& forall|i: int|
                0 <= i < before.displays@.len() ==> match levels.at(
                    key_of((#[trigger] before.displays@[i]).found),
                ) {
                    Some(level) => after.displays@[i].found.percent == capped(level),
                    None => after.displays@[i] == before.displays@[i],
                }
        },
{
}

/// A draft that cannot be saved stays open, and nothing else changes either.
pub proof fn law_an_unsaveable_draft_stays_open(
    before: State,
    now: u64,
    after: State,
    writes: Seq<Write>,
    save: bool,
)
    requires
        follows(before, Event::SaveMode, now, after, writes, save),
        draft_of(before.editor, before.modes@) is None,
    ensures
        after == before,
        writes.len() == 0,
        !save,
{
}

/// Applying a mode leaves every display alone that it does not name.
pub proof fn law_unnamed_displays_are_left_alone(ds: Seq<Display>, mode: Mode, i: int)
    requires
        0 <= i < ds.len(),
        mode.levels.at(key_of(ds[i].found)) is None,
    ensures
        all_asked(ds, by_mode(ds, mode))[i] == ds[i],
{
}

/// A mode that names a display is in effect once it was applied, and is the one
/// that cycling moves on from.
pub proof fn law_an_applied_mode_is_in_effect(modes: Seq<Mode>, ds: Seq<Display>, index: usize, r: Option<usize>)
    requires
        index < modes.len(),
        exists|i: int|
            0 <= i < ds.len() && modes[index as int].levels.at(
                key_of((#[trigger] ds[i]).found),
            ) is Some,
        is_active(
            modes,
            all_asked(ds, by_mode(ds, modes[index as int])),
            Some(index),
            r,
        ),
    ensures
        mode_in_effect(modes[index as int], all_asked(ds, by_mode(ds, modes[index as int]))),
        r == Some(index),
{
    let mode = modes[index as int];
    let f = by_mode(ds, mode);
    let after = all_asked(ds, f);
    let i = choose|i: int|
        0 <= i < ds.len() && mode.levels.at(key_of((#[trigger] ds[i]).found)) is Some;
    assert(key_of(after[i].found) == key_of(ds[i].found));
    assert(mode.levels.at(key_of(after[i].found)) is Some);
    assert forall|j: int| 0 <= j < after.len() implies match mode.levels.at(
        key_of((#[trigger] after[j]).found),
    ) {
        Some(level) => raw_at(after[j].found.sink@, level) == raw_at(
            after[j].found.sink@,
            after[j].found.percent,
        ),
        None => true,
    } by {
        assert(key_of(after[j].found) == key_of(ds[j].found));
        match mode.levels.at(key_of(ds[j].found)) {
            Some(level) => {
                assert(f(j) == Some(capped(level)));
                assert(after[j] == asked(ds[j], capped(level)));
                assert(after[j].found.percent == capped(level));
            },
            None => {},
        }
    }
    assert(in_effect_at(modes, after, index as int));
}

} // verus!
