//! Frames as the bar reads them: the JSON of what is drawn.
use crate::extension::{
    Action, ActionView, Cell, CellView, Line, LineView, Role, Row, RowView,
};
use crate::json::{items_of, list, members_of, object, put, text, Json, Tree};
use crate::mlq::frame::{
    entries, Button, ButtonView, Drawn, Entry, EntryView, JobRow, JobRowView, Meter,
};
use vstd::prelude::*;
use vstd::string::*;

verus! {

/// The name of a palette role.
pub open spec fn role_text(role: Role) -> Seq<char> {
    match role {
        Role::Fg => "fg"@,
        Role::Muted => "muted"@,
        Role::Faint => "faint"@,
        Role::Accent => "accent"@,
        Role::Green => "green"@,
        Role::Yellow => "yellow"@,
        Role::Peach => "peach"@,
        Role::Red => "red"@,
    }
}

fn role_name(role: Role) -> (r: &'static str)
    ensures
        r@ == role_text(role),
{
    match role {
        Role::Fg => "fg",
        Role::Muted => "muted",
        Role::Faint => "faint",
        Role::Accent => "accent",
        Role::Green => "green",
        Role::Yellow => "yellow",
        Role::Peach => "peach",
        Role::Red => "red",
    }
}

/// `members` with one more, if that is to be there.
pub open spec fn with(
    members: Seq<(Seq<char>, Tree)>,
    there: bool,
    name: Seq<char>,
    value: Tree,
) -> Seq<(Seq<char>, Tree)> {
    if there {
        members.push((name, value))
    } else {
        members
    }
}

pub open spec fn cell_tree(cell: CellView) -> Tree {
    Tree::Object(
        seq![
            ("glyph"@, Tree::Text(cell.glyph)),
            ("text"@, Tree::Text(cell.text)),
            ("color"@, Tree::Text(role_text(cell.color))),
        ],
    )
}

/// A line of text. The colour and the size are told unless both are what a line
/// has by itself.
pub open spec fn line_tree(line: LineView) -> Tree {
    let start = seq![("text"@, Tree::Text(line.text))];
    let colored = with(
        start,
        line.small || line.color != Role::Fg,
        "color"@,
        Tree::Text(role_text(line.color)),
    );
    Tree::Object(with(colored, line.small, "small"@, Tree::Bool(true)))
}

/// A small line in a colour.
pub open spec fn small_tree(text: Seq<char>, color: Role) -> Tree {
    line_tree(LineView { text, color, small: true })
}

/// What a button says of itself beyond what every button is.
pub open spec fn button_members(
    start: Seq<(Seq<char>, Tree)>,
    danger: bool,
    enabled: bool,
) -> Tree {
    Tree::Object(
        with(
            with(start, danger, "danger"@, Tree::Bool(true)),
            !enabled,
            "enabled"@,
            Tree::Bool(false),
        ),
    )
}

pub open spec fn action_tree(action: ActionView) -> Tree {
    button_members(
        seq![("id"@, Tree::Text(action.id)), ("label"@, Tree::Text(action.label))],
        action.danger,
        action.enabled,
    )
}

/// The button of a job: its glyph or its label, whichever it has.
pub open spec fn button_tree(button: ButtonView) -> Tree {
    let start = seq![("id"@, Tree::Text(button.id))];
    let glyphed = with(start, button.glyph.len() > 0, "glyph"@, Tree::Text(button.glyph));
    button_members(
        with(glyphed, button.label.len() > 0, "label"@, Tree::Text(button.label)),
        button.danger,
        button.enabled,
    )
}

pub open spec fn header_tree(row: RowView) -> Tree {
    let start = seq![("lines"@, Tree::List(row.lines.map_values(|line: LineView| line_tree(line))))];
    Tree::Object(
        match row.action {
            Some(action) => start.push(("action"@, action_tree(action))),
            None => start,
        },
    )
}

pub open spec fn meter_tree(meter: Meter) -> Tree {
    Tree::Object(
        seq![
            ("value"@, Tree::Share(meter.elapsed_ms, meter.limit_ms)),
            ("color"@, Tree::Text(role_text(meter.color))),
        ],
    )
}

/// The row of a job: its title over its details, its progress and its button.
pub open spec fn row_tree(row: JobRowView) -> Tree {
    let start = seq![
        (
            "lines"@,
            Tree::List(
                seq![
                    line_tree(LineView { text: row.title, color: Role::Fg, small: false }),
                    small_tree(row.detail, Role::Muted),
                ],
            ),
        ),
    ];
    let metered = match row.meter {
        Some(meter) => start.push(("progress"@, meter_tree(meter))),
        None => start,
    };
    Tree::Object(
        match row.action {
            Some(button) => metered.push(("action"@, button_tree(button))),
            None => metered,
        },
    )
}

pub open spec fn entry_tree(entry: EntryView) -> Tree {
    Tree::Object(
        seq![
            match entry {
                EntryView::Error(error) => ("text"@, small_tree(error, Role::Red)),
                EntryView::Section(title) => ("section"@, Tree::Text(title)),
                EntryView::Job(row) => ("row"@, row_tree(row)),
            },
        ],
    )
}

/// A frame: a hidden cell is told as such, a header only where there is one.
pub open spec fn frame_tree(drawn: Drawn) -> Tree {
    let start = seq![
        (
            "cell"@,
            match drawn.cell {
                Some(cell) => cell_tree(cell@),
                None => Tree::Null,
            },
        ),
    ];
    let headed = match drawn.header {
        Some(header) => start.push(("header"@, header_tree(header@))),
        None => start,
    };
    Tree::Object(
        headed.push(
            (
                "popup"@,
                Tree::List(entries(drawn.popup@).map_values(|entry: EntryView| entry_tree(entry))),
            ),
        ),
    )
}

/// An object that is put together from its first member on.
fn starting(name: &str, value: Json) -> (r: Vec<(String, Json)>)
    ensures
        members_of(r@) == seq![(name@, value@)],
{
    let mut members: Vec<(String, Json)> = Vec::new();
    assert(members_of(members@) =~= Seq::empty());
    put(&mut members, name, value);
    assert(members_of(members@) =~= seq![(name@, value@)]);
    members
}

fn cell_json(cell: &Cell) -> (r: Json)
    ensures
        r@ == cell_tree(cell@),
{
    let mut members = starting("glyph", text(cell.glyph.as_str()));
    put(&mut members, "text", text(cell.text.as_str()));
    put(&mut members, "color", text(role_name(cell.color)));
    assert(members_of(members@) =~= cell_tree(cell@)->Object_0);
    object(members)
}

fn line_json(line: &str, color: Role, small: bool) -> (r: Json)
    ensures
        r@ == line_tree(LineView { text: line@, color, small }),
{
    let mut members = starting("text", text(line));
    if small || color != Role::Fg {
        put(&mut members, "color", text(role_name(color)));
    }
    if small {
        put(&mut members, "small", Json::Bool(true));
    }
    object(members)
}

fn button_json(members: Vec<(String, Json)>, danger: bool, enabled: bool) -> (r: Json)
    ensures
        r@ == button_members(members_of(members@), danger, enabled),
{
    let mut members = members;
    if danger {
        put(&mut members, "danger", Json::Bool(true));
    }
    if !enabled {
        put(&mut members, "enabled", Json::Bool(false));
    }
    object(members)
}

fn action_json(action: &Action) -> (r: Json)
    ensures
        r@ == action_tree(action@),
{
    let mut members = starting("id", text(action.id.as_str()));
    put(&mut members, "label", text(action.label.as_str()));
    assert(members_of(members@) =~= seq![
        ("id"@, Tree::Text(action.id@)),
        ("label"@, Tree::Text(action.label@)),
    ]);
    button_json(members, action.danger, action.enabled)
}

impl Button {
    pub fn json(&self) -> (r: Json)
        ensures
            r@ == button_tree(self@),
    {
        let mut members = starting("id", text(self.id.as_str()));
        if !self.glyph.is_empty() {
            put(&mut members, "glyph", text(self.glyph));
        }
        if !self.label.is_empty() {
            put(&mut members, "label", text(self.label));
        }
        button_json(members, self.danger, self.enabled)
    }
}

fn lines_json(lines: &Vec<Line>) -> (r: Json)
    ensures
        r@ == Tree::List(
            lines@.map_values(|line: Line| line@).map_values(|line: LineView| line_tree(line)),
        ),
{
    let mut items: Vec<Json> = Vec::new();
    let mut i: usize = 0;
    while i < lines.len()
        invariant
            i <= lines@.len(),
            items@.len() == i,
            forall|j: int| 0 <= j < i ==> (#[trigger] items@[j])@ == line_tree(lines@[j]@),
        decreases lines@.len() - i,
    {
        let line = &lines[i];
        items.push(line_json(line.text.as_str(), line.color, line.small));
        i += 1;
    }
    assert(items_of(items@) =~= lines@.map_values(|line: Line| line@).map_values(
        |line: LineView| line_tree(line),
    ));
    list(items)
}

fn header_json(row: &Row) -> (r: Json)
    ensures
        r@ == header_tree(row@),
{
    let mut members = starting("lines", lines_json(&row.lines));
    match &row.action {
        Some(action) => put(&mut members, "action", action_json(action)),
        None => {},
    }
    object(members)
}

fn meter_json(meter: &Meter) -> (r: Json)
    ensures
        r@ == meter_tree(*meter),
{
    let mut members = starting("value", Json::Share(meter.elapsed_ms, meter.limit_ms));
    put(&mut members, "color", text(role_name(meter.color)));
    assert(members_of(members@) =~= meter_tree(*meter)->Object_0);
    object(members)
}

impl JobRow {
    pub fn json(&self) -> (r: Json)
        ensures
            r@ == row_tree(self@),
    {
        let mut lines: Vec<Json> = Vec::new();
        lines.push(line_json(self.title.as_str(), Role::Fg, false));
        lines.push(line_json(self.detail.as_str(), Role::Muted, true));
        assert(items_of(lines@) =~= seq![
            line_tree(LineView { text: self.title@, color: Role::Fg, small: false }),
            small_tree(self.detail@, Role::Muted),
        ]);
        let mut members = starting("lines", list(lines));
        match &self.meter {
            Some(meter) => put(&mut members, "progress", meter_json(meter)),
            None => {},
        }
        match &self.action {
            Some(button) => put(&mut members, "action", button.json()),
            None => {},
        }
        object(members)
    }
}

impl Entry {
    pub fn json(&self) -> (r: Json)
        ensures
            r@ == entry_tree(self@),
    {
        let members = match self {
            Entry::Error(error) => starting("text", line_json(error.as_str(), Role::Red, true)),
            Entry::Section(title) => starting("section", text(title)),
            Entry::Job(row) => starting("row", row.json()),
        };
        object(members)
    }
}

impl Drawn {
    pub fn json(&self) -> (r: Json)
        ensures
            r@ == frame_tree(*self),
    {
        let cell = match &self.cell {
            Some(cell) => cell_json(cell),
            None => Json::Null,
        };
        let mut popup: Vec<Json> = Vec::new();
        let mut i: usize = 0;
        while i < self.popup.len()
            invariant
                i <= self.popup@.len(),
                popup@.len() == i,
                forall|j: int|
                    0 <= j < i ==> (#[trigger] popup@[j])@ == entry_tree(self.popup@[j]@),
            decreases self.popup@.len() - i,
        {
            popup.push(self.popup[i].json());
            i += 1;
        }
        assert(items_of(popup@) =~= entries(self.popup@).map_values(
            |entry: EntryView| entry_tree(entry),
        ));
        let mut members = starting("cell", cell);
        match &self.header {
            Some(header) => put(&mut members, "header", header_json(header)),
            None => {},
        }
        put(&mut members, "popup", list(popup));
        object(members)
    }
}

} // verus!
