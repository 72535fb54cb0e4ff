//! The card of a popup that shows measurements: blocks of lines.
use vstd::prelude::*;
use vstd::string::*;

verus! {

/// What a colour means.
#[derive(Debug, Clone, Copy, PartialEq, Eq, Structural)]
pub enum Tone {
    Muted,
    Blue,
    Green,
    Mauve,
    Peach,
    Teal,
    /// Plain, a warning, or critical.
    Tier(u8),
}

/// The share that a meter shows.
#[derive(Debug, Clone, Copy, PartialEq, Eq, Structural)]
pub enum Gauge {
    Usage,
    Memory,
    Power,
    /// Of the process in that place of the list.
    Process(usize),
}

/// One of the things that are measured side by side.
#[derive(Debug, Clone)]
pub struct Thread {
    pub number: usize,
    pub value: String,
    pub tone: Tone,
}

#[derive(Debug, Clone)]
pub enum Line {
    Title { name: String, value: String, tone: Tone },
    Section(&'static str),
    Field { glyph: &'static str, label: String, value: String, tone: Tone },
    Meter { gauge: Gauge, tone: Tone },
    /// Threads in columns.
    Threads(Vec<Vec<Thread>>),
    Process { pid: u32, name: String, value: String, tone: Tone },
    Note(&'static str),
}

pub struct ThreadView {
    pub number: int,
    pub value: Seq<char>,
    pub tone: Tone,
}

pub enum LineView {
    Title { name: Seq<char>, value: Seq<char>, tone: Tone },
    Section(Seq<char>),
    Field { glyph: Seq<char>, label: Seq<char>, value: Seq<char>, tone: Tone },
    Meter { gauge: Gauge, tone: Tone },
    Threads(Seq<Seq<ThreadView>>),
    Process { pid: u32, name: Seq<char>, value: Seq<char>, tone: Tone },
    Note(Seq<char>),
}

impl View for Thread {
    type V = ThreadView;

    open spec fn view(&self) -> ThreadView {
        ThreadView { number: self.number as int, value: self.value@, tone: self.tone }
    }
}

pub open spec fn column_view(column: Vec<Thread>) -> Seq<ThreadView> {
    column@.map_values(|thread: Thread| thread@)
}

impl View for Line {
    type V = LineView;

    open spec fn view(&self) -> LineView {
        match self {
            Line::Title { name, value, tone } => LineView::Title {
                name: name@,
                value: value@,
                tone: *tone,
            },
            Line::Section(title) => LineView::Section(title@),
            Line::Field { glyph, label, value, tone } => LineView::Field {
                glyph: glyph@,
                label: label@,
                value: value@,
                tone: *tone,
            },
            Line::Meter { gauge, tone } => LineView::Meter { gauge: *gauge, tone: *tone },
            Line::Threads(columns) => LineView::Threads(
                columns@.map_values(|column: Vec<Thread>| column_view(column)),
            ),
            Line::Process { pid, name, value, tone } => LineView::Process {
                pid: *pid,
                name: name@,
                value: value@,
                tone: *tone,
            },
            Line::Note(text) => LineView::Note(text@),
        }
    }
}

/// A block of lines.
pub open spec fn block(lines: Seq<Line>) -> Seq<LineView> {
    lines.map_values(|line: Line| line@)
}

/// The blocks of a card.
pub open spec fn blocks(card: Seq<Vec<Line>>) -> Seq<Seq<LineView>> {
    card.map_values(|lines: Vec<Line>| block(lines@))
}

/// A card with one more block, if that has anything to show.
pub open spec fn with_block(
    card: Seq<Seq<LineView>>,
    there: bool,
    lines: Seq<LineView>,
) -> Seq<Seq<LineView>> {
    if there {
        card.push(lines)
    } else {
        card
    }
}

/// A block that starts under a heading.
pub fn under(title: &'static str) -> (r: Vec<Line>)
    ensures
        block(r@) == seq![LineView::Section(title@)],
{
    let mut lines: Vec<Line> = Vec::new();
    lines.push(Line::Section(title));
    assert(block(lines@) =~= seq![LineView::Section(title@)]);
    lines
}

/// Put a line at the end of a block.
pub fn put(lines: &mut Vec<Line>, line: Line)
    ensures
        block(final(lines)@) == block(old(lines)@).push(line@),
{
    lines.push(line);
    assert(block(lines@) =~= block(old(lines)@).push(line@));
}

/// Put a block at the end of a card.
pub fn put_block(card: &mut Vec<Vec<Line>>, lines: Vec<Line>)
    ensures
        blocks(final(card)@) == blocks(old(card)@).push(block(lines@)),
{
    card.push(lines);
    assert(blocks(card@) =~= blocks(old(card)@).push(block(lines@)));
}

pub open spec fn field_view(
    glyph: Seq<char>,
    label: Seq<char>,
    value: Seq<char>,
    tone: Tone,
) -> LineView {
    LineView::Field { glyph, label, value, tone }
}

pub fn field(glyph: &'static str, label: &str, value: String, tone: Tone) -> (r: Line)
    ensures
        r@ == field_view(glyph@, label@, value@, tone),
{
    Line::Field { glyph, label: label.to_owned(), value, tone }
}

/// The tone of a meter: `calm` as long as nothing is to be warned of.
pub open spec fn meter_tone(tier: u8, calm: Tone) -> Tone {
    if tier == 0 {
        calm
    } else {
        Tone::Tier(tier)
    }
}

pub fn metered(tier: u8, calm: Tone) -> (r: Tone)
    ensures
        r == meter_tone(tier, calm),
{
    if tier == 0 {
        calm
    } else {
        Tone::Tier(tier)
    }
}

} // verus!
