//! Extension protocol: a bar cell and its popup, driven by another process.
//!
//! An extension is a long-lived program the bar spawns once. It writes one
//! JSON object per line — a *frame*, everything the bar should draw for it
//! right now — and reads one JSON object per line: whether its popup is open,
//! and which of its buttons was pressed.
use crate::text::same;
use vstd::prelude::*;
use vstd::string::*;

verus! {

/// Ladder for an extension that exits: a program that cannot start must not be
/// respawned in a loop, but one that crashed should come back.
pub const RESTART_BACKOFF_SECS: [u64; 5] = [1, 2, 5, 15, 60];

/// A run of so many seconds was healthy, so the next failure starts the ladder
/// over.
pub const STABLE_RUN_SECS: u64 = 60;

/// A frame longer than this is a runaway writer, not a bar cell.
pub const MAX_FRAME_BYTES: usize = 1 << 18;

/// Commands buffered for an extension that is not reading.
pub const COMMAND_QUEUE: usize = 16;

/// Palette roles, so an extension colours by meaning and follows the theme.
#[derive(Clone, Copy, PartialEq, Eq, Structural, Debug)]
pub enum Role {
    Fg,
    Muted,
    /// Faintest readable text: a command line under a job name.
    Faint,
    Accent,
    Green,
    Yellow,
    Peach,
    Red,
}

impl Default for Role {
    fn default() -> (r: Role)
        ensures
            r == Role::Fg,
    {
        Role::Fg
    }
}

/// A button on a popup row. Pressing it sends `id` back to the extension, which
/// answers with the next frame.
#[derive(Debug, Clone)]
pub struct Action {
    pub id: String,
    pub label: String,
    /// Paint it as a destructive action: cancel, disconnect, kill.
    pub danger: bool,
    /// A disabled button still reads as an affordance that is spoken for.
    pub enabled: bool,
}

#[derive(Debug, Clone)]
pub struct Line {
    pub text: String,
    pub color: Role,
    /// Draw at the popup's secondary size, for detail under a title.
    pub small: bool,
}

#[derive(Debug, Clone)]
pub struct Row {
    pub lines: Vec<Line>,
    pub action: Option<Action>,
}

/// One entry in a popup, in the order the extension listed them.
#[derive(Debug, Clone)]
pub enum Item {
    /// A line of text on its own.
    Text(Line),
    /// Lines stacked on the left, with an optional button on the right.
    Row(Row),
    /// A hairline between sections.
    Divider,
}

/// The bar cell: a nerd-font glyph, text beside it, and one colour for both.
#[derive(Debug, Clone)]
pub struct Cell {
    pub glyph: String,
    pub text: String,
    pub color: Role,
}

/// One frame: everything the bar draws for this extension until the next one.
#[derive(Debug, Clone)]
pub struct Frame {
    /// The bar cell. `None` hides the module.
    pub cell: Option<Cell>,
    /// The popup's header, pinned above the list.
    pub header: Option<Row>,
    /// Popup body, top to bottom.
    pub popup: Vec<Item>,
}

/// What the bar tells an extension.
#[derive(Debug, Clone)]
pub enum Command {
    /// The popup opened or closed.
    Popup { popup: bool },
    /// A popup button was pressed.
    Action { action: String },
}

/// A button is enabled unless it says otherwise.
pub fn enabled_by_default() -> (r: bool)
    ensures
        r,
{
    true
}

pub struct ActionView {
    pub id: Seq<char>,
    pub label: Seq<char>,
    pub danger: bool,
    pub enabled: bool,
}

pub struct LineView {
    pub text: Seq<char>,
    pub color: Role,
    pub small: bool,
}

pub struct RowView {
    pub lines: Seq<LineView>,
    pub action: Option<ActionView>,
}

pub enum ItemView {
    Text(LineView),
    Row(RowView),
    Divider,
}

pub struct CellView {
    pub glyph: Seq<char>,
    pub text: Seq<char>,
    pub color: Role,
}

pub struct FrameView {
    pub cell: Option<CellView>,
    pub header: Option<RowView>,
    pub popup: Seq<ItemView>,
}

impl View for Action {
    type V = ActionView;

    open spec fn view(&self) -> ActionView {
        ActionView {
            id: self.id@,
            label: self.label@,
            danger: self.danger,
            enabled: self.enabled,
        }
    }
}

impl View for Line {
    type V = LineView;

    open spec fn view(&self) -> LineView {
        LineView { text: self.text@, color: self.color, small: self.small }
    }
}

impl View for Row {
    type V = RowView;

    open spec fn view(&self) -> RowView {
        RowView {
            lines: self.lines@.map_values(|line: Line| line@),
            action: match self.action {
                Some(action) => Some(action@),
                None => None,
            },
        }
    }
}

impl View for Item {
    type V = ItemView;

    open spec fn view(&self) -> ItemView {
        match self {
            Item::Text(line) => ItemView::Text(line@),
            Item::Row(row) => ItemView::Row(row@),
            Item::Divider => ItemView::Divider,
        }
    }
}

impl View for Cell {
    type V = CellView;

    open spec fn view(&self) -> CellView {
        CellView { glyph: self.glyph@, text: self.text@, color: self.color }
    }
}

impl View for Frame {
    type V = FrameView;

    open spec fn view(&self) -> FrameView {
        FrameView {
            cell: match self.cell {
                Some(cell) => Some(cell@),
                None => None,
            },
            header: match self.header {
                Some(header) => Some(header@),
                None => None,
            },
            popup: self.popup@.map_values(|item: Item| item@),
        }
    }
}

fn same_action(a: &Action, b: &Action) -> (r: bool)
    ensures
        r == (a@ == b@),
{
    same(a.id.as_str(), b.id.as_str()) && same(a.label.as_str(), b.label.as_str()) && a.danger
        == b.danger && a.enabled == b.enabled
}

fn same_line(a: &Line, b: &Line) -> (r: bool)
    ensures
        r == (a@ == b@),
{
    same(a.text.as_str(), b.text.as_str()) && a.color == b.color && a.small == b.small
}

fn same_row(a: &Row, b: &Row) -> (r: bool)
    ensures
        r == (a@ == b@),
{
    if a.lines.len() != b.lines.len() {
        assert(a@.lines.len() != b@.lines.len());
        return false;
    }
    let mut i: usize = 0;
    while i < a.lines.len()
        invariant
            i <= a.lines@.len(),
            a.lines@.len() == b.lines@.len(),
            forall|j: int| 0 <= j < i ==> (#[trigger] a.lines@[j])@ == b.lines@[j]@,
        decreases a.lines@.len() - i,
    {
        if !same_line(&a.lines[i], &b.lines[i]) {
            assert(a@.lines[i as int] != b@.lines[i as int]);
            return false;
        }
        i += 1;
    }
    assert(a@.lines =~= b@.lines);
    match (&a.action, &b.action) {
        (Some(x), Some(y)) => same_action(x, y),
        (None, None) => true,
        _ => false,
    }
}

fn same_item(a: &Item, b: &Item) -> (r: bool)
    ensures
        r == (a@ == b@),
{
    match (a, b) {
        (Item::Text(x), Item::Text(y)) => same_line(x, y),
        (Item::Row(x), Item::Row(y)) => same_row(x, y),
        (Item::Divider, Item::Divider) => true,
        _ => false,
    }
}

fn same_cell(a: &Cell, b: &Cell) -> (r: bool)
    ensures
        r == (a@ == b@),
{
    same(a.glyph.as_str(), b.glyph.as_str()) && same(a.text.as_str(), b.text.as_str()) && a.color
        == b.color
}

/// Whether two frames draw the same.
pub fn same_frame(a: &Frame, b: &Frame) -> (r: bool)
    ensures
        r == (a@ == b@),
{
    let cells = match (&a.cell, &b.cell) {
        (Some(x), Some(y)) => same_cell(x, y),
        (None, None) => true,
        _ => false,
    };
    if !cells {
        return false;
    }
    let headers = match (&a.header, &b.header) {
        (Some(x), Some(y)) => same_row(x, y),
        (None, None) => true,
        _ => false,
    };
    if !headers {
        return false;
    }
    if a.popup.len() != b.popup.len() {
        assert(a@.popup.len() != b@.popup.len());
        return false;
    }
    let mut i: usize = 0;
    while i < a.popup.len()
        invariant
            i <= a.popup@.len(),
            a.popup@.len() == b.popup@.len(),
            forall|j: int| 0 <= j < i ==> (#[trigger] a.popup@[j])@ == b.popup@[j]@,
        decreases a.popup@.len() - i,
    {
        if !same_item(&a.popup[i], &b.popup[i]) {
            assert(a@.popup[i as int] != b@.popup[i as int]);
            return false;
        }
        i += 1;
    }
    assert(a@.popup =~= b@.popup);
    true
}

/// What a line read from an extension is.
#[derive(Clone, Copy, PartialEq, Eq, Structural, Debug)]
pub enum Read {
    /// The end of the stream.
    End,
    /// A line that was not ended, at the cap or at the end of the stream: its
    /// tail is not a frame either.
    Runaway,
    /// Nothing but white space.
    Blank,
    /// What should be a frame.
    Frame,
}

pub open spec fn is_ascii_white(b: u8) -> bool {
    b == 0x20 || b == 0x09 || b == 0x0a || b == 0x0c || b == 0x0d
}

pub open spec fn read_of(line: Seq<u8>) -> Read {
    if line.len() == 0 {
        Read::End
    } else if line.last() != 0x0a {
        Read::Runaway
    } else if forall|i: int| 0 <= i < line.len() ==> is_ascii_white(#[trigger] line[i]) {
        Read::Blank
    } else {
        Read::Frame
    }
}

/// What one read, up to a line feed or the cap, brought.
pub fn classify(line: &[u8]) -> (r: Read)
    ensures
        r == read_of(line@),
{
    let n: usize = line.len();
    if n == 0 {
        return Read::End;
    }
    if line[n - 1] != 0x0a {
        return Read::Runaway;
    }
    let mut i: usize = 0;
    while i < n
        invariant
            n == line@.len(),
            n > 0,
            line@.last() == 0x0a,
            i <= n,
            forall|j: int| 0 <= j < i ==> is_ascii_white(#[trigger] line@[j]),
        decreases n - i,
    {
        let b: u8 = line[i];
        if !(b == 0x20 || b == 0x09 || b == 0x0a || b == 0x0c || b == 0x0d) {
            assert(!is_ascii_white(line@[i as int]));
            return Read::Frame;
        }
        i += 1;
    }
    Read::Blank
}

/// Whether a frame has anything new to draw: one identical to the last is not
/// a repaint.
pub fn is_news(last: &Option<Frame>, frame: &Frame) -> (r: bool)
    ensures
        r == match last {
            Some(last) => last@ != frame@,
            None => true,
        },
{
    match last {
        Some(last) => !same_frame(last, frame),
        None => true,
    }
}

pub open spec fn shown(frame: Option<Frame>) -> Option<FrameView> {
    match frame {
        Some(frame) => Some(frame@),
        None => None,
    }
}

/// What a run does about a read.
#[derive(Clone, Copy, PartialEq, Eq, Structural, Debug)]
pub enum Step {
    /// The program is not read any further. The bar still listens.
    Stop,
    /// Nothing to draw, or nothing new.
    Pass,
    /// The bar is sent the frame that was read.
    Send,
}

/// What is done about a line, where `last` was sent last and the line parses to
/// `parsed`.
pub open spec fn step_of(
    line: Seq<u8>,
    last: Option<FrameView>,
    parsed: Option<FrameView>,
) -> Step {
    match read_of(line) {
        Read::End | Read::Runaway => Step::Stop,
        Read::Blank => Step::Pass,
        Read::Frame => if parsed is None || parsed == last {
            Step::Pass
        } else {
            Step::Send
        },
    }
}

/// A run of a program, by what the bar was sent last.
pub struct Reader {
    pub last: Option<Frame>,
}

impl Reader {
    pub open spec fn drawn(&self) -> Option<FrameView> {
        shown(self.last)
    }

    /// A run of the program that a command names, of which the bar is told once
    /// it runs.
    pub fn start(command: &Vec<String>) -> (r: Result<Reader, String>)
        ensures
            r is Err <==> command@.len() == 0,
            r matches Err(error) ==> error@ == "empty command"@,
            r matches Ok(reader) ==> reader.drawn() is None,
            forall|bytes: Seq<u8>, parse: spec_fn(Seq<u8>) -> Option<FrameView>|
                #[trigger] told(command@, bytes, parse) == match r {
                    Ok(reader) => Ok(
                        seq![EventView::Started] + framed(sent(bytes, reader.drawn(), parse)),
                    ),
                    Err(error) => Err(error@),
                },
    {
        if command.len() == 0 {
            return Err("empty command".to_owned());
        }
        Ok(Reader { last: None })
    }

    /// What is done about a line, and what the bar has then been sent: one step
    /// through the bytes of the program. `frame` is what the line parses to.
    pub fn step(&mut self, line: &[u8], frame: Option<Frame>) -> (r: Step)
        ensures
            r == step_of(line@, old(self).drawn(), shown(frame)),
            r == Step::Send ==> final(self).last == frame,
            r != Step::Send ==> *final(self) == *old(self),
            forall|bytes: Seq<u8>, parse: spec_fn(Seq<u8>) -> Option<FrameView>|
                #![trigger sent(bytes, old(self).drawn(), parse)]
                next_line(bytes) == line@ && (read_of(line@) == Read::Frame ==> parse(line@)
                    == shown(frame)) ==> sent(bytes, old(self).drawn(), parse) == match r {
                    Step::Stop => Seq::empty(),
                    Step::Pass => sent(after_line(bytes), final(self).drawn(), parse),
                    Step::Send => seq![frame->0@] + sent(
                        after_line(bytes),
                        final(self).drawn(),
                        parse,
                    ),
                },
    {
        match classify(line) {
            Read::End | Read::Runaway => {
                return Step::Stop;
            },
            Read::Blank => {
                return Step::Pass;
            },
            Read::Frame => {},
        }
        let news = match &frame {
            Some(frame) => is_news(&self.last, frame),
            None => false,
        };
        if !news {
            return Step::Pass;
        }
        self.last = frame;
        Step::Send
    }
}

/// How many bytes one read takes: up to the first line feed and with it, and no
/// more than `cap`.
pub open spec fn line_end(bytes: Seq<u8>, cap: nat) -> nat
    decreases bytes.len(),
{
    if bytes.len() == 0 || cap == 0 {
        0
    } else if bytes[0] == 0x0a {
        1
    } else {
        1 + line_end(bytes.skip(1), (cap - 1) as nat)
    }
}

/// What the next read brings of the bytes still to come.
pub open spec fn next_line(bytes: Seq<u8>) -> Seq<u8> {
    bytes.take(line_end(bytes, MAX_FRAME_BYTES as nat) as int)
}

/// The bytes still to come after the next read.
pub open spec fn after_line(bytes: Seq<u8>) -> Seq<u8> {
    bytes.skip(line_end(bytes, MAX_FRAME_BYTES as nat) as int)
}

/// A read takes no more than there is, no more than the cap, and nothing behind
/// a line feed.
pub proof fn lemma_line_end(bytes: Seq<u8>, cap: nat)
    ensures
        line_end(bytes, cap) <= bytes.len(),
        line_end(bytes, cap) <= cap,
        forall|i: int| 0 <= i < line_end(bytes, cap) - 1 ==> #[trigger] bytes[i] != 0x0a,
    decreases bytes.len(),
{
    if bytes.len() > 0 && cap > 0 && bytes[0] != 0x0a {
        lemma_line_end(bytes.skip(1), (cap - 1) as nat);
        assert forall|i: int| 0 <= i < line_end(bytes, cap) - 1 implies #[trigger] bytes[i]
            != 0x0a by {
            if i > 0 {
                assert(bytes.skip(1)[i - 1] == bytes[i]);
            }
        }
    }
}

/// What a run sends for the bytes still to come, read line by line, where `parse`
/// is what a line parses to and `last` was sent last.
pub open spec fn sent(
    bytes: Seq<u8>,
    last: Option<FrameView>,
    parse: spec_fn(Seq<u8>) -> Option<FrameView>,
) -> Seq<FrameView>
    decreases bytes.len(),
{
    proof {
        lemma_line_end(bytes, MAX_FRAME_BYTES as nat);
    }
    let line = next_line(bytes);
    match step_of(line, last, parse(line)) {
        Step::Stop => Seq::empty(),
        Step::Pass => sent(after_line(bytes), last, parse),
        Step::Send => seq![parse(line)->0] + sent(after_line(bytes), parse(line), parse),
    }
}

/// What the bar hears of a run.
pub enum EventView {
    Started,
    Frame(FrameView),
}

pub open spec fn framed(frames: Seq<FrameView>) -> Seq<EventView> {
    frames.map_values(|frame: FrameView| EventView::Frame(frame))
}

/// What the bar hears of the run of a command whose program writes `bytes`; an
/// error where there is no program to run.
pub open spec fn told(
    command: Seq<String>,
    bytes: Seq<u8>,
    parse: spec_fn(Seq<u8>) -> Option<FrameView>,
) -> Result<Seq<EventView>, Seq<char>> {
    if command.len() == 0 {
        Err("empty command"@)
    } else {
        Ok(seq![EventView::Started] + framed(sent(bytes, None, parse)))
    }
}

/// The lines of a stream, each with its line feed, up to the first that has
/// none within the cap.
pub open spec fn lines_of(bytes: Seq<u8>) -> Seq<Seq<u8>>
    decreases bytes.len(),
{
    proof {
        lemma_line_end(bytes, MAX_FRAME_BYTES as nat);
    }
    match read_of(next_line(bytes)) {
        Read::End | Read::Runaway => Seq::empty(),
        _ => seq![next_line(bytes)] + lines_of(after_line(bytes)),
    }
}

/// The frames that lines hold, without the blank ones and the bad ones.
pub open spec fn frames_of(
    lines: Seq<Seq<u8>>,
    parse: spec_fn(Seq<u8>) -> Option<FrameView>,
) -> Seq<FrameView>
    decreases lines.len(),
{
    if lines.len() == 0 {
        Seq::empty()
    } else {
        let behind = frames_of(lines.skip(1), parse);
        match parse(lines[0]) {
            Some(frame) if read_of(lines[0]) == Read::Frame => seq![frame] + behind,
            _ => behind,
        }
    }
}

/// `frames` without those equal to the one before, `last` before them all.
pub open spec fn news(frames: Seq<FrameView>, last: Option<FrameView>) -> Seq<FrameView>
    decreases frames.len(),
{
    if frames.len() == 0 {
        Seq::empty()
    } else if last == Some(frames[0]) {
        news(frames.skip(1), last)
    } else {
        seq![frames[0]] + news(frames.skip(1), Some(frames[0]))
    }
}

/// A run sends the frames of the lines of its program, in order, without the
/// blank lines, the bad ones, and the frames that repeat the one before.
pub proof fn law_a_run_sends_what_is_new(
    bytes: Seq<u8>,
    last: Option<FrameView>,
    parse: spec_fn(Seq<u8>) -> Option<FrameView>,
)
    ensures
        sent(bytes, last, parse) == news(frames_of(lines_of(bytes), parse), last),
    decreases bytes.len(),
{
    let line = next_line(bytes);
    lemma_line_end(bytes, MAX_FRAME_BYTES as nat);
    match read_of(line) {
        Read::End | Read::Runaway => {},
        _ => {
            let rest = lines_of(after_line(bytes));
            assert(lines_of(bytes)[0] == line);
            assert(lines_of(bytes).skip(1) =~= rest);
            law_a_run_sends_what_is_new(after_line(bytes), last, parse);
            match parse(line) {
                Some(frame) => {
                    law_a_run_sends_what_is_new(after_line(bytes), Some(frame), parse);
                    let frames = seq![frame] + frames_of(rest, parse);
                    assert(frames[0] == frame);
                    assert(frames.skip(1) =~= frames_of(rest, parse));
                },
                None => {},
            }
        },
    }
}

/// The bar hears once that a program runs, and then the frames of its lines, in
/// order, without the blank lines, the bad ones, and the frames that repeat the
/// one before. Where there is no program, that is an error.
pub proof fn law_a_run_tells_its_start_and_its_frames(
    command: Seq<String>,
    bytes: Seq<u8>,
    parse: spec_fn(Seq<u8>) -> Option<FrameView>,
)
    ensures
        command.len() == 0 ==> told(command, bytes, parse) == Err::<Seq<EventView>, _>(
            "empty command"@,
        ),
        command.len() > 0 ==> told(command, bytes, parse) == Ok::<_, Seq<char>>(
            seq![EventView::Started] + framed(news(frames_of(lines_of(bytes), parse), None)),
        ),
{
    law_a_run_sends_what_is_new(bytes, None, parse);
}

/// Bytes that end at their only line feed, and are no more than the cap.
pub open spec fn is_line(line: Seq<u8>) -> bool {
    &&& 0 < line.len() <= MAX_FRAME_BYTES
    &&& line.last() == 0x0a
    &&& forall|i: int| 0 <= i < line.len() - 1 ==> #[trigger] line[i] != 0x0a
}

/// The lines of a stream are its bytes, cut behind each line feed, up to where
/// no line follows.
pub proof fn law_lines_are_cut_at_line_feeds(bytes: Seq<u8>)
    ensures
        forall|k: int|
            0 <= k < lines_of(bytes).len() ==> is_line(#[trigger] lines_of(bytes)[k]),
        lines_of(bytes).flatten().len() <= bytes.len(),
        lines_of(bytes).flatten() == bytes.take(lines_of(bytes).flatten().len() as int),
        lines_of(bytes.skip(lines_of(bytes).flatten().len() as int)).len() == 0,
    decreases bytes.len(),
{
    let line = next_line(bytes);
    let lines = lines_of(bytes);
    lemma_line_end(bytes, MAX_FRAME_BYTES as nat);
    match read_of(line) {
        Read::End | Read::Runaway => {
            assert(lines.flatten() =~= Seq::empty());
            assert(bytes.skip(0) =~= bytes);
            assert(bytes.take(0) =~= Seq::empty());
        },
        _ => {
            let rest = after_line(bytes);
            law_lines_are_cut_at_line_feeds(rest);
            assert(lines.first() == line);
            assert(lines.drop_first() =~= lines_of(rest));
            assert(lines.flatten() == line + lines_of(rest).flatten());
            let n = lines_of(rest).flatten().len() as int;
            assert(bytes.skip(line.len() + n) =~= rest.skip(n));
            assert(line + rest.take(n) =~= bytes.take(line.len() + n));
            assert forall|k: int| 0 <= k < lines.len() implies is_line(#[trigger] lines[k]) by {
                if k > 0 {
                    assert(lines[k] == lines_of(rest)[k - 1]);
                } else {
                    assert(lines[0] == line);
                }
            }
        },
    }
}

/// No frame is sent twice in a row, none is lost but to that, and what was sent
/// last is what was read last.
pub proof fn law_only_repeats_are_left_out(frames: Seq<FrameView>, last: Option<FrameView>)
    ensures
        forall|i: int|
            0 <= i < news(frames, last).len() - 1 ==> #[trigger] news(frames, last)[i] != news(
                frames,
                last,
            )[i + 1],
        news(frames, last).len() > 0 ==> last != Some(news(frames, last)[0]),
        frames.len() > 0 && news(frames, last).len() == 0 ==> last == Some(frames.last()),
        news(frames, last).len() > 0 ==> frames.len() > 0 && news(frames, last).last()
            == frames.last(),
        forall|x: FrameView| #![trigger frames.contains(x)]
            frames.contains(x) ==> news(frames, last).contains(x) || last == Some(x),
        forall|x: FrameView| #![trigger news(frames, last).contains(x)]
            news(frames, last).contains(x) ==> frames.contains(x),
    decreases frames.len(),
{
    if frames.len() > 0 {
        let (first, rest) = (frames[0], frames.skip(1));
        let next = if last == Some(first) {
            last
        } else {
            Some(first)
        };
        let (all, behind) = (news(frames, last), news(rest, next));
        law_only_repeats_are_left_out(rest, next);
        assert(rest.len() > 0 ==> rest.last() == frames.last());
        if last != Some(first) {
            assert(all =~= seq![first] + behind);
            assert forall|i: int| 0 <= i < all.len() - 1 implies #[trigger] all[i] != all[i
                + 1] by {
                if i > 0 {
                    assert(all[i] == behind[i - 1] && all[i + 1] == behind[i]);
                } else {
                    assert(all[1] == behind[0]);
                }
            }
        }
        assert forall|x: FrameView| #![trigger frames.contains(x)]
            frames.contains(x) implies all.contains(x) || last == Some(x) by {
            let k = choose|k: int| 0 <= k < frames.len() && frames[k] == x;
            if k > 0 {
                assert(rest[k - 1] == x);
                assert(rest.contains(x));
            }
            if last != Some(first) {
                assert(all[0] == first);
                if behind.contains(x) {
                    let j = choose|j: int| 0 <= j < behind.len() && behind[j] == x;
                    assert(all[j + 1] == x);
                }
            }
        }
        assert forall|x: FrameView| #![trigger all.contains(x)]
            all.contains(x) implies frames.contains(x) by {
            let j = choose|j: int| 0 <= j < all.len() && all[j] == x;
            if last == Some(first) {
                assert(behind.contains(x));
            } else if j > 0 {
                assert(behind[j - 1] == x);
                assert(behind.contains(x));
            } else {
                assert(frames[0] == x);
            }
            if rest.contains(x) {
                let k = choose|k: int| 0 <= k < rest.len() && rest[k] == x;
                assert(frames[k + 1] == x);
            }
        }
    }
}

} // verus!
