//! What contracts see of a value is the value: each part under its own name.
use crate::bar::Group;
use crate::calendar::AgendaEvent;
use crate::mlq::frame::{Button, Entry as Listed, EntryView as ListedView, JobRow};
use crate::modules::bluetooth::state::{
    Call as RadioCall, CallView as RadioCallView, Row as RadioRow,
};
use crate::modules::bluetooth::tree::{Adapter, Device};
use crate::modules::brightness::probe::Monitor;
use crate::modules::card::{Line, LineView, Thread};
use crate::modules::launcher::{Entry, Probe, ProbeView, Target};
use crate::modules::mpris::player::Player;
use crate::modules::mpris::session::{Step, StepView};
use crate::modules::network::state::{Call, CallView, Press, PressView, Row};
use crate::modules::notifications::Notification;
use crate::modules::origin::Interpreter;
use crate::modules::{battery, cpu, memory, network};
use crate::text::{literals, opt_text, texts};
use vstd::prelude::*;

verus! {

/// Devices and adapters are seen as they are.
pub proof fn law_radios_are_seen_as_they_are(a: Adapter, d: Device, row: RadioRow)
    ensures
        a@.path == a.path@ && a@.alias == a.alias@ && a@.address == a.address@ && a@.powered
            == a.powered && a@.discovering == a.discovering,
        d@.path == d.path@ && d@.address == d.address@ && d@.name == d.name@ && d@.icon == opt_text(
            d.icon,
        ) && d@.connected == d.connected && d@.paired == d.paired && d@.battery == d.battery
            && d@.rssi == d.rssi,
        row@.path == row.path@ && row@.glyph == row.glyph@ && row@.name == row.name@
            && row@.readings == row.readings@ && row@.low == row.low && row@.idle == row.idle,
{
}

/// Calls are seen as what they ask.
pub proof fn law_calls_are_seen_as_what_they_ask(call: Call, radio: RadioCall)
    ensures
        call matches Call::Activate { profile, device, specific } ==> (call@
            matches CallView::Activate { profile: p, device: d, specific: s } && p == profile@ && d
            == device@ && s == specific@),
        call matches Call::Deactivate(path) ==> call@ == CallView::Deactivate(path@),
        call matches Call::Scan(path) ==> call@ == CallView::Scan(path@),
        call matches Call::SetWireless(on) ==> call@ == CallView::SetWireless(on),
        call matches Call::Nmtui(terminal) ==> call@ == CallView::Nmtui(terminal@),
        radio matches RadioCall::Connect(path) ==> radio@ == RadioCallView::Connect(path@),
        radio matches RadioCall::Disconnect(path) ==> radio@ == RadioCallView::Disconnect(path@),
        radio matches RadioCall::Pair(path) ==> radio@ == RadioCallView::Pair(path@),
        radio matches RadioCall::Terminal(with) ==> radio@ == RadioCallView::Terminal(with@),
        radio matches RadioCall::SetPowered { adapter, powered } ==> (radio@
            matches RadioCallView::SetPowered { adapter: a, powered: p } && a == adapter@ && p
            == powered),
        radio matches RadioCall::SetDiscovering { adapter, discovering } ==> (radio@
            matches RadioCallView::SetDiscovering { adapter: a, discovering: d } && a == adapter@
            && d == discovering),
{
}

/// Rows are seen as they are, and their buttons as what they do.
pub proof fn law_rows_are_seen_as_they_are(row: Row, press: Press)
    ensures
        row@.name == row.name@ && row@.note == row.note@ && row@.lit == row.lit && row@.press
            == row.press@,
        press is Wait <==> press@ is Wait,
        press is Active <==> press@ is Active,
        press is Nmtui <==> press@ is Nmtui,
        press matches Press::Down { active } ==> press@ == (PressView::Down { active: active@ }),
        press matches Press::Up { profile } ==> press@ == (PressView::Up { profile: profile@ }),
        press matches Press::Join { profile, device, specific } ==> (press@
            matches PressView::Join { profile: p, device: d, specific: s } && p == profile@ && d
            == device@ && s == specific@),
{
}

/// Cells are seen as they are.
pub proof fn law_cells_are_seen_as_they_are(
    a: network::snapshot::BarKey,
    b: battery::BarKey,
    c: cpu::BarKey,
    d: memory::BarKey,
)
    ensures
        a@.glyph == a.glyph@ && a@.rest == a.rest@ && a@.tier == a.tier,
        b@.glyph == b.glyph@ && b@.charge == b.charge@ && b@.tier == b.tier,
        c@.usage == c.usage@ && c@.glyph == c.glyph@ && c@.tier == c.tier,
        c.temp is Some <==> c@.temp is Some,
        c.temp matches Some(temp) ==> (c@.temp->0).0 == temp.shown@ && (c@.temp->0).1 == temp.glyph@
            && (c@.temp->0).2 == temp.tier,
        d@.glyph == d.glyph@ && d@.text == d.text@ && d@.tier == d.tier,
{
}

/// A player is seen as it is.
pub proof fn law_players_are_seen_as_they_are(p: Player)
    ensures
        p@.bus == p.bus@ && p@.identity == p.identity@ && p@.status == p.status,
        p@.title == p.title@ && p@.artist == p.artist@ && p@.album == p.album@,
        p@.length_us == p.length_us && p@.position_us == p.position_us && p@.sampled_ms
            == p.sampled_ms && p@.rate == p.rate,
        p@.can_next == p.can_next && p@.can_previous == p.can_previous && p@.can_pause == p.can_pause
            && p@.can_play == p.can_play && p@.can_seek == p.can_seek,
        p@.shuffle == p.shuffle && p@.loop_status == opt_text(p.loop_status) && p@.track == opt_text(
            p.track,
        ),
{
}

/// What a session does next is seen as that.
pub proof fn law_steps_are_seen_as_they_are(step: Step)
    ensures
        step is Nothing <==> step@ is Nothing,
        step is Publish <==> step@ is Publish,
        step matches Step::Load(bus) ==> step@ == StepView::Load(bus@),
        step matches Step::Resync(bus) ==> step@ == StepView::Resync(bus@),
        step matches Step::Act(bus) ==> step@ == StepView::Act(bus@),
{
}

/// Notifications, monitors and events are seen as they are.
pub proof fn law_what_is_told_is_seen_as_it_is(n: Notification, m: Monitor, e: AgendaEvent)
    ensures
        n@.id == n.id && n@.app_name == n.app_name@ && n@.summary == n.summary@ && n@.body
            == n.body@ && n@.urgency == n.urgency,
        n@.actions.len() == n.actions@.len(),
        forall|i: int|
            0 <= i < n.actions@.len() ==> (#[trigger] n@.actions[i]).0 == n.actions@[i].0@
                && n@.actions[i].1 == n.actions@[i].1@,
        m@.bus == m.bus && m@.connector == opt_text(m.connector) && m@.label == opt_text(m.label),
        e@.title == e.title@ && e@.time == e.time@,
{
}

/// What the launcher starts and looks for is seen as it is.
pub proof fn law_targets_are_seen_as_they_are(t: Target, p: Probe, e: Entry)
    ensures
        t@.hint == t.hint@ && t@.argv == texts(t.argv@),
        p matches Probe::Binary(program) ==> p@ == ProbeView::Binary(program@),
        p matches Probe::Desktop(id) ==> p@ == ProbeView::Desktop(id@),
        e@.glyph == e.glyph@ && e@.label == e.label@ && e@.target == e.target@,
{
}

/// An interpreter's options are seen for what they do.
pub proof fn law_interpreters_are_seen_as_they_are(i: Interpreter)
    ensures
        i@.family == i.family@,
        i@.valued == literals(i.valued@),
        i@.program == literals(i.program@),
        i@.inline == literals(i.inline@),
        i@.subcommands == literals(i.subcommands@),
{
}

/// Groups, buttons and rows of jobs are seen as they are.
pub proof fn law_jobs_are_seen_as_they_are(g: Group, b: Button, row: JobRow, entry: Listed)
    ensures
        g@.island == g.island && g@.members == g.members@,
        b@.id == b.id@ && b@.glyph == b.glyph@ && b@.label == b.label@ && b@.danger == b.danger
            && b@.enabled == b.enabled,
        row@.title == row.title@ && row@.detail == row.detail@ && row@.meter == row.meter,
        row.action is Some <==> row@.action is Some,
        row.action matches Some(button) ==> row@.action == Some(button@),
        entry matches Listed::Error(error) ==> entry@ == ListedView::Error(error@),
        entry matches Listed::Section(title) ==> entry@ == ListedView::Section(title@),
        entry matches Listed::Job(job) ==> entry@ == ListedView::Job(job@),
{
}

/// The lines of a card are seen as they are.
pub proof fn law_lines_of_a_card_are_seen_as_they_are(line: Line, thread: Thread)
    ensures
        thread@.number == thread.number && thread@.value == thread.value@ && thread@.tone
            == thread.tone,
        line matches Line::Title { name, value, tone } ==> (line@ matches LineView::Title {
            name: n,
            value: v,
            tone: t,
        } && n == name@ && v == value@ && t == tone),
        line matches Line::Section(title) ==> line@ == LineView::Section(title@),
        line matches Line::Field { glyph, label, value, tone } ==> (line@ matches LineView::Field {
            glyph: g,
            label: l,
            value: v,
            tone: t,
        } && g == glyph@ && l == label@ && v == value@ && t == tone),
        line matches Line::Meter { gauge, tone } ==> line@ == (LineView::Meter { gauge, tone }),
        line matches Line::Process { pid, name, value, tone } ==> (line@
            matches LineView::Process { pid: p, name: n, value: v, tone: t } && p == pid && n
            == name@ && v == value@ && t == tone),
        line matches Line::Note(text) ==> line@ == LineView::Note(text@),
{
}

} // verus!
