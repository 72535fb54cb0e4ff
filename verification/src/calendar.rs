//! The calendar worker's rules: which calendars it follows, which events it
//! lists for a day, and when it tells of them.
use crate::civil::Day;
use crate::moment::{
    epoch, has_date, is_offset, local, month_short, short_month, shown_at, time_of_day, Moment,
};
use crate::number::{two, two_digits};
use crate::order::{in_line, sort, Ranked};
use crate::text::{
    comes_before, concat, concat3, concat4, is_among, lemma_text_order_total,
    lemma_text_order_transitive, same, text_before, texts,
};
use vstd::prelude::*;
use vstd::string::*;

verus! {

/// Delays before the worker is started again, in seconds.
pub const RECONNECT_BACKOFF: [u64; 5] = [1, 2, 5, 10, 30];

/// A worker that ran this long, in seconds, was healthy.
pub const STABLE_SESSION: u64 = 60;

/// A day, in seconds.
pub const DAY: i64 = 86_400;

pub const NO_WORKER: &'static str = "Could not locate the calendar worker";

pub const NOT_STARTED: &'static str =
    "Calendar unavailable: install cosmicbar-calendar and Evolution Data Server";

pub const NOT_READ: &'static str = "Could not read the calendar helper response";

pub const ENDED: &'static str = "Calendar connection ended; reconnecting to Evolution Data Server";

pub const BAD_REPLY: &'static str = "Calendar helper returned an invalid response";

pub const BAD_DATE: &'static str = "Calendar helper returned an invalid date";

pub const FAILED: &'static str =
    "Calendar connection failed; check GNOME Calendar and Evolution Data Server";

/// An event as it is listed.
#[derive(Debug, Clone)]
pub struct AgendaEvent {
    pub title: String,
    pub time: String,
}

pub struct AgendaView {
    pub title: Seq<char>,
    pub time: Seq<char>,
}

impl View for AgendaEvent {
    type V = AgendaView;

    open spec fn view(&self) -> AgendaView {
        AgendaView { title: self.title@, time: self.time@ }
    }
}

pub open spec fn agenda_views(events: Seq<AgendaEvent>) -> Seq<AgendaView> {
    events.map_values(|e: AgendaEvent| e@)
}

/// The day that `jiff` reads out of a text.
pub uninterp spec fn date_in(text: Seq<char>) -> Option<Day>;

/// `jiff::civil::Date::from_str`: the day it reads, which is one of the
/// calendar, or none.
#[verifier::external_body]
pub(crate) fn read_date(text: &str) -> (r: Option<Day>)
    ensures
        r == date_in(text@),
        r matches Some(day) ==> day.valid(),
{
    let date: jiff::civil::Date = text.parse().ok()?;
    Some(Day { year: date.year(), month: date.month(), day: date.day() })
}

/// What a reply of the worker tells: the day and its events, or an error. A
/// date that cannot be read makes any reply an error.
pub fn reply_on(date: Option<Day>, result: Result<Vec<AgendaEvent>, String>) -> (r: Result<
    (Day, Vec<AgendaEvent>),
    String,
>)
    ensures
        match (date, result) {
            (None, _) => r matches Err(error) && error@ == BAD_DATE@,
            (Some(_), Err(told)) => r == Err::<(Day, Vec<AgendaEvent>), String>(told),
            (Some(date), Ok(events)) => r == Ok::<(Day, Vec<AgendaEvent>), String>((date, events)),
        },
{
    match date {
        Some(date) => match result {
            Ok(events) => Ok((date, events)),
            Err(told) => Err(told),
        },
        None => Err(BAD_DATE.to_owned()),
    }
}

pub fn read_reply(date: &str, result: Result<Vec<AgendaEvent>, String>) -> (r: Result<
    (Day, Vec<AgendaEvent>),
    String,
>)
    ensures
        match (date_in(date@), result) {
            (None, _) => r matches Err(error) && error@ == BAD_DATE@,
            (Some(_), Err(told)) => r == Err::<(Day, Vec<AgendaEvent>), String>(told),
            (Some(date), Ok(events)) => r == Ok::<(Day, Vec<AgendaEvent>), String>((date, events)),
        },
{
    let date = read_date(date);
    reply_on(date, result)
}

/// A calendar that is known: whether it is enabled, and whether it is selected.
#[derive(Debug, Clone)]
pub struct Source {
    pub uid: String,
    pub enabled: bool,
    pub selected: bool,
}

/// Texts with one more in its place, unless it stands there already.
pub open spec fn inserted(line: Seq<Seq<char>>, uid: Seq<char>) -> Seq<Seq<char>>
    decreases line.len(),
{
    if line.len() == 0 {
        seq![uid]
    } else if line[0] == uid {
        line
    } else if text_before(uid, line[0]) {
        seq![uid] + line
    } else {
        seq![line[0]] + inserted(line.skip(1), uid)
    }
}

/// The calendars to follow, in order and each once: those that are enabled and
/// selected.
pub open spec fn followed(sources: Seq<Source>) -> Seq<Seq<char>>
    decreases sources.len(),
{
    if sources.len() == 0 {
        Seq::empty()
    } else {
        let before = followed(sources.drop_last());
        let last = sources.last();
        if last.enabled && last.selected {
            inserted(before, last.uid@)
        } else {
            before
        }
    }
}

proof fn lemma_inserted(line: Seq<Seq<char>>, uid: Seq<char>, k: int)
    requires
        0 <= k <= line.len(),
        forall|j: int| 0 <= j < k ==> #[trigger] line[j] != uid && !text_before(uid, line[j]),
        k < line.len() ==> line[k] == uid || text_before(uid, line[k]),
    ensures
        inserted(line, uid) == if k < line.len() && line[k] == uid {
            line
        } else {
            line.insert(k, uid)
        },
    decreases line.len(),
{
    if line.len() == 0 {
        assert(line.insert(k, uid) =~= seq![uid]);
    } else if k == 0 {
        if line[0] != uid {
            assert(line.insert(k, uid) =~= seq![uid] + line);
        }
    } else {
        let rest = line.skip(1);
        assert(line[0] != uid && !text_before(uid, line[0]));
        assert forall|j: int| 0 <= j < k - 1 implies #[trigger] rest[j] != uid && !text_before(
            uid,
            rest[j],
        ) by {
            assert(rest[j] == line[j + 1]);
        }
        lemma_inserted(rest, uid, k - 1);
        if k < line.len() && line[k] == uid {
            assert(seq![line[0]] + rest =~= line);
        } else {
            assert(seq![line[0]] + rest.insert(k - 1, uid) =~= line.insert(k, uid));
        }
    }
}

fn insert(line: &mut Vec<String>, uid: &str)
    ensures
        texts(final(line)@) == inserted(texts(old(line)@), uid@),
{
    let ghost all = texts(line@);
    assert(all.len() == line@.len());
    let mut k: usize = 0;
    while k < line.len() && !same(line[k].as_str(), uid) && !comes_before(uid, line[k].as_str())
        invariant
            *line == *old(line),
            k <= line@.len(),
            all == texts(line@),
            all.len() == line@.len(),
            forall|j: int| 0 <= j < k ==> #[trigger] all[j] != uid@ && !text_before(uid@, all[j]),
        ensures
            *line == *old(line),
            k <= line@.len(),
            forall|j: int| 0 <= j < k ==> #[trigger] all[j] != uid@ && !text_before(uid@, all[j]),
            k < line@.len() ==> all[k as int] == uid@ || text_before(uid@, all[k as int]),
        decreases line@.len() - k,
    {
        k += 1;
    }
    proof {
        lemma_inserted(all, uid@, k as int);
    }
    if k == line.len() || !same(line[k].as_str(), uid) {
        line.insert(k, uid.to_owned());
        assert(texts(line@) =~= all.insert(k as int, uid@));
    }
}

/// The texts of `a` that are not in `b`.
pub open spec fn without(a: Seq<Seq<char>>, b: Seq<Seq<char>>) -> Seq<Seq<char>>
    decreases a.len(),
{
    if a.len() == 0 {
        Seq::empty()
    } else {
        let before = without(a.drop_last(), b);
        if b.contains(a.last()) {
            before
        } else {
            before.push(a.last())
        }
    }
}

fn less(a: &Vec<String>, b: &Vec<String>) -> (r: Vec<String>)
    ensures
        texts(r@) == without(texts(a@), texts(b@)),
{
    let ghost all = texts(a@);
    assert(all.len() == a@.len());
    let mut out: Vec<String> = Vec::new();
    let mut i: usize = 0;
    assert(texts(out@) =~= Seq::empty());
    while i < a.len()
        invariant
            i <= a@.len(),
            all == texts(a@),
            all.len() == a@.len(),
            texts(out@) == without(all.take(i as int), texts(b@)),
        decreases a@.len() - i,
    {
        proof {
            assert(all.take(i + 1).drop_last() =~= all.take(i as int));
            assert(all.take(i + 1).last() == a@[i as int]@);
        }
        if !is_among(b, a[i].as_str()) {
            let ghost had = out@;
            let uid = a[i].as_str().to_owned();
            out.push(uid);
            assert(texts(out@) =~= texts(had).push(a@[i as int]@));
        }
        i += 1;
    }
    assert(all.take(i as int) =~= all);
    out
}

/// What to do for the calendars that are running to be those to follow.
#[derive(Debug, Clone)]
pub struct Plan {
    pub stop: Vec<String>,
    pub open: Vec<String>,
    /// Whether anything changes.
    pub changed: bool,
    /// The calendars that run then.
    pub running: Vec<String>,
}

/// Compare the calendars that run with those that are known.
pub fn reconcile(running: &Vec<String>, sources: &Vec<Source>) -> (r: Plan)
    ensures
        texts(r.running@) == followed(sources@),
        texts(r.stop@) == without(texts(running@), followed(sources@)),
        texts(r.open@) == without(followed(sources@), texts(running@)),
        r.changed == (texts(running@) != followed(sources@)),
{
    let mut chosen: Vec<String> = Vec::new();
    let mut i: usize = 0;
    assert(texts(chosen@) =~= Seq::empty());
    while i < sources.len()
        invariant
            i <= sources@.len(),
            texts(chosen@) == followed(sources@.take(i as int)),
        decreases sources@.len() - i,
    {
        proof {
            assert(sources@.take(i + 1).drop_last() =~= sources@.take(i as int));
            assert(sources@.take(i + 1).last() == sources@[i as int]);
        }
        if sources[i].enabled && sources[i].selected {
            insert(&mut chosen, sources[i].uid.as_str());
        }
        i += 1;
    }
    assert(sources@.take(i as int) =~= sources@);
    let changed = !crate::paths::same_texts(running, &chosen);
    Plan { stop: less(running, &chosen), open: less(&chosen, running), changed, running: chosen }
}

/// Texts in order, each once.
pub open spec fn in_order(line: Seq<Seq<char>>) -> bool {
    forall|i: int, j: int|
        0 <= i < j < line.len() ==> text_before(#[trigger] line[i], #[trigger] line[j])
}

proof fn lemma_inserted_has(line: Seq<Seq<char>>, uid: Seq<char>, s: Seq<char>)
    ensures
        inserted(line, uid).contains(s) <==> s == uid || line.contains(s),
    decreases line.len(),
{
    let all = inserted(line, uid);
    if line.len() == 0 {
        assert(all[0] == uid);
    } else if line[0] == uid {
    } else if text_before(uid, line[0]) {
        assert(all[0] == uid);
        if line.contains(s) {
            let k = choose|k: int| 0 <= k < line.len() && line[k] == s;
            assert(all[k + 1] == s);
        }
        if all.contains(s) && s != uid {
            let k = choose|k: int| 0 <= k < all.len() && all[k] == s;
            assert(line[k - 1] == s);
        }
    } else {
        let rest = line.skip(1);
        let more = inserted(rest, uid);
        lemma_inserted_has(rest, uid, s);
        assert(all[0] == line[0]);
        if more.contains(s) {
            let k = choose|k: int| 0 <= k < more.len() && more[k] == s;
            assert(all[k + 1] == s);
        }
        if rest.contains(s) {
            let k = choose|k: int| 0 <= k < rest.len() && rest[k] == s;
            assert(line[k + 1] == s);
        }
        if line.contains(s) && s != line[0] {
            let k = choose|k: int| 0 <= k < line.len() && line[k] == s;
            assert(rest[k - 1] == s);
        }
        if all.contains(s) && s != line[0] {
            let k = choose|k: int| 0 <= k < all.len() && all[k] == s;
            assert(more[k - 1] == s);
        }
    }
}

proof fn lemma_inserted_order(line: Seq<Seq<char>>, uid: Seq<char>)
    requires
        in_order(line),
    ensures
        in_order(inserted(line, uid)),
    decreases line.len(),
{
    let all = inserted(line, uid);
    if line.len() > 0 && line[0] != uid {
        if text_before(uid, line[0]) {
            assert forall|i: int, j: int| 0 <= i < j < all.len() implies text_before(
                #[trigger] all[i],
                #[trigger] all[j],
            ) by {
                assert(all[j] == line[j - 1]);
                if i > 0 {
                    assert(all[i] == line[i - 1]);
                } else if j > 1 {
                    assert(text_before(line[0], line[j - 1]));
                    lemma_text_order_transitive(uid, line[0], line[j - 1]);
                }
            }
        } else {
            let rest = line.skip(1);
            let more = inserted(rest, uid);
            assert(in_order(rest)) by {
                assert forall|i: int, j: int| 0 <= i < j < rest.len() implies text_before(
                    #[trigger] rest[i],
                    #[trigger] rest[j],
                ) by {
                    assert(text_before(line[i + 1], line[j + 1]));
                }
            }
            lemma_inserted_order(rest, uid);
            lemma_text_order_total(uid, line[0]);
            assert forall|j: int| 0 <= j < more.len() implies text_before(
                line[0],
                #[trigger] more[j],
            ) by {
                lemma_inserted_has(rest, uid, more[j]);
                assert(more.contains(more[j]));
                if more[j] != uid {
                    let k = choose|k: int| 0 <= k < rest.len() && rest[k] == more[j];
                    assert(text_before(line[0], line[k + 1]));
                }
            }
            assert forall|i: int, j: int| 0 <= i < j < all.len() implies text_before(
                #[trigger] all[i],
                #[trigger] all[j],
            ) by {
                assert(all[j] == more[j - 1]);
                if i > 0 {
                    assert(all[i] == more[i - 1]);
                }
            }
        }
    }
}

/// Whether a calendar is to be followed.
pub open spec fn wanted(sources: Seq<Source>, uid: Seq<char>) -> bool {
    exists|i: int|
        0 <= i < sources.len() && (#[trigger] sources[i]).uid@ == uid && sources[i].enabled
            && sources[i].selected
}

/// The calendars that are followed are the enabled and selected ones, each
/// once.
pub proof fn law_the_selected_calendars_are_followed(sources: Seq<Source>, uid: Seq<char>)
    ensures
        followed(sources).contains(uid) <==> wanted(sources, uid),
        in_order(followed(sources)),
    decreases sources.len(),
{
    if sources.len() > 0 {
        let most = sources.drop_last();
        let last = sources.last();
        law_the_selected_calendars_are_followed(most, uid);
        if last.enabled && last.selected {
            lemma_inserted_has(followed(most), last.uid@, uid);
            lemma_inserted_order(followed(most), last.uid@);
        }
        if wanted(most, uid) {
            let i = choose|i: int|
                0 <= i < most.len() && (#[trigger] most[i]).uid@ == uid && most[i].enabled
                    && most[i].selected;
            assert(sources[i] == most[i]);
        }
        if wanted(sources, uid) {
            let i = choose|i: int|
                0 <= i < sources.len() && (#[trigger] sources[i]).uid@ == uid
                    && sources[i].enabled && sources[i].selected;
            if i < most.len() {
                assert(most[i] == sources[i]);
            }
        }
        if last.enabled && last.selected && last.uid@ == uid {
            assert(sources[sources.len() - 1] == last);
        }
    }
}

proof fn lemma_without(a: Seq<Seq<char>>, b: Seq<Seq<char>>, s: Seq<char>)
    ensures
        without(a, b).contains(s) <==> a.contains(s) && !b.contains(s),
    decreases a.len(),
{
    if a.len() > 0 {
        let most = a.drop_last();
        let before = without(most, b);
        let all = without(a, b);
        lemma_without(most, b, s);
        assert(a[a.len() - 1] == a.last());
        if most.contains(s) {
            let k = choose|k: int| 0 <= k < most.len() && most[k] == s;
            assert(a[k] == s);
        }
        if a.contains(s) && s != a.last() {
            let k = choose|k: int| 0 <= k < a.len() && a[k] == s;
            assert(most[k] == s);
        }
        if !b.contains(a.last()) {
            assert(all[before.len() as int] == a.last());
            if before.contains(s) {
                let k = choose|k: int| 0 <= k < before.len() && before[k] == s;
                assert(all[k] == s);
            }
            if all.contains(s) && s != a.last() {
                let k = choose|k: int| 0 <= k < all.len() && all[k] == s;
                assert(before[k] == s);
            }
        }
    }
}

/// Stopping and opening what the plan says leaves exactly the calendars to
/// follow running, and nothing is both stopped and opened.
pub proof fn law_plans_reach_the_selection(
    running: Seq<Seq<char>>,
    sources: Seq<Source>,
    uid: Seq<char>,
)
    ensures
        ({
            let next = followed(sources);
            let stop = without(running, next);
            let open = without(next, running);
            &&& next.contains(uid) <==> (running.contains(uid) && !stop.contains(uid))
                || open.contains(uid)
            &&& !(stop.contains(uid) && open.contains(uid))
        }),
{
    lemma_without(running, followed(sources), uid);
    lemma_without(followed(sources), running, uid);
}

/// An event that a calendar has on about that day.
#[derive(Debug, Clone)]
pub struct Occurrence {
    pub cancelled: bool,
    /// Whether it says when it starts.
    pub dated: bool,
    pub all_day: bool,
    /// Its start and end, in seconds.
    pub first: i64,
    pub last: i64,
    /// How far local time is ahead of universal time at its start and at its
    /// end, in seconds.
    pub first_offset: i32,
    pub last_offset: i32,
    pub summary: Option<String>,
}

/// A day, and where it starts and ends, in seconds.
#[derive(Debug, Clone)]
pub struct Window {
    pub date: Day,
    pub start: i64,
    pub end: i64,
}

/// Whether an event falls on a day: a moment, when the day holds it; what
/// lasts, when some of it does.
pub open spec fn falls_on(first: i64, last: i64, start: i64, end: i64) -> bool {
    if first == last {
        start <= first < end
    } else {
        first < end && last > start
    }
}

/// Whether an event is listed.
pub open spec fn is_listed(o: Occurrence, w: Window) -> bool {
    !o.cancelled && o.dated && falls_on(o.first, o.last, w.start, w.end)
}

/// A time on the day, or with its date on another.
pub open spec fn clock_text(at: Moment, date: Day) -> Seq<char> {
    if at.year == date.year && at.month == date.month && at.day == date.day {
        time_of_day(at)
    } else {
        month_short(at.month as int) + " "@ + two_digits(at.day as nat) + " "@ + time_of_day(at)
    }
}

fn clock(at: Moment, date: Day) -> (r: String)
    requires
        at.valid(),
    ensures
        r@ == clock_text(at, date),
{
    let hour = two(at.hour as u64);
    let minute = two(at.minute as u64);
    let time = concat3(hour.as_str(), ":", minute.as_str());
    if at.year == date.year && at.month == date.month && at.day == date.day {
        time
    } else {
        let day = two(at.day as u64);
        let front = concat4(short_month(at.month), " ", day.as_str(), " ");
        concat(front.as_str(), time.as_str())
    }
}

/// An event listed, with its start and end.
#[derive(Debug, Clone)]
pub struct Listed {
    pub first: i64,
    pub last: i64,
    pub event: AgendaEvent,
}

pub open spec fn time_text(o: Occurrence, first: Moment, last: Moment, date: Day) -> Seq<char> {
    if o.all_day {
        "All day"@
    } else if o.first == o.last {
        clock_text(first, date)
    } else {
        clock_text(first, date) + "–"@ + clock_text(last, date)
    }
}

pub open spec fn title_of(o: Occurrence) -> Seq<char> {
    match o.summary {
        Some(summary) => summary@,
        None => "Untitled event"@,
    }
}

fn titled(o: &Occurrence, time: String) -> (r: Listed)
    ensures
        r.first == o.first,
        r.last == o.last,
        r.event@ == (AgendaView { title: title_of(*o), time: time@ }),
{
    let title = match &o.summary {
        Some(summary) => summary.as_str().to_owned(),
        None => "Untitled event".to_owned(),
    };
    Listed { first: o.first, last: o.last, event: AgendaEvent { title, time } }
}

/// The listed event, whose start and end fall on those moments.
pub fn listed_at(o: &Occurrence, first: Moment, last: Moment, date: Day) -> (r: Listed)
    requires
        first.valid(),
        last.valid(),
    ensures
        r.first == o.first,
        r.last == o.last,
        r.event@ == (AgendaView { title: title_of(*o), time: time_text(*o, first, last, date) }),
{
    let time = if o.all_day {
        "All day".to_owned()
    } else if o.first == o.last {
        clock(first, date)
    } else {
        let from = clock(first, date);
        let to = clock(last, date);
        concat3(from.as_str(), "–", to.as_str())
    };
    titled(o, time)
}

/// Whether an event is listed for a day.
pub fn lists(o: &Occurrence, w: &Window) -> (r: bool)
    ensures
        r == is_listed(*o, *w),
{
    !o.cancelled && o.dated && o.first < w.end && (o.last > w.start || (o.first == o.last
        && o.first >= w.start))
}

/// The listed time of an event.
pub open spec fn listed_time(o: Occurrence, date: Day) -> Seq<char> {
    time_text(
        o,
        shown_at(o.first + o.first_offset),
        shown_at(o.last + o.last_offset),
        date,
    )
}

/// An event that a calendar has, as it is listed for a day, if it is. Only one
/// that lasts all day needs no local time.
pub fn collect(o: &Occurrence, w: &Window) -> (r: Option<Listed>)
    requires
        is_listed(*o, *w) && !o.all_day ==> {
            &&& has_date(o.first * 1000)
            &&& has_date(o.last * 1000)
            &&& is_offset(o.first_offset)
            &&& is_offset(o.last_offset)
        },
    ensures
        match r {
            Some(listed) => {
                &&& is_listed(*o, *w)
                &&& listed.first == o.first
                &&& listed.last == o.last
                &&& listed.event@ == (AgendaView {
                    title: title_of(*o),
                    time: listed_time(*o, w.date),
                })
            },
            None => !is_listed(*o, *w),
        },
{
    if !lists(o, w) {
        return None;
    }
    if o.all_day {
        return Some(titled(o, "All day".to_owned()));
    }
    assert(o.first * 1000 / 1000 == o.first && o.last * 1000 / 1000 == o.last);
    match (local(o.first * 1000, o.first_offset), local(o.last * 1000, o.last_offset)) {
        (Some(first), Some(last)) => Some(listed_at(o, first, last, w.date)),
        _ => None,
    }
}

/// Events by start, then by end, then by title.
impl Ranked for Listed {
    open spec fn precedes(&self, other: &Self) -> bool {
        if self.first != other.first {
            self.first < other.first
        } else if self.last != other.last {
            self.last < other.last
        } else {
            text_before(self.event.title@, other.event.title@)
        }
    }

    fn before(&self, other: &Self) -> (r: bool) {
        if self.first != other.first {
            self.first < other.first
        } else if self.last != other.last {
            self.last < other.last
        } else {
            comes_before(self.event.title.as_str(), other.event.title.as_str())
        }
    }
}

pub open spec fn events_of(listed: Seq<Listed>) -> Seq<AgendaEvent> {
    listed.map_values(|l: Listed| l.event)
}

/// What the worker told last: the day and its events.
#[derive(Debug, Clone)]
pub struct Told {
    pub date: Day,
    pub events: Vec<AgendaEvent>,
}

/// Whether the worker has told just that.
pub open spec fn is_told(told: Option<Told>, date: Day, events: Seq<AgendaView>) -> bool {
    match told {
        Some(told) => told.date == date && agenda_views(told.events@) == events,
        None => false,
    }
}

fn same_events(a: &Vec<AgendaEvent>, b: &Vec<AgendaEvent>) -> (r: bool)
    ensures
        r == (agenda_views(a@) == agenda_views(b@)),
{
    let ghost x = agenda_views(a@);
    let ghost y = agenda_views(b@);
    assert(x.len() == a@.len() && y.len() == b@.len());
    if a.len() != b.len() {
        return false;
    }
    let mut i: usize = 0;
    while i < a.len()
        invariant
            i <= a@.len(),
            a@.len() == b@.len(),
            x == agenda_views(a@),
            y == agenda_views(b@),
            forall|j: int| 0 <= j < i ==> #[trigger] x[j] == y[j],
        decreases a@.len() - i,
    {
        if !same(a[i].title.as_str(), b[i].title.as_str()) || !same(
            a[i].time.as_str(),
            b[i].time.as_str(),
        ) {
            assert(x[i as int] != y[i as int]);
            return false;
        }
        assert(x[i as int] == y[i as int]);
        i += 1;
    }
    assert(x =~= y);
    true
}

/// The day's events in order, if there is anything to tell: not where the day
/// or the time zone moved on meanwhile, nor what was told already.
pub fn tell(told: &mut Option<Told>, date: Day, listed: Vec<Listed>, moved: bool) -> (news: bool)
    ensures
        ({
            let events = events_of(in_line(listed@));
            &&& news == (!moved && !is_told(*old(told), date, agenda_views(events)))
            &&& news ==> is_told(*final(told), date, agenda_views(events))
            &&& !news ==> *final(told) == *old(told)
        }),
{
    if moved {
        return false;
    }
    let mut line = sort(listed);
    let ghost order = line@;
    let mut events: Vec<AgendaEvent> = Vec::new();
    assert(order.skip(0) =~= order);
    while line.len() > 0
        invariant
            events@.len() + line@.len() == order.len(),
            line@ == order.skip(events@.len() as int),
            events@ == events_of(order.take(events@.len() as int)),
        decreases line@.len(),
    {
        let ghost n = events@.len() as int;
        let one = line.remove(0);
        assert(one == order[n]);
        assert(line@ =~= order.skip(n + 1));
        events.push(one.event);
        assert(events@ =~= events_of(order.take(n + 1)));
    }
    assert(order.take(events@.len() as int) =~= order);
    let known = match &*told {
        Some(told) => told.date == date && same_events(&told.events, &events),
        None => false,
    };
    if known {
        return false;
    }
    *told = Some(Told { date, events });
    true
}

/// The same day's events are told once, and told again only when they change.
pub proof fn law_nothing_is_told_twice(told: Option<Told>, date: Day, events: Seq<AgendaView>)
    requires
        is_told(told, date, events),
    ensures
        forall|other: Day| other != date ==> !#[trigger] is_told(told, other, events),
        forall|other: Seq<AgendaView>| other != events ==> !#[trigger] is_told(told, date, other),
{
}

/// Whether what was read is of another day, or another time zone, than now.
pub fn is_stale(selected: Option<Day>, date: Day, today: Day, zone_moved: bool) -> (r: bool)
    ensures
        r == ((selected is None && date != today) || zone_moved),
{
    (selected.is_none() && date != today) || zone_moved
}

/// How long to sleep, in milliseconds: until just past midnight, and a minute
/// at most.
pub fn tick_delay(now_ms: i64, midnight_ms: i64) -> (r: u32)
    ensures
        ({
            let left = midnight_ms - now_ms + 1;
            r == if left < 1 {
                1
            } else if left > 60_000 {
                60_000
            } else {
                left
            }
        }),
{
    let left: i128 = midnight_ms as i128 - now_ms as i128 + 1;
    if left < 1 {
        1
    } else if left > 60_000 {
        60_000
    } else {
        left as u32
    }
}

/// A moment as the data server reads it: `20260817T093000Z`.
pub open spec fn stamp_text(day: Day, second: int) -> Seq<char> {
    four_digits(day.year as nat) + two_digits(day.month as nat) + two_digits(day.day as nat)
        + "T"@ + two_digits((second / 3600) as nat) + two_digits(((second % 3600) / 60) as nat)
        + two_digits((second % 60) as nat) + "Z"@
}

pub open spec fn four_digits(n: nat) -> Seq<char> {
    two_digits((n / 100) as nat) + two_digits((n % 100) as nat)
}

/// Whether a text is the stamp of a second, in a year that has no sign.
pub open spec fn is_stamp(text: Seq<char>, second: int) -> bool {
    forall|day: Day| #[trigger]
        day.valid() && day.year >= 0 && day.number() == epoch() + second / 86_400 ==> text
            == stamp_text(day, second % 86_400)
}

/// `jiff::Timestamp::from_second` and its `strftime`, in UTC: there is a stamp
/// for the seconds that jiff's timestamps reach, of the day and time that many
/// seconds from the start of 1970. Of the years before the year 0 nothing is
/// said.
#[verifier::external_body]
pub(crate) fn stamp(second: i64) -> (r: Option<String>)
    ensures
        r is Some <==> has_date(second * 1000),
        r matches Some(text) ==> is_stamp(text@, second as int),
{
    Some(jiff::Timestamp::from_second(second).ok()?.strftime("%Y%m%dT%H%M%SZ").to_string())
}

/// The query for what may fall on a day, from one stamp to another.
pub open spec fn query_text(from: Seq<char>, to: Seq<char>) -> Seq<char> {
    "(occur-in-time-range? (make-time \""@ + from + "\") (make-time \""@ + to + "\"))"@
}

pub fn query_between(from: &str, to: &str) -> (r: String)
    ensures
        r@ == query_text(from@, to@),
{
    let front = concat4("(occur-in-time-range? (make-time \"", from, "\") (make-time \"", to);
    concat(front.as_str(), "\"))")
}

/// The query for what may fall on a day: from a day before it to a day after,
/// for the events of a whole day have no time zone.
pub fn query(w: &Window) -> (r: Option<String>)
    requires
        i64::MIN <= w.start - DAY,
        w.end + DAY <= i64::MAX,
    ensures
        r is Some <==> has_date((w.start - DAY) * 1000) && has_date((w.end + DAY) * 1000),
        r matches Some(text) ==> exists|from: Seq<char>, to: Seq<char>|
            is_stamp(from, w.start - DAY) && is_stamp(to, w.end + DAY) && text@
                == #[trigger] query_text(from, to),
{
    match (stamp(w.start - DAY), stamp(w.end + DAY)) {
        (Some(from), Some(to)) => Some(query_between(from.as_str(), to.as_str())),
        _ => None,
    }
}

} // verus!
