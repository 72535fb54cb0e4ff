//! Launcher module: a button that opens a card of applications.
use crate::paths::{join_path, seen_from};
use crate::text::{
    after_last, find, lines, opt_str, opt_text, pieces, same, split, starts_with, strip_prefix,
    strip_suffix, tail, text_lines, texts, trim, trim_start, trimmed, trimmed_start, unprefixed,
    unsuffixed,
};
use vstd::prelude::*;
use vstd::string::*;

verus! {

pub const ICON: &'static str = "\u{f385}";

/// The session launcher.
pub const LAUNCHER: &'static str = "walker";

pub const LAUNCHER_GLYPH: &'static str = "\u{f035c}";

pub const TERMINAL_GLYPH: &'static str = "\u{f018d}";

pub const FILES_GLYPH: &'static str = "\u{f024b}";

pub const BROWSER_GLYPH: &'static str = "\u{f059f}";

pub const MONITOR_GLYPH: &'static str = "\u{f012a}";

/// The mime type of what a browser opens.
pub const BROWSER_MIME: &'static str = "x-scheme-handler/https";

#[derive(Debug)]
pub enum Event {
    Launch(Vec<String>),
    Launched(Result<(), String>),
}

#[derive(Debug, Clone)]
pub struct State {
    pub error: Option<String>,
}

impl State {
    pub fn new() -> (r: State)
        ensures
            r.error is None,
    {
        State { error: None }
    }

    /// The command to start, in which case the card has done its job and is
    /// closed.
    pub fn update(&mut self, event: Event) -> (r: Option<Vec<String>>)
        ensures
            match event {
                Event::Launch(argv) => final(self).error is None && r == Some(argv),
                Event::Launched(Ok(_)) => final(self).error is None && r is None,
                Event::Launched(Err(error)) => final(self).error == Some(error) && r is None,
            },
    {
        match event {
            Event::Launch(argv) => {
                self.error = None;
                Some(argv)
            },
            Event::Launched(result) => {
                self.error = match result {
                    Ok(_) => None,
                    Err(error) => Some(error),
                };
                None
            },
        }
    }
}

/// The name of a program, without its directory.
pub fn leaf<'a>(program: &'a str) -> (r: &'a str)
    ensures
        r@ == tail(program@, '/'),
{
    after_last(program, '/')
}

/// A command line, and the name of what it starts.
#[derive(Debug, Clone)]
pub struct Target {
    pub hint: String,
    pub argv: Vec<String>,
}

pub struct TargetView {
    pub hint: Seq<char>,
    pub argv: Seq<Seq<char>>,
}

impl View for Target {
    type V = TargetView;

    open spec fn view(&self) -> TargetView {
        TargetView { hint: self.hint@, argv: texts(self.argv@) }
    }
}

pub open spec fn binary_target(program: Seq<char>) -> TargetView {
    TargetView { hint: tail(program, '/'), argv: seq![program] }
}

impl Target {
    /// A binary that is installed.
    pub fn binary(program: &str) -> (r: Target)
        ensures
            r@ == binary_target(program@),
    {
        let mut argv: Vec<String> = Vec::new();
        argv.push(program.to_owned());
        assert(texts(argv@) =~= seq![program@]);
        Target { hint: leaf(program).to_owned(), argv }
    }

    /// A desktop entry that is installed as `file` and calls itself `name`, if
    /// there is a program to launch it with.
    pub fn desktop(id: &str, file: &str, name: Option<String>, gio: bool, gtk: bool) -> (r: Option<
        Target,
    >)
        ensures
            match r {
                Some(target) => gio || gtk,
                None => !gio && !gtk,
            },
            r matches Some(target) ==> target@ == (TargetView {
                hint: match name {
                    Some(name) => name@,
                    None => id@,
                },
                argv: if gio {
                    seq!["gio"@, "launch"@, file@]
                } else {
                    seq!["gtk-launch"@, id@]
                },
            }),
    {
        let hint = match name {
            Some(name) => name,
            None => id.to_owned(),
        };
        let mut argv: Vec<String> = Vec::new();
        if gio {
            argv.push("gio".to_owned());
            argv.push("launch".to_owned());
            argv.push(file.to_owned());
            assert(texts(argv@) =~= seq!["gio"@, "launch"@, file@]);
        } else if gtk {
            argv.push("gtk-launch".to_owned());
            argv.push(id.to_owned());
            assert(texts(argv@) =~= seq!["gtk-launch"@, id@]);
        } else {
            return None;
        }
        Some(Target { hint, argv })
    }

    /// A program in a terminal.
    pub fn in_terminal(tui: &str, terminal: &str) -> (r: Target)
        ensures
            r@ == (TargetView {
                hint: tail(tui@, '/'),
                argv: seq![terminal@, "-e"@, tui@],
            }),
    {
        let mut argv: Vec<String> = Vec::new();
        argv.push(terminal.to_owned());
        argv.push("-e".to_owned());
        argv.push(tui.to_owned());
        assert(texts(argv@) =~= seq![terminal@, "-e"@, tui@]);
        Target { hint: leaf(tui).to_owned(), argv }
    }
}

/// Something to look for.
#[derive(Debug, Clone)]
pub enum Probe {
    /// A binary, by its name or path.
    Binary(String),
    /// A desktop entry, by its id.
    Desktop(String),
}

pub enum ProbeView {
    Binary(Seq<char>),
    Desktop(Seq<char>),
}

impl View for Probe {
    type V = ProbeView;

    open spec fn view(&self) -> ProbeView {
        match *self {
            Probe::Binary(program) => ProbeView::Binary(program@),
            Probe::Desktop(id) => ProbeView::Desktop(id@),
        }
    }
}

pub open spec fn probe_views(probes: Seq<Probe>) -> Seq<ProbeView> {
    probes.map_values(|p: Probe| p@)
}

fn push_binary(out: &mut Vec<Probe>, program: &str)
    ensures
        probe_views(final(out)@) == probe_views(old(out)@).push(ProbeView::Binary(program@)),
{
    let ghost had = out@;
    out.push(Probe::Binary(program.to_owned()));
    assert(probe_views(out@) =~= probe_views(had).push(ProbeView::Binary(program@)));
}

fn push_desktop(out: &mut Vec<Probe>, id: &str)
    ensures
        probe_views(final(out)@) == probe_views(old(out)@).push(ProbeView::Desktop(bare_id(id@))),
{
    let ghost had = out@;
    let bare = desktop_id(id).to_owned();
    out.push(Probe::Desktop(bare));
    assert(probe_views(out@) =~= probe_views(had).push(ProbeView::Desktop(bare_id(id@))));
}

/// A desktop entry's id, with or without its file's ending.
pub open spec fn bare_id(id: Seq<char>) -> Seq<char> {
    match unsuffixed(id, ".desktop"@) {
        Some(bare) => bare,
        None => id,
    }
}

pub fn desktop_id<'a>(id: &'a str) -> (r: &'a str)
    ensures
        r@ == bare_id(id@),
{
    match strip_suffix(id, ".desktop") {
        Some(bare) => bare,
        None => id,
    }
}

/// The file managers, in the order they are looked for.
pub fn files() -> (r: Vec<Probe>)
    ensures
        probe_views(r@) == seq![
            ProbeView::Binary("nautilus"@),
            ProbeView::Binary("dolphin"@),
            ProbeView::Binary("thunar"@),
            ProbeView::Binary("nemo"@),
            ProbeView::Binary("pcmanfm"@),
        ],
{
    let mut out: Vec<Probe> = Vec::new();
    push_binary(&mut out, "nautilus");
    push_binary(&mut out, "dolphin");
    push_binary(&mut out, "thunar");
    push_binary(&mut out, "nemo");
    push_binary(&mut out, "pcmanfm");
    assert(probe_views(out@) =~= seq![
        ProbeView::Binary("nautilus"@),
        ProbeView::Binary("dolphin"@),
        ProbeView::Binary("thunar"@),
        ProbeView::Binary("nemo"@),
        ProbeView::Binary("pcmanfm"@),
    ]);
    out
}

/// The system monitors with a window, in the order they are looked for.
pub fn monitors() -> (r: Vec<Probe>)
    ensures
        probe_views(r@) == seq![
            ProbeView::Binary("resources"@),
            ProbeView::Desktop(bare_id("net.nokyan.Resources"@)),
            ProbeView::Binary("missioncenter"@),
            ProbeView::Desktop(bare_id("io.missioncenter.MissionCenter"@)),
            ProbeView::Binary("gnome-system-monitor"@),
            ProbeView::Binary("plasma-systemmonitor"@),
        ],
{
    let mut out: Vec<Probe> = Vec::new();
    push_binary(&mut out, "resources");
    push_desktop(&mut out, "net.nokyan.Resources");
    push_binary(&mut out, "missioncenter");
    push_desktop(&mut out, "io.missioncenter.MissionCenter");
    push_binary(&mut out, "gnome-system-monitor");
    push_binary(&mut out, "plasma-systemmonitor");
    assert(probe_views(out@) =~= seq![
        ProbeView::Binary("resources"@),
        ProbeView::Desktop(bare_id("net.nokyan.Resources"@)),
        ProbeView::Binary("missioncenter"@),
        ProbeView::Desktop(bare_id("io.missioncenter.MissionCenter"@)),
        ProbeView::Binary("gnome-system-monitor"@),
        ProbeView::Binary("plasma-systemmonitor"@),
    ]);
    out
}

/// The system monitors that run in a terminal.
pub fn terminal_monitors() -> (r: Vec<Probe>)
    ensures
        probe_views(r@) == seq![ProbeView::Binary("btop"@), ProbeView::Binary("htop"@)],
{
    let mut out: Vec<Probe> = Vec::new();
    push_binary(&mut out, "btop");
    push_binary(&mut out, "htop");
    assert(probe_views(out@) =~= seq![ProbeView::Binary("btop"@), ProbeView::Binary("htop"@)]);
    out
}

/// What a configured browser is.
pub open spec fn configured_probe(browser: Seq<char>) -> Seq<ProbeView> {
    if browser.len() == 0 {
        Seq::empty()
    } else if unsuffixed(browser, ".desktop"@) is Some {
        seq![ProbeView::Desktop(bare_id(browser))]
    } else {
        seq![ProbeView::Binary(browser)]
    }
}

pub open spec fn well_known_browsers() -> Seq<ProbeView> {
    seq![
        ProbeView::Binary("firefox"@),
        ProbeView::Binary("chromium"@),
        ProbeView::Binary("google-chrome-stable"@),
        ProbeView::Binary("brave"@),
        ProbeView::Binary("epiphany"@),
        ProbeView::Binary("qutebrowser"@),
    ]
}

/// The browsers, in the order they are looked for: the configured one, those
/// that the session opens links with, then the well-known names.
pub fn browsers(configured: Option<&str>, defaults: &Vec<String>) -> (r: Vec<Probe>)
    ensures
        probe_views(r@) == (match configured {
            Some(browser) => configured_probe(browser@),
            None => Seq::empty(),
        }) + texts(defaults@).map_values(|id: Seq<char>| ProbeView::Desktop(bare_id(id)))
            + well_known_browsers(),
{
    let mut out: Vec<Probe> = Vec::new();
    assert(probe_views(out@) =~= Seq::empty());
    match configured {
        Some(browser) => {
            if !browser.is_empty() {
                if strip_suffix(browser, ".desktop").is_some() {
                    push_desktop(&mut out, browser);
                } else {
                    push_binary(&mut out, browser);
                }
            }
            assert(probe_views(out@) =~= configured_probe(browser@));
        },
        None => {},
    }
    let ghost first = probe_views(out@);
    let ghost ids = texts(defaults@).map_values(|id: Seq<char>| ProbeView::Desktop(bare_id(id)));
    let mut i: usize = 0;
    assert(first + ids.take(0) =~= first);
    assert(ids.len() == defaults@.len());
    while i < defaults.len()
        invariant
            i <= defaults@.len(),
            ids == texts(defaults@).map_values(
                |id: Seq<char>| ProbeView::Desktop(bare_id(id)),
            ),
            ids.len() == defaults@.len(),
            probe_views(out@) == first + ids.take(i as int),
        decreases defaults@.len() - i,
    {
        push_desktop(&mut out, defaults[i].as_str());
        assert(ids[i as int] == ProbeView::Desktop(bare_id(defaults@[i as int]@)));
        assert((first + ids.take(i as int)).push(ids[i as int]) =~= first + ids.take(i + 1));
        i += 1;
    }
    assert(ids.take(i as int) =~= ids);
    let ghost second = probe_views(out@);
    push_binary(&mut out, "firefox");
    push_binary(&mut out, "chromium");
    push_binary(&mut out, "google-chrome-stable");
    push_binary(&mut out, "brave");
    push_binary(&mut out, "epiphany");
    push_binary(&mut out, "qutebrowser");
    assert(probe_views(out@) =~= second + well_known_browsers());
    out
}

/// The lines behind the first heading of that name.
pub open spec fn behind(lines: Seq<Seq<char>>, heading: Seq<char>) -> Seq<Seq<char>>
    decreases lines.len(),
{
    if lines.len() == 0 {
        Seq::empty()
    } else if trimmed(lines[0]) == heading {
        lines.skip(1)
    } else {
        behind(lines.skip(1), heading)
    }
}

/// What the first line with that key gives it, up to the next heading.
pub open spec fn first_value(lines: Seq<Seq<char>>, key: Seq<char>) -> Option<Seq<char>>
    decreases lines.len(),
{
    if lines.len() == 0 || is_heading(lines[0]) {
        None
    } else {
        match key_value(lines[0], key) {
            Some(value) => Some(value),
            None => first_value(lines.skip(1), key),
        }
    }
}

pub open spec fn is_heading(line: Seq<char>) -> bool {
    trimmed_start(line).len() > 0 && trimmed_start(line)[0] == '['
}

/// What a line gives a key: what stands behind the key and an equals sign.
pub open spec fn key_value(line: Seq<char>, key: Seq<char>) -> Option<Seq<char>> {
    match unprefixed(line, key) {
        Some(rest) => unprefixed(rest, "="@),
        None => None,
    }
}

/// A key is given a value only by a line that is that key, an equals sign and
/// the value: no key answers for a longer one.
pub proof fn law_keys_are_exact(line: Seq<char>, key: Seq<char>, value: Seq<char>)
    ensures
        key_value(line, key) == Some(value) <==> line == key + "="@ + value,
{
    reveal_strlit("=");
    assert("="@.len() == 1);
    let whole = key + "="@ + value;
    if line == whole {
        assert(key.is_prefix_of(line)) by {
            assert(line.subrange(0, key.len() as int) =~= key);
        }
        let rest = line.skip(key.len() as int);
        assert(rest =~= "="@ + value);
        assert("="@.is_prefix_of(rest)) by {
            assert(rest.subrange(0, 1) =~= "="@);
        }
        assert(rest.skip(1) =~= value);
    }
    if key_value(line, key) == Some(value) {
        let rest = line.skip(key.len() as int);
        assert(line =~= key + rest);
        assert(rest =~= "="@ + rest.skip(1));
        assert(line =~= whole);
    }
}

/// What a group of settings gives a key.
pub open spec fn value_in(text: Seq<char>, heading: Seq<char>, key: Seq<char>) -> Option<Seq<char>> {
    first_value(behind(text_lines(text), heading), key)
}

fn lookup(text: &str, heading: &str, key: &str) -> (r: Option<String>)
    ensures
        opt_text(r) == value_in(text@, heading@, key@),
{
    let list = lines(text);
    let ghost all = text_lines(text@);
    assert(texts(list@).len() == list@.len());
    let mut i: usize = 0;
    let mut found: bool = false;
    assert(all.skip(0) =~= all);
    while i < list.len() && !found
        invariant
            i <= list@.len(),
            all == texts(list@),
            all.len() == list@.len(),
            if found {
                behind(all, heading@) == all.skip(i as int)
            } else {
                behind(all, heading@) == behind(all.skip(i as int), heading@)
            },
        decreases list@.len() - i,
    {
        proof {
            assert(all.skip(i as int)[0] == list@[i as int]@);
            assert(all.skip(i as int).skip(1) =~= all.skip(i + 1));
        }
        if same(trim(list[i].as_str()), heading) {
            found = true;
        }
        i += 1;
    }
    proof {
        if !found {
            assert(all.skip(i as int) =~= Seq::empty());
            assert(behind(all, heading@) =~= all.skip(i as int));
        }
    }
    let ghost part = behind(all, heading@);
    while i < list.len()
        invariant
            i <= list@.len(),
            all == texts(list@),
            all.len() == list@.len(),
            all == text_lines(text@),
            part == behind(all, heading@),
            first_value(part, key@) == first_value(all.skip(i as int), key@),
        decreases list@.len() - i,
    {
        let line = list[i].as_str();
        proof {
            assert(all.skip(i as int)[0] == line@);
            assert(all.skip(i as int).skip(1) =~= all.skip(i + 1));
            reveal_strlit("[");
            assert("["@.len() == 1);
            let start = trimmed_start(line@);
            if start.len() > 0 && start[0] == '[' {
                assert(start.subrange(0, 1) =~= "["@);
            }
            if "["@.is_prefix_of(start) {
                assert(start.subrange(0, 1)[0] == "["@[0]);
            }
        }
        if starts_with(trim_start(line), "[") {
            return None;
        }
        match strip_prefix(line, key) {
            Some(rest) => match strip_prefix(rest, "=") {
                Some(value) => {
                    return Some(value.to_owned());
                },
                None => {},
            },
            None => {},
        }
        i += 1;
    }
    assert(all.skip(i as int) =~= Seq::empty());
    None
}

/// What a desktop entry calls itself: not in another language, and not what its
/// actions are called.
pub fn desktop_name(text: &str) -> (r: Option<String>)
    ensures
        opt_text(r) == match value_in(text@, "[Desktop Entry]"@, "Name"@) {
            Some(name) => Some(trimmed(name)),
            None => None,
        },
{
    match lookup(text, "[Desktop Entry]", "Name") {
        Some(name) => Some(trim(name.as_str()).to_owned()),
        None => None,
    }
}

/// The ids in a list of them: what stands between semicolons and is not blank.
pub open spec fn ids_of(parts: Seq<Seq<char>>) -> Seq<Seq<char>>
    decreases parts.len(),
{
    if parts.len() == 0 {
        Seq::empty()
    } else {
        let before = ids_of(parts.drop_last());
        let id = trimmed(parts.last());
        if id.len() == 0 {
            before
        } else {
            before.push(id)
        }
    }
}

pub open spec fn ids_in(value: Option<Seq<char>>) -> Seq<Seq<char>> {
    match value {
        Some(value) => ids_of(pieces(value, ';')),
        None => Seq::empty(),
    }
}

fn push_ids(out: &mut Vec<String>, value: Option<String>)
    ensures
        texts(final(out)@) == texts(old(out)@) + ids_in(opt_text(value)),
{
    let ghost first = texts(out@);
    match value {
        Some(value) => {
            let parts = split(value.as_str(), ';');
            let ghost all = texts(parts@);
            assert(all.len() == parts@.len());
            let mut i: usize = 0;
            assert(first + Seq::<Seq<char>>::empty() =~= first);
            while i < parts.len()
                invariant
                    i <= parts@.len(),
                    all == texts(parts@),
                    all.len() == parts@.len(),
                    texts(out@) == first + ids_of(all.take(i as int)),
                decreases parts@.len() - i,
            {
                proof {
                    assert(all.take(i + 1).drop_last() =~= all.take(i as int));
                    assert(all.take(i + 1).last() == parts@[i as int]@);
                }
                let id = trim(parts[i].as_str());
                if !id.is_empty() {
                    let ghost had = out@;
                    let ghost before = ids_of(all.take(i as int));
                    out.push(id.to_owned());
                    assert(texts(out@) =~= texts(had).push(id@));
                    assert((first + before).push(id@) =~= first + before.push(id@));
                }
                i += 1;
            }
            assert(all.take(i as int) =~= all);
        },
        None => {
            assert(first + Seq::<Seq<char>>::empty() =~= first);
        },
    }
}

/// The applications that a list of them names for a mime type: the defaults
/// ahead of those that were added.
pub fn handlers(text: &str, mime: &str) -> (r: Vec<String>)
    ensures
        texts(r@) == ids_in(value_in(text@, "[Default Applications]"@, mime@)) + ids_in(
            value_in(text@, "[Added Associations]"@, mime@),
        ),
{
    let mut out: Vec<String> = Vec::new();
    push_ids(&mut out, lookup(text, "[Default Applications]", mime));
    assert(texts(out@) =~= ids_in(value_in(text@, "[Default Applications]"@, mime@)));
    push_ids(&mut out, lookup(text, "[Added Associations]", mime));
    out
}

/// A variable that is set to nothing counts as unset.
pub open spec fn set_to(value: Option<Seq<char>>) -> Option<Seq<char>> {
    match value {
        Some(value) => if value.len() == 0 {
            None
        } else {
            Some(value)
        },
        None => None,
    }
}

/// The directories to search: the user's own, which is `under` the home
/// directory unless it is set, then the system's.
pub open spec fn searched(
    own: Option<Seq<char>>,
    home: Option<Seq<char>>,
    under: Seq<char>,
    dirs: Option<Seq<char>>,
    usual: Seq<char>,
) -> Seq<Seq<char>> {
    (match set_to(own) {
        Some(own) => seq![own],
        None => match home {
            Some(home) => seq![seen_from(home, under)],
            None => Seq::empty(),
        },
    }) + pieces(
        match set_to(dirs) {
            Some(dirs) => dirs,
            None => usual,
        },
        ':',
    )
}

pub fn search_dirs(
    own: Option<&str>,
    home: Option<&str>,
    under: &str,
    dirs: Option<&str>,
    usual: &str,
) -> (r: Vec<String>)
    ensures
        texts(r@) == searched(opt_str(own), opt_str(home), under@, opt_str(dirs), usual@),
{
    let mut out: Vec<String> = Vec::new();
    assert(texts(out@) =~= Seq::empty());
    let set = match own {
        Some(own) => if own.is_empty() {
            None
        } else {
            Some(own)
        },
        None => None,
    };
    match set {
        Some(own) => {
            out.push(own.to_owned());
            assert(texts(out@) =~= seq![own@]);
        },
        None => match home {
            Some(home) => {
                out.push(join_path(home, under));
                assert(texts(out@) =~= seq![seen_from(home@, under@)]);
            },
            None => {},
        },
    }
    let dirs: &str = match dirs {
        Some(dirs) => if dirs.is_empty() {
            usual
        } else {
            dirs
        },
        None => usual,
    };
    let ghost first = out@;
    let mut rest = split(dirs, ':');
    let ghost more = rest@;
    out.append(&mut rest);
    assert(texts(out@) =~= texts(first) + texts(more));
    out
}

/// Where a program may stand: at its own path, or in the directories of the
/// search path.
pub open spec fn places_of(program: Seq<char>, path: Option<Seq<char>>) -> Seq<Seq<char>> {
    if program.contains('/') {
        seq![program]
    } else {
        match path {
            Some(path) => pieces(path, ':').map_values(|dir: Seq<char>| seen_from(dir, program)),
            None => Seq::empty(),
        }
    }
}

pub fn places(program: &str, path: Option<&str>) -> (r: Vec<String>)
    ensures
        texts(r@) == places_of(program@, opt_str(path)),
{
    let mut out: Vec<String> = Vec::new();
    assert(texts(out@) =~= Seq::empty());
    match find(program, '/') {
        Some(i) => {
            proof {
                program@.index_of_first_ensures('/');
                assert(program@[i as int] == '/');
            }
            out.push(program.to_owned());
            assert(texts(out@) =~= seq![program@]);
            return out;
        },
        None => {},
    }
    match path {
        Some(path) => {
            let dirs = split(path, ':');
            let ghost all = texts(dirs@);
            assert(all.len() == dirs@.len());
            let mut i: usize = 0;
            while i < dirs.len()
                invariant
                    i <= dirs@.len(),
                    all == texts(dirs@),
                    all.len() == dirs@.len(),
                    out@.len() == i,
                    forall|j: int|
                        0 <= j < i ==> (#[trigger] out@[j])@ == seen_from(all[j], program@),
                decreases dirs@.len() - i,
            {
                assert(all[i as int] == dirs@[i as int]@);
                out.push(join_path(dirs[i].as_str(), program));
                i += 1;
            }
            assert(texts(out@) =~= all.map_values(|dir: Seq<char>| seen_from(dir, program@)));
        },
        None => {},
    }
    out
}

/// An entry of the card.
#[derive(Debug, Clone)]
pub struct Entry {
    pub glyph: &'static str,
    pub label: &'static str,
    pub target: Target,
}

pub struct EntryView {
    pub glyph: Seq<char>,
    pub label: Seq<char>,
    pub target: TargetView,
}

impl View for Entry {
    type V = EntryView;

    open spec fn view(&self) -> EntryView {
        EntryView { glyph: self.glyph@, label: self.label@, target: self.target@ }
    }
}

pub open spec fn entry_views(entries: Seq<Entry>) -> Seq<EntryView> {
    entries.map_values(|e: Entry| e@)
}

/// An entry, where there is something to launch.
pub open spec fn entry_for(glyph: Seq<char>, label: Seq<char>, target: Option<Target>) -> Seq<
    EntryView,
> {
    match target {
        Some(target) => seq![EntryView { glyph, label, target: target@ }],
        None => Seq::empty(),
    }
}

fn push_entry(
    out: &mut Vec<Entry>,
    glyph: &'static str,
    label: &'static str,
    target: Option<Target>,
)
    ensures
        entry_views(final(out)@) == entry_views(old(out)@) + entry_for(glyph@, label@, target),
{
    let ghost had = out@;
    match target {
        Some(target) => {
            out.push(Entry { glyph, label, target });
        },
        None => {},
    }
    assert(entry_views(out@) =~= entry_views(had) + entry_for(glyph@, label@, target));
}

/// The card: one entry for each role that something is installed for.
pub fn entries(
    launcher: Option<Target>,
    terminal: Option<Target>,
    files: Option<Target>,
    browser: Option<Target>,
    monitor: Option<Target>,
) -> (r: Vec<Entry>)
    ensures
        entry_views(r@) == entry_for(LAUNCHER_GLYPH@, "Applications"@, launcher) + entry_for(
            TERMINAL_GLYPH@,
            "Terminal"@,
            terminal,
        ) + entry_for(FILES_GLYPH@, "Files"@, files) + entry_for(
            BROWSER_GLYPH@,
            "Browser"@,
            browser,
        ) + entry_for(MONITOR_GLYPH@, "System monitor"@, monitor),
{
    let mut out: Vec<Entry> = Vec::new();
    push_entry(&mut out, LAUNCHER_GLYPH, "Applications", launcher);
    assert(entry_views(out@) =~= entry_for(LAUNCHER_GLYPH@, "Applications"@, launcher));
    push_entry(&mut out, TERMINAL_GLYPH, "Terminal", terminal);
    push_entry(&mut out, FILES_GLYPH, "Files", files);
    push_entry(&mut out, BROWSER_GLYPH, "Browser", browser);
    push_entry(&mut out, MONITOR_GLYPH, "System monitor", monitor);
    out
}

/// What the popup shows.
#[derive(Debug, Clone)]
pub struct Popup {
    pub entries: Vec<Entry>,
    pub error: Option<String>,
}

impl State {
    /// Whether there is a popup: always.
    pub open spec fn pops_up(self) -> bool {
        true
    }

    pub fn has_popup(&self) -> (r: bool)
        ensures
            r == self.pops_up(),
    {
        true
    }

    pub fn popup(&self, entries: Vec<Entry>) -> (r: Option<Popup>)
        ensures
            r is Some <==> self.pops_up(),
            r matches Some(p) ==> p.entries == entries && opt_text(p.error) == opt_text(
                self.error,
            ),
    {
        let error = match &self.error {
            Some(error) => Some(error.as_str().to_owned()),
            None => None,
        };
        Some(Popup { entries, error })
    }
}

} // verus!
