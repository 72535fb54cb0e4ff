//! What a module is called, and how a set of modules is kept.
use crate::text::{concat, concat3, same, strip_prefix, unprefixed};
use vstd::prelude::*;
use vstd::string::*;

verus! {

/// Identifies a module in the config file, on the control socket and at
/// runtime.
#[derive(Debug, Clone, Copy, PartialEq, Eq, Structural, Hash, PartialOrd, Ord)]
pub enum ModuleId {
    Time,
    Date,
    Workspaces,
    Taskbar,
    Cpu,
    Memory,
    Gpu,
    Network,
    Bluetooth,
    Volume,
    Mpris,
    Tray,
    Notifications,
    Updates,
    Battery,
    Brightness,
    IdleInhibitor,
    Launcher,
    Power,
    /// A module whose cell and popup come from another process. The payload is
    /// the index of its config name.
    Extension(u32),
}

/// Extension names come from the config, but a [`ModuleId`] is `Copy` and has
/// to stay meaningful for as long as anything holds one. So each distinct name
/// is registered once in this table and carried as its index. The table only
/// ever grows by names the config actually used.
#[derive(Debug, Clone)]
pub struct Names {
    pub names: Vec<String>,
}

/// The position of a built-in module among all of them, so a set of them fits
/// in a bitmask. `None` for an extension.
pub open spec fn bit_of(id: ModuleId) -> Option<u32> {
    match id {
        ModuleId::Time => Some(0),
        ModuleId::Date => Some(1),
        ModuleId::Workspaces => Some(2),
        ModuleId::Taskbar => Some(3),
        ModuleId::Cpu => Some(4),
        ModuleId::Memory => Some(5),
        ModuleId::Gpu => Some(6),
        ModuleId::Network => Some(7),
        ModuleId::Bluetooth => Some(8),
        ModuleId::Volume => Some(9),
        ModuleId::Mpris => Some(10),
        ModuleId::Tray => Some(11),
        ModuleId::Notifications => Some(12),
        ModuleId::Updates => Some(13),
        ModuleId::Battery => Some(14),
        ModuleId::Brightness => Some(15),
        ModuleId::IdleInhibitor => Some(16),
        ModuleId::Launcher => Some(17),
        ModuleId::Power => Some(18),
        ModuleId::Extension(_) => None,
    }
}

/// The name of a built-in module; of an extension, nothing.
pub open spec fn builtin_name(id: ModuleId) -> Seq<char> {
    match id {
        ModuleId::Time => "time"@,
        ModuleId::Date => "date"@,
        ModuleId::Workspaces => "workspaces"@,
        ModuleId::Taskbar => "taskbar"@,
        ModuleId::Cpu => "cpu"@,
        ModuleId::Memory => "memory"@,
        ModuleId::Gpu => "gpu"@,
        ModuleId::Network => "network"@,
        ModuleId::Bluetooth => "bluetooth"@,
        ModuleId::Volume => "volume"@,
        ModuleId::Mpris => "mpris"@,
        ModuleId::Tray => "tray"@,
        ModuleId::Notifications => "notifications"@,
        ModuleId::Updates => "updates"@,
        ModuleId::Battery => "battery"@,
        ModuleId::Brightness => "brightness"@,
        ModuleId::IdleInhibitor => "idle_inhibitor"@,
        ModuleId::Launcher => "launcher"@,
        ModuleId::Power => "power"@,
        ModuleId::Extension(_) => Seq::empty(),
    }
}

/// The built-in module of that name.
pub open spec fn builtin_named(name: Seq<char>) -> Option<ModuleId> {
    if name == "time"@ {
        Some(ModuleId::Time)
    } else if name == "date"@ {
        Some(ModuleId::Date)
    } else if name == "workspaces"@ {
        Some(ModuleId::Workspaces)
    } else if name == "taskbar"@ {
        Some(ModuleId::Taskbar)
    } else if name == "cpu"@ {
        Some(ModuleId::Cpu)
    } else if name == "memory"@ {
        Some(ModuleId::Memory)
    } else if name == "gpu"@ {
        Some(ModuleId::Gpu)
    } else if name == "network"@ {
        Some(ModuleId::Network)
    } else if name == "bluetooth"@ {
        Some(ModuleId::Bluetooth)
    } else if name == "volume"@ {
        Some(ModuleId::Volume)
    } else if name == "mpris"@ {
        Some(ModuleId::Mpris)
    } else if name == "tray"@ {
        Some(ModuleId::Tray)
    } else if name == "notifications"@ {
        Some(ModuleId::Notifications)
    } else if name == "updates"@ {
        Some(ModuleId::Updates)
    } else if name == "battery"@ {
        Some(ModuleId::Battery)
    } else if name == "brightness"@ {
        Some(ModuleId::Brightness)
    } else if name == "idle_inhibitor"@ {
        Some(ModuleId::IdleInhibitor)
    } else if name == "launcher"@ {
        Some(ModuleId::Launcher)
    } else if name == "power"@ {
        Some(ModuleId::Power)
    } else {
        None
    }
}

/// The text of the name at an index; nothing for an index that was never
/// handed out.
pub open spec fn name_at(names: Seq<String>, index: int) -> Seq<char> {
    if 0 <= index < names.len() {
        names[index]@
    } else {
        Seq::empty()
    }
}

/// The name used in config files and control commands.
pub open spec fn id_name(id: ModuleId, names: Seq<String>) -> Seq<char> {
    match id {
        ModuleId::Extension(index) => "extension:"@ + name_at(names, index as int),
        _ => builtin_name(id),
    }
}

/// Where a name stands in the table.
pub open spec fn index_in(names: Seq<String>, name: Seq<char>) -> Option<int>
    decreases names.len(),
{
    if names.len() == 0 {
        None
    } else if names[0]@ == name {
        Some(0)
    } else {
        match index_in(names.skip(1), name) {
            Some(i) => Some(i + 1),
            None => None,
        }
    }
}

proof fn lemma_index_in(names: Seq<String>, name: Seq<char>, i: int)
    requires
        0 <= i <= names.len(),
        forall|j: int| 0 <= j < i ==> (#[trigger] names[j])@ != name,
        i < names.len() ==> names[i]@ == name,
    ensures
        index_in(names, name) == if i < names.len() {
            Some(i)
        } else {
            None
        },
    decreases names.len(),
{
    if i > 0 && names.len() > 0 {
        let rest = names.skip(1);
        assert forall|j: int| 0 <= j < i - 1 implies (#[trigger] rest[j])@ != name by {
            assert(rest[j] == names[j + 1]);
        }
        assert(names[0]@ != name);
        lemma_index_in(rest, name, i - 1);
    }
}

/// Whether a table knows a name, or has an index left for it.
pub open spec fn has_room(names: Seq<String>, name: Seq<char>) -> bool {
    index_in(names, name) is Some || names.len() <= u32::MAX
}

/// Whether `index` is that of `name` in `after`, which is `before` with the
/// name registered: at its own index where it was known, else at the end.
pub open spec fn is_interned(
    before: Seq<String>,
    name: Seq<char>,
    after: Seq<String>,
    index: u32,
) -> bool {
    &&& index < after.len()
    &&& after[index as int]@ == name
    &&& match index_in(before, name) {
        Some(known) => index == known && after == before,
        None => index == before.len() && after == before.push(after[index as int]),
    }
}

impl Names {
    /// No name stands in the table twice, and an index has room for every one.
    pub open spec fn wf(self) -> bool {
        &&& self.names@.len() <= u32::MAX + 1
        &&& forall|i: int, j: int|
            #![trigger self.names@[i], self.names@[j]]
            0 <= i < j < self.names@.len() ==> self.names@[i]@ != self.names@[j]@
    }

    pub fn new() -> (r: Names)
        ensures
            r.wf(),
            r.names@.len() == 0,
    {
        Names { names: Vec::new() }
    }

    /// Index of `name`, and no more: nothing is registered. Names arriving
    /// from outside the config can only mean something that is already known,
    /// and a table that grew by an entry per typo would never give it back.
    pub fn interned_index(&self, name: &str) -> (r: Option<u32>)
        requires
            self.wf(),
        ensures
            match r {
                Some(i) => index_in(self.names@, name@) == Some(i as int) && i < self.names@.len()
                    && self.names@[i as int]@ == name@,
                None => index_in(self.names@, name@) is None && forall|j: int|
                    0 <= j < self.names@.len() ==> (#[trigger] self.names@[j])@ != name@,
            },
    {
        let mut i: usize = 0;
        while i < self.names.len()
            invariant
                i <= self.names@.len(),
                self.names@.len() <= u32::MAX + 1,
                forall|j: int| 0 <= j < i ==> (#[trigger] self.names@[j])@ != name@,
            decreases self.names@.len() - i,
        {
            if same(self.names[i].as_str(), name) {
                proof {
                    lemma_index_in(self.names@, name@, i as int);
                }
                return Some(i as u32);
            }
            i += 1;
        }
        proof {
            lemma_index_in(self.names@, name@, i as int);
        }
        None
    }

    /// Index of `name` in the table, registering it on first sight.
    pub fn intern(&mut self, name: &str) -> (r: u32)
        requires
            old(self).wf(),
            has_room(old(self).names@, name@),
        ensures
            final(self).wf(),
            is_interned(old(self).names@, name@, final(self).names@, r),
    {
        match self.interned_index(name) {
            Some(index) => index,
            None => {
                let index: u32 = self.names.len() as u32;
                self.names.push(name.to_owned());
                index
            },
        }
    }

    /// The name behind an index. Empty only for an index that was never handed
    /// out.
    pub fn interned(&self, index: u32) -> (r: String)
        ensures
            r@ == name_at(self.names@, index as int),
    {
        if (index as usize) < self.names.len() {
            self.names[index as usize].as_str().to_owned()
        } else {
            String::new()
        }
    }
}

fn builtin(id: ModuleId) -> (r: &'static str)
    requires
        !(id is Extension),
    ensures
        r@ == builtin_name(id),
{
    match id {
        ModuleId::Time => "time",
        ModuleId::Date => "date",
        ModuleId::Workspaces => "workspaces",
        ModuleId::Taskbar => "taskbar",
        ModuleId::Cpu => "cpu",
        ModuleId::Memory => "memory",
        ModuleId::Gpu => "gpu",
        ModuleId::Network => "network",
        ModuleId::Bluetooth => "bluetooth",
        ModuleId::Volume => "volume",
        ModuleId::Mpris => "mpris",
        ModuleId::Tray => "tray",
        ModuleId::Notifications => "notifications",
        ModuleId::Updates => "updates",
        ModuleId::Battery => "battery",
        ModuleId::Brightness => "brightness",
        ModuleId::IdleInhibitor => "idle_inhibitor",
        ModuleId::Launcher => "launcher",
        ModuleId::Power => "power",
        ModuleId::Extension(_) => "",
    }
}

fn find_builtin(name: &str) -> (r: Option<ModuleId>)
    ensures
        r == builtin_named(name@),
{
    if same(name, "time") {
        Some(ModuleId::Time)
    } else if same(name, "date") {
        Some(ModuleId::Date)
    } else if same(name, "workspaces") {
        Some(ModuleId::Workspaces)
    } else if same(name, "taskbar") {
        Some(ModuleId::Taskbar)
    } else if same(name, "cpu") {
        Some(ModuleId::Cpu)
    } else if same(name, "memory") {
        Some(ModuleId::Memory)
    } else if same(name, "gpu") {
        Some(ModuleId::Gpu)
    } else if same(name, "network") {
        Some(ModuleId::Network)
    } else if same(name, "bluetooth") {
        Some(ModuleId::Bluetooth)
    } else if same(name, "volume") {
        Some(ModuleId::Volume)
    } else if same(name, "mpris") {
        Some(ModuleId::Mpris)
    } else if same(name, "tray") {
        Some(ModuleId::Tray)
    } else if same(name, "notifications") {
        Some(ModuleId::Notifications)
    } else if same(name, "updates") {
        Some(ModuleId::Updates)
    } else if same(name, "battery") {
        Some(ModuleId::Battery)
    } else if same(name, "brightness") {
        Some(ModuleId::Brightness)
    } else if same(name, "idle_inhibitor") {
        Some(ModuleId::IdleInhibitor)
    } else if same(name, "launcher") {
        Some(ModuleId::Launcher)
    } else if same(name, "power") {
        Some(ModuleId::Power)
    } else {
        None
    }
}

/// What a name from outside the config means: an extension that nothing has
/// declared is unknown.
pub open spec fn declared(name: Seq<char>, names: Seq<String>) -> Option<ModuleId> {
    match unprefixed(name, "extension:"@) {
        Some(rest) => match index_in(names, rest) {
            Some(i) => Some(ModuleId::Extension(i as u32)),
            None => None,
        },
        None => builtin_named(name),
    }
}

impl ModuleId {
    pub fn bit(self) -> (r: Option<u32>)
        ensures
            r == bit_of(self),
    {
        match self {
            ModuleId::Time => Some(0),
            ModuleId::Date => Some(1),
            ModuleId::Workspaces => Some(2),
            ModuleId::Taskbar => Some(3),
            ModuleId::Cpu => Some(4),
            ModuleId::Memory => Some(5),
            ModuleId::Gpu => Some(6),
            ModuleId::Network => Some(7),
            ModuleId::Bluetooth => Some(8),
            ModuleId::Volume => Some(9),
            ModuleId::Mpris => Some(10),
            ModuleId::Tray => Some(11),
            ModuleId::Notifications => Some(12),
            ModuleId::Updates => Some(13),
            ModuleId::Battery => Some(14),
            ModuleId::Brightness => Some(15),
            ModuleId::IdleInhibitor => Some(16),
            ModuleId::Launcher => Some(17),
            ModuleId::Power => Some(18),
            ModuleId::Extension(_) => None,
        }
    }

    /// The name used in config files and control commands.
    pub fn name(self, names: &Names) -> (r: String)
        ensures
            r@ == id_name(self, names.names@),
    {
        match self {
            ModuleId::Extension(index) => concat("extension:", names.interned(index).as_str()),
            _ => builtin(self).to_owned(),
        }
    }

    /// The id of the extension declared under `name` in the config.
    pub fn extension(name: &str, names: &mut Names) -> (r: ModuleId)
        requires
            old(names).wf(),
            has_room(old(names).names@, name@),
        ensures
            final(names).wf(),
            r matches ModuleId::Extension(i) && is_interned(
                old(names).names@,
                name@,
                final(names).names@,
                i,
            ),
    {
        ModuleId::Extension(names.intern(name))
    }

    /// The module that a name in the config means. An undeclared extension is
    /// not an error here: one with no entry simply draws nothing.
    pub fn parse(name: &str, names: &mut Names) -> (r: Option<ModuleId>)
        requires
            old(names).wf(),
            unprefixed(name@, "extension:"@) matches Some(rest) ==> has_room(
                old(names).names@,
                rest,
            ),
        ensures
            final(names).wf(),
            match unprefixed(name@, "extension:"@) {
                Some(rest) => if rest.len() == 0 {
                    r is None && final(names).names@ == old(names).names@
                } else {
                    r matches Some(ModuleId::Extension(i)) && is_interned(
                        old(names).names@,
                        rest,
                        final(names).names@,
                        i,
                    )
                },
                None => r == builtin_named(name@) && final(names).names@ == old(names).names@,
            },
    {
        match strip_prefix(name, "extension:") {
            Some(rest) => if rest.is_empty() {
                None
            } else {
                Some(ModuleId::extension(rest, names))
            },
            None => find_builtin(name),
        }
    }

    /// Like [`ModuleId::parse`], but for a name from outside the config file:
    /// an extension nothing has declared is unknown rather than newly
    /// registered, so junk on the control socket cannot grow the name table.
    pub fn parse_declared(name: &str, names: &Names) -> (r: Option<ModuleId>)
        requires
            names.wf(),
        ensures
            r == declared(name@, names.names@),
    {
        match strip_prefix(name, "extension:") {
            Some(rest) => match names.interned_index(rest) {
                Some(i) => Some(ModuleId::Extension(i)),
                None => None,
            },
            None => find_builtin(name),
        }
    }
}

/// What is said of a name that means no module.
pub open spec fn unknown_module(name: Seq<char>) -> Seq<char> {
    "unknown module `"@ + name + "`; known modules: time, date, workspaces, taskbar, cpu, memory, gpu, network, bluetooth, volume, mpris, tray, notifications, updates, battery, brightness, idle_inhibitor, launcher, power"@
}

pub fn unknown_text(name: &str) -> (r: String)
    ensures
        r@ == unknown_module(name@),
{
    concat3(
        "unknown module `",
        name,
        "`; known modules: time, date, workspaces, taskbar, cpu, memory, gpu, network, bluetooth, volume, mpris, tray, notifications, updates, battery, brightness, idle_inhibitor, launcher, power",
    )
}

/// A built-in module is what its name means.
pub proof fn law_names_name_their_modules(id: ModuleId, names: Seq<String>)
    requires
        !(id is Extension),
    ensures
        declared(id_name(id, names), names) == Some(id),
        builtin_named(id_name(id, names)) == Some(id),
{
    lemma_builtin_names(id);
}

proof fn lemma_builtin_names(id: ModuleId)
    requires
        !(id is Extension),
    ensures
        builtin_named(builtin_name(id)) == Some(id),
        !"extension:"@.is_prefix_of(builtin_name(id)),
{
    reveal_strlit("extension:");
    reveal_strlit("time");
    reveal_strlit("date");
    reveal_strlit("workspaces");
    reveal_strlit("taskbar");
    reveal_strlit("cpu");
    reveal_strlit("memory");
    reveal_strlit("gpu");
    reveal_strlit("network");
    reveal_strlit("bluetooth");
    reveal_strlit("volume");
    reveal_strlit("mpris");
    reveal_strlit("tray");
    reveal_strlit("notifications");
    reveal_strlit("updates");
    reveal_strlit("battery");
    reveal_strlit("brightness");
    reveal_strlit("idle_inhibitor");
    reveal_strlit("launcher");
    reveal_strlit("power");
    assert("time"@.len() == 4);
    assert("date"@.len() == 4);
    assert("workspaces"@.len() == 10);
    assert("taskbar"@.len() == 7);
    assert("cpu"@.len() == 3);
    assert("memory"@.len() == 6);
    assert("gpu"@.len() == 3);
    assert("network"@.len() == 7);
    assert("bluetooth"@.len() == 9);
    assert("volume"@.len() == 6);
    assert("mpris"@.len() == 5);
    assert("tray"@.len() == 4);
    assert("notifications"@.len() == 13);
    assert("updates"@.len() == 7);
    assert("battery"@.len() == 7);
    assert("brightness"@.len() == 10);
    assert("idle_inhibitor"@.len() == 14);
    assert("launcher"@.len() == 8);
    assert("power"@.len() == 5);
    assert("time"@[0] != "date"@[0]);
    assert("cpu"@[0] != "gpu"@[0]);
    assert("taskbar"@[0] != "network"@[0]);
    assert("memory"@[0] != "volume"@[0]);
    assert("time"@[1] != "tray"@[1]);
    assert("date"@[0] != "tray"@[0]);
    assert("taskbar"@[0] != "updates"@[0]);
    assert("network"@[0] != "updates"@[0]);
    assert("taskbar"@[0] != "battery"@[0]);
    assert("network"@[0] != "battery"@[0]);
    assert("updates"@[0] != "battery"@[0]);
    assert("workspaces"@[0] != "brightness"@[0]);
    assert("mpris"@[0] != "power"@[0]);
    let name = builtin_name(id);
    assert("extension:"@.len() == 10);
    if "extension:"@.is_prefix_of(name) {
        assert(name[0] == "extension:"@[0]);
        assert(name.subrange(0, 10)[0] == name[0]);
    }
}

proof fn lemma_found(names: Seq<String>, name: Seq<char>)
    ensures
        match index_in(names, name) {
            Some(i) => 0 <= i < names.len() && names[i]@ == name && forall|j: int|
                0 <= j < i ==> (#[trigger] names[j])@ != name,
            None => forall|j: int| 0 <= j < names.len() ==> (#[trigger] names[j])@ != name,
        },
    decreases names.len(),
{
    if names.len() > 0 && names[0]@ != name {
        let rest = names.skip(1);
        lemma_found(rest, name);
        let end = match index_in(rest, name) {
            Some(i) => i,
            None => rest.len() as int,
        };
        assert forall|j: int| 0 <= j <= end && j < names.len() implies (#[trigger] names[j])@
            != name by {
            if j > 0 {
                assert(rest[j - 1] == names[j]);
            }
        }
    }
}

/// Interning hands out one index for each name, and keeps it: the name is found
/// there from then on, interning it again adds nothing, two names have two
/// indices, and every index from before stands for the name it stood for.
pub proof fn law_interning_keeps_names(
    names: Names,
    a: Seq<char>,
    then: Names,
    at: u32,
    b: Seq<char>,
    after: Names,
    next: u32,
)
    requires
        names.wf(),
        then.wf(),
        is_interned(names.names@, a, then.names@, at),
        is_interned(then.names@, b, after.names@, next),
    ensures
        name_at(then.names@, at as int) == a,
        index_in(then.names@, a) == Some(at as int),
        name_at(after.names@, at as int) == a,
        index_in(after.names@, a) == Some(at as int),
        at == next <==> a == b,
        a == b ==> after.names@ == then.names@,
        forall|i: int|
            0 <= i < names.names@.len() ==> #[trigger] name_at(after.names@, i) == name_at(
                names.names@,
                i,
            ),
{
    lemma_found(names.names@, a);
    assert forall|j: int| 0 <= j < at implies (#[trigger] then.names@[j])@ != a by {
        assert(then.names@[j]@ != then.names@[at as int]@);
    }
    lemma_index_in(then.names@, a, at as int);
    lemma_found(then.names@, b);
    assert forall|j: int| 0 <= j < at implies (#[trigger] after.names@[j])@ != a by {
        assert(after.names@[j] == then.names@[j]);
    }
    assert(after.names@[at as int] == then.names@[at as int]);
    lemma_index_in(after.names@, a, at as int);
}

/// An extension is what its name means, as long as its name is in the table,
/// and stays so however the table grows.
pub proof fn law_extension_names_stay(names: Seq<String>, more: Seq<String>, index: u32)
    requires
        index < names.len(),
        forall|i: int, j: int|
            #![trigger (names + more)[i], (names + more)[j]]
            0 <= i < j < (names + more).len() ==> (names + more)[i]@ != (names + more)[j]@,
    ensures
        declared(id_name(ModuleId::Extension(index), names), names + more) == Some(
            ModuleId::Extension(index),
        ),
{
    let all = names + more;
    let text = id_name(ModuleId::Extension(index), names);
    let name = names[index as int]@;
    assert(all[index as int] == names[index as int]);
    assert(text.subrange(0, "extension:"@.len() as int) =~= "extension:"@);
    assert(text.skip("extension:"@.len() as int) =~= name);
    assert forall|j: int| 0 <= j < index implies (#[trigger] all[j])@ != name by {
        assert(all[j]@ != all[index as int]@);
    }
    lemma_index_in(all, name, index as int);
}

} // verus!
