//! The bar's configuration: what is placed where.
use crate::modules::id::{bit_of, index_in, ModuleId, Names};
use crate::paths::{join_path, seen_from};
use crate::text::same;
use vstd::prelude::*;
use vstd::string::*;

verus! {

/// Scope of the taskbar strip.
#[derive(Debug, Clone, Copy, PartialEq, Eq, Structural)]
pub enum TaskbarScope {
    /// Every window on the bar's own output.
    Output,
    /// Only the windows of the workspace currently visible on that output.
    Workspace,
}

impl Default for TaskbarScope {
    fn default() -> (r: TaskbarScope)
        ensures
            r == TaskbarScope::Output,
    {
        TaskbarScope::Output
    }
}

/// A program the bar keeps running, which draws its own cell and popup.
#[derive(Debug, Clone)]
pub struct Extension {
    /// Referred to in a region as `extension:<name>`.
    pub name: String,
    /// Program and arguments.
    pub command: Vec<String>,
}

#[derive(Debug, Clone)]
pub struct Config {
    /// Bar height in logical pixels; also the exclusive zone.
    pub height: u32,
    /// Use bold weight for system text and icons.
    pub font_weight_bold: bool,
    /// Palette name.
    pub palette: String,
    /// Terminal used by modules that open a TUI.
    pub terminal: String,
    /// Put the bar on the overlay layer instead of top.
    pub overlay_layer: bool,
    /// Outputs to place a bar on; empty means every output.
    pub outputs: Vec<String>,
    pub taskbar_scope: TaskbarScope,
    pub left: Vec<ModuleId>,
    pub center: Vec<ModuleId>,
    pub right: Vec<ModuleId>,
    /// Modules drawn by other processes.
    pub extensions: Vec<Extension>,
    /// Which built-in modules the three regions place, one bit each.
    pub placed: u64,
}

/// The set of the built-in modules among `ids`, one bit each.
pub open spec fn mask_of(ids: Seq<ModuleId>) -> u64
    decreases ids.len(),
{
    if ids.len() == 0 {
        0
    } else {
        let before = mask_of(ids.drop_last());
        match bit_of(ids.last()) {
            Some(bit) => before | (1u64 << bit),
            None => before,
        }
    }
}

proof fn lemma_mask(ids: Seq<ModuleId>, bit: u32)
    requires
        bit < 64,
    ensures
        mask_of(ids) & (1u64 << bit) != 0 <==> exists|i: int|
            0 <= i < ids.len() && bit_of(#[trigger] ids[i]) == Some(bit),
    decreases ids.len(),
{
    if ids.len() == 0 {
        assert(0u64 & (1u64 << bit) == 0) by (bit_vector);
    } else {
        let most = ids.drop_last();
        let before = mask_of(most);
        lemma_mask(most, bit);
        match bit_of(ids.last()) {
            Some(other) => {
                assert((before | (1u64 << other)) & (1u64 << bit) != 0 <==> before & (1u64 << bit)
                    != 0 || other == bit) by (bit_vector)
                    requires
                        bit < 64,
                        other < 64,
                ;
            },
            None => {},
        }
        if exists|i: int| 0 <= i < most.len() && bit_of(#[trigger] most[i]) == Some(bit) {
            let i = choose|i: int| 0 <= i < most.len() && bit_of(#[trigger] most[i]) == Some(bit);
            assert(bit_of(ids[i]) == Some(bit));
        }
        if exists|i: int| 0 <= i < ids.len() && bit_of(#[trigger] ids[i]) == Some(bit) {
            let i = choose|i: int| 0 <= i < ids.len() && bit_of(#[trigger] ids[i]) == Some(bit);
            if i < most.len() {
                assert(bit_of(most[i]) == Some(bit));
            } else {
                assert(bit_of(ids.last()) == Some(bit));
            }
        }
        if bit_of(ids.last()) == Some(bit) {
            assert(bit_of(ids[ids.len() - 1]) == Some(bit));
        }
    }
}

/// Two built-in modules with one bit are the same.
proof fn lemma_bits_differ(a: ModuleId, b: ModuleId)
    requires
        bit_of(a) is Some,
    ensures
        bit_of(a) == bit_of(b) <==> a == b,
{
}

impl Config {
    /// Every module placed in any region, in layout order.
    pub open spec fn order(self) -> Seq<ModuleId> {
        self.left@ + self.center@ + self.right@
    }

    /// The placed mask agrees with the placement lists.
    pub open spec fn wf(self) -> bool {
        self.placed == mask_of(self.order())
    }

    /// Every module placed in any region, in layout order.
    pub fn modules(&self) -> (r: Vec<ModuleId>)
        ensures
            r@ == self.order(),
    {
        let mut all: Vec<ModuleId> = Vec::new();
        push_all(&mut all, &self.left);
        push_all(&mut all, &self.center);
        push_all(&mut all, &self.right);
        all
    }

    /// The placed built-in modules, as a bitmask.
    pub fn mask(&self) -> (r: u64)
        ensures
            r == mask_of(self.order()),
    {
        let all = self.modules();
        let mut mask: u64 = 0;
        let mut i: usize = 0;
        while i < all.len()
            invariant
                i <= all@.len(),
                mask == mask_of(all@.take(i as int)),
            decreases all@.len() - i,
        {
            proof {
                assert(all@.take(i + 1).drop_last() =~= all@.take(i as int));
            }
            match all[i].bit() {
                Some(bit) => {
                    mask = mask | (1u64 << bit);
                },
                None => {},
            }
            i += 1;
        }
        assert(all@.take(i as int) =~= all@);
        mask
    }

    /// This config, with the mask its placement lists call for.
    pub fn indexed(self) -> (r: Config)
        ensures
            r == (Config { placed: mask_of(self.order()), ..self }),
            r.wf(),
    {
        let mut config = self;
        let placed: u64 = config.mask();
        config.placed = placed;
        config
    }

    /// Whether any region places the module.
    pub fn wants(&self, module: ModuleId) -> (r: bool)
        requires
            self.wf(),
        ensures
            r == self.order().contains(module),
    {
        match module.bit() {
            Some(bit) => {
                proof {
                    let all = self.order();
                    lemma_mask(all, bit);
                    if all.contains(module) {
                        let i = choose|i: int| 0 <= i < all.len() && all[i] == module;
                        assert(bit_of(all[i]) == Some(bit));
                    }
                    if exists|i: int| 0 <= i < all.len() && bit_of(#[trigger] all[i]) == Some(bit) {
                        let i = choose|i: int|
                            0 <= i < all.len() && bit_of(#[trigger] all[i]) == Some(bit);
                        lemma_bits_differ(module, all[i]);
                        assert(all[i] == module);
                    }
                }
                self.placed & (1u64 << bit) != 0
            },
            None => {
                let all = self.modules();
                let mut i: usize = 0;
                while i < all.len()
                    invariant
                        i <= all@.len(),
                        all@ == self.order(),
                        forall|j: int| 0 <= j < i ==> all@[j] != module,
                    decreases all@.len() - i,
                {
                    if all[i] == module {
                        assert(all@[i as int] == module);
                        return true;
                    }
                    i += 1;
                }
                false
            },
        }
    }

    /// The declaration behind an extension module, if the config still has one:
    /// the first under its name.
    pub fn extension(&self, module: ModuleId, names: &Names) -> (r: Option<&Extension>)
        requires
            names.wf(),
        ensures
            match r {
                Some(entry) => exists|i: int|
                    {
                        &&& 0 <= i < self.extensions@.len()
                        &&& #[trigger] self.extensions@[i] == *entry
                        &&& declares(self.extensions@[i], module, names.names@)
                        &&& forall|j: int|
                            0 <= j < i ==> !declares(
                                #[trigger] self.extensions@[j],
                                module,
                                names.names@,
                            )
                    },
                None => forall|j: int|
                    0 <= j < self.extensions@.len() ==> !declares(
                        #[trigger] self.extensions@[j],
                        module,
                        names.names@,
                    ),
            },
    {
        let index: u32 = match module {
            ModuleId::Extension(index) => index,
            _ => {
                return None;
            },
        };
        let mut i: usize = 0;
        while i < self.extensions.len()
            invariant
                i <= self.extensions@.len(),
                names.wf(),
                module == ModuleId::Extension(index),
                forall|j: int|
                    0 <= j < i ==> !declares(
                        #[trigger] self.extensions@[j],
                        module,
                        names.names@,
                    ),
            decreases self.extensions@.len() - i,
        {
            match names.interned_index(self.extensions[i].name.as_str()) {
                Some(known) => if known == index {
                    return Some(&self.extensions[i]);
                },
                None => {},
            }
            i += 1;
        }
        None
    }
}

/// Whether an entry of the config declares the module.
pub open spec fn declares(entry: Extension, module: ModuleId, names: Seq<String>) -> bool {
    module matches ModuleId::Extension(index) && index_in(names, entry.name@) == Some(index as int)
}

fn push_all(all: &mut Vec<ModuleId>, more: &Vec<ModuleId>)
    ensures
        final(all)@ == old(all)@ + more@,
{
    let ghost start = all@;
    let mut i: usize = 0;
    while i < more.len()
        invariant
            i <= more@.len(),
            all@ == start + more@.take(i as int),
        decreases more@.len() - i,
    {
        all.push(more[i]);
        assert(all@ =~= start + more@.take(i + 1));
        i += 1;
    }
    assert(more@.take(i as int) =~= more@);
}

/// The shipped layout.
pub open spec fn shipped_left() -> Seq<ModuleId> {
    seq![ModuleId::Launcher, ModuleId::Taskbar]
}

pub open spec fn shipped_center() -> Seq<ModuleId> {
    seq![
        ModuleId::Cpu,
        ModuleId::Memory,
        ModuleId::Gpu,
        ModuleId::Workspaces,
        ModuleId::IdleInhibitor,
        ModuleId::Date,
        ModuleId::Time,
        ModuleId::Network,
        ModuleId::Bluetooth,
        ModuleId::Updates,
        ModuleId::Notifications,
        ModuleId::Tray,
    ]
}

pub open spec fn shipped_right() -> Seq<ModuleId> {
    seq![
        ModuleId::Mpris,
        ModuleId::Volume,
        ModuleId::Brightness,
        ModuleId::Battery,
        ModuleId::Power,
    ]
}

impl Default for Config {
    fn default() -> (r: Config)
        ensures
            r.wf(),
            r.height == 24,
            r.font_weight_bold,
            r.palette@ == "catppuccin-mocha"@,
            r.terminal@ == "kitty"@,
            !r.overlay_layer,
            r.outputs@.len() == 0,
            r.taskbar_scope == TaskbarScope::Output,
            r.left@ == shipped_left(),
            r.center@ == shipped_center(),
            r.right@ == shipped_right(),
            r.extensions@.len() == 0,
    {
        let config = Config {
            height: 24,
            font_weight_bold: true,
            palette: "catppuccin-mocha".to_owned(),
            terminal: "kitty".to_owned(),
            overlay_layer: false,
            outputs: Vec::new(),
            taskbar_scope: TaskbarScope::Output,
            left: vec![ModuleId::Launcher, ModuleId::Taskbar],
            center: vec![
                ModuleId::Cpu,
                ModuleId::Memory,
                ModuleId::Gpu,
                ModuleId::Workspaces,
                ModuleId::IdleInhibitor,
                ModuleId::Date,
                ModuleId::Time,
                ModuleId::Network,
                ModuleId::Bluetooth,
                ModuleId::Updates,
                ModuleId::Notifications,
                ModuleId::Tray,
            ],
            right: vec![
                ModuleId::Mpris,
                ModuleId::Volume,
                ModuleId::Brightness,
                ModuleId::Battery,
                ModuleId::Power,
            ],
            // An extension is another program, and the shipped bar spawns none.
            extensions: Vec::new(),
            placed: 0,
        };
        assert(config.left@ =~= shipped_left());
        assert(config.center@ =~= shipped_center());
        assert(config.right@ =~= shipped_right());
        config.indexed()
    }
}

/// Where the config file is: in the config directory or in home's `.config`,
/// as the environment names them.
pub fn path(config_home: Option<&str>, home: Option<&str>) -> (r: String)
    ensures
        r@ == seen_from(
            seen_from(
                match config_home {
                    Some(dir) if dir@.len() > 0 => dir@,
                    _ => match home {
                        Some(home) => seen_from(home@, ".config"@),
                        None => "."@,
                    },
                },
                "cosmicbar"@,
            ),
            "config.toml"@,
        ),
{
    let base = match config_home {
        Some(dir) if !dir.is_empty() => dir.to_owned(),
        _ => match home {
            Some(home) => join_path(home, ".config"),
            None => ".".to_owned(),
        },
    };
    join_path(join_path(base.as_str(), "cosmicbar").as_str(), "config.toml")
}

/// What a change in a watched directory calls for.
#[derive(Debug, Clone, Copy, PartialEq, Eq, Structural)]
pub struct Reaction {
    /// Watch the config directory again: it came, or was replaced.
    pub rearm: bool,
    /// Read the config again.
    pub reload: bool,
}

/// What a change calls for, by the name that changed: the config's directory,
/// or the config itself.
pub fn reaction(changed: Option<&str>, dir: Option<&str>, file: &str) -> (r: Reaction)
    ensures
        ({
            let directory = match (changed, dir) {
                (Some(changed), Some(dir)) => changed@ == dir@,
                _ => false,
            };
            r == (Reaction {
                rearm: directory,
                reload: directory || (match changed {
                    Some(changed) => changed@ == file@,
                    None => false,
                }),
            })
        }),
{
    let directory = match (changed, dir) {
        (Some(changed), Some(dir)) => same(changed, dir),
        _ => false,
    };
    let own = match changed {
        Some(changed) => same(changed, file),
        None => false,
    };
    Reaction { rearm: directory, reload: directory || own }
}

} // verus!
