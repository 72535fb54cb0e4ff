//! The bar: one surface per output, and the popup its modules open.
use crate::config::Config;
use crate::modules::id::{id_name, ModuleId, Names};
use crate::paths::same_texts;
use crate::text::{concat3, opt_text, same, texts};
use vstd::prelude::*;
use vstd::string::*;

verus! {

/// A bar on an output.
#[derive(Debug, Clone)]
pub struct Surface {
    /// The compositor's output.
    pub output: u64,
    pub name: Option<String>,
    pub surface: u64,
}

#[derive(Debug, Clone, Copy, PartialEq, Eq, Structural)]
pub struct Popup {
    pub id: u64,
    pub parent: u64,
    pub module: ModuleId,
}

#[derive(Debug, Clone)]
pub struct Bar {
    pub bars: Vec<Surface>,
    pub popup: Option<Popup>,
}

/// What the compositor is to be asked for.
#[derive(Debug, Clone, Copy, PartialEq, Eq, Structural)]
pub enum Effect {
    CreateBar { surface: u64, output: u64 },
    DestroyBar(u64),
    OpenPopup { id: u64, parent: u64, module: ModuleId, grab: bool },
    ClosePopup(u64),
}

/// Where the bar of an output stands among the bars.
pub open spec fn bar_on(bars: Seq<Surface>, output: u64, i: int) -> bool {
    0 <= i < bars.len() && bars[i].output == output
}

/// Whether an output is to have a bar: every one, unless the config names the
/// ones that are.
pub open spec fn wanted(outputs: Seq<Seq<char>>, name: Option<Seq<char>>) -> bool {
    outputs.len() == 0 || (name matches Some(name) && outputs.contains(name))
}

fn is_wanted(outputs: &Vec<String>, name: &Option<String>) -> (r: bool)
    ensures
        r == wanted(texts(outputs@), opt_text(*name)),
{
    if outputs.len() == 0 {
        return true;
    }
    match name {
        Some(own) => {
            let mut i: usize = 0;
            while i < outputs.len()
                invariant
                    i <= outputs@.len(),
                    *name == Some(*own),
                    forall|j: int| 0 <= j < i ==> texts(outputs@)[j] != own@,
                decreases outputs@.len() - i,
            {
                if same(outputs[i].as_str(), own.as_str()) {
                    assert(texts(outputs@)[i as int] == own@);
                    return true;
                }
                i += 1;
            }
            false
        },
        None => false,
    }
}

/// The effects of closing the popup.
pub open spec fn closing(popup: Option<Popup>) -> Seq<Effect> {
    match popup {
        Some(popup) => seq![Effect::ClosePopup(popup.id)],
        None => Seq::empty(),
    }
}

pub open spec fn on_surface(popup: Option<Popup>, surface: u64) -> bool {
    popup matches Some(popup) && popup.parent == surface
}

/// The popup that is left once the first `n` bars are gone.
pub open spec fn popup_without(popup: Option<Popup>, bars: Seq<Surface>, n: int) -> Option<Popup>
    decreases n,
{
    if n <= 0 {
        popup
    } else {
        let left = popup_without(popup, bars, n - 1);
        if on_surface(left, bars[n - 1].surface) {
            None
        } else {
            left
        }
    }
}

/// The effects of taking the first `n` bars down: each bar, and the popup that
/// hangs from it.
pub open spec fn taken_down(popup: Option<Popup>, bars: Seq<Surface>, n: int) -> Seq<Effect>
    decreases n,
{
    if n <= 0 {
        Seq::empty()
    } else {
        let left = popup_without(popup, bars, n - 1);
        let surface = bars[n - 1].surface;
        taken_down(popup, bars, n - 1) + seq![Effect::DestroyBar(surface)] + if on_surface(
            left,
            surface,
        ) {
            closing(left)
        } else {
            Seq::empty()
        }
    }
}

/// How many of the first `n` bars are wanted.
pub open spec fn kept(bars: Seq<Surface>, outputs: Seq<Seq<char>>, n: int) -> nat
    decreases n,
{
    if n <= 0 {
        0
    } else {
        kept(bars, outputs, n - 1) + if wanted(outputs, opt_text(bars[n - 1].name)) {
            1nat
        } else {
            0
        }
    }
}

/// The first `n` bars put up again on surfaces from `next` on.
pub open spec fn put_up(bars: Seq<Surface>, outputs: Seq<Seq<char>>, next: int, n: int) -> Seq<
    Surface,
>
    decreases n,
{
    if n <= 0 {
        Seq::empty()
    } else {
        let before = put_up(bars, outputs, next, n - 1);
        if wanted(outputs, opt_text(bars[n - 1].name)) {
            before.push(Surface { surface: (next + before.len()) as u64, ..bars[n - 1] })
        } else {
            before
        }
    }
}

pub open spec fn created(bars: Seq<Surface>) -> Seq<Effect> {
    bars.map_values(|b: Surface| Effect::CreateBar { surface: b.surface, output: b.output })
}

/// Whether the popup, where one is open, is that of a module that the config
/// places.
pub open spec fn still_wanted(popup: Option<Popup>, config: Config) -> bool {
    match popup {
        Some(popup) => config.order().contains(popup.module),
        None => true,
    }
}

/// Whether bars are to be put up anew: they are as high as the config says, on
/// the outputs that it names.
pub open spec fn moves_bars(previous: Config, now: Config) -> bool {
    previous.height != now.height || texts(previous.outputs@) != texts(now.outputs@)
}

pub fn rebuilds(previous: &Config, now: &Config) -> (r: bool)
    ensures
        r == moves_bars(*previous, *now),
{
    previous.height != now.height || !same_texts(&previous.outputs, &now.outputs)
}

impl Bar {
    /// No output has two bars.
    pub open spec fn wf(self) -> bool {
        forall|i: int, j: int|
            #![trigger self.bars@[i], self.bars@[j]]
            0 <= i < j < self.bars@.len() ==> self.bars@[i].output != self.bars@[j].output
    }

    pub fn new() -> (r: Bar)
        ensures
            r.wf(),
            r.bars@.len() == 0,
            r.popup is None,
    {
        Bar { bars: Vec::new(), popup: None }
    }

    fn position(&self, output: u64) -> (r: Option<usize>)
        ensures
            match r {
                Some(i) => bar_on(self.bars@, output, i as int) && forall|j: int|
                    0 <= j < i ==> !bar_on(self.bars@, output, j),
                None => forall|j: int| !bar_on(self.bars@, output, j),
            },
    {
        let mut i: usize = 0;
        while i < self.bars.len()
            invariant
                i <= self.bars@.len(),
                forall|j: int| 0 <= j < i ==> !bar_on(self.bars@, output, j),
            decreases self.bars@.len() - i,
        {
            if self.bars[i].output == output {
                return Some(i);
            }
            i += 1;
        }
        None
    }

    /// An output appeared, or its name changed: place a bar on it, on the
    /// surface `surface`, where one is wanted.
    pub fn add_bar(
        &mut self,
        output: u64,
        name: Option<String>,
        outputs: &Vec<String>,
        surface: u64,
    ) -> (r: Option<Effect>)
        requires
            old(self).wf(),
        ensures
            final(self).wf(),
            final(self).popup == old(self).popup,
            if exists|i: int| bar_on(old(self).bars@, output, i) {
                // Only the name can change.
                &&& r is None
                &&& exists|i: int| #[trigger]
                    bar_on(old(self).bars@, output, i) && final(self).bars@ == if name is Some {
                        old(self).bars@.update(i, Surface { name, ..old(self).bars@[i] })
                    } else {
                        old(self).bars@
                    }
            } else if wanted(texts(outputs@), opt_text(name)) {
                &&& r == Some(Effect::CreateBar { surface, output })
                &&& final(self).bars@ == old(self).bars@.push(Surface { output, name, surface })
            } else {
                r is None && final(self).bars@ == old(self).bars@
            },
    {
        match self.position(output) {
            Some(i) => {
                assert(bar_on(self.bars@, output, i as int));
                if name.is_some() {
                    self.bars[i].name = name;
                    assert(self.bars@ =~= old(self).bars@.update(
                        i as int,
                        Surface { name, ..old(self).bars@[i as int] },
                    ));
                }
                None
            },
            None => {
                if !is_wanted(outputs, &name) {
                    return None;
                }
                proof {
                    assert forall|j: int| 0 <= j < self.bars@.len() implies (
                    #[trigger] self.bars@[j]).output != output by {
                        assert(!bar_on(self.bars@, output, j));
                    }
                }
                self.bars.push(Surface { output, name, surface });
                Some(Effect::CreateBar { surface, output })
            },
        }
    }

    /// An output went: its bar goes with it, and the popup that hangs from it.
    pub fn remove_bar(&mut self, output: u64) -> (r: Vec<Effect>)
        requires
            old(self).wf(),
        ensures
            final(self).wf(),
            if exists|i: int| bar_on(old(self).bars@, output, i) {
                exists|i: int|
                    {
                        let gone = old(self).bars@[i].surface;
                        &&& #[trigger] bar_on(old(self).bars@, output, i)
                        &&& final(self).bars@ == old(self).bars@.remove(i)
                        &&& final(self).popup == if on_surface(old(self).popup, gone) {
                            None
                        } else {
                            old(self).popup
                        }
                        &&& r@ == seq![Effect::DestroyBar(gone)] + if on_surface(
                            old(self).popup,
                            gone,
                        ) {
                            closing(old(self).popup)
                        } else {
                            Seq::empty()
                        }
                    }
            } else {
                *final(self) == *old(self) && r@.len() == 0
            },
    {
        let mut effects: Vec<Effect> = Vec::new();
        match self.position(output) {
            Some(i) => {
                let ghost before = self.bars@;
                assert(bar_on(before, output, i as int));
                let removed = self.bars.remove(i);
                proof {
                    let after = self.bars@;
                    assert forall|a: int, b: int|
                        #![trigger after[a], after[b]]
                        0 <= a < b < after.len() implies after[a].output != after[b].output by {
                        let x = if a < i {
                            a
                        } else {
                            a + 1
                        };
                        let y = if b < i {
                            b
                        } else {
                            b + 1
                        };
                        assert(after[a] == before[x]);
                        assert(after[b] == before[y]);
                    }
                }
                effects.push(Effect::DestroyBar(removed.surface));
                match self.popup {
                    Some(popup) => {
                        if popup.parent == removed.surface {
                            self.popup = None;
                            effects.push(Effect::ClosePopup(popup.id));
                        }
                    },
                    None => {},
                }
                assert(effects@ =~= seq![Effect::DestroyBar(removed.surface)] + if on_surface(
                    old(self).popup,
                    removed.surface,
                ) {
                    closing(old(self).popup)
                } else {
                    Seq::empty()
                });
                effects
            },
            None => effects,
        }
    }

    /// Close the popup, if one is open.
    pub fn close_popup(&mut self) -> (r: Vec<Effect>)
        ensures
            r@ == closing(old(self).popup),
            *final(self) == (Bar { popup: None, ..*old(self) }),
    {
        let mut effects: Vec<Effect> = Vec::new();
        match self.popup {
            Some(popup) => {
                effects.push(Effect::ClosePopup(popup.id));
                self.popup = None;
            },
            None => {},
        }
        assert(effects@ =~= closing(old(self).popup));
        effects
    }

    /// Open the module's popup as `id`, or close it if it is open there
    /// already; another popup that is open is closed either way. A module
    /// without a popup opens none.
    pub fn toggle_popup(
        &mut self,
        parent: u64,
        module: ModuleId,
        grab: bool,
        has_popup: bool,
        id: u64,
    ) -> (r: Vec<Effect>)
        ensures
            final(self).bars == old(self).bars,
            final(self).popup == toggled(old(self).popup, parent, module, has_popup, id),
            r@ == closing(old(self).popup) + if toggled(
                old(self).popup,
                parent,
                module,
                has_popup,
                id,
            ) is Some {
                seq![Effect::OpenPopup { id, parent, module, grab }]
            } else {
                Seq::empty()
            },
    {
        let already_open = match self.popup {
            Some(popup) => popup.module == module && popup.parent == parent,
            None => false,
        };
        let mut effects = self.close_popup();
        if already_open || !has_popup {
            assert(effects@ + Seq::empty() =~= effects@);
            return effects;
        }
        self.popup = Some(Popup { id, parent, module });
        let ghost closed = effects@;
        effects.push(Effect::OpenPopup { id, parent, module, grab });
        assert(effects@ =~= closed + seq![Effect::OpenPopup { id, parent, module, grab }]);
        effects
    }

    /// The compositor dismissed a popup on its own.
    pub fn dismissed(&mut self, id: u64)
        ensures
            *final(self) == (Bar {
                popup: if old(self).popup matches Some(popup) && popup.id == id {
                    None
                } else {
                    old(self).popup
                },
                ..*old(self)
            }),
    {
        match self.popup {
            Some(popup) => {
                if popup.id == id {
                    self.popup = None;
                }
            },
            None => {},
        }
    }

    /// Toggle a module's popup from a keybind: on the first bar, for there is no
    /// pointer, and without a grab, which the compositor would refuse.
    pub fn keybind(&mut self, module: ModuleId, has_popup: bool, id: u64) -> (r: Vec<Effect>)
        ensures
            final(self).bars == old(self).bars,
            if old(self).bars@.len() == 0 {
                final(self).popup == old(self).popup && r@.len() == 0
            } else {
                let parent = old(self).bars@[0].surface;
                let next = toggled(old(self).popup, parent, module, has_popup, id);
                &&& final(self).popup == next
                &&& r@ == closing(old(self).popup) + if next is Some {
                    seq![Effect::OpenPopup { id, parent, module, grab: false }]
                } else {
                    Seq::empty()
                }
            },
    {
        if self.bars.len() == 0 {
            return Vec::new();
        }
        let parent: u64 = self.bars[0].surface;
        self.toggle_popup(parent, module, false, has_popup, id)
    }

    /// Close a popup that emptied out under its module, whose cell would not
    /// close it any more.
    pub fn settle(&mut self, has_popup: bool) -> (r: Vec<Effect>)
        ensures
            final(self).bars == old(self).bars,
            final(self).popup == if has_popup {
                old(self).popup
            } else {
                None
            },
            r@ == if has_popup {
                Seq::empty()
            } else {
                closing(old(self).popup)
            },
    {
        if has_popup {
            Vec::new()
        } else {
            self.close_popup()
        }
    }

    /// Take a changed config in: the popup of a module that is no longer placed
    /// is closed, and where the height or the outputs changed every bar is
    /// taken down and put up again, on surfaces from `next` on.
    pub fn reload(&mut self, previous: &Config, config: &Config, next: u64) -> (r: Vec<Effect>)
        requires
            old(self).wf(),
            config.wf(),
            next + old(self).bars@.len() <= u64::MAX,
        ensures
            final(self).wf(),
            ({
                let bars = old(self).bars@;
                let n = bars.len() as int;
                let kept = still_wanted(old(self).popup, *config);
                let popup = if kept {
                    old(self).popup
                } else {
                    None
                };
                let first = if kept {
                    Seq::empty()
                } else {
                    closing(old(self).popup)
                };
                if moves_bars(*previous, *config) {
                    let up = put_up(bars, texts(config.outputs@), next as int, n);
                    &&& final(self).bars@ == up
                    &&& final(self).popup == popup_without(popup, bars, n)
                    &&& r@ == first + taken_down(popup, bars, n) + created(up)
                } else {
                    &&& final(self).bars@ == bars
                    &&& final(self).popup == popup
                    &&& r@ == first
                }
            }),
    {
        let outputs = &config.outputs;
        let kept = match self.popup {
            Some(popup) => config.wants(popup.module),
            None => true,
        };
        let mut effects: Vec<Effect> = if kept {
            Vec::new()
        } else {
            self.close_popup()
        };
        let ghost first = if kept {
            Seq::empty()
        } else {
            closing(old(self).popup)
        };
        assert(effects@ =~= first);
        if !rebuilds(previous, config) {
            return effects;
        }
        let ghost popup = self.popup;
        let mut bars: Vec<Surface> = Vec::new();
        core::mem::swap(&mut bars, &mut self.bars);
        let ghost all = bars@;
        let n: usize = bars.len();
        let mut i: usize = 0;
        assert(first + taken_down(popup, all, 0) =~= first);
        while i < n
            invariant
                n == all.len(),
                i <= n,
                bars@ == all,
                self.bars@.len() == 0,
                self.popup == popup_without(popup, all, i as int),
                effects@ == first + taken_down(popup, all, i as int),
            decreases n - i,
        {
            let surface: u64 = bars[i].surface;
            let ghost before = effects@;
            let ghost left = self.popup;
            effects.push(Effect::DestroyBar(surface));
            match self.popup {
                Some(open) => {
                    if open.parent == surface {
                        self.popup = None;
                        effects.push(Effect::ClosePopup(open.id));
                    }
                },
                None => {},
            }
            assert(effects@ =~= before + (seq![Effect::DestroyBar(surface)] + if on_surface(
                left,
                surface,
            ) {
                closing(left)
            } else {
                Seq::empty()
            }));
            assert(effects@ =~= first + taken_down(popup, all, i + 1));
            i += 1;
        }
        let ghost down = effects@;
        let ghost names = texts(outputs@);
        let mut up: Vec<Surface> = Vec::new();
        let mut k: usize = 0;
        assert(all.skip(0) =~= all);
        assert(created(up@) =~= Seq::empty());
        assert(down + created(up@) =~= down);
        while bars.len() > 0
            invariant
                names == texts(outputs@),
                n == all.len(),
                k <= n,
                bars@ == all.skip(k as int),
                next + all.len() <= u64::MAX,
                up@ == put_up(all, names, next as int, k as int),
                up@.len() <= k,
                effects@ == down + created(up@),
            decreases bars@.len(),
        {
            let bar = bars.remove(0);
            proof {
                assert(bar == all[k as int]);
                assert(bars@ =~= all.skip(k + 1));
            }
            if is_wanted(outputs, &bar.name) {
                let surface: u64 = next + up.len() as u64;
                let output: u64 = bar.output;
                let ghost had = up@;
                let ghost before = effects@;
                up.push(Surface { output, name: bar.name, surface });
                effects.push(Effect::CreateBar { surface, output });
                assert(created(up@) =~= created(had).push(Effect::CreateBar { surface, output }));
                assert(effects@ =~= down + created(up@));
            }
            k += 1;
        }
        proof {
            lemma_put_up_distinct(all, names, next as int, k as int);
        }
        self.bars = up;
        effects
    }

    /// The name of the output that a surface, or the popup's, is on.
    pub fn output_of(&self, surface: Option<u64>) -> (r: Option<&str>)
        ensures
            ({
                let at = match surface {
                    Some(surface) => Some(surface),
                    None => match self.popup {
                        Some(popup) => Some(popup.parent),
                        None => None,
                    },
                };
                match r {
                    Some(name) => named_output(self.bars@, at) == Some(name@),
                    None => named_output(self.bars@, at) is None,
                }
            }),
    {
        let at: u64 = match surface {
            Some(surface) => surface,
            None => match self.popup {
                Some(popup) => popup.parent,
                None => {
                    return None;
                },
            },
        };
        let ghost all = self.bars@;
        let mut i: usize = 0;
        assert(all.skip(0) =~= all);
        while i < self.bars.len()
            invariant
                i <= all.len(),
                all == self.bars@,
                (match surface {
                    Some(surface) => Some(surface),
                    None => match self.popup {
                        Some(popup) => Some(popup.parent),
                        None => None,
                    },
                }) == Some(at),
                named_output(all.skip(i as int), Some(at)) == named_output(all, Some(at)),
            decreases all.len() - i,
        {
            proof {
                assert(all.skip(i as int)[0] == all[i as int]);
                assert(all.skip(i as int).skip(1) =~= all.skip(i + 1));
            }
            if self.bars[i].surface == at {
                return match &self.bars[i].name {
                    Some(name) => Some(name.as_str()),
                    None => None,
                };
            }
            i += 1;
        }
        None
    }
}

/// The name of the output of the first bar on that surface.
pub open spec fn named_output(bars: Seq<Surface>, surface: Option<u64>) -> Option<Seq<char>>
    decreases bars.len(),
{
    match surface {
        Some(at) => if bars.len() == 0 {
            None
        } else if bars[0].surface == at {
            opt_text(bars[0].name)
        } else {
            named_output(bars.skip(1), surface)
        },
        None => None,
    }
}

proof fn lemma_put_up_outputs(
    bars: Seq<Surface>,
    outputs: Seq<Seq<char>>,
    next: int,
    n: int,
    i: int,
)
    requires
        0 <= n <= bars.len(),
        0 <= i < put_up(bars, outputs, next, n).len(),
    ensures
        exists|k: int|
            0 <= k < n && (#[trigger] bars[k]).output == put_up(bars, outputs, next, n)[i].output,
    decreases n,
{
    if n > 0 {
        let before = put_up(bars, outputs, next, n - 1);
        if i < before.len() {
            lemma_put_up_outputs(bars, outputs, next, n - 1, i);
        } else {
            assert(bars[n - 1].output == put_up(bars, outputs, next, n)[i].output);
        }
    }
}

proof fn lemma_put_up_distinct(bars: Seq<Surface>, outputs: Seq<Seq<char>>, next: int, n: int)
    requires
        0 <= n <= bars.len(),
        forall|i: int, j: int|
            #![trigger bars[i], bars[j]]
            0 <= i < j < bars.len() ==> bars[i].output != bars[j].output,
    ensures
        forall|i: int, j: int|
            #![trigger put_up(bars, outputs, next, n)[i], put_up(bars, outputs, next, n)[j]]
            0 <= i < j < put_up(bars, outputs, next, n).len() ==> put_up(
                bars,
                outputs,
                next,
                n,
            )[i].output != put_up(bars, outputs, next, n)[j].output,
    decreases n,
{
    if n > 0 {
        lemma_put_up_distinct(bars, outputs, next, n - 1);
        let before = put_up(bars, outputs, next, n - 1);
        let all = put_up(bars, outputs, next, n);
        assert forall|i: int, j: int|
            #![trigger all[i], all[j]]
            0 <= i < j < all.len() implies all[i].output != all[j].output by {
            assert(all[i] == before[i]);
            if j < before.len() {
                assert(all[j] == before[j]);
            } else {
                lemma_put_up_outputs(bars, outputs, next, n - 1, i);
                let k = choose|k: int|
                    0 <= k < n - 1 && (#[trigger] bars[k]).output == before[i].output;
                assert(bars[k].output != bars[n - 1].output);
            }
        }
    }
}

/// The popup after a module was toggled.
pub open spec fn toggled(
    popup: Option<Popup>,
    parent: u64,
    module: ModuleId,
    has_popup: bool,
    id: u64,
) -> Option<Popup> {
    if (popup matches Some(open) && open.module == module && open.parent == parent) || !has_popup {
        None
    } else {
        Some(Popup { id, parent, module })
    }
}

/// Toggling a popup twice leaves none open.
pub proof fn law_toggling_twice_closes(
    popup: Option<Popup>,
    parent: u64,
    module: ModuleId,
    first: u64,
    second: u64,
)
    requires
        !(popup matches Some(open) && open.module == module && open.parent == parent),
    ensures
        toggled(popup, parent, module, true, first) == Some(Popup { id: first, parent, module }),
        toggled(toggled(popup, parent, module, true, first), parent, module, true, second) is None,
{
}

/// How a module sits beside its left neighbour.
#[derive(Debug, Clone, Copy, PartialEq, Eq, Structural)]
pub enum Island {
    /// Opens an island.
    Start,
    /// Joins the island to its left.
    Join,
    /// Paints none.
    Flat,
}

/// Modules that are drawn as one.
#[derive(Debug, Clone)]
pub struct Group {
    pub island: Island,
    pub members: Vec<ModuleId>,
}

pub struct GroupView {
    pub island: Island,
    pub members: Seq<ModuleId>,
}

impl View for Group {
    type V = GroupView;

    open spec fn view(&self) -> GroupView {
        GroupView { island: self.island, members: self.members@ }
    }
}

/// The island a module opens that joins none: there has to be one to continue,
/// so a `Join` opens its own rather than losing its background.
pub open spec fn opened(island: Island) -> Island {
    if island == Island::Join {
        Island::Start
    } else {
        island
    }
}

/// The cells of a region as groups, left to right: a module either opens an
/// island or joins the one its left neighbour opened.
pub open spec fn grouped(cells: Seq<(ModuleId, Island)>) -> Seq<GroupView>
    decreases cells.len(),
{
    if cells.len() == 0 {
        Seq::empty()
    } else {
        let before = grouped(cells.drop_last());
        let (id, island) = cells.last();
        if island == Island::Join && before.len() > 0 && before.last().island == Island::Start {
            before.drop_last().push(
                GroupView { island: Island::Start, members: before.last().members.push(id) },
            )
        } else {
            before.push(GroupView { island: opened(island), members: seq![id] })
        }
    }
}

pub open spec fn group_views(groups: Seq<Group>) -> Seq<GroupView> {
    groups.map_values(|g: Group| g@)
}

pub fn region(cells: &Vec<(ModuleId, Island)>) -> (r: Vec<Group>)
    ensures
        group_views(r@) == grouped(cells@),
{
    let mut groups: Vec<Group> = Vec::new();
    let mut i: usize = 0;
    assert(group_views(groups@) =~= Seq::empty());
    while i < cells.len()
        invariant
            i <= cells@.len(),
            group_views(groups@) == grouped(cells@.take(i as int)),
        decreases cells@.len() - i,
    {
        proof {
            assert(cells@.take(i + 1).drop_last() =~= cells@.take(i as int));
            assert(cells@.take(i + 1).last() == cells@[i as int]);
        }
        let id = cells[i].0;
        let island = cells[i].1;
        let n: usize = groups.len();
        assert(n > 0 ==> group_views(groups@).last() == groups@[n - 1]@);
        let joins = island == Island::Join && n > 0 && groups[n - 1].island == Island::Start;
        let ghost before = groups@;
        if joins {
            let mut group = groups.pop().unwrap();
            group.members.push(id);
            groups.push(group);
            assert(group_views(groups@) =~= group_views(before).drop_last().push(
                GroupView {
                    island: Island::Start,
                    members: group_views(before).last().members.push(id),
                },
            ));
        } else {
            let group = Group {
                island: if island == Island::Join {
                    Island::Start
                } else {
                    island
                },
                members: vec![id],
            };
            assert(group.members@ =~= seq![id]);
            groups.push(group);
            assert(group_views(groups@) =~= group_views(before).push(
                GroupView { island: opened(island), members: seq![id] },
            ));
        }
        i += 1;
    }
    assert(cells@.take(i as int) =~= cells@);
    groups
}

/// The members of groups, one after the other.
pub open spec fn members_of(groups: Seq<GroupView>) -> Seq<ModuleId>
    decreases groups.len(),
{
    if groups.len() == 0 {
        Seq::empty()
    } else {
        members_of(groups.drop_last()) + groups.last().members
    }
}

/// Grouping keeps every module, in its place; no group is empty, and only one
/// that opened an island holds more than one.
pub proof fn law_groups_keep_the_order(cells: Seq<(ModuleId, Island)>)
    ensures
        members_of(grouped(cells)) == cells.map_values(|c: (ModuleId, Island)| c.0),
        forall|i: int|
            0 <= i < grouped(cells).len() ==> {
                &&& (#[trigger] grouped(cells)[i]).members.len() > 0
                &&& grouped(cells)[i].members.len() > 1 ==> grouped(cells)[i].island
                    == Island::Start
                &&& grouped(cells)[i].island != Island::Join
            },
        cells.len() > 0 ==> grouped(cells).len() > 0,
    decreases cells.len(),
{
    if cells.len() > 0 {
        let most = cells.drop_last();
        law_groups_keep_the_order(most);
        let before = grouped(most);
        let all = grouped(cells);
        let id = cells.last().0;
        let ids = cells.map_values(|c: (ModuleId, Island)| c.0);
        assert(ids =~= most.map_values(|c: (ModuleId, Island)| c.0).push(id));
        if all.len() == before.len() {
            assert(all.drop_last() =~= before.drop_last());
            assert(members_of(all) =~= members_of(before).push(id));
        } else {
            assert(all.drop_last() =~= before);
            assert(members_of(all) =~= members_of(before).push(id));
        }
        assert forall|i: int| 0 <= i < all.len() implies {
            &&& (#[trigger] all[i]).members.len() > 0
            &&& all[i].members.len() > 1 ==> all[i].island == Island::Start
            &&& all[i].island != Island::Join
        } by {
            if i < before.len() - 1 || (i < before.len() && all.len() > before.len()) {
                assert(all[i] == before[i]);
            }
        }
    } else {
        assert(members_of(grouped(cells)) =~= cells.map_values(|c: (ModuleId, Island)| c.0));
    }
}

/// Which of a cell's corners are round: those at the ends of its group.
#[derive(Debug, Clone, Copy, PartialEq, Eq, Structural)]
pub struct Corners {
    pub left: bool,
    pub right: bool,
}

pub fn corners(index: usize, members: usize) -> (r: Corners)
    requires
        index < members,
    ensures
        r == (Corners { left: index == 0, right: index == members - 1 }),
{
    Corners { left: index == 0, right: index == members - 1 }
}

/// The one obvious verb of a module.
#[derive(Debug, Clone, Copy, PartialEq, Eq, Structural)]
pub enum Verb {
    PlayPause,
    MuteDefault,
    ToggleWireless,
    TogglePowered,
    DismissAll,
    CheckNow,
    ToggleInhibitor,
    /// Step to the next brightness mode.
    CycleMode,
}

pub open spec fn verb_of(id: ModuleId) -> Option<Verb> {
    match id {
        ModuleId::Mpris => Some(Verb::PlayPause),
        ModuleId::Volume => Some(Verb::MuteDefault),
        ModuleId::Network => Some(Verb::ToggleWireless),
        ModuleId::Bluetooth => Some(Verb::TogglePowered),
        ModuleId::Notifications => Some(Verb::DismissAll),
        ModuleId::Updates => Some(Verb::CheckNow),
        ModuleId::IdleInhibitor => Some(Verb::ToggleInhibitor),
        _ => None,
    }
}

/// Right-click actions: a right-click does the module's one obvious verb
/// without opening anything.
pub fn right_click(id: ModuleId) -> (r: Option<Verb>)
    ensures
        r == verb_of(id),
{
    match id {
        ModuleId::Mpris => Some(Verb::PlayPause),
        ModuleId::Volume => Some(Verb::MuteDefault),
        ModuleId::Network => Some(Verb::ToggleWireless),
        ModuleId::Bluetooth => Some(Verb::TogglePowered),
        ModuleId::Notifications => Some(Verb::DismissAll),
        ModuleId::Updates => Some(Verb::CheckNow),
        ModuleId::IdleInhibitor => Some(Verb::ToggleInhibitor),
        _ => None,
    }
}

/// What a right-click on a cell does.
#[derive(Debug, Clone, Copy, PartialEq, Eq, Structural)]
pub enum RightClick {
    Do(Verb),
    Toggle,
    Nothing,
}

/// A module with no verb of its own gets its popup, where it has one.
pub fn on_right(id: ModuleId, clickable: bool, modes: bool) -> (r: RightClick)
    ensures
        r == right_of(id, clickable, modes),
{
    match right_click(id) {
        Some(verb) => RightClick::Do(verb),
        None if modes && id == ModuleId::Brightness => RightClick::Do(Verb::CycleMode),
        None => if clickable {
            RightClick::Toggle
        } else {
            RightClick::Nothing
        },
    }
}

/// How a module's cell is drawn in its group.
#[derive(Debug, Clone, Copy, PartialEq, Eq, Structural)]
pub struct CellPlan {
    pub id: ModuleId,
    pub corners: Corners,
    /// Whether a click opens its popup.
    pub clickable: bool,
    pub right: RightClick,
    /// Whether a gap sets it off from the next cell.
    pub gap: bool,
}

pub open spec fn right_of(id: ModuleId, clickable: bool, modes: bool) -> RightClick {
    match verb_of(id) {
        Some(verb) => RightClick::Do(verb),
        None => if modes && id == ModuleId::Brightness {
            RightClick::Do(Verb::CycleMode)
        } else if clickable {
            RightClick::Toggle
        } else {
            RightClick::Nothing
        },
    }
}

pub open spec fn cell_plan(members: Seq<(ModuleId, bool)>, modes: bool, index: int) -> CellPlan {
    let (id, clickable) = members[index];
    CellPlan {
        id,
        corners: Corners { left: index == 0, right: index == members.len() - 1 },
        clickable,
        right: right_of(id, clickable, modes),
        gap: index != members.len() - 1,
    }
}

/// The cells of a group, from its members and whether each has a popup; `modes`
/// is whether there is a brightness mode to step to.
pub fn island_group(members: &Vec<(ModuleId, bool)>, modes: bool) -> (r: Vec<CellPlan>)
    ensures
        r@ == Seq::new(members@.len(), |i: int| cell_plan(members@, modes, i)),
{
    let mut out: Vec<CellPlan> = Vec::new();
    let mut i: usize = 0;
    while i < members.len()
        invariant
            i <= members@.len(),
            out@.len() == i,
            forall|j: int| 0 <= j < i ==> #[trigger] out@[j] == cell_plan(members@, modes, j),
        decreases members@.len() - i,
    {
        let (id, clickable) = members[i];
        out.push(
            CellPlan {
                id,
                corners: corners(i, members.len()),
                clickable,
                right: on_right(id, clickable, modes),
                gap: i != members.len() - 1,
            },
        );
        i += 1;
    }
    assert(out@ =~= Seq::new(members@.len(), |i: int| cell_plan(members@, modes, i)));
    out
}

/// How many milliseconds the bar's clock sleeps, from where in the minute it
/// is: to the next second while a module renders per-second detail, else to
/// the next minute, and never for less than a moment.
pub fn tick_wait(fast: bool, second: u64, millisecond: u64) -> (r: u64)
    requires
        second < 60,
        millisecond < 1_000,
    ensures
        ({
            let wait = if fast {
                1_000 - millisecond
            } else {
                60_000 - (second * 1_000 + millisecond)
            };
            r == if wait < 20 {
                20
            } else {
                wait
            }
        }),
{
    let wait: u64 = if fast {
        1_000 - millisecond
    } else {
        60_000 - (second * 1_000 + millisecond)
    };
    if wait < 20 {
        20
    } else {
        wait
    }
}

/// What happened to the bar, for its log.
pub enum Happening<'a> {
    OutputReady(Option<&'a str>),
    OutputRemoved,
    RectInit,
    Toggle(ModuleId),
    ClosePopup,
    /// A module's own event.
    Module(ModuleId),
    Tick,
    CursorLeft,
}

/// A short label for the log.
pub fn label(happening: &Happening, names: &Names) -> (r: String)
    ensures
        r@ == match happening {
            Happening::OutputReady(name) => "OutputReady("@ + (match name {
                Some(name) => name@,
                None => "?"@,
            }) + ")"@,
            Happening::OutputRemoved => "OutputRemoved"@,
            Happening::RectInit => "Rect(Init)"@,
            Happening::Toggle(id) => "Toggle("@ + id_name(*id, names.names@) + ")"@,
            Happening::ClosePopup => "ClosePopup"@,
            Happening::Module(id) => "Module("@ + id_name(*id, names.names@) + ")"@,
            Happening::Tick => "Tick"@,
            Happening::CursorLeft => "CursorLeft"@,
        },
{
    match happening {
        Happening::OutputReady(name) => {
            let name: &str = match name {
                Some(name) => name,
                None => "?",
            };
            concat3("OutputReady(", name, ")")
        },
        Happening::OutputRemoved => "OutputRemoved".to_owned(),
        Happening::RectInit => "Rect(Init)".to_owned(),
        Happening::Toggle(id) => concat3("Toggle(", id.name(names).as_str(), ")"),
        Happening::ClosePopup => "ClosePopup".to_owned(),
        Happening::Module(id) => concat3("Module(", id.name(names).as_str(), ")"),
        Happening::Tick => "Tick".to_owned(),
        Happening::CursorLeft => "CursorLeft".to_owned(),
    }
}

} // verus!
