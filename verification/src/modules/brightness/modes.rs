//! Brightness modes: named sets of per-display levels — `day`, `night` — that
//! one click in the popup, a right-click on the cell or a command applies.
use crate::number::{decimal, unsigned};
use crate::paths::{file_name, names, rooted, with_file_name};
use crate::text::{
    comes_before, concat, concat4, join, joined, lemma_text_order_total,
    lemma_text_order_transitive, same, text_before, texts,
};
use vstd::prelude::*;
use vstd::string::*;

verus! {

/// Percent per display, by the display's key.
#[derive(Debug, Clone, PartialEq, Eq)]
pub struct Levels {
    /// In the order of the keys, none of which occurs twice.
    pub entries: Vec<(String, u32)>,
}

/// The keys and levels of a list.
pub open spec fn pairs(entries: Seq<(String, u32)>) -> Seq<(Seq<char>, u32)> {
    entries.map_values(|e: (String, u32)| (e.0@, e.1))
}

/// The level of the first entry for that key.
pub open spec fn level_in(entries: Seq<(Seq<char>, u32)>, key: Seq<char>) -> Option<u32>
    decreases entries.len(),
{
    if entries.len() == 0 {
        None
    } else if entries[0].0 == key {
        Some(entries[0].1)
    } else {
        level_in(entries.skip(1), key)
    }
}

/// Keys in order, none twice.
pub open spec fn ordered(entries: Seq<(Seq<char>, u32)>) -> bool {
    forall|i: int, j: int|
        #![trigger entries[i], entries[j]]
        0 <= i < j < entries.len() ==> text_before(entries[i].0, entries[j].0)
}

proof fn lemma_level_in(entries: Seq<(Seq<char>, u32)>, key: Seq<char>, i: int)
    requires
        ordered(entries),
        0 <= i < entries.len(),
        entries[i].0 == key,
    ensures
        level_in(entries, key) == Some(entries[i].1),
    decreases entries.len(),
{
    if i > 0 {
        lemma_text_order_total(entries[0].0, key);
        assert(text_before(entries[0].0, entries[i].0));
        assert(ordered(entries.skip(1)));
        lemma_level_in(entries.skip(1), key, i - 1);
    }
}

proof fn lemma_level_missing(entries: Seq<(Seq<char>, u32)>, key: Seq<char>)
    requires
        forall|i: int| 0 <= i < entries.len() ==> (#[trigger] entries[i]).0 != key,
    ensures
        level_in(entries, key) is None,
    decreases entries.len(),
{
    if entries.len() > 0 {
        lemma_level_missing(entries.skip(1), key);
    }
}

impl Levels {
    pub open spec fn pairs(self) -> Seq<(Seq<char>, u32)> {
        pairs(self.entries@)
    }

    pub open spec fn wf(self) -> bool {
        ordered(self.pairs())
    }

    /// The level for that key.
    pub open spec fn at(self, key: Seq<char>) -> Option<u32> {
        level_in(self.pairs(), key)
    }

    pub fn new() -> (r: Levels)
        ensures
            r.wf(),
            forall|key: Seq<char>| #[trigger] r.at(key) is None,
            r.entries@.len() == 0,
    {
        Levels { entries: Vec::new() }
    }

    pub fn get(&self, key: &str) -> (r: Option<u32>)
        ensures
            r == self.at(key@),
    {
        let ghost all = self.pairs();
        let mut i: usize = 0;
        assert(all.skip(0) =~= all);
        while i < self.entries.len()
            invariant
                i <= self.entries@.len(),
                all == self.pairs(),
                level_in(all.skip(i as int), key@) == level_in(all, key@),
            decreases self.entries@.len() - i,
        {
            proof {
                assert(all.skip(i as int)[0] == (self.entries@[i as int].0@, self.entries@[i as int].1));
                assert(all.skip(i as int).skip(1) =~= all.skip(i + 1));
            }
            if same(self.entries[i].0.as_str(), key) {
                return Some(self.entries[i].1);
            }
            i += 1;
        }
        None
    }

    /// Set the level for one key, and leave every other as it is.
    pub fn insert(&mut self, key: String, level: u32)
        requires
            old(self).wf(),
        ensures
            final(self).wf(),
            forall|k: Seq<char>| #[trigger]
                final(self).at(k) == if k == key@ {
                    Some(level)
                } else {
                    old(self).at(k)
                },
    {
        let ghost all = self.pairs();
        let mut i: usize = 0;
        while i < self.entries.len() && comes_before(self.entries[i].0.as_str(), key.as_str())
            invariant
                i <= self.entries@.len(),
                *self == *old(self),
                all == self.pairs(),
                forall|j: int| 0 <= j < i ==> text_before((#[trigger] all[j]).0, key@),
            ensures
                i <= self.entries@.len(),
                *self == *old(self),
                forall|j: int| 0 <= j < i ==> text_before((#[trigger] all[j]).0, key@),
                i < self.entries@.len() ==> !text_before(all[i as int].0, key@),
            decreases self.entries@.len() - i,
        {
            assert(all[i as int] == (self.entries@[i as int].0@, self.entries@[i as int].1));
            i += 1;
        }
        let ghost key_text = key@;
        if i < self.entries.len() && same(self.entries[i].0.as_str(), key.as_str()) {
            let _ = self.entries.remove(i);
            self.entries.insert(i, (key, level));
            proof {
                assert(all[i as int] == (old(self).entries@[i as int].0@, old(
                    self,
                ).entries@[i as int].1));
                let now = self.pairs();
                assert(now =~= all.update(i as int, (key_text, level)));
                assert forall|k: Seq<char>| #[trigger] self.at(k) == if k == key_text {
                    Some(level)
                } else {
                    level_in(all, k)
                } by {
                    assert(ordered(now));
                    lemma_level_after(all, now, k, key_text, i as int, level, false);
                }
            }
        } else {
            self.entries.insert(i, (key, level));
            proof {
                let now = self.pairs();
                assert(now =~= all.insert(i as int, (key_text, level)));
                if i < all.len() {
                    assert(all[i as int] == (old(self).entries@[i as int].0@, old(
                        self,
                    ).entries@[i as int].1));
                    lemma_text_order_total(all[i as int].0, key_text);
                }
                assert forall|a: int, b: int|
                    #![trigger now[a], now[b]]
                    0 <= a < b < now.len() implies text_before(now[a].0, now[b].0) by {
                    if a == i {
                        assert(now[b] == all[b - 1]);
                        if b - 1 > i {
                            assert(text_before(all[i as int].0, all[b - 1].0));
                            lemma_text_order_transitive(key_text, all[i as int].0, all[b - 1].0);
                        }
                    } else if b == i {
                        assert(now[a] == all[a]);
                    } else {
                        assert(now[a] == if a < i {
                            all[a]
                        } else {
                            all[a - 1]
                        });
                        assert(now[b] == if b < i {
                            all[b]
                        } else {
                            all[b - 1]
                        });
                    }
                }
                assert forall|j: int| 0 <= j < all.len() implies (#[trigger] all[j]).0
                    != key_text by {
                    lemma_text_order_total(all[j].0, key_text);
                    if j > i {
                        assert(text_before(all[i as int].0, all[j].0));
                        lemma_text_order_transitive(key_text, all[i as int].0, all[j].0);
                    }
                }
                assert forall|k: Seq<char>| #[trigger] self.at(k) == if k == key_text {
                    Some(level)
                } else {
                    level_in(all, k)
                } by {
                    lemma_level_after(all, now, k, key_text, i as int, level, true);
                }
            }
        }
    }
}

impl Levels {
    /// Take over every level of `other`, and keep those for other keys.
    pub fn extend(&mut self, other: Levels)
        requires
            old(self).wf(),
        ensures
            final(self).wf(),
            other.wf() ==> forall|k: Seq<char>| #[trigger]
                final(self).at(k) == match other.at(k) {
                    Some(level) => Some(level),
                    None => old(self).at(k),
                },
    {
        let ghost all = other.pairs();
        let mut i: usize = 0;
        while i < other.entries.len()
            invariant
                i <= other.entries@.len(),
                all == other.pairs(),
                self.wf(),
                other.wf() ==> forall|k: Seq<char>| #[trigger]
                    self.at(k) == match level_in(all.take(i as int), k) {
                        Some(level) => Some(level),
                        None => old(self).at(k),
                    },
            decreases other.entries@.len() - i,
        {
            let ghost had = *self;
            self.insert(other.entries[i].0.as_str().to_owned(), other.entries[i].1);
            proof {
                let entry = (other.entries@[i as int].0@, other.entries@[i as int].1);
                assert(all[i as int] == entry);
                if other.wf() {
                    assert forall|k: Seq<char>| #[trigger] self.at(k) == match level_in(
                        all.take(i + 1),
                        k,
                    ) {
                        Some(level) => Some(level),
                        None => old(self).at(k),
                    } by {
                        assert(had.at(k) == match level_in(all.take(i as int), k) {
                            Some(level) => Some(level),
                            None => old(self).at(k),
                        });
                        assert(all.take(i + 1) =~= all.take(i as int).push(entry));
                        if k == entry.0 {
                            assert(ordered(all.take(i + 1)));
                            lemma_level_in(all.take(i + 1), k, i as int);
                        } else {
                            lemma_level_pushed(all.take(i as int), entry, k);
                        }
                    }
                }
            }
            i += 1;
        }
        assert(all.take(i as int) =~= all);
    }
}

proof fn lemma_level_pushed(entries: Seq<(Seq<char>, u32)>, entry: (Seq<char>, u32), k: Seq<char>)
    requires
        entry.0 != k,
    ensures
        level_in(entries.push(entry), k) == level_in(entries, k),
    decreases entries.len(),
{
    if entries.len() > 0 {
        lemma_level_pushed(entries.skip(1), entry, k);
        assert(entries.push(entry).skip(1) =~= entries.skip(1).push(entry));
    } else {
        assert(entries.push(entry).skip(1) =~= Seq::empty());
        assert(level_in(entries.push(entry).skip(1), k) is None);
    }
}

/// What is set, and what stays, when one entry is replaced or put in.
proof fn lemma_level_after(
    all: Seq<(Seq<char>, u32)>,
    now: Seq<(Seq<char>, u32)>,
    k: Seq<char>,
    key: Seq<char>,
    i: int,
    level: u32,
    put_in: bool,
)
    requires
        ordered(all),
        ordered(now),
        0 <= i <= all.len(),
        put_in ==> now == all.insert(i, (key, level)),
        put_in ==> forall|j: int| 0 <= j < all.len() ==> (#[trigger] all[j]).0 != key,
        !put_in ==> i < all.len() && all[i].0 == key && now == all.update(i, (key, level)),
    ensures
        level_in(now, k) == if k == key {
            Some(level)
        } else {
            level_in(all, k)
        },
{
    if k == key {
        lemma_level_in(now, key, i);
    } else if exists|j: int| 0 <= j < all.len() && (#[trigger] all[j]).0 == k {
        let j = choose|j: int| 0 <= j < all.len() && (#[trigger] all[j]).0 == k;
        lemma_level_in(all, k, j);
        if put_in && j >= i {
            assert(now[j + 1] == all[j]);
            lemma_level_in(now, k, j + 1);
        } else {
            assert(now[j] == all[j]);
            lemma_level_in(now, k, j);
        }
    } else {
        lemma_level_missing(all, k);
        assert forall|j: int| 0 <= j < now.len() implies (#[trigger] now[j]).0 != k by {
            if put_in {
                if j != i {
                    assert(now[j] == if j < i {
                        all[j]
                    } else {
                        all[j - 1]
                    });
                }
            } else if j != i {
                assert(now[j] == all[j]);
            }
        }
        lemma_level_missing(now, k);
    }
}

/// A named set of levels. A display it does not name keeps its level when the
/// mode is applied.
#[derive(Debug, Clone, PartialEq, Eq)]
pub struct Mode {
    pub name: String,
    pub levels: Levels,
}

/// What was read of the modes file.
#[derive(Debug, Clone)]
pub struct Loaded {
    pub modes: Vec<Mode>,
    /// The newest save the file had seen when it was read. Modes edited since
    /// — a save with a higher generation — are newer than these.
    pub generation: u64,
}

/// `DP-1 80%`
pub open spec fn level_text(entry: (Seq<char>, u32)) -> Seq<char> {
    entry.0 + " "@ + decimal(entry.1 as nat) + "%"@
}

/// `DP-1 80% · DP-2 70%`
pub open spec fn summary_of(entries: Seq<(Seq<char>, u32)>) -> Seq<char> {
    joined(entries.map_values(|e: (Seq<char>, u32)| level_text(e)), " · "@)
}

/// `DP-1 80% · DP-2 70%`
pub fn summary(levels: &Levels) -> (r: String)
    ensures
        r@ == summary_of(levels.pairs()),
{
    let mut parts: Vec<String> = Vec::new();
    let mut i: usize = 0;
    while i < levels.entries.len()
        invariant
            i <= levels.entries@.len(),
            parts@.len() == i,
            forall|j: int|
                0 <= j < i ==> (#[trigger] parts@[j])@ == level_text(
                    (levels.entries@[j].0@, levels.entries@[j].1),
                ),
        decreases levels.entries@.len() - i,
    {
        let entry = &levels.entries[i];
        parts.push(concat4(entry.0.as_str(), " ", unsigned(entry.1 as u64).as_str(), "%"));
        i += 1;
    }
    assert(texts(parts@) =~= levels.pairs().map_values(|e: (Seq<char>, u32)| level_text(e)));
    join(&parts, " · ")
}

impl Mode {
    pub open spec fn wf(self) -> bool {
        self.levels.wf()
    }

    /// `DP-1 80% · DP-2 70%`
    pub fn summary(&self) -> (r: String)
        ensures
            r@ == summary_of(self.levels.pairs()),
    {
        summary(&self.levels)
    }

    /// Whether two modes have the same name and the same levels.
    pub fn same(&self, other: &Mode) -> (r: bool)
        ensures
            r == (self.name@ == other.name@ && self.levels.pairs() == other.levels.pairs()),
    {
        if !same(self.name.as_str(), other.name.as_str()) {
            return false;
        }
        let a = &self.levels.entries;
        let b = &other.levels.entries;
        if a.len() != b.len() {
            assert(self.levels.pairs().len() != other.levels.pairs().len());
            return false;
        }
        let mut i: usize = 0;
        while i < a.len()
            invariant
                i <= a@.len(),
                a@.len() == b@.len(),
                a == self.levels.entries,
                b == other.levels.entries,
                forall|j: int| 0 <= j < i ==> pairs(a@)[j] == pairs(b@)[j],
            decreases a@.len() - i,
        {
            proof {
                assert(pairs(a@)[i as int] == (a@[i as int].0@, a@[i as int].1));
                assert(pairs(b@)[i as int] == (b@[i as int].0@, b@[i as int].1));
            }
            if !same(a[i].0.as_str(), b[i].0.as_str()) || a[i].1 != b[i].1 {
                return false;
            }
            i += 1;
        }
        assert(pairs(a@) =~= pairs(b@));
        true
    }
}

/// What tells two lists of modes apart.
pub open spec fn contents(modes: Seq<Mode>) -> Seq<(Seq<char>, Seq<(Seq<char>, u32)>)> {
    modes.map_values(|m: Mode| (m.name@, m.levels.pairs()))
}

pub fn same_modes(a: &Vec<Mode>, b: &Vec<Mode>) -> (r: bool)
    ensures
        r == (contents(a@) == contents(b@)),
{
    if a.len() != b.len() {
        assert(contents(a@).len() != contents(b@).len());
        return false;
    }
    let mut i: usize = 0;
    while i < a.len()
        invariant
            i <= a@.len(),
            a@.len() == b@.len(),
            forall|j: int| 0 <= j < i ==> contents(a@)[j] == contents(b@)[j],
        decreases a@.len() - i,
    {
        if !a[i].same(&b[i]) {
            assert(contents(a@)[i as int] != contents(b@)[i as int]);
            return false;
        }
        assert(contents(a@)[i as int] == contents(b@)[i as int]);
        i += 1;
    }
    assert(contents(a@) =~= contents(b@));
    true
}

/// Where the modes are kept: beside the config.
pub fn path(config: &str) -> (r: String)
    ensures
        rooted(r@) == rooted(config@),
        names(r@) == (if file_name(names(config@)) is Some {
            names(config@).drop_last()
        } else {
            names(config@)
        }).push("brightness-modes.toml"@),
{
    proof {
        reveal_strlit("brightness-modes.toml");
        reveal_strlit(".");
        assert("brightness-modes.toml"@.len() == 21);
    }
    with_file_name(config, "brightness-modes.toml")
}

pub const HEADER: &'static str =
    "# Brightness modes, edited from cosmicbar's brightness popup. Hand edits are\n# picked up by `cosmicbar reload`. Levels are percent per display, keyed by\n# connector (or backlight device).\n\n";

/// The text of the modes file, given the modes in TOML.
pub fn file_text(modes: &str) -> (r: String)
    ensures
        r@ == HEADER@ + modes@,
{
    concat(HEADER, modes)
}

/// The generation of the newest save that has run.
#[derive(Debug, Clone)]
pub struct Saves {
    pub newest: u64,
}

impl Saves {
    /// Whether a save is to be written: one older than a save that has already
    /// run is dropped, even when that one failed, since what it would have
    /// written is newer.
    pub fn takes(&mut self, generation: u64) -> (r: bool)
        ensures
            r == (generation > old(self).newest),
            final(self).newest == if generation > old(self).newest {
                generation
            } else {
                old(self).newest
            },
    {
        if generation <= self.newest {
            return false;
        }
        self.newest = generation;
        true
    }
}

/// The newest generation among the saves that were asked to run.
pub open spec fn newest_of(saves: Seq<u64>) -> u64
    decreases saves.len(),
{
    if saves.len() == 0 {
        0
    } else {
        let before = newest_of(saves.drop_last());
        if saves.last() > before {
            saves.last()
        } else {
            before
        }
    }
}

/// The generation that the file holds after saves ran in that order.
pub open spec fn written(saves: Seq<u64>) -> u64
    decreases saves.len(),
{
    if saves.len() == 0 {
        0
    } else if saves.last() > newest_of(saves.drop_last()) {
        saves.last()
    } else {
        written(saves.drop_last())
    }
}

/// In whatever order saves run, the newest is what the file ends up with.
pub proof fn law_the_newest_save_lands(saves: Seq<u64>)
    ensures
        written(saves) == newest_of(saves),
        forall|i: int| 0 <= i < saves.len() ==> #[trigger] saves[i] <= written(saves),
    decreases saves.len(),
{
    if saves.len() > 0 {
        law_the_newest_save_lands(saves.drop_last());
        assert forall|i: int| 0 <= i < saves.len() implies #[trigger] saves[i] <= written(saves) by {
            if i < saves.len() - 1 {
                assert(saves.drop_last()[i] == saves[i]);
            }
        }
    }
}

} // verus!
