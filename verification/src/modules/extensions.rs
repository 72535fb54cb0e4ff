//! The extensions that run.
use crate::config::{Config, Extension};
use crate::extension::Command;
use crate::modules::extension::{after, told_of, told_on, Event, State};
use crate::modules::id::{index_in, ModuleId, Names};
use crate::text::texts;
use vstd::prelude::*;
use vstd::string::*;

verus! {

/// One state per extension that runs.
#[derive(Debug, Clone)]
pub struct Extensions {
    pub states: Vec<State>,
}

/// Whether no two states are of one extension.
pub open spec fn distinct(states: Seq<State>) -> bool {
    forall|i: int, j: int|
        #![trigger states[i], states[j]]
        0 <= i < j < states.len() ==> states[i].index != states[j].index
}

/// The state of the extension under that index.
pub open spec fn state_of(states: Seq<State>, index: u32) -> Option<State>
    decreases states.len(),
{
    if states.len() == 0 {
        None
    } else if states[0].index == index {
        Some(states[0])
    } else {
        state_of(states.skip(1), index)
    }
}

proof fn lemma_state_of(states: Seq<State>, index: u32, i: int)
    requires
        0 <= i <= states.len(),
        forall|j: int| 0 <= j < i ==> (#[trigger] states[j]).index != index,
        i < states.len() ==> states[i].index == index,
    ensures
        state_of(states, index) == if i < states.len() {
            Some(states[i])
        } else {
            None
        },
    decreases states.len(),
{
    if i > 0 && states.len() > 0 {
        let rest = states.skip(1);
        assert forall|j: int| 0 <= j < i - 1 implies (#[trigger] rest[j]).index != index by {
            assert(rest[j] == states[j + 1]);
        }
        assert(states[0].index != index);
        lemma_state_of(rest, index, i - 1);
    }
}

/// The first entry that declares the extension under that index. One name is
/// one module, so a second entry under it is a typo rather than a second
/// program.
pub open spec fn first_entry(entries: Seq<Extension>, names: Seq<String>, index: u32) -> Option<
    Extension,
>
    decreases entries.len(),
{
    if entries.len() == 0 {
        None
    } else {
        let before = first_entry(entries.drop_last(), names, index);
        if before is None && index_in(names, entries.last().name@) == Some(index as int) {
            Some(entries.last())
        } else {
            before
        }
    }
}

/// Whether an extension runs: some region places it, and its first entry has a
/// command. An entry whose command was blanked is a stopped extension.
pub open spec fn runs(config: Config, names: Seq<String>, index: u32) -> bool {
    &&& config.order().contains(ModuleId::Extension(index))
    &&& first_entry(config.extensions@, names, index) matches Some(entry) && entry.command@.len()
        > 0
}

/// Whether `now` is the state of a running extension: what it was, with the
/// command that the config gives it, or a fresh one.
pub open spec fn is_synced(was: Option<State>, now: State, index: u32, entry: Extension) -> bool {
    &&& texts(now.command@) == texts(entry.command@)
    &&& match was {
        Some(was) => now == (State { command: now.command, ..was }),
        None => now == (State {
            index,
            command: now.command,
            frame: None,
            running: false,
            open: false,
        }),
    }
}

fn copy(list: &Vec<String>) -> (r: Vec<String>)
    ensures
        texts(r@) == texts(list@),
{
    let mut out: Vec<String> = Vec::new();
    let mut i: usize = 0;
    while i < list.len()
        invariant
            i <= list@.len(),
            out@.len() == i,
            forall|j: int| 0 <= j < i ==> (#[trigger] out@[j])@ == list@[j]@,
        decreases list@.len() - i,
    {
        out.push(list[i].as_str().to_owned());
        i += 1;
    }
    assert(texts(out@) =~= texts(list@));
    out
}

fn take(states: &mut Vec<State>, index: u32) -> (r: Option<State>)
    requires
        distinct(old(states)@),
    ensures
        r == state_of(old(states)@, index),
        distinct(final(states)@),
        forall|other: u32|
            other != index ==> #[trigger] state_of(final(states)@, other) == state_of(
                old(states)@,
                other,
            ),
        state_of(final(states)@, index) is None,
{
    let mut i: usize = 0;
    while i < states.len() && states[i].index != index
        invariant
            i <= states@.len(),
            states@ == old(states)@,
            forall|j: int| 0 <= j < i ==> (#[trigger] states@[j]).index != index,
        ensures
            i <= states@.len(),
            states@ == old(states)@,
            forall|j: int| 0 <= j < i ==> (#[trigger] states@[j]).index != index,
            i < states@.len() ==> states@[i as int].index == index,
        decreases states@.len() - i,
    {
        i += 1;
    }
    proof {
        lemma_state_of(states@, index, i as int);
    }
    if i == states.len() {
        return None;
    }
    let ghost before = states@;
    let state = states.remove(i);
    proof {
        let after = states@;
        assert(after == before.remove(i as int));
        assert forall|a: int, b: int|
            #![trigger after[a], after[b]]
            0 <= a < b < after.len() implies after[a].index != after[b].index by {
            let x = if a < i {
                a
            } else {
                a + 1
            };
            let y = if b < i {
                b
            } else {
                b + 1
            };
            assert(after[a] == before[x]);
            assert(after[b] == before[y]);
        }
        assert forall|other: u32| other != index implies #[trigger] state_of(after, other)
            == state_of(before, other) by {
            lemma_removed(before, i as int, other);
        }
        assert forall|j: int| 0 <= j < after.len() implies (#[trigger] after[j]).index != index by {
            let x = if j < i {
                j
            } else {
                j + 1
            };
            assert(after[j] == before[x]);
            assert(before[x].index != before[i as int].index);
        }
        lemma_state_of(after, index, after.len() as int);
    }
    Some(state)
}

proof fn lemma_removed(states: Seq<State>, i: int, other: u32)
    requires
        0 <= i < states.len(),
        states[i].index != other,
    ensures
        state_of(states.remove(i), other) == state_of(states, other),
    decreases states.len(),
{
    if i == 0 {
        assert(states.remove(0) =~= states.skip(1));
    } else {
        assert(states.remove(i)[0] == states[0]);
        assert(states.remove(i).skip(1) =~= states.skip(1).remove(i - 1));
        if states[0].index != other {
            lemma_removed(states.skip(1), i - 1, other);
        }
    }
}

proof fn lemma_pushed(states: Seq<State>, state: State, other: u32)
    ensures
        state_of(states.push(state), other) == match state_of(states, other) {
            Some(found) => Some(found),
            None => if state.index == other {
                Some(state)
            } else {
                None
            },
        },
    decreases states.len(),
{
    let all = states.push(state);
    if states.len() == 0 {
        assert(all[0] == state);
        assert(all.skip(1) =~= Seq::empty());
        assert(state_of(all.skip(1), other) is None);
    } else {
        assert(all[0] == states[0]);
        assert(all.skip(1) =~= states.skip(1).push(state));
        lemma_pushed(states.skip(1), state, other);
    }
}

proof fn lemma_distinct_push(states: Seq<State>, state: State)
    requires
        distinct(states),
        state_of(states, state.index) is None,
    ensures
        distinct(states.push(state)),
{
    let all = states.push(state);
    assert forall|a: int, b: int|
        #![trigger all[a], all[b]]
        0 <= a < b < all.len() implies all[a].index != all[b].index by {
        assert(all[a] == states[a]);
        if b < states.len() {
            assert(all[b] == states[b]);
        } else if states[a].index == state.index {
            lemma_found(states, state.index, a);
        }
    }
}

proof fn lemma_found(states: Seq<State>, index: u32, i: int)
    requires
        0 <= i < states.len(),
        states[i].index == index,
    ensures
        state_of(states, index) is Some,
    decreases states.len(),
{
    if states[0].index != index {
        assert(states.skip(1)[i - 1] == states[i]);
        lemma_found(states.skip(1), index, i - 1);
    }
}

impl Extensions {
    pub open spec fn wf(self) -> bool {
        distinct(self.states@)
    }

    pub fn new() -> (r: Extensions)
        ensures
            r.wf(),
            r.states@.len() == 0,
    {
        Extensions { states: Vec::new() }
    }

    /// Bring the extension states in line with the config: one running program
    /// per declared extension that some region actually places.
    pub fn sync(&mut self, config: &Config, names: &Names)
        requires
            old(self).wf(),
            config.wf(),
            names.wf(),
        ensures
            final(self).wf(),
            forall|index: u32|
                if runs(*config, names.names@, index) {
                    #[trigger] state_of(final(self).states@, index) matches Some(now)
                        && is_synced(
                        state_of(old(self).states@, index),
                        now,
                        index,
                        first_entry(config.extensions@, names.names@, index)->0,
                    )
                } else {
                    state_of(final(self).states@, index) is None
                },
    {
        let mut had: Vec<State> = Vec::new();
        core::mem::swap(&mut had, &mut self.states);
        let ghost was = had@;
        let ghost entries = config.extensions@;
        let ghost table = names.names@;
        let mut now: Vec<State> = Vec::new();
        let mut seen: Vec<u32> = Vec::new();
        let mut i: usize = 0;
        while i < config.extensions.len()
            invariant
                i <= entries.len(),
                config.wf(),
                names.wf(),
                entries == config.extensions@,
                table == names.names@,
                distinct(had@),
                distinct(now@),
                forall|index: u32|
                    #![trigger first_entry(entries.take(i as int), table, index)]
                    config.order().contains(ModuleId::Extension(index)) ==> (seen@.contains(index)
                        <==> first_entry(entries.take(i as int), table, index) is Some),
                forall|index: u32|
                    #![trigger state_of(had@, index)]
                    !seen@.contains(index) ==> state_of(had@, index) == state_of(was, index),
                forall|index: u32|
                    if config.order().contains(ModuleId::Extension(index)) && (first_entry(
                        entries.take(i as int),
                        table,
                        index,
                    ) matches Some(entry) && entry.command@.len() > 0) {
                        #[trigger] state_of(now@, index) matches Some(state) && is_synced(
                            state_of(was, index),
                            state,
                            index,
                            first_entry(entries.take(i as int), table, index)->0,
                        )
                    } else {
                        state_of(now@, index) is None
                    },
                forall|k: u32| #[trigger]
                    seen@.contains(k) ==> config.order().contains(ModuleId::Extension(k)),
            decreases entries.len() - i,
        {
            let entry = &config.extensions[i];
            proof {
                assert(entries.take(i + 1).drop_last() =~= entries.take(i as int));
                assert(entries.take(i + 1).last() == *entry);
            }
            let known = names.interned_index(entry.name.as_str());
            let ghost seen_before = seen@;
            let ghost had_before = had@;
            let ghost now_before = now@;
            match known {
                Some(index) => {
                    if config.wants(ModuleId::Extension(index)) && !holds(&seen, index) {
                        seen.push(index);
                        proof {
                            assert forall|k: u32| #[trigger] seen@.contains(k) <==> k == index
                                || seen_before.contains(k) by {
                                if seen_before.contains(k) {
                                    let p = choose|p: int|
                                        0 <= p < seen_before.len() && seen_before[p] == k;
                                    assert(seen@[p] == k);
                                }
                                assert(seen@[seen_before.len() as int] == index);
                            }
                        }
                        if entry.command.len() > 0 {
                            let command = copy(&entry.command);
                            let state = match take(&mut had, index) {
                                Some(mut state) => {
                                    state.set_command(command);
                                    state
                                },
                                None => State::new(index, command),
                            };
                            proof {
                                lemma_state_index(had_before, index);
                                assert(state.index == index);
                                assert(state_of(now_before, index) is None);
                                lemma_distinct_push(now_before, state);
                                assert forall|other: u32| #[trigger]
                                    state_of(now_before.push(state), other) == match state_of(
                                        now_before,
                                        other,
                                    ) {
                                        Some(found) => Some(found),
                                        None => if state.index == other {
                                            Some(state)
                                        } else {
                                            None
                                        },
                                    } by {
                                    lemma_pushed(now_before, state, other);
                                }
                            }
                            now.push(state);
                        }
                    }
                },
                None => {},
            }
            proof {
                let next = entries.take(i + 1);
                assert forall|k: u32|
                    #![trigger first_entry(next, table, k)]
                    config.order().contains(ModuleId::Extension(k)) implies (seen@.contains(k)
                    <==> first_entry(next, table, k) is Some) by {
                    let before = first_entry(entries.take(i as int), table, k);
                    assert(seen_before.contains(k) <==> before is Some);
                    assert(first_entry(next, table, k) == if before is None && index_in(
                        table,
                        entry.name@,
                    ) == Some(k as int) {
                        Some(*entry)
                    } else {
                        before
                    });
                }
            }
            i += 1;
        }
        assert(entries.take(i as int) =~= entries);
        self.states = now;
    }

    /// Tell each extension whether its popup is the one on screen; what each is
    /// to be told, by its place among the states.
    pub fn set_popup(&mut self, open: Option<ModuleId>) -> (tell: Vec<Option<Command>>)
        ensures
            final(self).states@.len() == old(self).states@.len(),
            tell@.len() == old(self).states@.len(),
            forall|i: int|
                #![trigger final(self).states@[i]]
                #![trigger tell@[i]]
                0 <= i < tell@.len() ==> {
                    let was = old(self).states@[i];
                    let shown = open == Some(ModuleId::Extension(was.index));
                    &&& final(self).states@[i] == (State { open: shown, ..was })
                    &&& tell@[i] == told_of(was, shown)
                },
    {
        let mut tell: Vec<Option<Command>> = Vec::new();
        let n: usize = self.states.len();
        let mut i: usize = 0;
        while i < n
            invariant
                n == self.states@.len(),
                n == old(self).states@.len(),
                i <= n,
                tell@.len() == i,
                forall|j: int|
                    #![trigger self.states@[j]]
                    #![trigger tell@[j]]
                    0 <= j < i ==> {
                        let was = old(self).states@[j];
                        let shown = open == Some(ModuleId::Extension(was.index));
                        &&& self.states@[j] == (State { open: shown, ..was })
                        &&& tell@[j] == told_of(was, shown)
                    },
                forall|j: int| i <= j < n ==> #[trigger] self.states@[j] == old(self).states@[j],
            decreases n - i,
        {
            let shown = match open {
                Some(ModuleId::Extension(index)) => index == self.states[i].index,
                _ => false,
            };
            let command = self.states[i].set_open(shown);
            tell.push(command);
            i += 1;
        }
        tell
    }

    /// Hand an event to the extension it is for. One from an extension that
    /// the config just dropped has nowhere to go, and nothing to change.
    pub fn update(&mut self, index: u32, event: Event) -> (tell: Option<Command>)
        requires
            old(self).wf(),
        ensures
            final(self).wf(),
            match state_of(old(self).states@, index) {
                Some(state) => {
                    &&& state_of(final(self).states@, index) == Some(after(state, event))
                    &&& tell == told_on(state, event)
                },
                None => final(self).states@ == old(self).states@ && tell is None,
            },
            forall|other: u32|
                other != index ==> #[trigger] state_of(final(self).states@, other) == state_of(
                    old(self).states@,
                    other,
                ),
    {
        let mut i: usize = 0;
        while i < self.states.len() && self.states[i].index != index
            invariant
                i <= self.states@.len(),
                self.states@ == old(self).states@,
                forall|j: int| 0 <= j < i ==> (#[trigger] self.states@[j]).index != index,
            ensures
                i <= self.states@.len(),
                self.states@ == old(self).states@,
                forall|j: int| 0 <= j < i ==> (#[trigger] self.states@[j]).index != index,
                i < self.states@.len() ==> self.states@[i as int].index == index,
            decreases self.states@.len() - i,
        {
            i += 1;
        }
        let ghost before = self.states@;
        proof {
            lemma_state_of(before, index, i as int);
        }
        if i == self.states.len() {
            return None;
        }
        let tell = self.states[i].update(event);
        proof {
            let after = self.states@;
            assert(after =~= before.update(i as int, after[i as int]));
            lemma_state_of(after, index, i as int);
            assert forall|other: u32| other != index implies #[trigger] state_of(after, other)
                == state_of(before, other) by {
                lemma_updated(before, i as int, after[i as int], other);
            }
        }
        tell
    }

    pub fn has_popup(&self, index: u32) -> (r: bool)
        ensures
            r == match state_of(self.states@, index) {
                Some(state) => state.pops_up(),
                None => false,
            },
    {
        let mut i: usize = 0;
        while i < self.states.len()
            invariant
                i <= self.states@.len(),
                forall|j: int| 0 <= j < i ==> (#[trigger] self.states@[j]).index != index,
            decreases self.states@.len() - i,
        {
            if self.states[i].index == index {
                proof {
                    lemma_state_of(self.states@, index, i as int);
                }
                return self.states[i].has_popup();
            }
            i += 1;
        }
        proof {
            lemma_state_of(self.states@, index, i as int);
        }
        false
    }
}

proof fn lemma_updated(states: Seq<State>, i: int, state: State, other: u32)
    requires
        0 <= i < states.len(),
        state.index == states[i].index,
        states[i].index != other,
    ensures
        state_of(states.update(i, state), other) == state_of(states, other),
    decreases states.len(),
{
    let all = states.update(i, state);
    if i == 0 {
        assert(all.skip(1) =~= states.skip(1));
    } else {
        assert(all[0] == states[0]);
        assert(all.skip(1) =~= states.skip(1).update(i - 1, state));
        if states[0].index != other {
            lemma_updated(states.skip(1), i - 1, state, other);
        }
    }
}

proof fn lemma_state_index(states: Seq<State>, index: u32)
    ensures
        state_of(states, index) matches Some(state) ==> state.index == index,
    decreases states.len(),
{
    if states.len() > 0 && states[0].index != index {
        lemma_state_index(states.skip(1), index);
    }
}

fn holds(list: &Vec<u32>, n: u32) -> (r: bool)
    ensures
        r == list@.contains(n),
{
    let mut i: usize = 0;
    while i < list.len()
        invariant
            i <= list@.len(),
            forall|j: int| 0 <= j < i ==> list@[j] != n,
        decreases list@.len() - i,
    {
        if list[i] == n {
            return true;
        }
        i += 1;
    }
    false
}

} // verus!
