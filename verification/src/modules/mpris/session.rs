//! The players on the bus, in the order of their names.
use crate::dbus::Props;
use crate::modules::mpris::player::{
    applied, is_player, is_player_name, positioned, text_in, Action, Player, PlayerView, Status,
    PLAYER_IFACE, ROOT_IFACE,
};
use crate::modules::mpris::value::text_value;
use crate::text::{
    comes_before, is_among, lemma_text_order_total, lemma_text_order_transitive, opt_str, same,
    text_before, texts,
};
use vstd::prelude::*;
use vstd::string::*;

verus! {

pub open spec fn player_views(players: Seq<Player>) -> Seq<PlayerView> {
    players.map_values(|p: Player| p@)
}

pub open spec fn pair_views(pairs: Seq<(String, String)>) -> Seq<(Seq<char>, Seq<char>)> {
    pairs.map_values(|p: (String, String)| (p.0@, p.1@))
}

/// The player names of the bus names that own them.
pub open spec fn owned(owners: Seq<(Seq<char>, Seq<char>)>, owner: Seq<char>) -> Option<Seq<char>>
    decreases owners.len(),
{
    if owners.len() == 0 {
        None
    } else if owners.last().0 == owner {
        Some(owners.last().1)
    } else {
        owned(owners.drop_last(), owner)
    }
}

pub open spec fn disowned(owners: Seq<(Seq<char>, Seq<char>)>, owner: Seq<char>) -> Seq<
    (Seq<char>, Seq<char>),
>
    decreases owners.len(),
{
    if owners.len() == 0 {
        owners
    } else {
        let before = disowned(owners.drop_last(), owner);
        if owners.last().0 == owner {
            before
        } else {
            before.push(owners.last())
        }
    }
}

/// Where the player of that name stands.
pub open spec fn place(players: Seq<PlayerView>, bus: Seq<char>) -> Option<int>
    decreases players.len(),
{
    if players.len() == 0 {
        None
    } else if players[0].bus == bus {
        Some(0int)
    } else {
        match place(players.skip(1), bus) {
            Some(i) => Some(i + 1),
            None => None,
        }
    }
}

/// The players with one more, in its place by name, or in place of the one of
/// its name.
pub open spec fn inserted(players: Seq<PlayerView>, p: PlayerView) -> Seq<PlayerView>
    decreases players.len(),
{
    if players.len() == 0 {
        seq![p]
    } else if players[0].bus == p.bus {
        players.update(0, p)
    } else if text_before(p.bus, players[0].bus) {
        seq![p] + players
    } else {
        seq![players[0]] + inserted(players.skip(1), p)
    }
}

/// No two players have one name, and they stand in the order of their names.
pub open spec fn in_order(players: Seq<PlayerView>) -> bool {
    forall|i: int, j: int|
        0 <= i < j < players.len() ==> text_before(
            (#[trigger] players[i]).bus,
            (#[trigger] players[j]).bus,
        )
}

proof fn lemma_inserted_within(players: Seq<PlayerView>, p: PlayerView, i: int)
    requires
        0 <= i < inserted(players, p).len(),
    ensures
        inserted(players, p)[i] == p || players.contains(inserted(players, p)[i]),
    decreases players.len(),
{
    let all = inserted(players, p);
    if players.len() > 0 {
        if players[0].bus == p.bus {
            if i > 0 {
                assert(players[i] == all[i]);
            }
        } else if text_before(p.bus, players[0].bus) {
            if i > 0 {
                assert(players[i - 1] == all[i]);
            }
        } else if i > 0 {
            let rest = players.skip(1);
            lemma_inserted_within(rest, p, i - 1);
            assert(all[i] == inserted(rest, p)[i - 1]);
            if rest.contains(all[i]) {
                let k = choose|k: int| 0 <= k < rest.len() && rest[k] == all[i];
                assert(players[k + 1] == all[i]);
            }
        } else {
            assert(players[0] == all[0]);
        }
    }
}

/// A new player finds its place, and nobody stands twice.
pub proof fn law_players_stay_in_order(players: Seq<PlayerView>, p: PlayerView)
    requires
        in_order(players),
    ensures
        in_order(inserted(players, p)),
        inserted(players, p).contains(p),
        forall|i: int|
            0 <= i < players.len() && players[i].bus != p.bus ==> inserted(players, p).contains(
                #[trigger] players[i],
            ),
    decreases players.len(),
{
    let all = inserted(players, p);
    if players.len() == 0 {
        assert(all[0] == p);
    } else if players[0].bus == p.bus {
        assert(all[0] == p);
        assert forall|i: int, j: int| 0 <= i < j < all.len() implies text_before(
            (#[trigger] all[i]).bus,
            (#[trigger] all[j]).bus,
        ) by {
            assert(players[j] == all[j]);
            assert(players[i].bus == all[i].bus);
        }
        assert forall|i: int| 0 <= i < players.len() && players[i].bus != p.bus implies all.contains(
            #[trigger] players[i],
        ) by {
            assert(all[i] == players[i]);
        }
    } else if text_before(p.bus, players[0].bus) {
        assert(all[0] == p);
        assert forall|i: int, j: int| 0 <= i < j < all.len() implies text_before(
            (#[trigger] all[i]).bus,
            (#[trigger] all[j]).bus,
        ) by {
            assert(all[j] == players[j - 1]);
            if i > 0 {
                assert(all[i] == players[i - 1]);
            } else if j > 1 {
                assert(text_before(players[0].bus, players[j - 1].bus));
                lemma_text_order_transitive(p.bus, players[0].bus, players[j - 1].bus);
            }
        }
        assert forall|i: int| 0 <= i < players.len() implies all.contains(
            #[trigger] players[i],
        ) by {
            assert(all[i + 1] == players[i]);
        }
    } else {
        let rest = players.skip(1);
        let more = inserted(rest, p);
        assert(in_order(rest)) by {
            assert forall|i: int, j: int| 0 <= i < j < rest.len() implies text_before(
                (#[trigger] rest[i]).bus,
                (#[trigger] rest[j]).bus,
            ) by {
                assert(text_before(players[i + 1].bus, players[j + 1].bus));
            }
        }
        law_players_stay_in_order(rest, p);
        lemma_text_order_total(p.bus, players[0].bus);
        assert forall|j: int| 0 <= j < more.len() implies text_before(
            players[0].bus,
            (#[trigger] more[j]).bus,
        ) by {
            lemma_inserted_within(rest, p, j);
            if more[j] != p {
                let k = choose|k: int| 0 <= k < rest.len() && rest[k] == more[j];
                assert(text_before(players[0].bus, players[k + 1].bus));
            }
        }
        assert forall|i: int, j: int| 0 <= i < j < all.len() implies text_before(
            (#[trigger] all[i]).bus,
            (#[trigger] all[j]).bus,
        ) by {
            assert(all[j] == more[j - 1]);
            if i > 0 {
                assert(all[i] == more[i - 1]);
            }
        }
        let k = choose|k: int| 0 <= k < more.len() && more[k] == p;
        assert(all[k + 1] == p);
        assert forall|i: int| 0 <= i < players.len() && players[i].bus != p.bus implies all.contains(
            #[trigger] players[i],
        ) by {
            if i == 0 {
                assert(all[0] == players[0]);
            } else {
                assert(rest[i - 1] == players[i]);
                assert(more.contains(rest[i - 1]));
                let k = choose|k: int| 0 <= k < more.len() && more[k] == rest[i - 1];
                assert(all[k + 1] == players[i]);
            }
        }
    }
}

/// The players on one bus connection.
#[derive(Debug, Clone)]
pub struct Roster {
    pub players: Vec<Player>,
    /// Unique bus names, and the player names they own, so that a signal's
    /// sender can be told.
    pub owners: Vec<(String, String)>,
}

/// What is to be done next.
#[derive(Debug, Clone)]
pub enum Step {
    Nothing,
    /// Send the players to the bar.
    Publish,
    /// Read a player's whole state, then say what came of it.
    Load(String),
    /// Ask a player for its position, then send the players to the bar.
    Resync(String),
    /// Send a player what was asked of it.
    Act(String),
}

pub enum StepView {
    Nothing,
    Publish,
    Load(Seq<char>),
    Resync(Seq<char>),
    Act(Seq<char>),
}

impl View for Step {
    type V = StepView;

    open spec fn view(&self) -> StepView {
        match *self {
            Step::Nothing => StepView::Nothing,
            Step::Publish => StepView::Publish,
            Step::Load(bus) => StepView::Load(bus@),
            Step::Resync(bus) => StepView::Resync(bus@),
            Step::Act(bus) => StepView::Act(bus@),
        }
    }
}

/// The players without the one at `i`.
pub open spec fn dropped(players: Seq<PlayerView>, bus: Seq<char>) -> Seq<PlayerView> {
    match place(players, bus) {
        Some(i) => players.remove(i),
        None => players,
    }
}

/// Whether a signal's changes move the position without telling.
pub open spec fn moves(before: PlayerView, updates: Props, invalidated: Seq<Seq<char>>, now: i64) -> bool {
    ||| before.status != applied(before, updates, now).status
    ||| updates.raw("Metadata"@) is Some
    ||| invalidated.contains("Position"@)
}

/// Where the player stands that a signal is from.
pub open spec fn speaker(
    players: Seq<PlayerView>,
    owners: Seq<(Seq<char>, Seq<char>)>,
    sender: Option<Seq<char>>,
) -> Option<int> {
    match sender {
        Some(sender) => match owned(owners, sender) {
            Some(bus) => place(players, bus),
            None => None,
        },
        None => None,
    }
}

proof fn lemma_place(players: Seq<PlayerView>, bus: Seq<char>, k: int)
    requires
        0 <= k <= players.len(),
        forall|j: int| 0 <= j < k ==> (#[trigger] players[j]).bus != bus,
        k < players.len() ==> players[k].bus == bus,
    ensures
        place(players, bus) == if k < players.len() {
            Some(k)
        } else {
            None::<int>
        },
    decreases players.len(),
{
    if k > 0 && players.len() > 0 {
        let rest = players.skip(1);
        assert(players[0].bus != bus);
        assert forall|j: int| 0 <= j < k - 1 implies (#[trigger] rest[j]).bus != bus by {
            assert(rest[j] == players[j + 1]);
        }
        lemma_place(rest, bus, k - 1);
    }
}

proof fn lemma_inserted(players: Seq<PlayerView>, p: PlayerView, k: int)
    requires
        0 <= k <= players.len(),
        forall|j: int|
            0 <= j < k ==> (#[trigger] players[j]).bus != p.bus && !text_before(
                p.bus,
                players[j].bus,
            ),
        k < players.len() ==> players[k].bus == p.bus || text_before(p.bus, players[k].bus),
    ensures
        inserted(players, p) == if k < players.len() && players[k].bus == p.bus {
            players.update(k, p)
        } else {
            players.insert(k, p)
        },
    decreases players.len(),
{
    let all = if k < players.len() && players[k].bus == p.bus {
        players.update(k, p)
    } else {
        players.insert(k, p)
    };
    if players.len() == 0 {
        assert(all =~= seq![p]);
    } else if k == 0 {
        if players[0].bus != p.bus {
            assert(all =~= seq![p] + players);
        }
    } else {
        let rest = players.skip(1);
        assert(players[0].bus != p.bus && !text_before(p.bus, players[0].bus));
        assert forall|j: int| 0 <= j < k - 1 implies (#[trigger] rest[j]).bus != p.bus
            && !text_before(p.bus, rest[j].bus) by {
            assert(rest[j] == players[j + 1]);
        }
        lemma_inserted(rest, p, k - 1);
        if k < players.len() && players[k].bus == p.bus {
            assert(all =~= seq![players[0]] + rest.update(k - 1, p));
        } else {
            assert(all =~= seq![players[0]] + rest.insert(k - 1, p));
        }
    }
}

/// Where the player of that name stands.
pub fn find_bus(players: &Vec<Player>, bus: &str) -> (r: Option<usize>)
    ensures
        match r {
            Some(i) => i < players@.len() && place(player_views(players@), bus@) == Some(i as int),
            None => place(player_views(players@), bus@) is None,
        },
{
    let ghost all = player_views(players@);
    let mut i: usize = 0;
    while i < players.len() && !same(players[i].bus.as_str(), bus)
        invariant
            i <= players@.len(),
            all == player_views(players@),
            forall|j: int| 0 <= j < i ==> (#[trigger] all[j]).bus != bus@,
        ensures
            i <= players@.len(),
            forall|j: int| 0 <= j < i ==> (#[trigger] all[j]).bus != bus@,
            i < players@.len() ==> all[i as int].bus == bus@,
        decreases players@.len() - i,
    {
        i += 1;
    }
    proof {
        lemma_place(all, bus@, i as int);
    }
    if i < players.len() {
        Some(i)
    } else {
        None
    }
}

impl Roster {
    pub fn new() -> (r: Roster)
        ensures
            r.players@.len() == 0,
            r.owners@.len() == 0,
    {
        Roster { players: Vec::new(), owners: Vec::new() }
    }

    /// Where the player of that name stands.
    pub fn find(&self, bus: &str) -> (r: Option<usize>)
        ensures
            match r {
                Some(i) => i < self.players@.len() && place(player_views(self.players@), bus@)
                    == Some(i as int),
                None => place(player_views(self.players@), bus@) is None,
            },
    {
        find_bus(&self.players, bus)
    }

    /// Put a player in its place by name, or in place of the one of its name.
    pub fn insert(&mut self, player: Player)
        ensures
            player_views(final(self).players@) == inserted(
                player_views(old(self).players@),
                player@,
            ),
            final(self).owners == old(self).owners,
    {
        let ghost all = player_views(self.players@);
        let mut i: usize = 0;
        while i < self.players.len() && !same(self.players[i].bus.as_str(), player.bus.as_str())
            && !comes_before(player.bus.as_str(), self.players[i].bus.as_str())
            invariant
                *self == *old(self),
                i <= self.players@.len(),
                all == player_views(self.players@),
                forall|j: int|
                    0 <= j < i ==> (#[trigger] all[j]).bus != player@.bus && !text_before(
                        player@.bus,
                        all[j].bus,
                    ),
            ensures
                *self == *old(self),
                i <= self.players@.len(),
                forall|j: int|
                    0 <= j < i ==> (#[trigger] all[j]).bus != player@.bus && !text_before(
                        player@.bus,
                        all[j].bus,
                    ),
                i < self.players@.len() ==> all[i as int].bus == player@.bus || text_before(
                    player@.bus,
                    all[i as int].bus,
                ),
            decreases self.players@.len() - i,
        {
            i += 1;
        }
        proof {
            lemma_inserted(all, player@, i as int);
        }
        if i < self.players.len() && same(self.players[i].bus.as_str(), player.bus.as_str()) {
            self.players[i] = player;
            assert(player_views(self.players@) =~= all.update(i as int, player@));
        } else {
            self.players.insert(i, player);
            assert(player_views(self.players@) =~= all.insert(i as int, player@));
        }
    }

    /// Note that a unique bus name no longer owns a player's name.
    pub fn disown(&mut self, owner: &str)
        ensures
            final(self).players == old(self).players,
            pair_views(final(self).owners@) == disowned(pair_views(old(self).owners@), owner@),
    {
        let ghost pairs = self.owners@;
        let ghost all = pair_views(pairs);
        let mut rest: Vec<(String, String)> = Vec::new();
        core::mem::swap(&mut rest, &mut self.owners);
        let mut kept: Vec<(String, String)> = Vec::new();
        let ghost mut k: int = 0;
        assert(pairs.skip(0) =~= pairs);
        assert(pair_views(kept@) =~= disowned(all.take(0), owner@));
        while rest.len() > 0
            invariant
                0 <= k <= pairs.len(),
                all == pair_views(pairs),
                rest@ == pairs.skip(k),
                pair_views(kept@) == disowned(all.take(k), owner@),
            decreases rest@.len(),
        {
            let pair = rest.remove(0);
            proof {
                assert(pair == pairs[k]);
                assert(rest@ =~= pairs.skip(k + 1));
                assert(all.take(k + 1).drop_last() =~= all.take(k));
                assert(all.take(k + 1).last() == (pair.0@, pair.1@));
                k = k + 1;
            }
            if !same(pair.0.as_str(), owner) {
                let ghost had = kept@;
                kept.push(pair);
                assert(pair_views(kept@) =~= pair_views(had).push((pair.0@, pair.1@)));
            }
        }
        assert(all.take(k) =~= all);
        self.owners = kept;
    }

    /// Note that a unique bus name owns a player's name.
    pub fn own(&mut self, owner: &str, bus: &str)
        ensures
            final(self).players == old(self).players,
            pair_views(final(self).owners@) == disowned(
                pair_views(old(self).owners@),
                owner@,
            ).push((owner@, bus@)),
    {
        self.disown(owner);
        let ghost had = self.owners@;
        self.owners.push((owner.to_owned(), bus.to_owned()));
        assert(pair_views(self.owners@) =~= pair_views(had).push((owner@, bus@)));
    }

    /// Where the player stands that a signal is from.
    pub fn speaking(&self, sender: Option<&str>) -> (r: Option<usize>)
        ensures
            match r {
                Some(i) => i < self.players@.len() && speaker(
                    player_views(self.players@),
                    pair_views(self.owners@),
                    opt_str(sender),
                ) == Some(i as int),
                None => speaker(
                    player_views(self.players@),
                    pair_views(self.owners@),
                    opt_str(sender),
                ) is None,
            },
    {
        let from: &str = match sender {
            Some(from) => from,
            None => {
                return None;
            },
        };
        let ghost all = pair_views(self.owners@);
        let mut n: usize = self.owners.len();
        assert(all.take(n as int) =~= all);
        while n > 0
            invariant
                n <= self.owners@.len(),
                all == pair_views(self.owners@),
                opt_str(sender) == Some(from@),
                owned(all.take(n as int), from@) == owned(all, from@),
            decreases n,
        {
            proof {
                assert(all.take(n as int).last() == all[n - 1]);
                assert(all.take(n as int).drop_last() =~= all.take(n - 1));
            }
            if same(self.owners[n - 1].0.as_str(), from) {
                return self.find(self.owners[n - 1].1.as_str());
            }
            n -= 1;
        }
        None
    }

    /// A name on the bus changed its owner.
    pub fn renamed(&mut self, name: &str, old_owner: Option<&str>, new_owner: Option<&str>) -> (r:
        Step)
        ensures
            ({
                let (players, owners) = (
                    player_views(old(self).players@),
                    pair_views(old(self).owners@),
                );
                let left = match old_owner {
                    Some(owner) => disowned(owners, owner@),
                    None => owners,
                };
                if !is_player_name(name@) {
                    *final(self) == *old(self) && r@ == StepView::Nothing
                } else {
                    match new_owner {
                        Some(owner) => {
                            &&& final(self).players == old(self).players
                            &&& pair_views(final(self).owners@) == disowned(left, owner@).push(
                                (owner@, name@),
                            )
                            &&& r@ == StepView::Load(name@)
                        },
                        None => {
                            &&& player_views(final(self).players@) == dropped(players, name@)
                            &&& pair_views(final(self).owners@) == left
                            &&& r@ == if place(players, name@) is Some {
                                StepView::Publish
                            } else {
                                StepView::Nothing
                            }
                        },
                    }
                }
            }),
    {
        if !is_player(name) {
            return Step::Nothing;
        }
        match old_owner {
            Some(owner) => {
                self.disown(owner);
            },
            None => {},
        }
        match new_owner {
            Some(owner) => {
                self.own(owner, name);
                Step::Load(name.to_owned())
            },
            None => {
                let ghost before = player_views(self.players@);
                match self.find(name) {
                    Some(i) => {
                        let _ = self.players.remove(i);
                        assert(player_views(self.players@) =~= before.remove(i as int));
                        Step::Publish
                    },
                    None => Step::Nothing,
                }
            },
        }
    }

    /// A player that was to be read came back, or did not.
    pub fn loaded(&mut self, player: Option<Player>) -> (r: Step)
        ensures
            final(self).owners == old(self).owners,
            match player {
                Some(p) => player_views(final(self).players@) == inserted(
                    player_views(old(self).players@),
                    p@,
                ) && r@ == StepView::Publish,
                None => *final(self) == *old(self) && r@ == StepView::Nothing,
            },
    {
        match player {
            Some(player) => {
                self.insert(player);
                Step::Publish
            },
            None => Step::Nothing,
        }
    }

    /// A player told of changed properties.
    pub fn changed(
        &mut self,
        sender: Option<&str>,
        interface: &str,
        updates: &Props,
        invalidated: &Vec<String>,
        now: i64,
    ) -> (r: Step)
        ensures
            final(self).owners == old(self).owners,
            ({
                let players = player_views(old(self).players@);
                let after = player_views(final(self).players@);
                match speaker(players, pair_views(old(self).owners@), opt_str(sender)) {
                    Some(i) => if interface@ == PLAYER_IFACE@ {
                        &&& after == players.update(i, applied(players[i], *updates, now))
                        &&& r@ == if moves(players[i], *updates, texts(invalidated@), now) {
                            StepView::Resync(players[i].bus)
                        } else {
                            StepView::Publish
                        }
                    } else if interface@ == ROOT_IFACE@ && text_in(*updates, "Identity"@) is Some {
                        &&& after == players.update(
                            i,
                            PlayerView {
                                identity: text_in(*updates, "Identity"@)->0,
                                ..players[i]
                            },
                        )
                        &&& r@ == StepView::Publish
                    } else {
                        after == players && r@ == StepView::Nothing
                    },
                    None => after == players && r@ == StepView::Nothing,
                }
            }),
    {
        let ghost players = player_views(self.players@);
        let i: usize = match self.speaking(sender) {
            Some(i) => i,
            None => {
                return Step::Nothing;
            },
        };
        if same(interface, PLAYER_IFACE) {
            let was = self.players[i].status;
            self.players[i].apply(updates, now);
            assert(player_views(self.players@) =~= players.update(
                i as int,
                applied(players[i as int], *updates, now),
            ));
            let told = updates.get_raw("Metadata").is_some();
            if is_status(was, self.players[i].status) && !told && !is_among(
                invalidated,
                "Position",
            ) {
                Step::Publish
            } else {
                Step::Resync(self.players[i].bus.as_str().to_owned())
            }
        } else if same(interface, ROOT_IFACE) {
            let identity = match updates.get_raw("Identity") {
                Some(value) => text_value(value),
                None => None,
            };
            match identity {
                Some(identity) => {
                    let ghost named = identity@;
                    self.players[i].identity = identity;
                    assert(player_views(self.players@) =~= players.update(
                        i as int,
                        PlayerView { identity: named, ..players[i as int] },
                    ));
                    Step::Publish
                },
                None => Step::Nothing,
            }
        } else {
            Step::Nothing
        }
    }

    /// A player jumped.
    pub fn seeked(&mut self, sender: Option<&str>, position: i64, now: i64) -> (r: Step)
        ensures
            final(self).owners == old(self).owners,
            ({
                let players = player_views(old(self).players@);
                let after = player_views(final(self).players@);
                match speaker(players, pair_views(old(self).owners@), opt_str(sender)) {
                    Some(i) => after == players.update(i, positioned(players[i], position, now))
                        && r@ == StepView::Publish,
                    None => after == players && r@ == StepView::Nothing,
                }
            }),
    {
        let ghost players = player_views(self.players@);
        match self.speaking(sender) {
            Some(i) => {
                self.players[i].at(position, now);
                assert(player_views(self.players@) =~= players.update(
                    i as int,
                    positioned(players[i as int], position, now),
                ));
                Step::Publish
            },
            None => Step::Nothing,
        }
    }

    /// A player told where it is, or did not.
    pub fn resynced(&mut self, bus: &str, position: Option<i64>, now: i64)
        ensures
            final(self).owners == old(self).owners,
            ({
                let players = player_views(old(self).players@);
                let after = player_views(final(self).players@);
                match (place(players, bus@), position) {
                    (Some(i), Some(position)) => after == players.update(
                        i,
                        positioned(players[i], position, now),
                    ),
                    _ => after == players,
                }
            }),
    {
        let ghost players = player_views(self.players@);
        match position {
            Some(position) => match self.find(bus) {
                Some(i) => {
                    self.players[i].at(position, now);
                    assert(player_views(self.players@) =~= players.update(
                        i as int,
                        positioned(players[i as int], position, now),
                    ));
                },
                None => {},
            },
            None => {},
        }
    }

    /// What a request from the popup calls for: an error where its player is
    /// gone, a look at the position, or a call to that player.
    pub fn request(&self, bus: &str, action: &Action) -> (r: Result<Step, &'static str>)
        ensures
            match r {
                Ok(step) => place(player_views(self.players@), bus@) is Some && step@ == if action
                    is Resync {
                    StepView::Resync(bus@)
                } else {
                    StepView::Act(bus@)
                },
                Err(error) => place(player_views(self.players@), bus@) is None && error@
                    == "player is gone"@,
            },
    {
        match self.find(bus) {
            Some(_) => match action {
                Action::Resync => Ok(Step::Resync(bus.to_owned())),
                _ => Ok(Step::Act(bus.to_owned())),
            },
            None => Err("player is gone"),
        }
    }
}

fn is_status(a: Status, b: Status) -> (r: bool)
    ensures
        r == (a == b),
{
    a == b
}

} // verus!
