//! The population: one match per network, advanced together, and replaced
//! generation by generation through elite selection and mutation.

use vstd::prelude::*;
use vstd::slice::slice_subrange;
use rand::seq::IndexedRandom;
use crate::scalar::{Double, Single};
use crate::game::pong::{Contacts, GameWindow, Pong, Slot, Velocity};
use crate::neural_network::neural_network_f::{NetworkView, NeuralNetwork};

verus! {

/// How many arenas stand side by side in one row.
pub const GAMES_LINE: usize = 20;

/// The horizontal distance between the corners of two neighbouring arenas.
pub const SLOT_WIDTH: usize = 600;

/// The vertical distance between the corners of two rows of arenas.
pub const SLOT_HEIGHT: usize = 500;

/// A match together with the network that plays it, and what the population
/// records of it: whether it is over, and its last score.
#[derive(Debug)]
pub struct GamePack {
    pub neural_network: NeuralNetwork,
    pub pong: Pong,
    pub finished: bool,
    pub pontuation: i32,
}

/// The mathematical content of a [`GamePack`].
pub struct GamePackView {
    pub neural_network: NetworkView,
    pub pong: Pong,
    pub finished: bool,
    pub pontuation: i32,
}

impl View for GamePack {
    type V = GamePackView;

    open spec fn view(&self) -> GamePackView {
        GamePackView {
            neural_network: self.neural_network@,
            pong: self.pong,
            finished: self.finished,
            pontuation: self.pontuation,
        }
    }
}

/// The slot of the individual `index`: rows of [`GAMES_LINE`] arenas, the
/// first row one slot height down.
pub open spec fn slot_of(index: int) -> Slot {
    Slot {
        x: ((index % GAMES_LINE as int) * SLOT_WIDTH) as usize,
        y: ((index / GAMES_LINE as int + 1) * SLOT_HEIGHT) as usize,
    }
}

/// Two individuals never share a slot.
pub proof fn lemma_slots_are_distinct(i: int, j: int)
    requires
        0 <= i < j,
        (j / GAMES_LINE as int + 1) * SLOT_HEIGHT <= usize::MAX,
    ensures
        slot_of(i) != slot_of(j),
{
    if i % (GAMES_LINE as int) == j % (GAMES_LINE as int) {
        assert(i / (GAMES_LINE as int) < j / (GAMES_LINE as int));
    }
}

/// A pack as a generation starts with it: a fresh match in its arena, not
/// finished, no score.
pub open spec fn fresh_pack<L: Fn() -> Velocity>(
    pack: GamePackView,
    network: NetworkView,
    window: GameWindow,
    position: Slot,
    launch: &L,
) -> bool {
    &&& pack.neural_network == network
    &&& pack.pong.window == window
    &&& pack.pong.position == position
    &&& pack.pong.pontuation.player1 == 0
    &&& pack.pong.pontuation.player2 == 0
    &&& pack.pong.ball.launched_by(launch)
    &&& !pack.pong.finished
    &&& !pack.finished
    &&& pack.pontuation == 0
}

/// Builds the first generation: one match per network, in arenas of size
/// `window`, individual `i` in the slot [`slot_of`]`(i)`.
pub fn create_initial_games<L: Fn() -> Velocity>(
    networks: Vec<NeuralNetwork>,
    window: GameWindow,
    launch: &L,
) -> (games: Vec<GamePack>)
    requires
        call_requires(launch, ()),
        (networks@.len() / GAMES_LINE as nat + 1) * SLOT_HEIGHT <= usize::MAX,
    ensures
        games@.len() == networks@.len(),
        forall|i: int|
            0 <= i < games@.len() ==> fresh_pack((#[trigger] games@[i])@, networks@[i]@, window, slot_of(i), launch),
{
    let mut games: Vec<GamePack> = Vec::new();
    let mut game_x: usize = 0;
    let mut game_y: usize = 0;
    let ghost total = networks@.len();
    for network in iter: networks.into_iter()
        invariant
            call_requires(launch, ()),
            total == networks@.len(),
            iter.seq() == networks@,
            (total / GAMES_LINE as nat + 1) * SLOT_HEIGHT <= usize::MAX,
            games@.len() == iter.index(),
            game_x == (if iter.index() == 0 { 0 } else { ((iter.index() - 1) % GAMES_LINE as int + 1) * SLOT_WIDTH }),
            game_y == (if iter.index() == 0 { 0 } else { ((iter.index() - 1) / GAMES_LINE as int + 1) * SLOT_HEIGHT }),
            forall|i: int|
                0 <= i < games@.len() ==> fresh_pack(
                    (#[trigger] games@[i])@,
                    networks@[i]@,
                    window,
                    slot_of(i),
                    launch,
                ),
    {
        let i = games.len();
        proof {
            assert(i < total);
            assert((i as int / GAMES_LINE as int + 1) * SLOT_HEIGHT <= (total / GAMES_LINE as nat + 1) * SLOT_HEIGHT)
                by (nonlinear_arith)
                requires
                    0 <= i < total,
            ;
        }
        if i % GAMES_LINE == 0 {
            game_x = 0;
            game_y += SLOT_HEIGHT;
        }
        let pong = Pong::new(window, Slot { x: game_x, y: game_y }, launch);
        games.push(GamePack { neural_network: network, pong, finished: false, pontuation: 0 });
        game_x += SLOT_WIDTH;
    }
    games
}

/// How many of `games` are finished.
pub open spec fn finished_count(games: Seq<GamePack>) -> nat
    decreases games.len(),
{
    if games.len() == 0 {
        0
    } else {
        finished_count(games.drop_last()) + (if games.last().finished {
            1nat
        } else {
            0nat
        })
    }
}

/// `after` is `before` one tick later. A finished pack stays as it is. In
/// any other the match advances by one tick; if the match ends, the pack is
/// finished and keeps the score it had recorded, and if not, the pack
/// records the match's score.
pub open spec fn pack_ticked<P: Fn(Single) -> Single, L: Fn() -> Velocity>(
    after: GamePack,
    before: GamePack,
    contacts: Contacts,
    perturb: &P,
    launch: &L,
) -> bool {
    &&& after.neural_network@ == before.neural_network@
    &&& if before.finished {
        &&& after.pong == before.pong
        &&& after.finished
        &&& after.pontuation == before.pontuation
    } else {
        &&& after.pong.ticked_from(before.pong, contacts, perturb, launch)
        &&& after.finished == contacts.left_wall
        &&& after.pontuation == (if contacts.left_wall {
            before.pontuation
        } else {
            after.pong.pontuation.player1
        })
    }
}

/// `best` is the running match with the highest score, that score is above
/// zero, and among equals `best` comes first.
pub open spec fn is_live_best(games: Seq<GamePack>, best: int) -> bool {
    &&& 0 <= best < games.len()
    &&& !games[best].finished
    &&& games[best].pontuation > 0
    &&& forall|j: int|
        0 <= j < games.len() && !(#[trigger] games[j]).finished ==> {
            &&& games[j].pontuation <= games[best].pontuation
            &&& j < best ==> games[j].pontuation < games[best].pontuation
        }
}

/// Some running match has a score above zero.
pub open spec fn has_live_scorer(games: Seq<GamePack>) -> bool {
    exists|j: int| 0 <= j < games.len() && !(#[trigger] games[j]).finished && games[j].pontuation > 0
}

/// Advances every match that is not finished by one tick, in population
/// order, `contacts[i]` being what the ball of match `i` touches. Returns
/// how many matches are finished afterwards.
///
/// `best_game_index` moves to the running match with the highest score
/// above zero, the first of them among equals; it stays where it is when no
/// running match has scored.
pub fn update_all_games<P: Fn(Single) -> Single, L: Fn() -> Velocity>(
    games: &mut Vec<GamePack>,
    best_game_index: &mut usize,
    contacts: &Vec<Contacts>,
    perturb: &P,
    launch: &L,
) -> (finished: usize)
    requires
        contacts@.len() == old(games)@.len(),
        forall|i: int| 0 <= i < old(games)@.len() ==> (#[trigger] old(games)@[i]).pong.pontuation.player1 < i32::MAX,
        forall|v: Single| call_requires(perturb, (v,)),
        call_requires(launch, ()),
    ensures
        final(games)@.len() == old(games)@.len(),
        forall|i: int|
            0 <= i < old(games)@.len() ==> pack_ticked(
                #[trigger] final(games)@[i],
                old(games)@[i],
                contacts@[i],
                perturb,
                launch,
            ),
        finished == finished_count(final(games)@),
        has_live_scorer(final(games)@) ==> is_live_best(final(games)@, *final(best_game_index) as int),
        !has_live_scorer(final(games)@) ==> *final(best_game_index) == *old(best_game_index),
{
    let n = games.len();
    let mut finished_count: usize = 0;
    let mut best_score: i32 = 0;
    let mut i: usize = 0;
    while i < n
        invariant
            i <= n,
            n == old(games)@.len(),
            games@.len() == n,
            contacts@.len() == n,
            forall|v: Single| call_requires(perturb, (v,)),
            call_requires(launch, ()),
            forall|k: int| i <= k < n ==> #[trigger] games@[k] == old(games)@[k],
            forall|k: int| 0 <= k < n ==> (#[trigger] old(games)@[k]).pong.pontuation.player1 < i32::MAX,
            forall|k: int|
                0 <= k < i ==> pack_ticked(#[trigger] games@[k], old(games)@[k], contacts@[k], perturb, launch),
            finished_count == self::finished_count(games@.take(i as int)),
            finished_count <= i,
            best_score >= 0,
            best_score == 0 ==> !has_live_scorer(games@.take(i as int)) && *best_game_index == *old(
                best_game_index,
            ),
            best_score > 0 ==> is_live_best(games@.take(i as int), *best_game_index as int)
                && games@[*best_game_index as int].pontuation == best_score,
        decreases n - i,
    {
        let ghost before = games@;
        if games[i].finished {
            finished_count += 1;
        } else {
            match games[i].pong.update(contacts[i], perturb, launch) {
                Some(_stats) => {
                    games[i].finished = true;
                    finished_count += 1;
                },
                None => {
                    let current_score = games[i].pong.pontuation.player1;
                    if current_score > best_score {
                        best_score = current_score;
                        *best_game_index = i;
                    }
                    games[i].pontuation = current_score;
                },
            }
        }
        proof {
            let prefix = games@.take(i as int);
            let next = games@.take(i + 1);
            assert(prefix =~= before.take(i as int));
            assert(next.drop_last() =~= prefix);
            assert forall|j: int| 0 <= j < i implies #[trigger] next[j] == prefix[j] by {}
            if has_live_scorer(next) && best_score == 0 {
                // a scorer among the packs before this one would have moved the pointer
                let j = choose|j: int| 0 <= j < next.len() && !(#[trigger] next[j]).finished && next[j].pontuation > 0;
                assert(!prefix[j].finished && prefix[j].pontuation > 0);
            }
        }
        i += 1;
    }
    assert(games@.take(n as int) =~= games@);
    finished_count
}

/// The orders in which a population can be arranged.
#[derive(Debug, Clone, Copy, PartialEq, Eq, Structural)]
pub enum Arrangement {
    /// The highest score first.
    ByScore,
    /// The topmost row of arenas first.
    ByRow,
}

/// What an arrangement goes by: the smaller the key, the earlier the pack.
pub open spec fn sort_key(pack: GamePack, by: Arrangement) -> int {
    match by {
        Arrangement::ByScore => -(pack.pontuation as int),
        Arrangement::ByRow => pack.pong.position.y as int,
    }
}

/// Pack `i` comes before pack `j`: it has the smaller key, or the same key
/// and stood before `j`.
pub open spec fn comes_before(games: Seq<GamePack>, by: Arrangement, i: int, j: int) -> bool {
    sort_key(games[i], by) < sort_key(games[j], by) || (sort_key(games[i], by) == sort_key(games[j], by) && i < j)
}

/// `order` lists the positions of `games` as the arrangement wants them:
/// by ascending key, packs of equal key in the order they stood in.
pub open spec fn is_arrangement(games: Seq<GamePack>, by: Arrangement, order: Seq<int>) -> bool {
    &&& order.len() == games.len()
    &&& forall|a: int| 0 <= a < order.len() ==> 0 <= #[trigger] order[a] < games.len()
    &&& forall|a: int, b: int|
        0 <= a < b < order.len() ==> comes_before(games, by, #[trigger] order[a], #[trigger] order[b])
}

/// `after` holds the packs of `before`, arranged.
pub open spec fn arranged(before: Seq<GamePack>, after: Seq<GamePack>, by: Arrangement) -> bool {
    &&& after.len() == before.len()
    &&& exists|order: Seq<int>|
        #[trigger] is_arrangement(before, by, order) && forall|a: int|
            0 <= a < after.len() ==> #[trigger] after[a] == before[order[a]]
}

/// `after` holds the packs of `before` by descending score, packs of equal
/// score in the order they stood in.
pub open spec fn ranked(before: Seq<GamePack>, after: Seq<GamePack>) -> bool {
    arranged(before, after, Arrangement::ByScore)
}

fn key_of(pack: &GamePack, by: Arrangement) -> (key: i128)
    ensures
        key == sort_key(*pack, by),
{
    match by {
        Arrangement::ByScore => -(pack.pontuation as i128),
        Arrangement::ByRow => pack.pong.position.y as i128,
    }
}

/// Arranges the packs. The sort is stable: packs of equal key keep their
/// order.
pub fn sort_games(games: &mut Vec<GamePack>, by: Arrangement)
    ensures
        arranged(old(games)@, final(games)@, by),
{
    let n = games.len();
    let ghost mut order: Seq<int> = Seq::new(n as nat, |a: int| a);
    let mut i: usize = 0;
    while i < n
        invariant
            i <= n,
            n == old(games)@.len(),
            games@.len() == n,
            order.len() == n,
            forall|a: int| 0 <= a < n ==> 0 <= #[trigger] order[a] < n,
            forall|a: int| 0 <= a < i ==> #[trigger] order[a] < i,
            forall|a: int| i <= a < n ==> #[trigger] order[a] == a,
            forall|a: int| 0 <= a < n ==> #[trigger] games@[a] == old(games)@[order[a]],
            forall|a: int, b: int|
                0 <= a < b < i ==> comes_before(old(games)@, by, #[trigger] order[a], #[trigger] order[b]),
        decreases n - i,
    {
        let key = key_of(&games[i], by);
        let mut pos: usize = i;
        while pos > 0 && key_of(&games[pos - 1], by) > key
            invariant
                pos <= i,
                i < n,
                games@.len() == n,
                key == sort_key(games@[i as int], by),
                forall|a: int| pos <= a < i ==> sort_key(#[trigger] games@[a], by) > key,
            decreases pos,
        {
            pos -= 1;
        }
        let ghost before = games@;
        let ghost order_before = order;
        let pack = games.remove(i);
        games.insert(pos, pack);
        proof {
            order = order_before.remove(i as int).insert(pos as int, i as int);
            assert forall|a: int| 0 <= a < n implies #[trigger] games@[a] == old(games)@[order[a]] by {
                if a < pos {
                    assert(games@[a] == before[a]);
                } else if a == pos {
                    assert(games@[a] == before[i as int]);
                } else if a <= i {
                    assert(games@[a] == before[a - 1]);
                    assert(order[a] == order_before[a - 1]);
                } else {
                    assert(games@[a] == before[a]);
                    assert(order[a] == order_before[a]);
                }
            }
            assert forall|a: int, b: int| 0 <= a < b < i + 1 implies comes_before(
                old(games)@,
                by,
                #[trigger] order[a],
                #[trigger] order[b],
            ) by {
                let oa = if a < pos { a } else { a - 1 };
                let ob = if b < pos { b } else { b - 1 };
                if a == pos {
                    // the moved pack against one that it overtook
                    assert(order[b] == order_before[ob]);
                    assert(before[ob] == old(games)@[order_before[ob]]);
                    assert(sort_key(before[ob], by) > key);
                } else if b == pos {
                    // a pack that stays ahead of the moved one
                    assert(order[a] == order_before[a]);
                    assert(order_before[a] < i);
                    if pos > 0 {
                        assert(sort_key(before[pos - 1], by) <= key);
                        assert(before[pos - 1] == old(games)@[order_before[pos - 1]]);
                        assert(before[a] == old(games)@[order_before[a]]);
                        if a < pos - 1 {
                            assert(comes_before(old(games)@, by, order_before[a], order_before[pos - 1]));
                        }
                    }
                } else {
                    assert(order[a] == order_before[oa]);
                    assert(order[b] == order_before[ob]);
                    assert(comes_before(old(games)@, by, order_before[oa], order_before[ob]));
                }
            }
            assert forall|a: int| 0 <= a < i + 1 implies #[trigger] order[a] < i + 1 by {
                if a < pos {
                    assert(order[a] == order_before[a]);
                } else if a > pos {
                    assert(order[a] == order_before[a - 1]);
                }
            }
            assert forall|a: int| 0 <= a < n implies 0 <= #[trigger] order[a] < n by {
                if a < pos {
                    assert(order[a] == order_before[a]);
                } else if a == pos {
                } else if a <= i {
                    assert(order[a] == order_before[a - 1]);
                } else {
                    assert(order[a] == order_before[a]);
                }
            }
            assert forall|a: int| i + 1 <= a < n implies #[trigger] order[a] == a by {
                assert(order[a] == order_before[a]);
            }
        }
        i += 1;
    }
    proof {
        assert(is_arrangement(old(games)@, by, order));
    }
}

/// An arrangement only moves packs: every pack afterwards is one of the
/// packs before, with the network and the match it had.
pub proof fn lemma_arranged_keeps_packs(before: Seq<GamePack>, after: Seq<GamePack>, by: Arrangement, a: int)
    requires
        arranged(before, after, by),
        0 <= a < after.len(),
    ensures
        exists|b: int| 0 <= b < before.len() && after[a] == #[trigger] before[b],
{
    let order = choose|order: Seq<int>|
        #[trigger] is_arrangement(before, by, order) && forall|a: int|
            0 <= a < after.len() ==> #[trigger] after[a] == before[order[a]];
    assert(after[a] == before[order[a]]);
}

/// `after` is what a mutation can make of the gene `before`: a roll that
/// `chance` returned was below the mutation rate and the gene is the sum,
/// by `plus`, of `before` and a value that `delta` returned; or the roll
/// was not below the rate and the gene is unchanged.
pub open spec fn gene_mutated<C: Fn() -> Double, D: Fn() -> Double, A: Fn(Double, Double) -> Double>(
    before: Double,
    after: Double,
    mutation_rate: Double,
    chance: &C,
    delta: &D,
    plus: &A,
) -> bool {
    exists|roll: Double| #[trigger]
        call_ensures(chance, (), roll) && if roll.lt_spec(mutation_rate) {
            exists|d: Double| #[trigger] call_ensures(delta, (), d) && call_ensures(plus, (before, d), after)
        } else {
            after == before
        }
}

/// `child` is a mutation of `parent`: every gene is what a mutation can
/// make of the parent's gene, and nothing else differs.
pub open spec fn mutated_from<C: Fn() -> Double, D: Fn() -> Double, A: Fn(Double, Double) -> Double>(
    child: NetworkView,
    parent: NetworkView,
    mutation_rate: Double,
    chance: &C,
    delta: &D,
    plus: &A,
) -> bool {
    &&& child.same_frame(parent)
    &&& child.genes().len() == parent.genes().len()
    &&& forall|g: int|
        0 <= g < parent.genes().len() ==> gene_mutated(
            parent.genes()[g],
            #[trigger] child.genes()[g],
            mutation_rate,
            chance,
            delta,
            plus,
        )
}

/// `chance`, `delta` and `plus` can be called on everything.
pub open spec fn mutation_ready<C: Fn() -> Double, D: Fn() -> Double, A: Fn(Double, Double) -> Double>(
    chance: &C,
    delta: &D,
    plus: &A,
) -> bool {
    &&& call_requires(chance, ())
    &&& call_requires(delta, ())
    &&& forall|a: Double, b: Double| call_requires(plus, (a, b))
}

/// Mutates every weight and bias of `network` independently: with the
/// probability `mutation_rate` (a roll of `chance` below it) a value of
/// `delta` is added to the gene.
pub fn mutate<C: Fn() -> Double, D: Fn() -> Double, A: Fn(Double, Double) -> Double>(
    network: &mut NeuralNetwork,
    mutation_rate: Double,
    chance: &C,
    delta: &D,
    plus: &A,
)
    requires
        mutation_ready(chance, delta, plus),
    ensures
        mutated_from(final(network)@, old(network)@, mutation_rate, chance, delta, plus),
{
    let step = |gene: Double| -> (mutant: Double)
        ensures
            gene_mutated(gene, mutant, mutation_rate, chance, delta, plus),
        {
            let roll = chance();
            if roll.lt(mutation_rate) {
                let d = delta();
                plus(gene, d)
            } else {
                gene
            }
        };
    network.all_weights_mut(&step);
}

/// A mutated copy of `parent`; see [`mutate`]. The parent is only read: the
/// mutation works on a copy that shares nothing with it.
pub fn mutated_copy<C: Fn() -> Double, D: Fn() -> Double, A: Fn(Double, Double) -> Double>(
    parent: &NeuralNetwork,
    mutation_rate: Double,
    chance: &C,
    delta: &D,
    plus: &A,
) -> (child: NeuralNetwork)
    requires
        mutation_ready(chance, delta, plus),
    ensures
        mutated_from(child@, parent@, mutation_rate, chance, delta, plus),
{
    let mut child = deep_clone_nn(parent);
    mutate(&mut child, mutation_rate, chance, delta, plus);
    child
}

/// Trusted: calls `choose` of `rand::seq::IndexedRandom` on the slice,
/// with the generator of the current thread (`rand::rng`).
///
/// The contract claims what the method's source shows: of an empty slice it
/// returns `None`, and of any other a reference to the element at an index
/// below the length. Which index is not said; it differs from call to call.
/// Not proved here. The generator is taken to be available: `rand::rng`
/// panics when the operating system cannot seed it.
#[verifier::external_body]
fn sample_one<T>(items: &[T]) -> (chosen: Option<&T>)
    ensures
        match chosen {
            Some(item) => exists|i: int| 0 <= i < items@.len() && *item == items@[i],
            None => items@.len() == 0,
        },
{
    items.choose(&mut rand::rng())
}

/// The size of the elite set for a population of `population_size`, given
/// the size that the elite fraction asks for: that size, but at least one
/// and at most the whole population.
pub open spec fn elite_count_spec(elite_target: usize, population_size: usize) -> usize {
    if population_size <= elite_target {
        population_size
    } else if elite_target == 0 {
        1
    } else {
        elite_target
    }
}

/// The size of the elite set; see [`elite_count_spec`].
pub fn elite_count(elite_target: usize, population_size: usize) -> (count: usize)
    ensures
        count == elite_count_spec(elite_target, population_size),
        count <= population_size,
        population_size > 0 ==> count >= 1,
{
    let at_least_one = if elite_target < 1 { 1 } else { elite_target };
    if at_least_one > population_size { population_size } else { at_least_one }
}

/// Whether a generation is complete: all matches but as many as there are
/// elites have finished.
pub fn generation_complete(finished_count: usize, population_size: usize, elite_target: usize) -> (complete: bool)
    ensures
        complete == (finished_count >= population_size - elite_count_spec(elite_target, population_size)),
{
    finished_count >= population_size - elite_count(elite_target, population_size)
}

/// The sum of the scores that the packs have recorded.
pub open spec fn total_score_spec(games: Seq<GamePack>) -> int
    decreases games.len(),
{
    if games.len() == 0 {
        0
    } else {
        total_score_spec(games.drop_last()) + games.last().pontuation
    }
}

/// The sum of the scores that the packs have recorded.
pub fn total_score(games: &Vec<GamePack>) -> (total: i128)
    ensures
        total == total_score_spec(games@),
{
    let n = games.len();
    let mut total: i128 = 0;
    let mut i: usize = 0;
    while i < n
        invariant
            i <= n,
            n == games@.len(),
            total == total_score_spec(games@.take(i as int)),
            -(i as int) * 0x8000_0000 <= total <= (i as int) * 0x8000_0000,
        decreases n - i,
    {
        assert(games@.take(i + 1).drop_last() =~= games@.take(i as int));
        assert((i as int + 1) * 0x8000_0000 == (i as int) * 0x8000_0000 + 0x8000_0000) by (nonlinear_arith);
        assert((i as int + 1) * 0x8000_0000 <= 0x1_0000_0000_0000_0000 * 0x8000_0000) by (nonlinear_arith)
            requires
                i as int + 1 <= 0x1_0000_0000_0000_0000,
        ;
        total = total + games[i].pontuation as i128;
        i += 1;
    }
    assert(games@.take(n as int) =~= games@);
    total
}

/// A copy of `network` that shares nothing with it.
pub fn deep_clone_nn(network: &NeuralNetwork) -> (copy: NeuralNetwork)
    ensures
        copy@ == network@,
{
    network.clone()
}

/// `child` is a mutation of the network of one of the first `elite_count`
/// packs of `ranked`.
pub open spec fn bred_from_elite<C: Fn() -> Double, D: Fn() -> Double, A: Fn(Double, Double) -> Double>(
    child: NetworkView,
    ranked: Seq<GamePack>,
    elite_count: int,
    mutation_rate: Double,
    chance: &C,
    delta: &D,
    plus: &A,
) -> bool {
    exists|e: int|
        0 <= e < elite_count && e < ranked.len() && mutated_from(
            child,
            (#[trigger] ranked[e]).neural_network@,
            mutation_rate,
            chance,
            delta,
            plus,
        )
}

/// `networks` is the offspring of `ranked` with `elite_count` elites: as
/// many networks as there are packs; the first `elite_count` are copies of
/// the networks of the first `elite_count` packs, in their order; every
/// other one is a mutation of one of these.
pub open spec fn offspring_of<C: Fn() -> Double, D: Fn() -> Double, A: Fn(Double, Double) -> Double>(
    networks: Seq<NeuralNetwork>,
    ranked: Seq<GamePack>,
    elite_count: int,
    mutation_rate: Double,
    chance: &C,
    delta: &D,
    plus: &A,
) -> bool {
    &&& networks.len() == ranked.len()
    &&& forall|i: int| 0 <= i < elite_count ==> (#[trigger] networks[i])@ == ranked[i].neural_network@
    &&& forall|i: int|
        elite_count <= i < networks.len() ==> bred_from_elite(
            (#[trigger] networks[i])@,
            ranked,
            elite_count,
            mutation_rate,
            chance,
            delta,
            plus,
        )
}

/// Ends a generation. The packs are sorted by descending score (packs of
/// equal score keep their order), and the networks of the next generation
/// are bred from them: see [`offspring_of`], with the elite count of
/// [`elite_count_spec`]. The first of the new networks is a copy of the
/// champion's. Returns the sum of the scores with the new networks.
///
/// The packs themselves are only reordered: their networks are the sources
/// of the copies and stay as they are.
pub fn generate_nn<C: Fn() -> Double, D: Fn() -> Double, A: Fn(Double, Double) -> Double>(
    game_packs: &mut Vec<GamePack>,
    elite_target: usize,
    mutation_rate: Double,
    chance: &C,
    delta: &D,
    plus: &A,
) -> (bred: (i128, Vec<NeuralNetwork>))
    requires
        old(game_packs)@.len() > 0,
        mutation_ready(chance, delta, plus),
    ensures
        ranked(old(game_packs)@, final(game_packs)@),
        bred.0 == total_score_spec(old(game_packs)@),
        offspring_of(
            bred.1@,
            final(game_packs)@,
            elite_count_spec(elite_target, old(game_packs)@.len() as usize) as int,
            mutation_rate,
            chance,
            delta,
            plus,
        ),
{
    let total = total_score(game_packs);
    sort_games(game_packs, Arrangement::ByScore);
    let n = game_packs.len();
    let elite_count = elite_count(elite_target, n);
    let mut new_nns: Vec<NeuralNetwork> = Vec::new();
    let mut i: usize = 0;
    while i < elite_count
        invariant
            i <= elite_count <= n,
            n == game_packs@.len(),
            new_nns@.len() == i,
            forall|k: int| 0 <= k < i ==> (#[trigger] new_nns@[k])@ == game_packs@[k].neural_network@,
        decreases elite_count - i,
    {
        new_nns.push(deep_clone_nn(&game_packs[i].neural_network));
        i += 1;
    }
    while new_nns.len() < n
        invariant
            1 <= elite_count <= n,
            n == game_packs@.len(),
            elite_count <= new_nns@.len() <= n,
            mutation_ready(chance, delta, plus),
            forall|k: int| 0 <= k < elite_count ==> (#[trigger] new_nns@[k])@ == game_packs@[k].neural_network@,
            forall|k: int|
                elite_count <= k < new_nns@.len() ==> bred_from_elite(
                    (#[trigger] new_nns@[k])@,
                    game_packs@,
                    elite_count as int,
                    mutation_rate,
                    chance,
                    delta,
                    plus,
                ),
        decreases n - new_nns@.len(),
    {
        let elite = slice_subrange(new_nns.as_slice(), 0, elite_count);
        let chosen = sample_one(elite).unwrap();
        let ghost e = choose|e: int| 0 <= e < elite_count && *chosen == elite@[e];
        assert(chosen@ == game_packs@[e].neural_network@);
        let nn = mutated_copy(chosen, mutation_rate, chance, delta, plus);
        assert(mutated_from(nn@, game_packs@[e].neural_network@, mutation_rate, chance, delta, plus));
        new_nns.push(nn);
    }
    (total, new_nns)
}

/// Starts the next generation in place. Pack `i` gets a copy of
/// `new_nns[i]` and a fresh match in the arena and slot it had; it is not
/// finished and has no score.
pub fn regenerate_generation<L: Fn() -> Velocity>(
    games: &mut Vec<GamePack>,
    new_nns: &Vec<NeuralNetwork>,
    launch: &L,
)
    requires
        new_nns@.len() >= old(games)@.len(),
        call_requires(launch, ()),
    ensures
        final(games)@.len() == old(games)@.len(),
        forall|i: int|
            0 <= i < old(games)@.len() ==> fresh_pack(
                (#[trigger] final(games)@[i])@,
                new_nns@[i]@,
                old(games)@[i].pong.window,
                old(games)@[i].pong.position,
                launch,
            ),
{
    let n = games.len();
    let mut i: usize = 0;
    while i < n
        invariant
            i <= n,
            n == old(games)@.len(),
            games@.len() == n,
            new_nns@.len() >= n,
            call_requires(launch, ()),
            forall|k: int| i <= k < n ==> #[trigger] games@[k] == old(games)@[k],
            forall|k: int|
                0 <= k < i ==> fresh_pack(
                    (#[trigger] games@[k])@,
                    new_nns@[k]@,
                    old(games)@[k].pong.window,
                    old(games)@[k].pong.position,
                    launch,
                ),
        decreases n - i,
    {
        let pos = games[i].pong.position;
        let pong = Pong::new(games[i].pong.window, pos, launch);
        games[i].neural_network = new_nns[i].clone();
        games[i].pong = pong;
        games[i].finished = false;
        games[i].pontuation = 0;
        i += 1;
    }
}

/// The population and what steers its evolution.
#[derive(Debug)]
pub struct Population {
    /// One pack per individual. Their number never changes.
    pub games: Vec<GamePack>,
    /// The running match with the highest score, as far as one has scored.
    pub best_game_index: usize,
    /// How many generations have ended. It only grows.
    pub generation: u64,
    /// The size of the elite set that the elite fraction asks for.
    pub elite_target: usize,
    /// The probability with which a gene of an offspring is mutated.
    pub mutation_rate: Double,
}

/// The steps of a rollover, spelled out: `before` is ranked into `ranked`;
/// `networks` is bred from `ranked`; `fresh` holds, rank by rank, the new
/// network in a fresh match at the slot of the pack of that rank; and
/// `after` is `fresh`, arranged by row. The champion is the network of the
/// first pack of `ranked`.
pub open spec fn rollover_steps<
    L: Fn() -> Velocity,
    C: Fn() -> Double,
    D: Fn() -> Double,
    A: Fn(Double, Double) -> Double,
>(
    before: Seq<GamePack>,
    ranked_games: Seq<GamePack>,
    networks: Seq<NeuralNetwork>,
    fresh: Seq<GamePack>,
    after: Seq<GamePack>,
    champion: NetworkView,
    elite_target: usize,
    mutation_rate: Double,
    launch: &L,
    chance: &C,
    delta: &D,
    plus: &A,
) -> bool {
    &&& ranked(before, ranked_games)
    &&& champion == ranked_games[0].neural_network@
    &&& offspring_of(
        networks,
        ranked_games,
        elite_count_spec(elite_target, before.len() as usize) as int,
        mutation_rate,
        chance,
        delta,
        plus,
    )
    &&& fresh.len() == before.len()
    &&& forall|i: int|
        0 <= i < fresh.len() ==> fresh_pack(
            (#[trigger] fresh[i])@,
            networks[i]@,
            ranked_games[i].pong.window,
            ranked_games[i].pong.position,
            launch,
        )
    &&& arranged(fresh, after, Arrangement::ByRow)
}

/// `after` is the generation that follows `before`; see
/// [`rollover_steps`].
pub open spec fn rolled_over<
    L: Fn() -> Velocity,
    C: Fn() -> Double,
    D: Fn() -> Double,
    A: Fn(Double, Double) -> Double,
>(
    before: Seq<GamePack>,
    after: Seq<GamePack>,
    champion: NetworkView,
    elite_target: usize,
    mutation_rate: Double,
    launch: &L,
    chance: &C,
    delta: &D,
    plus: &A,
) -> bool {
    exists|ranked_games: Seq<GamePack>, networks: Seq<NeuralNetwork>, fresh: Seq<GamePack>| #[trigger]
        rollover_steps(
            before,
            ranked_games,
            networks,
            fresh,
            after,
            champion,
            elite_target,
            mutation_rate,
            launch,
            chance,
            delta,
            plus,
        )
}

impl Population {
    /// The best-match pointer names a pack.
    pub open spec fn well_formed(&self) -> bool {
        self.best_game_index < self.games@.len()
    }

    /// The first generation: one match per network, in arenas of size
    /// `window`; see [`create_initial_games`].
    pub fn new<L: Fn() -> Velocity>(
        networks: Vec<NeuralNetwork>,
        window: GameWindow,
        elite_target: usize,
        mutation_rate: Double,
        launch: &L,
    ) -> (population: Self)
        requires
            call_requires(launch, ()),
            networks@.len() > 0,
            (networks@.len() / GAMES_LINE as nat + 1) * SLOT_HEIGHT <= usize::MAX,
        ensures
            population.well_formed(),
            population.games@.len() == networks@.len(),
            forall|i: int|
                0 <= i < networks@.len() ==> fresh_pack(
                    (#[trigger] population.games@[i])@,
                    networks@[i]@,
                    window,
                    slot_of(i),
                    launch,
                ),
            population.best_game_index == 0,
            population.generation == 0,
            population.elite_target == elite_target,
            population.mutation_rate == mutation_rate,
    {
        let games = create_initial_games(networks, window, launch);
        Population { games, best_game_index: 0, generation: 0, elite_target, mutation_rate }
    }

    /// Advances every running match by one tick and returns how many
    /// matches are finished; see [`update_all_games`].
    pub fn advance<P: Fn(Single) -> Single, L: Fn() -> Velocity>(
        &mut self,
        contacts: &Vec<Contacts>,
        perturb: &P,
        launch: &L,
    ) -> (finished: usize)
        requires
            old(self).well_formed(),
            contacts@.len() == old(self).games@.len(),
            forall|i: int|
                0 <= i < old(self).games@.len() ==> (#[trigger] old(self).games@[i]).pong.pontuation.player1
                    < i32::MAX,
            forall|v: Single| call_requires(perturb, (v,)),
            call_requires(launch, ()),
        ensures
            final(self).well_formed(),
            final(self).games@.len() == old(self).games@.len(),
            forall|i: int|
                0 <= i < old(self).games@.len() ==> pack_ticked(
                    #[trigger] final(self).games@[i],
                    old(self).games@[i],
                    contacts@[i],
                    perturb,
                    launch,
                ),
            finished == finished_count(final(self).games@),
            has_live_scorer(final(self).games@) ==> is_live_best(
                final(self).games@,
                final(self).best_game_index as int,
            ),
            !has_live_scorer(final(self).games@) ==> final(self).best_game_index == old(self).best_game_index,
            final(self).generation == old(self).generation,
            final(self).elite_target == old(self).elite_target,
            final(self).mutation_rate == old(self).mutation_rate,
    {
        update_all_games(&mut self.games, &mut self.best_game_index, contacts, perturb, launch)
    }

    /// Whether the generation is complete with `finished_count` matches
    /// finished; see [`generation_complete`].
    pub fn is_complete(&self, finished_count: usize) -> (complete: bool)
        ensures
            complete == (finished_count >= self.games@.len() - elite_count_spec(
                self.elite_target,
                self.games@.len() as usize,
            )),
    {
        generation_complete(finished_count, self.games.len(), self.elite_target)
    }

    /// Ends the generation and starts the next one; see [`rolled_over`].
    /// Returns the sum of the scores of the generation that ended, and a
    /// copy of its champion, which is the network to persist.
    pub fn rollover<L: Fn() -> Velocity, C: Fn() -> Double, D: Fn() -> Double, A: Fn(Double, Double) -> Double>(
        &mut self,
        launch: &L,
        chance: &C,
        delta: &D,
        plus: &A,
    ) -> (ended: (i128, NeuralNetwork))
        requires
            old(self).well_formed(),
            old(self).generation < u64::MAX,
            call_requires(launch, ()),
            mutation_ready(chance, delta, plus),
        ensures
            final(self).well_formed(),
            final(self).games@.len() == old(self).games@.len(),
            final(self).generation == old(self).generation + 1,
            final(self).best_game_index == old(self).best_game_index,
            final(self).elite_target == old(self).elite_target,
            final(self).mutation_rate == old(self).mutation_rate,
            ended.0 == total_score_spec(old(self).games@),
            rolled_over(
                old(self).games@,
                final(self).games@,
                ended.1@,
                old(self).elite_target,
                old(self).mutation_rate,
                launch,
                chance,
                delta,
                plus,
            ),
    {
        let (total, new_nns) = generate_nn(
            &mut self.games,
            self.elite_target,
            self.mutation_rate,
            chance,
            delta,
            plus,
        );
        let ghost ranked_games = self.games@;
        let champion = deep_clone_nn(&new_nns[0]);
        regenerate_generation(&mut self.games, &new_nns, launch);
        let ghost fresh = self.games@;
        sort_games(&mut self.games, Arrangement::ByRow);
        self.generation += 1;
        proof {
            assert(rollover_steps(
                old(self).games@,
                ranked_games,
                new_nns@,
                fresh,
                self.games@,
                champion@,
                old(self).elite_target,
                old(self).mutation_rate,
                launch,
                chance,
                delta,
                plus,
            ));
        }
        (total, champion)
    }
}

} // verus!
