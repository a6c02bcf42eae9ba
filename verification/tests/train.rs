use neuropong::game::pong::{Ball, Contacts, GameWindow, Pong, Pontuation, Slot, Velocity};
use neuropong::neural_network::artifact::encode;
use neuropong::neural_network::layers::Layer;
use neuropong::neural_network::neural_network_f::NeuralNetwork;
use neuropong::neural_network::neuron::{ActivationFunction, Neuron, NeuronTrait};
use neuropong::neural_network::train::{
    create_initial_games, deep_clone_nn, elite_count, generate_nn, generation_complete, mutate, mutated_copy,
    regenerate_generation, sort_games, total_score, update_all_games, Arrangement, GamePack, Population,
};
use neuropong::scalar::{Double, Single};

fn d(x: f64) -> Double {
    Double::from_bits(x.to_bits())
}

fn f(x: Double) -> f64 {
    f64::from_bits(x.to_bits())
}

fn s(x: f32) -> Single {
    Single::from_bits(x.to_bits())
}

fn genes(network: &NeuralNetwork) -> Vec<f64> {
    network.all_weights().iter().map(|g| f(*g)).collect()
}

/// A network of one neuron whose genes are `tag`, `tag + 1` and `tag + 2`.
fn tagged(tag: f64) -> NeuralNetwork {
    NeuralNetwork {
        inputs: vec![d(0.0), d(0.0)],
        layers: vec![Layer {
            neurons: vec![Neuron::new_seted(vec![d(tag), d(tag + 1.0)], d(tag + 2.0), ActivationFunction::Linear)],
        }],
    }
}

fn window() -> GameWindow {
    GameWindow::new(s(500.0), s(400.0))
}

fn launch() -> Velocity {
    Velocity { x: s(5.0), y: s(1.0) }
}

fn keep(vy: Single) -> Single {
    vy
}

fn plus(a: Double, b: Double) -> Double {
    d(f(a) + f(b))
}

fn never() -> Double {
    d(0.99)
}

fn always() -> Double {
    d(0.0)
}

fn one() -> Double {
    d(1.0)
}

const NOTHING: Contacts = Contacts { left_wall: false, right_wall: false, top_or_bottom: false, paddle: false };
const HIT: Contacts = Contacts { left_wall: false, right_wall: false, top_or_bottom: false, paddle: true };
const OUT: Contacts = Contacts { left_wall: true, right_wall: false, top_or_bottom: false, paddle: false };

fn pack(tag: f64, score: i32, slot: (usize, usize)) -> GamePack {
    GamePack {
        neural_network: tagged(tag),
        pong: Pong {
            window: window(),
            position: Slot { x: slot.0, y: slot.1 },
            pontuation: Pontuation { player1: score, player2: 0 },
            ball: Ball { velocity: launch(), collision_cooldown: s(0.0) },
            finished: false,
        },
        finished: false,
        pontuation: score,
    }
}

fn scored(scores: &[i32]) -> Vec<GamePack> {
    scores.iter().enumerate().map(|(i, score)| pack(100.0 * i as f64, *score, (600 * i, 500))).collect()
}

fn tags(games: &[GamePack]) -> Vec<f64> {
    games.iter().map(|g| f(g.neural_network.layers[0].neurons[0].weights[0])).collect()
}

#[test]
fn the_first_generation_stands_in_rows_of_twenty() {
    let networks: Vec<NeuralNetwork> = (0..45).map(|i| tagged(i as f64)).collect();
    let games = create_initial_games(networks, window(), &launch);
    assert_eq!(games.len(), 45);
    assert_eq!(games[0].pong.position, Slot { x: 0, y: 500 });
    assert_eq!(games[1].pong.position, Slot { x: 600, y: 500 });
    assert_eq!(games[19].pong.position, Slot { x: 11400, y: 500 });
    assert_eq!(games[20].pong.position, Slot { x: 0, y: 1000 });
    assert_eq!(games[39].pong.position, Slot { x: 11400, y: 1000 });
    assert_eq!(games[44].pong.position, Slot { x: 2400, y: 1500 });
    for (i, game) in games.iter().enumerate() {
        assert_eq!(tags(std::slice::from_ref(game)), vec![i as f64]);
        assert_eq!(game.pong.window, window());
        assert_eq!(game.pong.pontuation, Pontuation { player1: 0, player2: 0 });
        assert_eq!(game.pong.ball, Ball { velocity: launch(), collision_cooldown: s(0.0) });
        assert!(!game.pong.finished);
        assert!(!game.finished);
        assert_eq!(game.pontuation, 0);
    }
    assert!(create_initial_games(Vec::new(), window(), &launch).is_empty());
}

#[test]
fn a_tick_advances_the_running_matches_and_counts_the_finished() {
    let mut games = scored(&[0, 3, 3, 7, 2]);
    games[3].finished = true;
    games[3].pong.finished = true;
    let before_finished = games[3].pong;
    let mut best = 4usize;
    let contacts = vec![HIT, NOTHING, HIT, HIT, OUT];
    let finished = update_all_games(&mut games, &mut best, &contacts, &keep, &launch);
    // match 3 was finished, match 4 has just ended
    assert_eq!(finished, 2);
    assert_eq!(games.len(), 5);
    // the finished match was not touched, hit or no hit
    assert_eq!(games[3].pong, before_finished);
    assert_eq!(games[3].pontuation, 7);
    assert!(games[3].finished);
    // the match that ended keeps the score it had recorded
    assert!(games[4].finished);
    assert!(games[4].pong.finished);
    assert_eq!(games[4].pontuation, 2);
    // the others record their score
    assert_eq!(games[0].pontuation, 1);
    assert_eq!(games[1].pontuation, 3);
    assert_eq!(games[2].pontuation, 4);
    assert!(!games[0].finished && !games[1].finished && !games[2].finished);
    // the highest running score is 4, in match 2
    assert_eq!(best, 2);
    assert_eq!(tags(&games), vec![0.0, 100.0, 200.0, 300.0, 400.0]);
}

#[test]
fn among_equal_scores_the_first_match_is_the_best() {
    let mut games = scored(&[2, 5, 5, 1, 5]);
    let mut best = 3usize;
    let contacts = vec![NOTHING; 5];
    assert_eq!(update_all_games(&mut games, &mut best, &contacts, &keep, &launch), 0);
    assert_eq!(best, 1);
}

#[test]
fn the_best_pointer_stays_when_nobody_has_scored() {
    let mut games = scored(&[0, 0, 0]);
    let mut best = 2usize;
    let contacts = vec![NOTHING; 3];
    assert_eq!(update_all_games(&mut games, &mut best, &contacts, &keep, &launch), 0);
    assert_eq!(best, 2);

    // the only scorer has finished
    let mut games = scored(&[0, 9, 0]);
    games[1].finished = true;
    let mut best = 0usize;
    assert_eq!(update_all_games(&mut games, &mut best, &contacts, &keep, &launch), 1);
    assert_eq!(best, 0);

    // the only scorer ends in this tick
    let mut games = scored(&[0, 9, 0]);
    let mut best = 2usize;
    let contacts = vec![NOTHING, OUT, NOTHING];
    assert_eq!(update_all_games(&mut games, &mut best, &contacts, &keep, &launch), 1);
    assert_eq!(best, 2);
}

#[test]
fn an_empty_population_ticks() {
    let mut games: Vec<GamePack> = Vec::new();
    let mut best = 0usize;
    assert_eq!(update_all_games(&mut games, &mut best, &Vec::new(), &keep, &launch), 0);
    assert_eq!(best, 0);
}

#[test]
fn the_elite_count_is_clamped() {
    assert_eq!(elite_count(228, 1900), 228);
    assert_eq!(elite_count(0, 1900), 1);
    assert_eq!(elite_count(1, 1900), 1);
    assert_eq!(elite_count(1900, 1900), 1900);
    assert_eq!(elite_count(5000, 1900), 1900);
    assert_eq!(elite_count(0, 1), 1);
    assert_eq!(elite_count(0, 0), 0);
    assert_eq!(elite_count(3, 0), 0);
}

#[test]
fn a_generation_is_complete_when_all_but_the_elite_have_finished() {
    assert!(!generation_complete(1671, 1900, 228));
    assert!(generation_complete(1672, 1900, 228));
    assert!(generation_complete(1900, 1900, 228));
    // the elite count is clamped before it is subtracted
    assert!(!generation_complete(3, 5, 0));
    assert!(generation_complete(4, 5, 0));
    assert!(generation_complete(0, 5, 9));
    assert!(generation_complete(0, 0, 0));
}

#[test]
fn the_total_is_the_sum_of_the_recorded_scores() {
    assert_eq!(total_score(&scored(&[10, 5, 20, 0, 15])), 50);
    assert_eq!(total_score(&scored(&[])), 0);
    assert_eq!(total_score(&scored(&[i32::MAX, i32::MAX, -3])), 2 * (i32::MAX as i128) - 3);
}

#[test]
fn sorting_by_score_is_stable() {
    let mut games = scored(&[5, 9, 5, 1, 9, 5]);
    sort_games(&mut games, Arrangement::ByScore);
    assert_eq!(games.iter().map(|g| g.pontuation).collect::<Vec<i32>>(), vec![9, 9, 5, 5, 5, 1]);
    assert_eq!(tags(&games), vec![100.0, 400.0, 0.0, 200.0, 500.0, 300.0]);
    // every pack moved whole
    for game in games.iter() {
        let i = (tags(std::slice::from_ref(game))[0] / 100.0) as usize;
        assert_eq!(game.pong.position, Slot { x: 600 * i, y: 500 });
    }
}

#[test]
fn sorting_by_row_is_stable() {
    let mut games = vec![
        pack(0.0, 1, (0, 1500)),
        pack(1.0, 2, (600, 500)),
        pack(2.0, 3, (0, 1000)),
        pack(3.0, 4, (0, 500)),
        pack(4.0, 5, (600, 1500)),
    ];
    sort_games(&mut games, Arrangement::ByRow);
    assert_eq!(tags(&games), vec![1.0, 3.0, 2.0, 0.0, 4.0]);
}

#[test]
fn the_elite_are_the_two_highest_scores_and_the_champion_is_saved() {
    let mut games = scored(&[10, 5, 20, 0, 15]);
    let champion = encode(&games[2].neural_network);
    let (total, new_nns) = generate_nn(&mut games, 2, d(0.35), &never, &one, &plus);
    assert_eq!(total, 50);
    assert_eq!(games.iter().map(|g| g.pontuation).collect::<Vec<i32>>(), vec![20, 15, 10, 5, 0]);
    assert_eq!(tags(&games), vec![200.0, 400.0, 0.0, 100.0, 300.0]);
    // the elite set is the matches that scored 20 and 15
    assert_eq!(genes(&new_nns[0]), genes(&tagged(200.0)));
    assert_eq!(genes(&new_nns[1]), genes(&tagged(400.0)));
    // the network to persist is the one of the match that scored 20
    assert_eq!(encode(&new_nns[0]), champion);
}

#[test]
fn a_rollover_keeps_the_size_and_copies_the_elite() {
    let mut games = scored(&[10, 5, 20, 0, 15]);
    let (_, new_nns) = generate_nn(&mut games, 2, d(0.35), &always, &one, &plus);
    assert_eq!(new_nns.len(), 5);
    assert_eq!(genes(&new_nns[0]), vec![200.0, 201.0, 202.0]);
    assert_eq!(genes(&new_nns[1]), vec![400.0, 401.0, 402.0]);
    // every other network is an elite network with each gene mutated
    for child in new_nns[2..].iter() {
        let g = genes(child);
        assert!(g == vec![201.0, 202.0, 203.0] || g == vec![401.0, 402.0, 403.0], "{g:?}");
        assert_eq!(child.layers.len(), 1);
        assert_eq!(child.inputs.len(), 2);
    }
    // the sources are as they were
    assert_eq!(genes(&games[0].neural_network), vec![200.0, 201.0, 202.0]);
    assert_eq!(genes(&games[1].neural_network), vec![400.0, 401.0, 402.0]);
}

#[test]
fn parents_are_drawn_from_the_elite_only() {
    let scores: Vec<i32> = (0..300).map(|i| (i * 7) % 300).collect();
    let mut games = scored(&scores);
    let (_, new_nns) = generate_nn(&mut games, 3, d(0.35), &never, &one, &plus);
    assert_eq!(new_nns.len(), 300);
    let elite: Vec<Vec<f64>> = games[..3].iter().map(|g| genes(&g.neural_network)).collect();
    assert_eq!(games[0].pontuation, 299);
    assert_eq!(games[1].pontuation, 298);
    assert_eq!(games[2].pontuation, 297);
    let mut drawn = [0usize; 3];
    for child in new_nns[3..].iter() {
        let g = genes(child);
        let parent = elite.iter().position(|e| *e == g).expect("a child of the elite");
        drawn[parent] += 1;
    }
    // 297 uniform draws among three parents leave none of them out
    assert!(drawn.iter().all(|n| *n > 0), "{drawn:?}");
}

#[test]
fn the_elite_count_is_clamped_in_a_rollover() {
    let mut games = scored(&[1, 2, 3]);
    let (_, new_nns) = generate_nn(&mut games, 0, d(0.35), &always, &one, &plus);
    assert_eq!(genes(&new_nns[0]), vec![200.0, 201.0, 202.0]);
    assert_eq!(genes(&new_nns[1]), vec![201.0, 202.0, 203.0]);
    assert_eq!(genes(&new_nns[2]), vec![201.0, 202.0, 203.0]);

    let mut games = scored(&[1, 2, 3]);
    let (_, new_nns) = generate_nn(&mut games, 10, d(0.35), &always, &one, &plus);
    assert_eq!(genes(&new_nns[0]), vec![200.0, 201.0, 202.0]);
    assert_eq!(genes(&new_nns[1]), vec![100.0, 101.0, 102.0]);
    assert_eq!(genes(&new_nns[2]), vec![0.0, 1.0, 2.0]);
}

#[test]
fn a_gene_is_mutated_when_the_roll_is_below_the_rate() {
    let rolls = std::cell::RefCell::new(vec![0.9, 0.34, 0.35].into_iter());
    let chance = || d(rolls.borrow_mut().next().unwrap());
    let delta = || d(-0.25);
    let mut network = tagged(10.0);
    mutate(&mut network, d(0.35), &chance, &delta, &plus);
    assert_eq!(genes(&network), vec![10.0, 10.75, 12.0]);
}

#[test]
fn a_mutated_copy_leaves_its_parent_alone() {
    let parent = tagged(10.0);
    let child = mutated_copy(&parent, d(0.35), &always, &one, &plus);
    assert_eq!(genes(&child), vec![11.0, 12.0, 13.0]);
    assert_eq!(genes(&parent), vec![10.0, 11.0, 12.0]);
    let copy = deep_clone_nn(&parent);
    assert_eq!(genes(&copy), genes(&parent));
}

#[test]
fn the_next_generation_starts_in_the_same_slots() {
    let mut games = scored(&[10, 5, 20]);
    games[1].finished = true;
    games[1].pong.finished = true;
    games[2].pong.ball.collision_cooldown = s(0.2);
    let new_nns = vec![tagged(7.0), tagged(8.0), tagged(9.0), tagged(10.0)];
    regenerate_generation(&mut games, &new_nns, &launch);
    assert_eq!(games.len(), 3);
    assert_eq!(tags(&games), vec![7.0, 8.0, 9.0]);
    for (i, game) in games.iter().enumerate() {
        assert_eq!(game.pong.position, Slot { x: 600 * i, y: 500 });
        assert_eq!(game.pong.window, window());
        assert_eq!(game.pong.pontuation, Pontuation { player1: 0, player2: 0 });
        assert_eq!(game.pong.ball, Ball { velocity: launch(), collision_cooldown: s(0.0) });
        assert!(!game.pong.finished);
        assert!(!game.finished);
        assert_eq!(game.pontuation, 0);
    }
}

#[test]
fn a_population_lives_through_a_generation() {
    let networks: Vec<NeuralNetwork> = (0..5).map(|i| tagged(100.0 * i as f64)).collect();
    let mut population = Population::new(networks, window(), 2, d(0.35), &launch);
    assert_eq!(population.generation, 0);
    assert_eq!(population.best_game_index, 0);
    assert_eq!(population.games.len(), 5);

    // match 2 scores twice, match 4 once
    let hits = vec![NOTHING, NOTHING, HIT, NOTHING, HIT];
    assert_eq!(population.advance(&hits, &keep, &launch), 0);
    assert_eq!(population.best_game_index, 2);
    for game in population.games.iter_mut() {
        game.pong.ball.collision_cooldown = s(0.0);
    }
    let hits = vec![NOTHING, NOTHING, HIT, NOTHING, NOTHING];
    assert_eq!(population.advance(&hits, &keep, &launch), 0);
    assert_eq!(population.games[2].pontuation, 2);
    assert_eq!(population.games[4].pontuation, 1);
    assert!(!population.is_complete(0));

    // matches 0, 1 and 3 end: all but the elite have finished
    let ends = vec![OUT, OUT, NOTHING, OUT, NOTHING];
    let finished = population.advance(&ends, &keep, &launch);
    assert_eq!(finished, 3);
    assert!(!population.is_complete(2));
    assert!(population.is_complete(finished));

    let (total, champion) = population.rollover(&launch, &always, &one, &plus);
    assert_eq!(total, 3);
    assert_eq!(genes(&champion), vec![200.0, 201.0, 202.0]);
    assert_eq!(population.generation, 1);
    assert_eq!(population.best_game_index, 2);
    assert_eq!(population.games.len(), 5);
    // rank by rank the new networks stand where the ranked matches stood:
    // the champion in slot 2, the runner-up in slot 4, then slots 0, 1 and 3
    let by_slot = |x: usize| {
        let game = population.games.iter().find(|g| g.pong.position.x == x).unwrap();
        genes(&game.neural_network)
    };
    assert_eq!(by_slot(1200), vec![200.0, 201.0, 202.0]);
    assert_eq!(by_slot(2400), vec![400.0, 401.0, 402.0]);
    for x in [0usize, 600, 1800] {
        let g = by_slot(x);
        assert!(g == vec![201.0, 202.0, 203.0] || g == vec![401.0, 402.0, 403.0], "{g:?}");
    }
    for game in population.games.iter() {
        assert_eq!(game.pong.position.y, 500);
        assert!(!game.finished);
        assert!(!game.pong.finished);
        assert_eq!(game.pontuation, 0);
        assert_eq!(game.pong.pontuation.player1, 0);
    }
}
