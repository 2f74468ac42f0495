use neuroevolution::error::EngineError;
use neuroevolution::flappy::bird::{displace, mutate, mutation_strikes, Bird};
use neuroevolution::flappy::game::{Game, HIDDEN_NODES, INPUT_NODES, OUTPUT_NODES, PIPE_INTERVAL};
use neuroevolution::matrix::Matrix;
use neuroevolution::nn::{ActivationFunction, NeuralNetwork};
use neuroevolution::scalar::Scalar;
use std::cell::Cell;

#[derive(Clone, Copy, Debug, PartialEq)]
struct Val(f32);

impl Scalar for Val {
    fn zero() -> Self {
        Val(0.0)
    }
    fn ratio(num: u64, den: u128) -> Self {
        Val(num as f32 / den as f32)
    }
    fn plus(self, rhs: Self) -> Self {
        Val(self.0 + rhs.0)
    }
    fn minus(self, rhs: Self) -> Self {
        Val(self.0 - rhs.0)
    }
    fn times(self, rhs: Self) -> Self {
        Val(self.0 * rhs.0)
    }
    fn less_than(self, rhs: Self) -> bool {
        self.0 < rhs.0
    }
}

type Unary = fn(Val) -> Val;

type Brain = NeuralNetwork<Val, Unary, Unary>;

type Individual = Bird<Val, Unary, Unary>;

type Flock = Game<Val, Unary, Unary>;

fn sigmoid(x: Val) -> Val {
    Val(1.0 / (1.0 + (-x.0).exp()))
}

fn sigmoid_slope(y: Val) -> Val {
    Val(y.0 * (1.0 - y.0))
}

fn same(x: Val) -> Val {
    x
}

fn logistic() -> ActivationFunction<Unary, Unary> {
    ActivationFunction { func: sigmoid as Unary, dfunc: sigmoid_slope as Unary }
}

fn plain() -> ActivationFunction<Unary, Unary> {
    ActivationFunction { func: same as Unary, dfunc: same as Unary }
}

/// A brain all of whose weights and biases are `w`.
fn brain_of(w: f32) -> Brain {
    Brain::new(INPUT_NODES, HIDDEN_NODES, OUTPUT_NODES, &|| Val(w), logistic()).unwrap()
}

fn bird_with(w: f32, score: u64, fitness: f32) -> Individual {
    let mut bird = Individual::new(brain_of(w));
    bird.score = score;
    bird.fitness = Val(fitness);
    bird
}

fn birds_with_fitness(fitness: &[f32]) -> Vec<Individual> {
    fitness.iter().enumerate().map(|(i, f)| bird_with(i as f32, 0, *f)).collect()
}

fn flock_with_scores(scores: &[u64]) -> Flock {
    let birds: Vec<Individual> =
        scores.iter().enumerate().map(|(i, s)| bird_with(i as f32 + 1.0, *s, 0.0)).collect();
    Flock::with_birds(birds).unwrap()
}

fn weights(m: &Matrix<Val>) -> Vec<f32> {
    m.clone().to_array().iter().map(|x| x.0).collect()
}

fn all_weights(brain: &Brain) -> Vec<f32> {
    let mut all = weights(&brain.weights_ih);
    all.extend(weights(&brain.weights_ho));
    all.extend(weights(&brain.bias_h));
    all.extend(weights(&brain.bias_o));
    all
}

fn scores(game: &Flock) -> Vec<u64> {
    game.all_birds().iter().map(|b| b.score).collect()
}

fn fitness(game: &Flock) -> Vec<f32> {
    game.all_birds().iter().map(|b| b.fitness.0).collect()
}

#[test]
fn a_mutation_strikes_below_one_tenth() {
    assert!(mutation_strikes(Val(0.0)));
    assert!(mutation_strikes(Val(0.05)));
    assert!(mutation_strikes(Val(0.099)));
    assert!(!mutation_strikes(Val(0.1)));
    assert!(!mutation_strikes(Val(0.5)));
    assert!(!mutation_strikes(Val(0.999)));
}

#[test]
fn displace_adds_half_of_the_noise() {
    assert_eq!(displace(Val(1.0), Val(0.8)), Val(1.4));
    assert_eq!(displace(Val(-0.25), Val(-1.5)), Val(-1.0));
    assert_eq!(displace(Val(3.0), Val(0.0)), Val(3.0));
}

#[test]
fn mutate_leaves_the_weight_where_no_mutation_strikes() {
    let noise_draws = Cell::new(0);
    let noise = || {
        noise_draws.set(noise_draws.get() + 1);
        Val(100.0)
    };
    assert_eq!(mutate(Val(0.75), &|| Val(0.1), &noise), Val(0.75));
    assert_eq!(mutate(Val(-2.0), &|| Val(0.9), &noise), Val(-2.0));
    assert_eq!(noise_draws.get(), 0);
}

#[test]
fn mutate_displaces_the_weight_where_a_mutation_strikes() {
    let noise_draws = Cell::new(0);
    let noise = || {
        noise_draws.set(noise_draws.get() + 1);
        Val(0.5)
    };
    assert_eq!(mutate(Val(0.75), &|| Val(0.05), &noise), Val(1.0));
    assert_eq!(noise_draws.get(), 1);
    assert_eq!(mutate(Val(0.75), &|| Val(0.0), &|| Val(-1.0)), Val(0.25));
}

#[test]
fn mutate_strikes_about_one_weight_in_ten() {
    let state = Cell::new(12345u64);
    let chance = || {
        state.set(state.get().wrapping_mul(6364136223846793005).wrapping_add(1442695040888963407));
        Val(((state.get() >> 40) as f32) / ((1u64 << 24) as f32))
    };
    let noise = || Val(1.0);
    let mut changed = 0;
    for _ in 0..20000 {
        if mutate(Val(0.0), &chance, &noise) != Val(0.0) {
            changed += 1;
        }
    }
    assert!(changed > 1700 && changed < 2300);
}

#[test]
fn a_new_bird_is_fresh() {
    let bird = Individual::new(brain_of(0.5));
    assert_eq!(bird.score, 0);
    assert_eq!(bird.fitness, Val(0.0));
    assert_eq!(all_weights(&bird.brain), vec![0.5; 66]);
}

#[test]
fn update_counts_a_tick() {
    let mut bird = bird_with(0.5, 41, 0.25);
    bird.update();
    assert_eq!(bird.score, 42);
    assert_eq!(bird.fitness, Val(0.25));
    assert_eq!(all_weights(&bird.brain), vec![0.5; 66]);
}

#[test]
fn copy_without_mutation_clones_the_brain_and_resets_the_rest() {
    let parent = bird_with(0.5, 17, 0.3);
    let child = parent.copy(&|| Val(0.5), &|| Val(1.0));
    assert_eq!(child.score, 0);
    assert_eq!(child.fitness, Val(0.0));
    assert_eq!(all_weights(&child.brain), vec![0.5; 66]);
    assert!(child.brain.is_shaped());
    assert_eq!(
        (child.brain.input_nodes, child.brain.hidden_nodes, child.brain.output_nodes),
        (5, 8, 2)
    );
    assert_eq!(parent.score, 17);
    assert_eq!(all_weights(&parent.brain), vec![0.5; 66]);
}

#[test]
fn copy_with_mutation_displaces_every_weight_it_strikes() {
    let parent = bird_with(0.5, 17, 0.3);
    let child = parent.copy(&|| Val(0.0), &|| Val(2.0));
    assert_eq!(all_weights(&child.brain), vec![1.5; 66]);
    let turn = Cell::new(0);
    let every_other = || {
        turn.set(turn.get() + 1);
        if turn.get() % 2 == 1 {
            Val(0.0)
        } else {
            Val(1.0)
        }
    };
    let child = parent.copy(&every_other, &|| Val(-1.0));
    let expected: Vec<f32> = (0..66).map(|k| if k % 2 == 0 { 0.0 } else { 0.5 }).collect();
    assert_eq!(all_weights(&child.brain), expected);
    assert_eq!(all_weights(&parent.brain), vec![0.5; 66]);
}

#[test]
fn think_jumps_when_the_second_output_is_the_greater() {
    let mut brain = Brain::new(1, 1, 2, &|| Val(0.0), plain()).unwrap();
    brain.weights_ih = Matrix::from_array(&[Val(1.0)]);
    brain.weights_ho = Matrix::from_array(&[Val(1.0), Val(-1.0)]);
    let bird = Individual::new(brain);
    // outputs are (x, -x)
    assert_eq!(bird.think(&[Val(-2.0)]), Ok(true));
    assert_eq!(bird.think(&[Val(2.0)]), Ok(false));
    assert_eq!(bird.think(&[Val(0.0)]), Ok(false));
}

#[test]
fn think_refuses_what_the_brain_cannot_answer() {
    let bird = Individual::new(brain_of(0.1));
    assert_eq!(bird.think(&[Val(0.0); 4]), Err(EngineError::ShapeMismatch));
    assert!(bird.think(&[Val(0.0); 5]).is_ok());
    let one_output = Brain::new(2, 2, 1, &|| Val(0.0), plain()).unwrap();
    let bird = Individual::new(one_output);
    assert_eq!(bird.think(&[Val(0.0); 2]), Err(EngineError::ShapeMismatch));
}

#[test]
fn a_new_game_has_a_fresh_population_all_alive() {
    let game = Flock::new(6, &|| Val(0.25), logistic()).unwrap();
    assert_eq!(game.all_birds().len(), 6);
    assert_eq!(game.active_birds(), &vec![0, 1, 2, 3, 4, 5]);
    assert_eq!(game.counter(), 0);
    assert_eq!(game.best_bird(), None);
    assert_eq!(game.high_score(), 0);
    assert!(!game.run_best());
    assert!(!game.is_exhausted());
    for bird in game.all_birds() {
        assert_eq!(bird.score, 0);
        assert_eq!(bird.fitness, Val(0.0));
        assert_eq!((bird.brain.weights_ih.rows(), bird.brain.weights_ih.cols()), (8, 5));
        assert_eq!((bird.brain.weights_ho.rows(), bird.brain.weights_ho.cols()), (2, 8));
        assert_eq!(all_weights(&bird.brain), vec![0.25; 66]);
    }
}

#[test]
fn a_game_needs_a_population() {
    assert!(matches!(
        Flock::new(0, &|| Val(0.0), logistic()),
        Err(EngineError::InvalidConfiguration)
    ));
    assert!(matches!(Flock::with_birds(Vec::new()), Err(EngineError::InvalidConfiguration)));
    assert!(Flock::new(1, &|| Val(0.0), logistic()).is_ok());
}

#[test]
fn with_birds_keeps_the_birds_as_given() {
    let game = flock_with_scores(&[3, 1, 4]);
    assert_eq!(scores(&game), vec![3, 1, 4]);
    assert_eq!(game.active_birds(), &vec![0, 1, 2]);
    assert_eq!(all_weights(&game.all_birds()[2].brain), vec![3.0; 66]);
}

#[test]
fn normalize_fitness_gives_each_its_share() {
    let mut game = flock_with_scores(&[10, 20, 30, 0, 40]);
    game.normalize_fitness();
    let shares = fitness(&game);
    let expected = [0.1, 0.2, 0.3, 0.0, 0.4];
    for (share, want) in shares.iter().zip(expected.iter()) {
        assert!((share - want).abs() < 1e-6);
    }
    assert_eq!(shares[3], 0.0);
    assert_eq!(shares, vec![10.0 / 100.0, 20.0 / 100.0, 30.0 / 100.0, 0.0, 40.0 / 100.0]);
    assert!((shares.iter().sum::<f32>() - 1.0).abs() < 1e-6);
    assert_eq!(scores(&game), vec![10, 20, 30, 0, 40]);
}

#[test]
fn normalize_fitness_leaves_all_as_it_is_where_nobody_scored() {
    let mut game = flock_with_scores(&[0, 0, 0]);
    game.normalize_fitness();
    assert_eq!(fitness(&game), vec![0.0, 0.0, 0.0]);
    let birds = vec![bird_with(1.0, 0, 0.5), bird_with(2.0, 0, 0.25)];
    let mut game = Flock::with_birds(birds).unwrap();
    game.normalize_fitness();
    assert_eq!(fitness(&game), vec![0.5, 0.25]);
    assert_eq!(scores(&game), vec![0, 0]);
}

#[test]
fn normalize_fitness_of_one_scorer_is_one() {
    let mut game = flock_with_scores(&[5, 0, 0, 0]);
    game.normalize_fitness();
    assert_eq!(fitness(&game), vec![1.0, 0.0, 0.0, 0.0]);
}

#[test]
fn normalize_fitness_of_the_largest_scores() {
    let mut game = flock_with_scores(&[u64::MAX, u64::MAX]);
    game.normalize_fitness();
    assert_eq!(fitness(&game), vec![0.5, 0.5]);
}

#[test]
fn select_stops_at_the_first_when_it_has_all_the_fitness() {
    let birds = birds_with_fitness(&[1.0, 0.0, 0.0]);
    for k in 0..1000 {
        let r = k as f32 / 1000.0;
        assert_eq!(Flock::select(&birds, Val(r)), 0);
    }
    assert_eq!(Flock::select(&birds, Val(0.99999994)), 0);
}

#[test]
fn select_walks_the_wheel() {
    let birds = birds_with_fitness(&[0.1, 0.2, 0.3, 0.0, 0.4]);
    assert_eq!(Flock::select(&birds, Val(0.0)), 0);
    assert_eq!(Flock::select(&birds, Val(0.05)), 0);
    assert_eq!(Flock::select(&birds, Val(0.1)), 0);
    assert_eq!(Flock::select(&birds, Val(0.25)), 1);
    assert_eq!(Flock::select(&birds, Val(0.55)), 2);
    assert_eq!(Flock::select(&birds, Val(0.65)), 4);
    assert_eq!(Flock::select(&birds, Val(0.95)), 4);
}

#[test]
fn select_stops_at_the_last_where_the_wheel_runs_out() {
    let birds = birds_with_fitness(&[0.0, 0.0, 0.0]);
    assert_eq!(Flock::select(&birds, Val(0.5)), 2);
    let birds = birds_with_fitness(&[0.25, 0.25]);
    assert_eq!(Flock::select(&birds, Val(0.9)), 1);
    let birds = birds_with_fitness(&[0.25]);
    assert_eq!(Flock::select(&birds, Val(0.9)), 0);
    assert_eq!(Flock::select(&birds, Val(0.1)), 0);
}

#[test]
fn pool_selection_selects_on_its_draw() {
    let birds = birds_with_fitness(&[0.1, 0.2, 0.3, 0.0, 0.4]);
    assert_eq!(Flock::pool_selection(&birds, &|| Val(0.25)), 1);
    assert_eq!(Flock::pool_selection(&birds, &|| Val(0.7)), 4);
    let birds = birds_with_fitness(&[1.0, 0.0, 0.0]);
    let turn = Cell::new(0);
    let draw = || {
        turn.set(turn.get() + 1);
        Val((turn.get() % 100) as f32 / 100.0)
    };
    for _ in 0..300 {
        assert_eq!(Flock::pool_selection(&birds, &draw), 0);
    }
}

#[test]
fn generate_draws_once_for_each_place() {
    let birds = birds_with_fitness(&[0.1, 0.2, 0.3, 0.0, 0.4]);
    let draws = [0.05, 0.95, 0.25, 0.55, 0.15];
    let turn = Cell::new(0);
    let draw = || {
        turn.set(turn.get() + 1);
        Val(draws[turn.get() - 1])
    };
    assert_eq!(Flock::generate(&birds, &draw), vec![0, 4, 1, 2, 1]);
    assert_eq!(turn.get(), 5);
    assert_eq!(Flock::generate(&Vec::new(), &draw), vec![]);
}

#[test]
fn next_generation_keeps_the_size_and_resets_every_bird() {
    let mut game = flock_with_scores(&[10, 20, 30, 0, 40]);
    assert!(game.tick());
    game.step(&[true, false, true, false, false]);
    let turn = Cell::new(0);
    let draw = || {
        turn.set(turn.get() + 1);
        Val((turn.get() * 37 % 100) as f32 / 100.0)
    };
    game.next_generation(&draw, &|| Val(0.05), &|| Val(0.2));
    assert_eq!(game.all_birds().len(), 5);
    assert_eq!(scores(&game), vec![0; 5]);
    assert_eq!(fitness(&game), vec![0.0; 5]);
    assert_eq!(game.active_birds(), &vec![0, 1, 2, 3, 4]);
    assert_eq!(game.counter(), 0);
    for bird in game.all_birds() {
        assert!(bird.brain.is_shaped());
    }
}

#[test]
fn next_generation_breeds_from_the_only_scorer() {
    let mut game = flock_with_scores(&[5, 0, 0, 0]);
    let turn = Cell::new(0);
    let draw = || {
        turn.set(turn.get() + 1);
        Val(((turn.get() * 61) % 100) as f32 / 100.0)
    };
    game.next_generation(&draw, &|| Val(0.5), &|| Val(1.0));
    assert_eq!(game.all_birds().len(), 4);
    for bird in game.all_birds() {
        assert_eq!(all_weights(&bird.brain), vec![1.0; 66]);
        assert_eq!(bird.score, 0);
        assert_eq!(bird.fitness, Val(0.0));
    }
}

#[test]
fn next_generation_mutates_the_clones() {
    let mut game = flock_with_scores(&[5, 0, 0, 0]);
    game.next_generation(&|| Val(0.3), &|| Val(0.0), &|| Val(0.5));
    for bird in game.all_birds() {
        assert_eq!(all_weights(&bird.brain), vec![1.25; 66]);
    }
}

#[test]
fn next_generation_reads_every_parent_before_it_replaces_any() {
    let mut game = flock_with_scores(&[0, 0, 0, 7]);
    game.next_generation(&|| Val(0.5), &|| Val(0.5), &|| Val(1.0));
    for bird in game.all_birds() {
        assert_eq!(all_weights(&bird.brain), vec![4.0; 66]);
    }
    let mut game = flock_with_scores(&[1, 1, 0, 0]);
    let draws = [0.75, 0.25, 0.75, 0.25];
    let turn = Cell::new(0);
    let draw = || {
        turn.set(turn.get() + 1);
        Val(draws[turn.get() - 1])
    };
    game.next_generation(&draw, &|| Val(0.5), &|| Val(1.0));
    let firsts: Vec<f32> = game.all_birds().iter().map(|b| b.brain.bias_o.cell(0, 0).0).collect();
    assert_eq!(firsts, vec![2.0, 1.0, 2.0, 1.0]);
}

#[test]
fn next_generation_keeps_the_best_so_far() {
    let mut game = flock_with_scores(&[3, 9, 4]);
    assert_eq!(game.track_best(), 9);
    game.next_generation(&|| Val(0.5), &|| Val(0.5), &|| Val(1.0));
    assert_eq!(game.best_bird(), Some(1));
    assert_eq!(game.high_score(), 9);
    assert!(!game.run_best());
}

#[test]
fn step_counts_a_tick_for_the_living_and_drops_the_dead() {
    let mut game = flock_with_scores(&[0, 0, 0, 0]);
    game.step(&[true, false, true, true]);
    assert_eq!(scores(&game), vec![1, 1, 1, 1]);
    assert_eq!(game.active_birds(), &vec![0, 2, 3]);
    game.step(&[true, true, false]);
    assert_eq!(scores(&game), vec![2, 1, 2, 2]);
    assert_eq!(game.active_birds(), &vec![0, 2]);
    game.step(&[true, true]);
    assert_eq!(scores(&game), vec![3, 1, 3, 2]);
    assert_eq!(game.active_birds(), &vec![0, 2]);
    assert!(!game.is_exhausted());
    game.step(&[false, false]);
    assert_eq!(scores(&game), vec![4, 1, 4, 2]);
    assert!(game.is_exhausted());
    game.step(&[]);
    assert_eq!(scores(&game), vec![4, 1, 4, 2]);
    assert_eq!(game.counter(), 0);
    assert_eq!(game.best_bird(), None);
}

#[test]
fn tick_calls_for_an_obstacle_every_75_ticks() {
    assert_eq!(PIPE_INTERVAL, 75);
    let mut game = flock_with_scores(&[0]);
    let mut due = Vec::new();
    for t in 0..200u32 {
        assert_eq!(game.counter(), t);
        if game.tick() {
            due.push(t);
        }
    }
    assert_eq!(due, vec![0, 75, 150]);
    assert_eq!(game.counter(), 200);
}

#[test]
fn track_best_follows_the_leader_among_the_living() {
    let mut game = flock_with_scores(&[3, 9, 9, 4]);
    assert_eq!(game.track_best(), 9);
    assert_eq!(game.best_bird(), Some(1));
    assert_eq!(game.high_score(), 9);
    game.step(&[true, false, true, true]);
    assert_eq!(game.track_best(), 10);
    assert_eq!(game.best_bird(), Some(2));
    assert_eq!(game.high_score(), 10);
    game.step(&[true, false, false]);
    assert_eq!(game.active_birds(), &vec![0]);
    assert_eq!(game.track_best(), 5);
    assert_eq!(game.best_bird(), Some(2));
    assert_eq!(game.high_score(), 10);
}

#[test]
fn track_best_leaves_all_where_nobody_scored() {
    let mut game = flock_with_scores(&[0, 0]);
    assert_eq!(game.track_best(), 0);
    assert_eq!(game.best_bird(), None);
    assert_eq!(game.high_score(), 0);
    game.step(&[false, false]);
    assert_eq!(game.track_best(), 0);
    assert_eq!(game.best_bird(), None);
}

#[test]
fn reset_game_starts_the_episode_over() {
    let mut game = flock_with_scores(&[3, 9, 4]);
    game.tick();
    game.tick();
    game.reset_game();
    assert_eq!(game.counter(), 0);
    assert_eq!(scores(&game), vec![3, 9, 4]);
    game.track_best();
    game.tick();
    game.reset_game();
    assert_eq!(game.counter(), 0);
    assert_eq!(scores(&game), vec![3, 0, 4]);
    assert_eq!(game.best_bird(), Some(1));
    assert_eq!(game.high_score(), 9);
    assert_eq!(game.active_birds(), &vec![0, 1, 2]);
}

#[test]
fn replay_runs_the_best_bird_alone() {
    let mut game = flock_with_scores(&[3, 9, 4]);
    game.set_run_best(true);
    assert!(game.run_best());
    game.step_best(true);
    assert_eq!(scores(&game), vec![3, 9, 4]);
    assert_eq!(game.track_best(), 0);
    game.set_run_best(false);
    game.track_best();
    game.set_run_best(true);
    game.tick();
    game.step_best(true);
    assert_eq!(scores(&game), vec![3, 10, 4]);
    assert_eq!(game.counter(), 1);
    assert_eq!(game.track_best(), 10);
    assert_eq!(game.high_score(), 10);
    assert_eq!(game.best_bird(), Some(1));
    game.step_best(false);
    assert_eq!(scores(&game), vec![3, 0, 4]);
    assert_eq!(game.counter(), 0);
    assert_eq!(game.track_best(), 0);
    assert_eq!(game.high_score(), 10);
    assert_eq!(game.active_birds(), &vec![0, 1, 2]);
}

#[test]
fn an_episode_runs_from_fresh_to_the_next_generation() {
    let mut game = Flock::new(3, &|| Val(0.5), logistic()).unwrap();
    let inputs = [Val(0.1), Val(0.2), Val(0.3), Val(0.4), Val(0.5)];
    let mut ticks = 0;
    while !game.is_exhausted() {
        for index in game.active_birds().clone() {
            assert!(game.all_birds()[index].think(&inputs).is_ok());
        }
        let survived: Vec<bool> =
            game.active_birds().iter().map(|index| ticks + 1 < 2 * (index + 1)).collect();
        game.step(&survived);
        game.tick();
        game.track_best();
        ticks += 1;
    }
    assert_eq!(scores(&game), vec![2, 4, 6]);
    assert_eq!(game.best_bird(), Some(2));
    // the highest score is taken among the living, after the tick's dead have left
    assert_eq!(game.high_score(), 5);
    assert_eq!(game.counter(), 6);
    game.next_generation(&|| Val(0.1), &|| Val(0.5), &|| Val(1.0));
    assert_eq!(scores(&game), vec![0, 0, 0]);
    assert_eq!(game.active_birds(), &vec![0, 1, 2]);
    assert_eq!(game.counter(), 0);
    assert_eq!(game.high_score(), 5);
    assert!(!game.is_exhausted());
}
