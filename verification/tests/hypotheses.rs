use ordered_float::OrderedFloat;
use text_generation::beam_hypotheses::BeamHypotheses;
use text_generation::number::INFINITY;

fn key(x: f64) -> i64 {
    let bits = x.to_bits() as i64;
    bits ^ ((((bits >> 63) as u64) >> 1) as i64)
}

fn normalized(sum_log_probabilities: f64, length: usize, length_penalty: f64) -> i64 {
    key(sum_log_probabilities / (length as f64).powf(length_penalty))
}

#[test]
fn a_new_set_is_empty() {
    let set = BeamHypotheses::new(3, 20, key(1.0), false);
    assert_eq!(set.len(), 0);
    assert_eq!(set.worst_score(), INFINITY);
    assert_eq!(set.length_penalty(), key(1.0));
    assert!(set.best(2).is_empty());
    assert!(!set.is_done(key(-1.0)));
}

#[test]
fn add_keeps_the_best_num_beams() {
    let mut set = BeamHypotheses::new(2, 20, key(1.0), false);
    set.add(vec![1, 2, 3, 4], normalized(-4.0, 4, 1.0));
    assert_eq!(set.len(), 1);
    assert_eq!(set.worst_score(), key(-1.0));
    set.add(vec![5, 6], normalized(-1.0, 2, 1.0));
    assert_eq!(set.len(), 2);
    assert_eq!(set.worst_score(), key(-1.0));
    set.add(vec![7], normalized(-3.0, 1, 1.0));
    assert_eq!(set.len(), 2);
    assert_eq!(set.worst_score(), key(-1.0));
    assert_eq!(set.best(2), vec![vec![5, 6], vec![1, 2, 3, 4]]);
    set.add(vec![8, 9], normalized(-1.5, 2, 1.0));
    assert_eq!(set.len(), 2);
    assert_eq!(set.worst_score(), key(-0.75));
    assert_eq!(set.best(2), vec![vec![5, 6], vec![8, 9]]);
}

#[test]
fn never_more_than_num_beams_and_the_worst_is_the_minimum() {
    let scores = [-3.0, -0.5, -7.25, -0.5, -1.0, -9.0, -0.25, -2.0, -0.5, -4.0];
    for num_beams in 1..5usize {
        let mut set = BeamHypotheses::new(num_beams, 20, key(1.0), false);
        let mut kept: Vec<f64> = Vec::new();
        for (i, score) in scores.iter().enumerate() {
            set.add(vec![i as i64], key(*score));
            let worst = kept.iter().cloned().fold(f64::INFINITY, f64::min);
            if kept.len() < num_beams || *score > worst {
                kept.push(*score);
                if kept.len() > num_beams {
                    let position = kept.iter().position(|s| *s == worst).unwrap();
                    kept.remove(position);
                }
            }
            assert!(set.len() <= num_beams);
            assert_eq!(set.len(), kept.len());
            let minimum = kept.iter().cloned().fold(f64::INFINITY, f64::min);
            assert_eq!(set.worst_score(), key(minimum));
        }
    }
}

#[test]
fn of_equal_worst_entries_the_first_leaves() {
    let mut set = BeamHypotheses::new(2, 20, key(1.0), false);
    set.add(vec![1], key(-2.0));
    set.add(vec![2], key(-2.0));
    set.add(vec![3], key(-1.0));
    assert_eq!(set.best(2), vec![vec![3], vec![2]]);
}

#[test]
fn of_equal_best_entries_the_last_comes_first() {
    let mut set = BeamHypotheses::new(3, 20, key(1.0), false);
    set.add(vec![1], key(-1.0));
    set.add(vec![2], key(-1.0));
    set.add(vec![3], key(-5.0));
    assert_eq!(set.best(3), vec![vec![2], vec![1], vec![3]]);
    assert_eq!(set.best(1), vec![vec![2]]);
    assert_eq!(set.best(7), vec![vec![2], vec![1], vec![3]]);
}

#[test]
fn a_score_that_does_not_beat_the_worst_is_passed_over() {
    let mut set = BeamHypotheses::new(1, 20, key(1.0), false);
    set.add(vec![1], key(-1.0));
    set.add(vec![2], key(-1.0));
    assert_eq!(set.best(1), vec![vec![1]]);
    set.add(vec![3], key(f64::NAN));
    assert_eq!(set.best(1), vec![vec![1]]);
}

#[test]
fn is_done_waits_for_a_full_set() {
    let mut set = BeamHypotheses::new(2, 20, key(1.0), true);
    assert!(!set.is_done(key(-100.0)));
    set.add(vec![1], key(-1.0));
    assert!(!set.is_done(key(-100.0)));
    set.add(vec![2], key(-2.0));
    assert!(set.is_done(key(0.0)));
}

#[test]
fn is_done_compares_the_best_running_score_with_the_worst_kept() {
    let mut set = BeamHypotheses::new(2, 20, key(2.0), false);
    set.add(vec![1, 1], normalized(-4.0, 2, 2.0));
    set.add(vec![2, 2], normalized(-8.0, 2, 2.0));
    assert_eq!(set.worst_score(), key(-2.0));
    assert!(set.is_done(normalized(-18.0, 3, 2.0)));
    assert!(set.is_done(normalized(-27.0, 3, 2.0)));
    assert!(!set.is_done(normalized(-9.0, 3, 2.0)));
    assert!(!set.is_done(key(f64::NAN)));
}

#[test]
fn a_copy_holds_the_same_hypotheses() {
    let mut set = BeamHypotheses::new(2, 20, key(1.5), true);
    set.add(vec![1, 2], key(-1.0));
    set.add(vec![3], key(-2.0));
    let mut copy = set.clone();
    assert_eq!(copy.len(), 2);
    assert_eq!(copy.worst_score(), key(-2.0));
    assert_eq!(copy.length_penalty(), key(1.5));
    assert_eq!(copy.best(2), vec![vec![1, 2], vec![3]]);
    copy.add(vec![4], key(-0.5));
    assert_eq!(copy.best(2), vec![vec![4], vec![1, 2]]);
    assert_eq!(set.best(2), vec![vec![1, 2], vec![3]]);
}

/// A set that keeps its scores as floating-point numbers.
struct FloatSet {
    num_beams: usize,
    early_stopping: bool,
    beams: Vec<(f64, Vec<i64>)>,
    worst_score: f64,
}

impl FloatSet {
    fn add(&mut self, hypothesis: Vec<i64>, score: f64) {
        if self.beams.len() < self.num_beams || score > self.worst_score {
            self.beams.push((score, hypothesis));
            if self.beams.len() > self.num_beams {
                let (position, _) = self
                    .beams
                    .iter()
                    .enumerate()
                    .min_by_key(|(_, (score, _))| OrderedFloat(*score))
                    .unwrap();
                let _ = self.beams.remove(position);
            }
            self.worst_score =
                self.beams.iter().min_by_key(|(score, _)| OrderedFloat(*score)).unwrap().0;
        }
    }

    fn is_done(&self, best: f64) -> bool {
        if self.beams.len() < self.num_beams {
            false
        } else if self.early_stopping {
            true
        } else {
            self.worst_score >= best
        }
    }

    fn best(&self, count: usize) -> Vec<Vec<i64>> {
        let mut sorted = self.beams.clone();
        sorted.sort_by_key(|(score, _)| OrderedFloat(*score));
        let mut out = Vec::new();
        for _ in 0..count {
            match sorted.pop() {
                Some((_, tokens)) => out.push(tokens),
                None => break,
            }
        }
        out
    }
}

#[test]
fn the_set_behaves_as_one_kept_with_floating_point_scores() {
    let choices = [
        -0.0,
        0.0,
        -1.0,
        -1.0,
        -2.5,
        -0.25,
        f64::NEG_INFINITY,
        f64::NAN,
        -7.0,
        -0.5,
        f64::INFINITY,
        -3.0,
    ];
    let mut state: u64 = 12345;
    for round in 0..200 {
        let num_beams = 1 + (round % 4) as usize;
        let early_stopping = round % 2 == 0;
        let mut set = BeamHypotheses::new(num_beams, 20, key(1.0), early_stopping);
        let mut reference = FloatSet {
            num_beams,
            early_stopping,
            beams: Vec::new(),
            worst_score: f64::INFINITY,
        };
        for step in 0..12 {
            state = state.wrapping_mul(6364136223846793005).wrapping_add(1442695040888963407);
            let score = choices[((state >> 33) % choices.len() as u64) as usize];
            state = state.wrapping_mul(6364136223846793005).wrapping_add(1442695040888963407);
            let best = choices[((state >> 33) % choices.len() as u64) as usize];
            set.add(vec![round, step], key(score));
            reference.add(vec![round, step], score);
            assert_eq!(set.len(), reference.beams.len());
            assert_eq!(set.worst_score(), key(reference.worst_score));
            assert_eq!(set.is_done(key(best)), reference.is_done(best));
            for count in 0..=num_beams + 1 {
                assert_eq!(set.best(count), reference.best(count));
            }
        }
    }
}
