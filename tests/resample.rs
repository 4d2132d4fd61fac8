use rust_robotics_algo::error::ConfigurationError;
use rust_robotics_algo::resample::{resample, select_particles, systematic_indices};

fn keys(v: &[f32]) -> Vec<u32> {
    v.iter().map(|x| x.to_bits()).collect()
}

#[test]
fn walk_picks_first_reaching_position() {
    let cum = keys(&[0.1, 0.5, 0.5, 1.0]);
    let points = keys(&[0.05, 0.3, 0.55, 0.8]);
    assert_eq!(systematic_indices(&points, &cum), vec![0, 1, 3, 3]);
}

#[test]
fn walk_clamps_to_last_position() {
    let cum = keys(&[0.25, 0.5, 0.75, 0.99]);
    let points = keys(&[0.1, 0.995, 1.2]);
    assert_eq!(systematic_indices(&points, &cum), vec![0, 3, 3]);
}

#[test]
fn walk_never_moves_back() {
    let cum = keys(&[0.2, 0.4, 0.6, 1.0]);
    let points = keys(&[0.7, 0.1]);
    assert_eq!(systematic_indices(&points, &cum), vec![3, 3]);
}

#[test]
fn zero_weight_particles_are_skipped() {
    let cum = keys(&[0.0, 0.0, 1.0, 1.0]);
    let points = keys(&[0.1, 0.35, 0.6, 0.85]);
    assert_eq!(systematic_indices(&points, &cum), vec![2, 2, 2, 2]);
}

#[test]
fn select_follows_indices() {
    let p = vec!['a', 'b', 'c'];
    assert_eq!(select_particles(&p, &vec![2, 0, 0]), vec!['c', 'a', 'a']);
}

#[test]
fn resampling_keeps_population_size() {
    let np = 100;
    let particles: Vec<usize> = (0..np).collect();
    let w = vec![1.0_f32 / np as f32; np];
    let mut acc = 0.0_f32;
    let cum: Vec<f32> = w
        .iter()
        .map(|x| {
            acc += x;
            acc
        })
        .collect();
    let points: Vec<f32> = (0..np).map(|i| i as f32 / np as f32 + 0.5 / np as f32).collect();
    let out = resample(&particles, &keys(&cum), &keys(&points)).unwrap();
    assert_eq!(out.len(), np);
    assert_eq!(out, particles);
}

#[test]
fn resampling_concentrates_on_heavy_particle() {
    let particles = vec![10, 20, 30, 40];
    let cum = keys(&[0.0, 1.0, 1.0, 1.0]);
    let points = keys(&[0.1, 0.3, 0.6, 0.9]);
    assert_eq!(resample(&particles, &cum, &points), Ok(vec![20, 20, 20, 20]));
}

#[test]
fn empty_population_is_refused() {
    let particles: Vec<u8> = vec![];
    assert_eq!(resample(&particles, &vec![], &keys(&[0.5])), Err(ConfigurationError::NoParticles));
}
