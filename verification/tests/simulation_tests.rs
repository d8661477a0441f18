use everling_esi::SCALE;
use everling_esi::assembler::LinguisticAssembler;
use everling_esi::integrator::EverlingIntegrator;
use everling_esi::runner::{run_experiment, DiscourseMode, EsiError, ExperimentConfig};
use everling_esi::seed::{expand_seed, hash_bytes};
use everling_esi::stats::calculate_variance;
use everling_esi::vocab::Language;
use rand::rngs::StdRng;
use rand::SeedableRng;

fn config(seed: &str, active: usize, steps: usize) -> ExperimentConfig {
    ExperimentConfig {
        virtual_dimensions: 80000,
        active_dimensions: active,
        integration_steps: steps,
        mode: DiscourseMode::Narrative,
        noise_scale: 50_000,
        alpha: 950_000,
        seed_text: seed.to_string(),
    }
}

fn default_assembler() -> LinguisticAssembler {
    let all = LinguisticAssembler::get_default_all_vocabs();
    LinguisticAssembler::new(Language::Japanese, all.japanese)
}

#[test]
fn fnv_hash_matches_reference_vectors() {
    assert_eq!(hash_bytes(&[]), 0xcbf29ce484222325);
    assert_eq!(hash_bytes(b"a"), 0xaf63dc4c8601ec8c);
    assert_eq!(hash_bytes(b"foobar"), 0x85944171f73967e8);
}

#[test]
fn expansion_is_deterministic() {
    let a = expand_seed("test", 128, 80000);
    let b = expand_seed("test", 128, 80000);
    assert_eq!(a, b);
    assert_eq!(a.len(), 128);
    assert!(a.iter().all(|&d| d < 80000));
}

#[test]
fn expansion_follows_stride_rule() {
    let h = hash_bytes(b"test");
    let idx = expand_seed("test", 5, 80000);
    for i in 0..5u64 {
        assert_eq!(idx[i as usize], h.wrapping_add(i * 137) % 80000);
    }
}

#[test]
fn variance_of_empty_and_singleton_is_zero() {
    assert_eq!(calculate_variance(&vec![]), 0);
    assert_eq!(calculate_variance(&vec![123_456]), 0);
    assert_eq!(calculate_variance(&vec![-987_654]), 0);
}

#[test]
fn variance_exact_for_two_values() {
    // values 100 and 300: mean 200, squared deviations 10000 each.
    assert_eq!(calculate_variance(&vec![100, 300]), 10_000);
}

#[test]
fn variance_never_negative() {
    let vals = vec![-1_000_000, 999_999, -3, 777, 0];
    assert!(calculate_variance(&vals) >= 0);
}

#[test]
fn integrator_starts_at_zero() {
    let integ = EverlingIntegrator::new(4);
    assert_eq!(integ.momentum, vec![0, 0, 0, 0]);
    assert_eq!(integ.terrain, vec![0, 0, 0, 0]);
}

#[test]
fn integrate_values_follows_momentum_formula() {
    let mut integ = EverlingIntegrator::new(1);
    // alpha 0.5, gradient 1000: momentum (0.5*0 + 0.5*1000) = 500.
    integ.integrate_values(500_000, &vec![1000]);
    assert_eq!(integ.momentum[0], 500);
    assert_eq!(integ.terrain[0], 500);
    integ.integrate_values(500_000, &vec![-1000]);
    assert_eq!(integ.momentum[0], -250);
    assert_eq!(integ.terrain[0], 250);
}

#[test]
fn terrain_stays_clamped_for_any_noise() {
    let mut integ = EverlingIntegrator::new(8);
    let mut rng = StdRng::seed_from_u64(11);
    for _ in 0..2000 {
        integ.integrate(0, SCALE / 2, &mut rng);
    }
    for &t in &integ.terrain {
        assert!(-SCALE <= t && t <= SCALE);
    }
}

#[test]
fn run_rejects_invalid_configuration() {
    let assembler = default_assembler();
    let mut rng = StdRng::seed_from_u64(1);
    let bad = config("x", 0, 10);
    match run_experiment(&bad, &assembler, &mut rng) {
        Err(e) => assert_eq!(e, EsiError::InvalidConfiguration),
        Ok(_) => panic!("a zero-dimension configuration must be rejected"),
    }
}

#[test]
fn run_is_reproducible_with_a_fixed_random_source() {
    let assembler = default_assembler();
    let cfg = config("test", 128, 500);
    let mut rng1 = StdRng::seed_from_u64(42);
    let r1 = run_experiment(&cfg, &assembler, &mut rng1).unwrap();
    let cfg2 = config("test", 128, 500);
    let mut rng2 = StdRng::seed_from_u64(42);
    let r2 = run_experiment(&cfg2, &assembler, &mut rng2).unwrap();
    assert_eq!(r1.metrics.len(), r2.metrics.len());
    for (m1, m2) in r1.metrics.iter().zip(r2.metrics.iter()) {
        assert_eq!(m1.step, m2.step);
        assert_eq!(m1.variance, m2.variance);
        assert_eq!(m1.structure_score, m2.structure_score);
    }
    assert_eq!(r1.variance_change, r2.variance_change);
    assert_eq!(r1.intensity_score, r2.intensity_score);
    assert_eq!(r1.generated_sentence, r2.generated_sentence);
}

#[test]
fn run_samples_metrics_every_25_steps() {
    let assembler = default_assembler();
    let cfg = config("metrics", 16, 101);
    let mut rng = StdRng::seed_from_u64(3);
    let report = run_experiment(&cfg, &assembler, &mut rng).unwrap();
    let steps: Vec<usize> = report.metrics.iter().map(|m| m.step).collect();
    assert_eq!(steps, vec![0, 25, 50, 75, 100]);
    for m in &report.metrics {
        assert!(m.variance >= 0);
        assert!(m.structure_score >= 0);
    }
    assert!(report.variance_change >= 0);
    assert!(0 <= report.intensity_score && report.intensity_score <= SCALE);
}

#[test]
fn single_dimension_run_does_not_crash() {
    let assembler = default_assembler();
    let cfg = config("one", 1, 120);
    let mut rng = StdRng::seed_from_u64(9);
    let report = run_experiment(&cfg, &assembler, &mut rng).unwrap();
    // variance over a single entry is 0 at every sample, step 0 included.
    assert_eq!(report.metrics[0].step, 0);
    for m in &report.metrics {
        assert_eq!(m.variance, 0);
    }
    assert!(report.intensity_score >= 0);
}

#[test]
fn assemble_composes_sentence_from_strongest_dimensions() {
    let all = LinguisticAssembler::get_default_all_vocabs();
    let assembler = LinguisticAssembler::new(Language::English, all.english);
    let state: Vec<(u64, i64)> = vec![(0, 500_000)];
    let sentence = assembler.assemble(&state);
    assert_eq!(sentence, "Gently, Silenceisdrifting.");
}

#[test]
fn assemble_orders_by_absolute_value() {
    let all = LinguisticAssembler::get_default_all_vocabs();
    let assembler = LinguisticAssembler::new(Language::Japanese, all.japanese);
    let state: Vec<(u64, i64)> = vec![(1, 100_000), (2, -900_000), (3, 400_000)];
    let sentence = assembler.assemble(&state);
    // strongest dimension is 2: adverb index |−0.9|·100 = 90 → 90 % 2 = 0.
    assert!(sentence.starts_with("徐々に、"));
    assert!(sentence.contains("思考"));
    assert!(sentence.ends_with("。"));
}

#[test]
fn assemble_falls_back_on_missing_vocabulary() {
    let assembler = LinguisticAssembler::new(
        Language::Japanese,
        everling_esi::vocab::VocabularyData::empty(),
    );
    let state: Vec<(u64, i64)> = vec![(1, 10)];
    assert_eq!(assembler.assemble(&state), "語彙が不足しています。");
}

#[test]
fn assemble_falls_back_on_empty_state() {
    let all = LinguisticAssembler::get_default_all_vocabs();
    let assembler = LinguisticAssembler::new(Language::Japanese, all.japanese);
    let state: Vec<(u64, i64)> = vec![];
    assert_eq!(assembler.assemble(&state), "語彙が不足しています。");
}
