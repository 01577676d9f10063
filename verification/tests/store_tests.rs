use evocore::EvoError;
use evocore::store::EvoCoreContextSystem;

fn strs(v: &[&str]) -> Vec<String> {
    v.iter().map(|s| s.to_string()).collect()
}

fn mk_store() -> EvoCoreContextSystem {
    EvoCoreContextSystem::new(
        strs(&["type", "domain"]),
        vec![strs(&["chat", "code"]), strs(&["general", "finance"])],
        2,
    )
    .unwrap()
}

#[test]
fn create_rejects_zero_params() {
    let r = EvoCoreContextSystem::new(strs(&["type"]), vec![strs(&["chat"])], 0);
    assert_eq!(r.err().unwrap(), EvoError::InvalidConfiguration);
}

#[test]
fn create_rejects_length_mismatch() {
    let r = EvoCoreContextSystem::new(strs(&["type", "domain"]), vec![strs(&["chat"])], 2);
    assert_eq!(r.err().unwrap(), EvoError::InvalidConfiguration);
}

#[test]
fn create_rejects_empty_name() {
    let r = EvoCoreContextSystem::new(strs(&[""]), vec![strs(&["chat"])], 1);
    assert_eq!(r.err().unwrap(), EvoError::InvalidConfiguration);
}

#[test]
fn create_rejects_duplicate_name() {
    let r = EvoCoreContextSystem::new(
        strs(&["type", "type"]),
        vec![strs(&["chat"]), strs(&["code"])],
        1,
    );
    assert_eq!(r.err().unwrap(), EvoError::InvalidConfiguration);
}

#[test]
fn create_rejects_empty_value_set() {
    let r = EvoCoreContextSystem::new(strs(&["type"]), vec![strs(&[])], 1);
    assert_eq!(r.err().unwrap(), EvoError::InvalidConfiguration);
}

#[test]
fn create_rejects_duplicate_value() {
    let r = EvoCoreContextSystem::new(strs(&["type"]), vec![strs(&["chat", "chat"])], 1);
    assert_eq!(r.err().unwrap(), EvoError::InvalidConfiguration);
}

#[test]
fn build_key_is_deterministic() {
    let sys = mk_store();
    let k1 = sys.build_key(&strs(&["chat", "general"])).unwrap();
    let k2 = sys.build_key(&strs(&["chat", "general"])).unwrap();
    assert_eq!(k1, k2);
}

#[test]
fn build_key_distinct_tuples_differ() {
    let sys = mk_store();
    let k1 = sys.build_key(&strs(&["chat", "general"])).unwrap();
    let k2 = sys.build_key(&strs(&["chat", "finance"])).unwrap();
    let k3 = sys.build_key(&strs(&["code", "general"])).unwrap();
    assert_ne!(k1, k2);
    assert_ne!(k1, k3);
    assert_ne!(k2, k3);
}

#[test]
fn build_key_rejects_invalid_value() {
    let sys = mk_store();
    let r = sys.build_key(&strs(&["chat", "sports"]));
    assert_eq!(r.err().unwrap(), EvoError::InvalidValue);
}

#[test]
fn build_key_rejects_wrong_count() {
    let sys = mk_store();
    let r = sys.build_key(&strs(&["chat"]));
    assert_eq!(r.err().unwrap(), EvoError::DimensionCountMismatch);
}

#[test]
fn learn_rejects_wrong_param_count() {
    let mut sys = mk_store();
    let r = sys.learn(&strs(&["chat", "general"]), &vec![500_000], 1_000_000);
    assert_eq!(r.err().unwrap(), EvoError::ParameterCountMismatch);
}

#[test]
fn learn_rejects_invalid_value() {
    let mut sys = mk_store();
    let r = sys.learn(&strs(&["chat", "sports"]), &vec![500_000, 500_000], 1_000_000);
    assert_eq!(r.err().unwrap(), EvoError::InvalidValue);
}

#[test]
fn learn_counts_every_observation() {
    let mut sys = mk_store();
    let vals = strs(&["chat", "general"]);
    sys.learn(&vals, &vec![500_000, 400_000], 1_000_000).unwrap();
    sys.learn(&vals, &vec![200_000, 100_000], 0).unwrap();
    sys.learn(&vals, &vec![900_000, 800_000], 2_000_000).unwrap();
    let st = sys.get_stats(&vals).unwrap();
    assert_eq!(st.total_observations, 3);
    assert_eq!(st.observation_counts, vec![3, 3]);
    assert_eq!(sys.context_count(), 1);
}

#[test]
fn zero_fitness_does_not_move_the_mean() {
    let mut sys = mk_store();
    let vals = strs(&["chat", "general"]);
    sys.learn(&vals, &vec![500_000, 500_000], 1_000_000).unwrap();
    // a zero-weight trial counts as evidence but must not pull the mean
    sys.learn(&vals, &vec![0, 0], 0).unwrap();
    let mut seed: u64 = 7;
    let p = sys.sample(&vals, 0, &mut seed).unwrap();
    assert_eq!(p, vec![500_000, 500_000]);
    let st = sys.get_stats(&vals).unwrap();
    assert_eq!(st.total_observations, 2);
}

#[test]
fn sample_unknown_context_fails() {
    let sys = mk_store();
    let mut seed: u64 = 1;
    let r = sys.sample(&strs(&["code", "finance"]), 0, &mut seed);
    assert_eq!(r.err().unwrap(), EvoError::UnknownContext);
    assert_eq!(seed, 1);
}

#[test]
fn sample_is_deterministic_under_a_seed() {
    let mut sys = mk_store();
    let vals = strs(&["chat", "general"]);
    for _ in 0..5 {
        sys.learn(&vals, &vec![300_000, 700_000], 1_000_000).unwrap();
    }
    let mut seed_a: u64 = 12345;
    let mut seed_b: u64 = 12345;
    let pa = sys.sample(&vals, 500_000, &mut seed_a).unwrap();
    let pb = sys.sample(&vals, 500_000, &mut seed_b).unwrap();
    assert_eq!(pa, pb);
    assert_eq!(seed_a, seed_b);
    assert_ne!(seed_a, 12345);
}

#[test]
fn scenario_fifty_consistent_trials() {
    let mut sys = mk_store();
    let vals = strs(&["chat", "general"]);
    for _ in 0..50 {
        sys.learn(&vals, &vec![500_000, 500_000], 1_000_000).unwrap();
    }
    let mut seed: u64 = 42;
    let p = sys.sample(&vals, 0, &mut seed).unwrap();
    assert_eq!(p.len(), 2);
    for x in &p {
        let diff = if *x > 500_000 { x - 500_000 } else { 500_000 - x };
        assert!(diff <= 50_000, "sampled {} too far from 500000", x);
    }
    let st = sys.get_stats(&vals).unwrap();
    assert!(st.has_data(10));
    let other = sys.get_stats(&strs(&["code", "finance"])).unwrap();
    assert!(!other.has_data(1));
    assert!(other.has_data(0));
}

#[test]
fn full_exploration_ignores_the_learned_mean() {
    let mut low = mk_store();
    let mut high = mk_store();
    let vals = strs(&["chat", "general"]);
    for _ in 0..10 {
        low.learn(&vals, &vec![10_000, 10_000], 1_000_000).unwrap();
        high.learn(&vals, &vec![990_000, 990_000], 1_000_000).unwrap();
    }
    let mut seed_a: u64 = 99;
    let mut seed_b: u64 = 99;
    let pa = low.sample(&vals, 1_000_000, &mut seed_a).unwrap();
    let pb = high.sample(&vals, 1_000_000, &mut seed_b).unwrap();
    assert_eq!(pa, pb);
    assert_eq!(seed_a, seed_b);
}

#[test]
fn full_exploration_spreads_its_draws() {
    let mut sys = mk_store();
    let vals = strs(&["chat", "general"]);
    for _ in 0..10 {
        sys.learn(&vals, &vec![500_000, 500_000], 1_000_000).unwrap();
    }
    let mut seed: u64 = 7;
    let mut lo: u64 = u64::MAX;
    let mut hi: u64 = 0;
    for _ in 0..10 {
        let p = sys.sample(&vals, 1_000_000, &mut seed).unwrap();
        for x in &p {
            assert!(*x <= 1_000_000);
            lo = lo.min(*x);
            hi = hi.max(*x);
        }
    }
    assert!(hi - lo > 1_000, "exploration draws too narrow: {}..{}", lo, hi);
}

#[test]
fn cached_keys_address_the_same_record() {
    let mut sys = mk_store();
    let vals = strs(&["chat", "general"]);
    let key = sys.build_key(&vals).unwrap();
    sys.learn_key(&key, &vec![600_000, 600_000], 1_000_000).unwrap();
    let st = sys.get_stats(&vals).unwrap();
    assert_eq!(st.total_observations, 1);
    let mut seed: u64 = 3;
    let by_key = sys.sample_key(&key, 0, &mut seed).unwrap();
    assert_eq!(by_key, vec![600_000, 600_000]);
}

#[test]
fn arbitrary_keys_bypass_validation() {
    let mut sys = mk_store();
    let key = String::from("anything at all, even spaces\nand newlines");
    sys.learn_key(&key, &vec![100_000, 200_000], 1_000_000).unwrap();
    let st = sys.get_stats_key(&key);
    assert_eq!(st.total_observations, 1);
    assert_eq!(sys.context_count(), 1);
}

#[test]
fn fresh_seed_drives_sampling() {
    let mut sys = mk_store();
    let vals = strs(&["chat", "general"]);
    sys.learn(&vals, &vec![500_000, 500_000], 1_000_000).unwrap();
    let mut seed: u64 = evocore::trusted::fresh_seed();
    let p = sys.sample(&vals, 250_000, &mut seed).unwrap();
    assert_eq!(p.len(), 2);
}

#[test]
fn isqrt_exact_values() {
    assert_eq!(evocore::stats::isqrt(0), 0);
    assert_eq!(evocore::stats::isqrt(1), 1);
    assert_eq!(evocore::stats::isqrt(15), 3);
    assert_eq!(evocore::stats::isqrt(16), 4);
    assert_eq!(evocore::stats::isqrt(1_000_000_000_000_000_000), 1_000_000_000);
    assert_eq!(evocore::stats::isqrt(u64::MAX), 4_294_967_295);
}
