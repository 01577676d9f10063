use evocore::EvoError;
use evocore::store::EvoCoreContextSystem;

fn strs(v: &[&str]) -> Vec<String> {
    v.iter().map(|s| s.to_string()).collect()
}

fn learned_store() -> EvoCoreContextSystem {
    let mut sys = EvoCoreContextSystem::new(
        strs(&["type", "domain"]),
        vec![strs(&["chat", "code"]), strs(&["general", "finance"])],
        2,
    )
    .unwrap();
    for _ in 0..7 {
        sys.learn(&strs(&["chat", "general"]), &vec![500_000, 250_000], 1_000_000)
            .unwrap();
    }
    sys.learn(&strs(&["code", "general"]), &vec![900_000, 100_000], 2_000_000)
        .unwrap();
    sys.learn_key(&String::from("exotic key \u{1F600}\nline"), &vec![1, 2], 0)
        .unwrap();
    sys
}

fn same_observable(a: &EvoCoreContextSystem, b: &EvoCoreContextSystem) {
    assert_eq!(a.context_count(), b.context_count());
    let vals = strs(&["chat", "general"]);
    let sa = a.get_stats(&vals).unwrap();
    let sb = b.get_stats(&vals).unwrap();
    assert_eq!(sa.total_observations, sb.total_observations);
    assert_eq!(sa.observation_counts, sb.observation_counts);
    let mut seed_a: u64 = 4242;
    let mut seed_b: u64 = 4242;
    let pa = a.sample(&vals, 300_000, &mut seed_a).unwrap();
    let pb = b.sample(&vals, 300_000, &mut seed_b).unwrap();
    assert_eq!(pa, pb);
}

#[test]
fn binary_round_trip_preserves_everything() {
    let sys = learned_store();
    let bytes = sys.save_binary();
    let back = EvoCoreContextSystem::load_binary(&bytes).unwrap();
    same_observable(&sys, &back);
    // byte-for-byte identical re-encoding is the strongest observable check
    assert_eq!(back.save_binary(), bytes);
}

#[test]
fn text_round_trip_preserves_everything() {
    let sys = learned_store();
    let text = sys.save();
    let back = EvoCoreContextSystem::load(&text).unwrap();
    same_observable(&sys, &back);
    assert_eq!(back.save(), text);
}

#[test]
fn text_form_is_inspectable() {
    let sys = learned_store();
    let text = sys.save();
    assert!(text.contains("chat"));
    assert!(text.contains("general"));
    assert!(text.contains('\n'));
}

#[test]
fn empty_store_round_trips() {
    let sys = EvoCoreContextSystem::new(strs(&["k"]), vec![strs(&["a"])], 1).unwrap();
    let back = EvoCoreContextSystem::load_binary(&sys.save_binary()).unwrap();
    assert_eq!(back.context_count(), 0);
    let back2 = EvoCoreContextSystem::load(&sys.save()).unwrap();
    assert_eq!(back2.context_count(), 0);
}

#[test]
fn load_reconstructs_schema_from_data_alone() {
    let sys = learned_store();
    let back = EvoCoreContextSystem::load_binary(&sys.save_binary()).unwrap();
    // dimension validation still works after a reload with no outside schema
    assert_eq!(
        back.build_key(&strs(&["chat", "sports"])).err().unwrap(),
        EvoError::InvalidValue
    );
    assert!(back.build_key(&strs(&["code", "finance"])).is_ok());
}

#[test]
fn corrupt_binary_is_rejected() {
    let r = EvoCoreContextSystem::load_binary(&vec![1, 2, 3]);
    assert_eq!(r.err().unwrap(), EvoError::CorruptData);
    let r2 = EvoCoreContextSystem::load_binary(&Vec::new());
    assert_eq!(r2.err().unwrap(), EvoError::CorruptData);
}

#[test]
fn truncated_binary_is_rejected() {
    let sys = learned_store();
    let mut bytes = sys.save_binary();
    bytes.truncate(bytes.len() - 1);
    let r = EvoCoreContextSystem::load_binary(&bytes);
    assert_eq!(r.err().unwrap(), EvoError::CorruptData);
}

#[test]
fn unknown_binary_version_is_rejected() {
    let sys = learned_store();
    let mut bytes = sys.save_binary();
    // the first item is the version tag: 8 count bytes, a tag byte, then
    // its little-endian value
    assert_eq!(bytes[8], 0);
    assert_eq!(bytes[9], 1);
    bytes[9] = 9;
    let r = EvoCoreContextSystem::load_binary(&bytes);
    assert_eq!(r.err().unwrap(), EvoError::CorruptData);
}

#[test]
fn malformed_text_is_rejected() {
    for bad in ["", "garbage", "3\n", "1\nn x\n", "1\nn 1\nextra"] {
        let r = EvoCoreContextSystem::load(bad);
        assert_eq!(r.err().unwrap(), EvoError::SchemaError, "accepted {:?}", bad);
    }
}

#[test]
fn unknown_text_version_is_rejected() {
    let sys = learned_store();
    let text = sys.save().replace("n 1\n", "n 9\n");
    let r = EvoCoreContextSystem::load(&text);
    assert_eq!(r.err().unwrap(), EvoError::SchemaError);
}

#[test]
fn text_with_inconsistent_stats_length_is_rejected() {
    // a structurally valid store whose record carries too few statistics
    let sys = EvoCoreContextSystem::new(strs(&["k"]), vec![strs(&["a"])], 2).unwrap();
    let text = sys.save();
    // claim one record but provide none
    let broken = text.replacen("n 0\n", "n 1\n", 2);
    let r = EvoCoreContextSystem::load(&broken);
    assert!(r.is_err());
}
