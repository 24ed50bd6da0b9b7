use neuroevo::checkpoint::{ai_naming, extract_seq, recent_records, record_file_name, ListableAI, MAX_RECENT};
use neuroevo::genome::Genome;

#[test]
fn test_extract_seq() {
    assert_eq!(extract_seq("best_te st_1234.mpk", "te st"), Some(1234));
}

#[test]
fn naming_round_trip_gives_back_the_sequence_number() {
    let name = record_file_name("Net", 7);
    assert_eq!(name, "best_Net_7.mpk");
    assert_eq!(extract_seq(&name, "Net"), Some(7));
}

#[test]
fn ai_naming_spells_prefix_topology_and_number() {
    assert_eq!(ai_naming("SmallAI", 0), "best_SmallAI_0");
    assert_eq!(ai_naming("BigAI", 1207), "best_BigAI_1207");
}

#[test]
fn extract_seq_skips_other_topologies() {
    assert_eq!(extract_seq("best_BigAI_3.mpk", "SmallAI"), None);
}

#[test]
fn extract_seq_skips_malformed_names() {
    assert_eq!(extract_seq("best_Net_.mpk", "Net"), None);
    assert_eq!(extract_seq("best_Net_12.bin", "Net"), None);
    assert_eq!(extract_seq("_Net_12.mpk", "Net"), None);
    assert_eq!(extract_seq("best_Net_1x2.mpk", "Net"), None);
    assert_eq!(extract_seq("best_Net12.mpk", "Net"), None);
    assert_eq!(extract_seq("be5t_Net_12.mpk", "Net"), None);
    assert_eq!(extract_seq("best_Net_12.mpk", ""), None);
    assert_eq!(extract_seq("best_N_t_12.mpk", "N_t"), None);
}

#[test]
fn extract_seq_rejects_numbers_beyond_usize() {
    assert_eq!(extract_seq("best_Net_99999999999999999999999.mpk", "Net"), None);
    let max = format!("best_Net_{}.mpk", usize::MAX);
    assert_eq!(extract_seq(&max, "Net"), Some(usize::MAX));
}

#[test]
fn recent_records_lists_most_recent_first_and_skips_others() {
    let names: Vec<String> = vec![
        "best_Net_3.mpk".to_string(),
        "notes.txt".to_string(),
        "best_Net_10.mpk".to_string(),
        "best_Other_99.mpk".to_string(),
        "best_Net_7.mpk".to_string(),
    ];
    let r = recent_records(&names, "Net", 30);
    assert_eq!(r, vec!["best_Net_10.mpk", "best_Net_7.mpk", "best_Net_3.mpk"]);
}

#[test]
fn recent_records_keeps_at_most_the_bound() {
    let names: Vec<String> = (0..40).map(|i| format!("best_Net_{i}.mpk")).collect();
    let r = recent_records(&names, "Net", MAX_RECENT);
    assert_eq!(r.len(), 30);
    assert_eq!(r[0], "best_Net_39.mpk");
    assert_eq!(r[29], "best_Net_10.mpk");
    let two = recent_records(&names, "Net", 2);
    assert_eq!(two, vec!["best_Net_39.mpk", "best_Net_38.mpk"]);
}

#[test]
fn recent_records_of_nothing_is_empty() {
    let names: Vec<String> = Vec::new();
    assert!(recent_records(&names, "Net", 30).is_empty());
}

#[test]
fn genome_lists_its_own_records() {
    let g: Genome<f32> = Genome { network: "SmallAI".to_string(), layers: Vec::new() };
    let names: Vec<String> = vec![
        "best_SmallAI_1.mpk".to_string(),
        "best_BigAI_5.mpk".to_string(),
        "best_SmallAI_2.mpk".to_string(),
    ];
    assert_eq!(g.list(&names), vec!["best_SmallAI_2.mpk", "best_SmallAI_1.mpk"]);
}
