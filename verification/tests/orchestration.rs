use orchestration::discovery::find_identification_modules;
use orchestration::discovery::ExternalIdentificationModule;
use orchestration::discovery::ModuleDirEntry;
use orchestration::dominance::compute_dominant_decision_models;
use orchestration::engine::identification_procedure;
use orchestration::engine::IdentificationFixpoint;
use orchestration::header::DecisionModelHeader;
use orchestration::header::HeaderOrdering;
use orchestration::store::load_decision_model_headers_from_binary;
use orchestration::store::matches_header_record_name;
use orchestration::store::HeaderSet;

fn header(category: u64, covered: &[u64]) -> DecisionModelHeader {
    DecisionModelHeader { category, covered_elements: covered.to_vec() }
}

fn set_of(headers: Vec<DecisionModelHeader>) -> HeaderSet {
    load_decision_model_headers_from_binary(&headers)
}

fn contains_identity(s: &HeaderSet, h: &DecisionModelHeader) -> bool {
    s.contains(h)
}

#[test]
fn insert_is_idempotent() {
    let mut s = HeaderSet::new();
    assert!(s.insert(header(1, &[10, 20])));
    assert_eq!(s.len(), 1);
    assert!(!s.insert(header(1, &[10, 20])));
    assert_eq!(s.len(), 1);
    assert!(s.insert(header(1, &[10])));
    assert_eq!(s.len(), 2);
    assert!(!s.insert(header(1, &[10])));
    assert_eq!(s.len(), 2);
}

#[test]
fn identity_is_content_based() {
    let a = header(3, &[1, 2]);
    let b = header(3, &[1, 2]);
    let c = header(3, &[2, 1]);
    let d = header(4, &[1, 2]);
    assert!(a.same_identity(&b));
    assert!(!a.same_identity(&c));
    assert!(!a.same_identity(&d));
    assert!(a.same_identity(&a.duplicate()));
    assert!(a == b);
    assert!(a != c);
    assert!(a != d);
}

#[test]
fn partial_compare_follows_inclusion() {
    let small = header(1, &[10]);
    let big = header(1, &[10, 20]);
    let other_category = header(2, &[10]);
    let reordered = header(1, &[20, 10]);
    assert!(matches!(small.partial_compare(&big), HeaderOrdering::Less));
    assert!(matches!(big.partial_compare(&small), HeaderOrdering::Greater));
    assert!(matches!(small.partial_compare(&small), HeaderOrdering::Equal));
    assert!(matches!(big.partial_compare(&reordered), HeaderOrdering::Equal));
    assert!(matches!(
        small.partial_compare(&other_category),
        HeaderOrdering::Incomparable
    ));
    let left = header(1, &[10, 30]);
    let right = header(1, &[10, 20]);
    assert!(matches!(left.partial_compare(&right), HeaderOrdering::Incomparable));
}

#[test]
fn recovery_seeds_step_with_record_count() {
    let records = vec![header(1, &[1]), header(1, &[2]), header(1, &[3])];
    let seed = load_decision_model_headers_from_binary(&records);
    assert_eq!(seed.len(), 3);
    let engine = IdentificationFixpoint::new(seed);
    assert_eq!(engine.current_step(), 3);
    assert!(!engine.has_converged());
}

#[test]
fn recovery_deduplicates_records() {
    let records = vec![header(1, &[1]), header(1, &[1]), header(1, &[2])];
    let seed = load_decision_model_headers_from_binary(&records);
    assert_eq!(seed.len(), 2);
    let engine = IdentificationFixpoint::new(seed);
    assert_eq!(engine.current_step(), 2);
}

#[test]
fn engine_converges_on_stale_round() {
    let seed = set_of(vec![header(1, &[1])]);
    let mut engine = IdentificationFixpoint::new(seed);
    // One module repeats a known fact, the other stays silent.
    engine.round(&vec![vec![header(1, &[1])], vec![]]);
    assert!(engine.has_converged());
    assert_eq!(engine.known_count(), 1);
    assert_eq!(engine.current_step(), 2);
}

#[test]
fn engine_converges_immediately_without_modules() {
    let mut engine = IdentificationFixpoint::new(HeaderSet::new());
    engine.round(&vec![]);
    assert!(engine.has_converged());
    assert_eq!(engine.known_count(), 0);
}

#[test]
fn two_module_scenario_converges_to_union_and_dominant() {
    // Two modules A and B, empty initial store.
    // Step 0: A -> {h1}, B -> {}. Step 1: A -> {}, B -> {h2}.
    // Step 2: both -> {}. Converged; the set is {h1, h2}; with h1 < h2 the
    // dominance filter keeps exactly h2.
    let h1 = header(7, &[1]);
    let h2 = header(7, &[1, 2]);
    let rounds = vec![
        vec![vec![h1.duplicate()], vec![]],
        vec![vec![], vec![h2.duplicate()]],
        vec![vec![], vec![]],
    ];
    let (set, step) = identification_procedure(HeaderSet::new(), &rounds);
    assert_eq!(set.len(), 2);
    assert!(contains_identity(&set, &h1));
    assert!(contains_identity(&set, &h2));
    assert_eq!(step, 3);
    let dominant = compute_dominant_decision_models(&set);
    assert_eq!(dominant.len(), 1);
    assert!(dominant.contains(&h2));
    assert!(!dominant.contains(&h1));
}

#[test]
fn procedure_exhausted_script_converges() {
    let rounds = vec![vec![vec![header(1, &[1])]]];
    let (set, step) = identification_procedure(HeaderSet::new(), &rounds);
    assert_eq!(set.len(), 1);
    // One scripted round plus the empty round that shows convergence.
    assert_eq!(step, 2);
}

#[test]
fn dominance_total_order_keeps_maximum() {
    let set = set_of(vec![
        header(1, &[1]),
        header(1, &[1, 2]),
        header(1, &[1, 2, 3]),
    ]);
    let dominant = compute_dominant_decision_models(&set);
    assert_eq!(dominant.len(), 1);
    assert!(dominant.contains(&header(1, &[1, 2, 3])));
}

#[test]
fn dominance_keeps_order_equal_ties() {
    // Two distinct identities that compare equal both survive.
    let set = set_of(vec![header(1, &[1, 2]), header(1, &[2, 1]), header(1, &[1])]);
    let dominant = compute_dominant_decision_models(&set);
    assert_eq!(dominant.len(), 2);
    assert!(dominant.contains(&header(1, &[1, 2])));
    assert!(dominant.contains(&header(1, &[2, 1])));
    assert!(!dominant.contains(&header(1, &[1])));
}

#[test]
fn dominance_all_incomparable_keeps_everything() {
    let set = set_of(vec![header(1, &[1]), header(1, &[2]), header(2, &[1])]);
    let dominant = compute_dominant_decision_models(&set);
    assert_eq!(dominant.len(), 3);
    assert!(dominant.contains(&header(1, &[1])));
    assert!(dominant.contains(&header(1, &[2])));
    assert!(dominant.contains(&header(2, &[1])));
}

#[test]
fn dominance_single_dominator_is_singleton() {
    let set = set_of(vec![
        header(1, &[1, 2, 3]),
        header(1, &[1]),
        header(1, &[2]),
        header(1, &[3]),
    ]);
    let dominant = compute_dominant_decision_models(&set);
    assert_eq!(dominant.len(), 1);
    assert!(dominant.contains(&header(1, &[1, 2, 3])));
}

#[test]
fn dominance_of_empty_set_is_empty() {
    let dominant = compute_dominant_decision_models(&HeaderSet::new());
    assert_eq!(dominant.len(), 0);
}

fn entry(path: &str, is_regular_file: bool) -> ModuleDirEntry {
    ModuleDirEntry { path: path.to_string(), is_regular_file }
}

fn handles_contain(handles: &[ExternalIdentificationModule], m: &ExternalIdentificationModule) -> bool {
    handles.iter().any(|h| h.same_identity(m))
}

#[test]
fn discovery_keeps_regular_files_only() {
    let entries = vec![
        entry("/mods/a", true),
        entry("/mods/subdir", false),
        entry("/mods/a", true),
        entry("/mods/b.jar", true),
    ];
    let handles = find_identification_modules(&entries, "/run");
    assert_eq!(handles.len(), 2);
    let a = ExternalIdentificationModule {
        run_path_: "/run".to_string(),
        command_path_: "/mods/a".to_string(),
    };
    let b = ExternalIdentificationModule {
        run_path_: "/run".to_string(),
        command_path_: "/mods/b.jar".to_string(),
    };
    assert!(handles_contain(&handles, &a));
    assert!(handles_contain(&handles, &b));
    assert_eq!(handles[0].run_path(), "/run");
    assert_eq!(a.unique_identifier(), "/mods/a");
    assert_eq!(a.command_path(), "/mods/a");
}

#[test]
fn discovery_is_deterministic_across_orders() {
    let forward = vec![
        entry("/mods/a", true),
        entry("/mods/b", true),
        entry("/mods/c", false),
    ];
    let backward = vec![
        entry("/mods/c", false),
        entry("/mods/b", true),
        entry("/mods/a", true),
    ];
    let first = find_identification_modules(&forward, "/run");
    let second = find_identification_modules(&backward, "/run");
    assert_eq!(first.len(), second.len());
    for h in &first {
        assert!(handles_contain(&second, h));
    }
    for h in &second {
        assert!(handles_contain(&first, h));
    }
}

#[test]
fn record_name_filter_matches_prefix_and_extension() {
    assert!(matches_header_record_name("header_0.msgpack"));
    assert!(matches_header_record_name("header.msgpack"));
    assert!(matches_header_record_name("header_12.MsgPack"));
    assert!(matches_header_record_name("header_12.MSGPACK"));
    assert!(!matches_header_record_name("record_0.msgpack"));
    assert!(!matches_header_record_name("header_0.json"));
    assert!(!matches_header_record_name("header_msgpack"));
    assert!(!matches_header_record_name("headermsgpack"));
    assert!(!matches_header_record_name("header_0.msgpack.bak"));
}
