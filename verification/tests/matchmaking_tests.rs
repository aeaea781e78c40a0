use vrserver::matchmaking::MatchmakingService;

#[test]
fn cohorts_come_out_in_queue_order() {
    let mut mm = MatchmakingService::new();
    mm.join_queue("g", "p1");
    mm.join_queue("g", "p2");
    mm.join_queue("g", "p3");
    mm.join_queue("g", "p4");

    assert_eq!(
        mm.find_match("g", 3),
        Some(vec!["p1".to_string(), "p2".to_string(), "p3".to_string()])
    );
    assert_eq!(mm.find_match("g", 3), None);
    assert_eq!(mm.find_match("g", 1), Some(vec!["p4".to_string()]));
}

#[test]
fn find_match_needs_an_existing_queue() {
    let mut mm = MatchmakingService::new();
    assert_eq!(mm.find_match("g", 1), None);
    mm.join_queue("g", "p1");
    assert_eq!(mm.find_match("h", 1), None);
    assert_eq!(mm.find_match("g", 2), None);
    assert_eq!(mm.find_match("g", 1), Some(vec!["p1".to_string()]));
}

#[test]
fn leave_queue_removes_every_occurrence() {
    let mut mm = MatchmakingService::new();
    mm.join_queue("g", "p1");
    mm.join_queue("g", "p2");
    mm.join_queue("g", "p1");
    mm.join_queue("g", "p3");

    mm.leave_queue("g", "p1");
    assert_eq!(
        mm.find_match("g", 2),
        Some(vec!["p2".to_string(), "p3".to_string()])
    );

    mm.leave_queue("unknown_game", "p1");
}

#[test]
fn repeated_matches_drain_disjoint_cohorts() {
    let mut mm = MatchmakingService::new();
    let names = ["a", "b", "c", "d", "e", "f", "g7"];
    for name in names {
        mm.join_queue("g", name);
    }

    let mut seen: Vec<String> = Vec::new();
    let mut cohort_count = 0;
    while let Some(cohort) = mm.find_match("g", 2) {
        assert_eq!(cohort.len(), 2);
        for p in &cohort {
            assert!(!seen.contains(p));
            seen.push(p.clone());
        }
        cohort_count += 1;
    }
    assert_eq!(cohort_count, names.len() / 2);
    assert_eq!(seen.len(), 6);
}
