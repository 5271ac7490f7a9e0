use odds_ingestion::freshness::EventFreshness;

#[test]
fn unseen_ids_are_new_and_get_stamped() {
    let mut f = EventFreshness::new(300);
    let ids = vec!["e1".to_string(), "e2".to_string()];
    let fresh = f.filter_new(&ids, 1000);
    assert_eq!(fresh, vec!["e1".to_string(), "e2".to_string()]);
}

#[test]
fn recently_seen_ids_are_not_new_within_the_window() {
    let mut f = EventFreshness::new(300);
    let ids = vec!["e1".to_string()];
    assert_eq!(f.filter_new(&ids, 1000).len(), 1);
    // Seen 10 seconds ago: not new.
    assert_eq!(f.filter_new(&ids, 1010).len(), 0);
    // Exactly at the window edge: still not new ("more than" the window).
    assert_eq!(f.filter_new(&ids, 1310).len(), 0);
    // Past the window: new again. The stamp above moved to 1310.
    assert_eq!(f.filter_new(&ids, 1611), vec!["e1".to_string()]);
}

#[test]
fn every_id_is_stamped_whether_new_or_not() {
    let mut f = EventFreshness::new(300);
    let ids = vec!["e1".to_string()];
    f.filter_new(&ids, 1000);
    f.filter_new(&ids, 1200);
    // Had the second pass not restamped, 1450 would lie past 1000+300.
    assert_eq!(f.filter_new(&ids, 1450).len(), 0);
}

#[test]
fn duplicates_within_one_batch_are_new_at_most_once() {
    let mut f = EventFreshness::new(300);
    let ids = vec!["e1".to_string(), "e1".to_string()];
    assert_eq!(f.filter_new(&ids, 1000), vec!["e1".to_string()]);
}

#[test]
fn prune_drops_entries_older_than_a_day() {
    let mut f = EventFreshness::new(300);
    f.filter_new(&vec!["old".to_string()], 1000);
    f.filter_new(&vec!["recent".to_string()], 90000);
    f.prune(90100);
    assert_eq!(f.entries.len(), 1);
    assert_eq!(f.entries[0].external_id, "recent");
}
