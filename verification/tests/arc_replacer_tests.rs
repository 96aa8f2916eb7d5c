use dockbase::arc_replacer::ArcReplacer;

#[test]
fn test_arc_new_pages_start_pinned() {
    let mut arc = ArcReplacer::new(4);
    arc.record_access(1, 10);
    arc.record_access(2, 20);
    assert_eq!(arc.size(), 0);
    assert_eq!(arc.evict(), None);
}

#[test]
fn test_arc_evict_prefers_lru_of_mru() {
    let mut arc = ArcReplacer::new(2);
    arc.record_access(1, 10);
    arc.record_access(2, 20);
    arc.set_evictable(1, true);
    arc.set_evictable(2, true);
    assert_eq!(arc.size(), 2);

    // both pages sit on the recency list; page 1 is least recently used
    assert_eq!(arc.evict(), Some(10));
    assert_eq!(arc.size(), 1);
    assert_eq!(arc.evict(), Some(20));
    assert_eq!(arc.size(), 0);
    assert_eq!(arc.evict(), None);
}

#[test]
fn test_arc_ghost_hit_returns_to_frequency_list() {
    let mut arc = ArcReplacer::new(2);
    arc.record_access(1, 10);
    arc.set_evictable(1, true);
    assert_eq!(arc.evict(), Some(10));

    // page 1 is remembered on the recency ghost list; touching it again
    // brings it back as a frequent page, still pinned
    arc.record_access(1, 30);
    assert_eq!(arc.size(), 0);
    arc.set_evictable(1, true);
    assert_eq!(arc.size(), 1);
    assert_eq!(arc.evict(), Some(30));
}

#[test]
fn test_arc_capacity_respected_on_overflow() {
    let mut arc = ArcReplacer::new(2);
    arc.record_access(1, 10);
    arc.record_access(2, 20);
    arc.record_access(3, 30);

    // at most two pages stay resident; page 1 was silently evicted
    arc.set_evictable(2, true);
    arc.set_evictable(3, true);
    assert_eq!(arc.size(), 2);
    arc.set_evictable(1, true);
    assert_eq!(arc.size(), 2);
}

#[test]
fn test_arc_pinned_frames_are_skipped() {
    let mut arc = ArcReplacer::new(3);
    arc.record_access(1, 10);
    arc.record_access(2, 20);
    arc.set_evictable(2, true);

    // page 1 stays pinned, so page 2 is the only candidate
    assert_eq!(arc.evict(), Some(20));
    assert_eq!(arc.evict(), None);
}

#[test]
fn test_arc_remove_drops_without_ghost() {
    let mut arc = ArcReplacer::new(2);
    arc.record_access(1, 10);
    arc.set_evictable(1, true);
    arc.remove(1);
    assert_eq!(arc.size(), 0);
    assert_eq!(arc.evict(), None);

    // no ghost entry remains, so the page re-enters as unknown, pinned
    arc.record_access(1, 40);
    assert_eq!(arc.size(), 0);
}

#[test]
fn test_arc_remove_absent_is_silent() {
    let mut arc = ArcReplacer::new(2);
    arc.remove(9);
    assert_eq!(arc.size(), 0);
}

#[test]
fn test_arc_promotion_keeps_evictable_flag() {
    let mut arc = ArcReplacer::new(4);
    arc.record_access(1, 10);
    arc.set_evictable(1, true);

    // a repeated access promotes the page to the frequency list and
    // rebinds its frame, keeping the evictable flag
    arc.record_access(1, 11);
    assert_eq!(arc.size(), 1);
    assert_eq!(arc.evict(), Some(11));
}
