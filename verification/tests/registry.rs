use metric_videos::metrics::{RegistryError, SiteMetrics, Watcher};
use metric_videos::updater::reap;

fn ip(s: &str) -> String {
    String::from(s)
}

#[test]
fn new_registry_is_empty() {
    let m = SiteMetrics::new(3);
    assert_eq!(m.videos.len(), 3);
    for slot in &m.videos {
        assert!(slot.watchers.is_empty());
    }
}

#[test]
fn last_report_wins() {
    let mut m = SiteMetrics::new(1);
    assert!(m.report_at(ip("10.0.0.5"), 0, 10, 100).is_ok());
    assert!(m.report_at(ip("10.0.0.5"), 0, 55, 101).is_ok());
    assert!(m.report_at(ip("10.0.0.5"), 0, 42, 102).is_ok());
    assert_eq!(m.videos[0].watchers.len(), 1);
    let (key, w) = &m.videos[0].watchers[0];
    assert_eq!(key, "10.0.0.5");
    assert_eq!(*w, Watcher { percent: 42, when: 102 });
}

#[test]
fn report_keeps_other_watchers() {
    let mut m = SiteMetrics::new(2);
    assert!(m.report_at(ip("10.0.0.1"), 0, 10, 100).is_ok());
    assert!(m.report_at(ip("10.0.0.2"), 0, 20, 101).is_ok());
    assert!(m.report_at(ip("10.0.0.9"), 1, 30, 102).is_ok());
    assert!(m.report_at(ip("10.0.0.1"), 0, 11, 103).is_ok());
    assert_eq!(m.videos[0].watchers.len(), 2);
    assert_eq!(m.videos[1].watchers.len(), 1);
    assert_eq!(m.videos[0].watchers[0], (ip("10.0.0.1"), Watcher { percent: 11, when: 103 }));
    assert_eq!(m.videos[0].watchers[1], (ip("10.0.0.2"), Watcher { percent: 20, when: 101 }));
}

#[test]
fn invalid_slot_rejected() {
    let mut m = SiteMetrics::new(3);
    for percent in [0u8, 1, 42, 255] {
        let r = m.report_at(ip("10.0.0.5"), 5, percent, 100);
        assert_eq!(r, Err(RegistryError::InvalidSlot));
    }
    let snap = m.snapshot();
    assert_eq!(snap.videos.len(), 3);
    for slot in &snap.videos {
        assert!(slot.watchers.is_empty());
    }
}

#[test]
fn snapshot_reflects_single_report() {
    let mut m = SiteMetrics::new(3);
    assert!(m.report_at(ip("10.0.0.5"), 1, 42, 1000).is_ok());
    let snap = m.snapshot();
    assert_eq!(snap.videos.len(), 3);
    assert!(snap.videos[0].watchers.is_empty());
    assert!(snap.videos[2].watchers.is_empty());
    assert_eq!(snap.videos[1].watchers.len(), 1);
    assert_eq!(snap.videos[1].watchers[0], (ip("10.0.0.5"), Watcher { percent: 42, when: 1000 }));
}

#[test]
fn prune_removes_exactly_stale() {
    let mut m = SiteMetrics::new(1);
    assert!(m.report_at(ip("10.0.0.1"), 0, 1, 4).is_ok());
    assert!(m.report_at(ip("10.0.0.2"), 0, 2, 5).is_ok());
    assert!(m.report_at(ip("10.0.0.3"), 0, 3, 6).is_ok());
    assert!(m.report_at(ip("10.0.0.4"), 0, 4, 10).is_ok());
    // ages at now = 10: 6, 5, 4, 0; only the first exceeds the threshold
    m.prune_stale(10, 5);
    assert_eq!(m.videos[0].watchers.len(), 3);
    assert_eq!(m.videos[0].watchers[0], (ip("10.0.0.2"), Watcher { percent: 2, when: 5 }));
    assert_eq!(m.videos[0].watchers[1], (ip("10.0.0.3"), Watcher { percent: 3, when: 6 }));
    assert_eq!(m.videos[0].watchers[2], (ip("10.0.0.4"), Watcher { percent: 4, when: 10 }));
}

#[test]
fn prune_boundary() {
    let mut m = SiteMetrics::new(1);
    assert!(m.report_at(ip("10.0.0.5"), 0, 7, 0).is_ok());
    m.prune_stale(4, 5);
    assert_eq!(m.videos[0].watchers.len(), 1);
    m.prune_stale(5, 5);
    assert_eq!(m.videos[0].watchers.len(), 1);
    m.prune_stale(6, 5);
    assert!(m.videos[0].watchers.is_empty());
}

#[test]
fn prune_twice_is_noop() {
    let mut m = SiteMetrics::new(2);
    assert!(m.report_at(ip("10.0.0.1"), 0, 1, 0).is_ok());
    assert!(m.report_at(ip("10.0.0.2"), 0, 2, 8).is_ok());
    assert!(m.report_at(ip("10.0.0.3"), 1, 3, 9).is_ok());
    m.prune_stale(10, 5);
    let first = m.snapshot();
    m.prune_stale(10, 5);
    let second = m.snapshot();
    assert_eq!(first.videos.len(), second.videos.len());
    for (a, b) in first.videos.iter().zip(second.videos.iter()) {
        assert_eq!(a.watchers, b.watchers);
    }
}

#[test]
fn refreshed_record_survives_prune() {
    let mut m = SiteMetrics::new(1);
    assert!(m.report_at(ip("10.0.0.5"), 0, 10, 0).is_ok());
    assert!(m.report_at(ip("10.0.0.5"), 0, 20, 9).is_ok());
    m.prune_stale(10, 5);
    assert_eq!(m.videos[0].watchers.len(), 1);
    assert_eq!(m.videos[0].watchers[0], (ip("10.0.0.5"), Watcher { percent: 20, when: 9 }));
}

#[test]
fn report_uses_wall_clock() {
    let mut m = SiteMetrics::new(1);
    assert!(m.report(ip("10.0.0.5"), 0, 33).is_ok());
    assert_eq!(m.videos[0].watchers.len(), 1);
    let (key, w) = &m.videos[0].watchers[0];
    assert_eq!(key, "10.0.0.5");
    assert_eq!(w.percent, 33);
    // a sane wall clock lies well past 2020 and before the distant future
    assert!(w.when > 1_577_836_800);
    assert!(w.when < 32_503_680_000);
}

#[test]
fn reap_keeps_just_reported_watchers() {
    let mut m = SiteMetrics::new(1);
    assert!(m.report(ip("10.0.0.5"), 0, 50).is_ok());
    reap(&mut m);
    assert_eq!(m.videos[0].watchers.len(), 1);
}

#[test]
fn reap_removes_ancient_watchers() {
    let mut m = SiteMetrics::new(1);
    assert!(m.report_at(ip("10.0.0.5"), 0, 50, 0).is_ok());
    reap(&mut m);
    assert!(m.videos[0].watchers.is_empty());
}
