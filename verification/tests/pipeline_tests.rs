use npe2_census::classify::{Classifier, ProbeResult};
use npe2_census::entry::{filter_entry, EntryMeta};
use npe2_census::sched::Scheduler;
use npe2_census::stats::{summarize, Verdict};

fn cutoff_millis() -> i64 {
    chrono::DateTime::parse_from_rfc3339("2022-02-01T00:00:00-08:00")
        .unwrap()
        .timestamp_millis()
}

/// Classify one candidate against a canned grid of probe outcomes, issuing
/// only as many probes as the search needs.
fn classify_canned(grid: &[ProbeResult]) -> (npe2_census::classify::Classification, usize) {
    let mut c = Classifier::new();
    let mut issued = 0usize;
    loop {
        let _target = c.next_target();
        let outcome = grid[issued];
        issued += 1;
        if let Some(verdict) = c.feed(outcome) {
            return (verdict, issued);
        }
    }
}

#[test]
fn three_entries_end_to_end() {
    // Three registry entries; one is released before the cutoff. Of the two
    // candidates, one carries the manifest marker on its first probe and the
    // other is unreachable everywhere.
    let entries = vec![
        EntryMeta {
            code_repository: Some(b"https://github.com/alice/with-manifest".to_vec()),
            first_released: Some(b"2022-07-04T00:00:00+00:00".to_vec()),
        },
        EntryMeta {
            code_repository: Some(b"https://github.com/bob/vanished".to_vec()),
            first_released: Some(b"2022-03-20T10:30:00+00:00".to_vec()),
        },
        EntryMeta {
            code_repository: Some(b"https://github.com/carol/too-old".to_vec()),
            first_released: Some(b"2020-01-01T00:00:00+00:00".to_vec()),
        },
    ];

    let mut candidates: Vec<Vec<u8>> = Vec::new();
    for m in &entries {
        if let Some(candidate) = filter_entry(m, cutoff_millis()).unwrap() {
            candidates.push(candidate);
        }
    }
    assert_eq!(candidates, vec![b"alice/with-manifest".to_vec(), b"bob/vanished".to_vec()]);

    let grids = vec![
        vec![
            ProbeResult::FoundWithMarker,
            ProbeResult::NotFound,
            ProbeResult::NotFound,
            ProbeResult::NotFound,
        ],
        vec![
            ProbeResult::NotFound,
            ProbeResult::NotFound,
            ProbeResult::NotFound,
            ProbeResult::NotFound,
        ],
    ];

    let mut sched = Scheduler::new(candidates.len(), 2);
    let mut rows: Vec<Verdict> = Vec::new();
    while !sched.is_done() {
        assert!(sched.can_start());
        let task = sched.start();
        let (verdict, issued) = classify_canned(&grids[task]);
        assert!(issued <= 4);
        rows.push(Verdict { id: candidates[task].clone(), c: verdict });
        sched.finish();
    }

    let s = summarize(&rows);
    assert_eq!(s.total, 2);
    assert_eq!(s.success, 1);
    assert_eq!(s.npe2, 1);
    assert!(s.stragglers.is_empty());
    assert_eq!(s.failures, vec![b"bob/vanished".to_vec()]);
}
