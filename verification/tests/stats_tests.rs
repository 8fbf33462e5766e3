use npe2_census::classify::Classification;
use npe2_census::stats::{summarize, Stats, Verdict};

fn verdict(id: &[u8], any_found: bool, is_npe2: bool) -> Verdict {
    Verdict { id: id.to_vec(), c: Classification { any_found, is_npe2 } }
}

#[test]
fn merge_counts_and_files_identifiers() {
    let mut s = Stats::new();
    s.merge(b"a/manifest".to_vec(), Classification { any_found: true, is_npe2: true });
    s.merge(b"b/legacy".to_vec(), Classification { any_found: true, is_npe2: false });
    s.merge(b"c/gone".to_vec(), Classification { any_found: false, is_npe2: false });
    assert_eq!(s.total, 3);
    assert_eq!(s.success, 2);
    assert_eq!(s.npe2, 1);
    assert_eq!(s.stragglers, vec![b"b/legacy".to_vec()]);
    assert_eq!(s.failures, vec![b"c/gone".to_vec()]);
}

#[test]
fn unreachable_repository_is_a_failure_not_a_success() {
    // An unreachable repository lands in the failure list and adds nothing to
    // the success count.
    let rows = vec![
        verdict(b"x/found", true, false),
        verdict(b"y/unreachable", false, false),
    ];
    let s = summarize(&rows);
    assert_eq!(s.total, 2);
    assert_eq!(s.success, 1);
    assert_eq!(s.failures, vec![b"y/unreachable".to_vec()]);
    assert!(!s.stragglers.contains(&b"y/unreachable".to_vec()));
}

#[test]
fn stragglers_are_found_without_manifest_and_disjoint_from_failures() {
    let rows = vec![
        verdict(b"a/straggler", true, false),
        verdict(b"b/manifest", true, true),
        verdict(b"c/gone", false, false),
    ];
    let s = summarize(&rows);
    assert_eq!(s.stragglers, vec![b"a/straggler".to_vec()]);
    assert_eq!(s.failures, vec![b"c/gone".to_vec()]);
    for id in &s.stragglers {
        assert!(!s.failures.contains(id));
    }
}

#[test]
fn aggregation_is_order_independent() {
    let rows = vec![
        verdict(b"p/one", true, true),
        verdict(b"q/two", true, false),
        verdict(b"r/three", false, false),
        verdict(b"s/four", true, false),
        verdict(b"t/five", false, false),
    ];
    let permutations: Vec<Vec<usize>> = vec![
        vec![0, 1, 2, 3, 4],
        vec![4, 3, 2, 1, 0],
        vec![2, 0, 4, 1, 3],
        vec![1, 4, 0, 3, 2],
    ];
    let reference = summarize(&rows);
    for p in permutations {
        let permuted: Vec<Verdict> = p
            .iter()
            .map(|&i| Verdict { id: rows[i].id.clone(), c: rows[i].c })
            .collect();
        let s = summarize(&permuted);
        assert_eq!(s.total, reference.total);
        assert_eq!(s.success, reference.success);
        assert_eq!(s.npe2, reference.npe2);
        assert_eq!(s.stragglers, reference.stragglers);
        assert_eq!(s.failures, reference.failures);
    }
}

#[test]
fn summary_lists_are_sorted() {
    let rows = vec![
        verdict(b"zeta/z", true, false),
        verdict(b"alpha/a", true, false),
        verdict(b"mid/m", false, false),
        verdict(b"beta/b", false, false),
    ];
    let s = summarize(&rows);
    assert_eq!(s.stragglers, vec![b"alpha/a".to_vec(), b"zeta/z".to_vec()]);
    assert_eq!(s.failures, vec![b"beta/b".to_vec(), b"mid/m".to_vec()]);
}

#[test]
fn share_undefined_without_success() {
    let s = Stats::new();
    assert_eq!(s.npe2_share_permille(), None);
    let rows = vec![verdict(b"a/gone", false, false)];
    let s = summarize(&rows);
    assert_eq!(s.npe2_share_permille(), None);
}

#[test]
fn share_in_thousandths() {
    let rows = vec![
        verdict(b"a/manifest", true, true),
        verdict(b"b/legacy", true, false),
    ];
    let s = summarize(&rows);
    assert_eq!(s.npe2_share_permille(), Some(500));
    let rows = vec![verdict(b"a/manifest", true, true)];
    let s = summarize(&rows);
    assert_eq!(s.npe2_share_permille(), Some(1000));
}
