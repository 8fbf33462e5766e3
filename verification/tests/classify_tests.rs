use npe2_census::classify::{classify_results, Classification, Classifier, ProbeResult};
use npe2_census::probe::{Branch, ProbeFile, ProbeTarget};

#[test]
fn short_circuit_on_first_probe() {
    // A marker on main/setup.cfg settles the verdict after a single probe:
    // no probe is issued for main/setup.py or either master file.
    let mut c = Classifier::new();
    assert!(!c.is_done());
    let t = c.next_target();
    assert_eq!(t, ProbeTarget { branch: Branch::Main, file: ProbeFile::SetupCfg });
    let out = c.feed(ProbeResult::FoundWithMarker);
    assert_eq!(out, Some(Classification { any_found: true, is_npe2: true }));
    assert!(c.is_done());
}

#[test]
fn short_circuit_call_count_is_one() {
    let rs = vec![
        ProbeResult::FoundWithMarker,
        ProbeResult::FoundWithoutMarker,
        ProbeResult::NotFound,
        ProbeResult::NotFound,
    ];
    let (c, used) = classify_results(&rs);
    assert_eq!(c, Classification { any_found: true, is_npe2: true });
    assert_eq!(used, 1);
}

#[test]
fn fallback_to_master_setup_py() {
    // main yields nothing, master/setup.cfg yields nothing, master/setup.py
    // exists without a marker: three negative probes precede the success.
    let mut c = Classifier::new();
    assert_eq!(c.next_target(), ProbeTarget { branch: Branch::Main, file: ProbeFile::SetupCfg });
    assert_eq!(c.feed(ProbeResult::NotFound), None);
    assert_eq!(c.next_target(), ProbeTarget { branch: Branch::Main, file: ProbeFile::SetupPy });
    assert_eq!(c.feed(ProbeResult::NotFound), None);
    assert_eq!(c.next_target(), ProbeTarget { branch: Branch::Master, file: ProbeFile::SetupCfg });
    assert_eq!(c.feed(ProbeResult::NotFound), None);
    assert_eq!(c.next_target(), ProbeTarget { branch: Branch::Master, file: ProbeFile::SetupPy });
    let out = c.feed(ProbeResult::FoundWithoutMarker);
    assert_eq!(out, Some(Classification { any_found: true, is_npe2: false }));
    assert!(c.is_done());
}

#[test]
fn fallback_uses_all_four_probes() {
    let rs = vec![
        ProbeResult::NotFound,
        ProbeResult::NotFound,
        ProbeResult::NotFound,
        ProbeResult::FoundWithoutMarker,
    ];
    let (c, used) = classify_results(&rs);
    assert_eq!(c, Classification { any_found: true, is_npe2: false });
    assert_eq!(used, 4);
}

#[test]
fn transport_errors_degrade_to_unreachable() {
    let rs = vec![
        ProbeResult::TransportError,
        ProbeResult::TransportError,
        ProbeResult::TransportError,
        ProbeResult::TransportError,
    ];
    let (c, used) = classify_results(&rs);
    assert_eq!(c, Classification { any_found: false, is_npe2: false });
    assert_eq!(used, 4);
}

#[test]
fn marker_on_master_after_found_main() {
    // A file without marker on main does not stop the search; the marker on
    // master/setup.cfg does.
    let rs = vec![
        ProbeResult::FoundWithoutMarker,
        ProbeResult::NotFound,
        ProbeResult::FoundWithMarker,
        ProbeResult::NotFound,
    ];
    let (c, used) = classify_results(&rs);
    assert_eq!(c, Classification { any_found: true, is_npe2: true });
    assert_eq!(used, 3);
}

#[test]
fn manifest_verdict_implies_found() {
    // Every verdict claiming a manifest also reports a reachable setup file.
    let grids = vec![
        vec![
            ProbeResult::FoundWithMarker,
            ProbeResult::NotFound,
            ProbeResult::NotFound,
            ProbeResult::NotFound,
        ],
        vec![
            ProbeResult::NotFound,
            ProbeResult::FoundWithMarker,
            ProbeResult::NotFound,
            ProbeResult::NotFound,
        ],
        vec![
            ProbeResult::NotFound,
            ProbeResult::NotFound,
            ProbeResult::NotFound,
            ProbeResult::FoundWithMarker,
        ],
    ];
    for rs in grids {
        let (c, _) = classify_results(&rs);
        assert!(c.is_npe2);
        assert!(c.any_found);
    }
}
