use npe2_census::classify::ProbeResult;
use npe2_census::entry::candidate_from_url;
use npe2_census::probe::{
    branch_name, file_name, github_url, has_marker, probe_result_of_body, probe_url, Branch,
    ProbeFile, ProbeTarget,
};
use npe2_census::text::{contains_bytes, copy_bytes, lex_leq_bytes, sort_ids, strip_prefix_all};

#[test]
fn probe_url_is_host_repo_branch_file() {
    let repo = b"owner/name".to_vec();
    let t = ProbeTarget { branch: Branch::Main, file: ProbeFile::SetupCfg };
    let url = probe_url(&repo, t);
    assert_eq!(url, b"https://raw.githubusercontent.com/owner/name/main/setup.cfg".to_vec());
    let t2 = ProbeTarget { branch: Branch::Master, file: ProbeFile::SetupPy };
    let url2 = probe_url(&repo, t2);
    assert_eq!(url2, b"https://raw.githubusercontent.com/owner/name/master/setup.py".to_vec());
}

#[test]
fn branch_and_file_names() {
    assert_eq!(branch_name(Branch::Main), b"main".to_vec());
    assert_eq!(branch_name(Branch::Master), b"master".to_vec());
    assert_eq!(file_name(ProbeFile::SetupCfg), b"setup.cfg".to_vec());
    assert_eq!(file_name(ProbeFile::SetupPy), b"setup.py".to_vec());
}

#[test]
fn yaml_marker_is_detected() {
    let body = b"[options]\npackages = find:\nnapari.yaml is shipped\n".to_vec();
    assert!(has_marker(&body));
    assert_eq!(probe_result_of_body(&body), ProbeResult::FoundWithMarker);
}

#[test]
fn yml_marker_is_detected() {
    let body = b"include plugin/napari.yml in the manifest".to_vec();
    assert!(has_marker(&body));
    assert_eq!(probe_result_of_body(&body), ProbeResult::FoundWithMarker);
}

#[test]
fn body_without_marker() {
    // `napari.y` alone, or an unrelated yaml mention, is not a marker.
    let body = b"import napari\nsetup(name='napari-demo')\nconfig: napari.toml\n".to_vec();
    assert!(!has_marker(&body));
    assert_eq!(probe_result_of_body(&body), ProbeResult::FoundWithoutMarker);
}

#[test]
fn github_url_and_candidate_round_trip() {
    let repo = b"owner/name".to_vec();
    let url = github_url(&repo);
    assert_eq!(url, b"https://github.com/owner/name".to_vec());
    assert_eq!(candidate_from_url(&url), repo);
}

#[test]
fn strip_host_prefix() {
    let host = b"https://github.com/".to_vec();
    let url = b"https://github.com/owner/repo".to_vec();
    assert_eq!(strip_prefix_all(&url, &host), b"owner/repo".to_vec());
    let bare = b"owner/repo".to_vec();
    assert_eq!(strip_prefix_all(&bare, &host), b"owner/repo".to_vec());
    let doubled = b"https://github.com/https://github.com/owner".to_vec();
    assert_eq!(strip_prefix_all(&doubled, &host), b"owner".to_vec());
}

#[test]
fn substring_search() {
    let text = b"hello substring world".to_vec();
    assert!(contains_bytes(&text, &b"substring".to_vec()));
    assert!(contains_bytes(&text, &b"hello".to_vec()));
    assert!(contains_bytes(&text, &b"world".to_vec()));
    assert!(!contains_bytes(&text, &b"absent".to_vec()));
    assert!(!contains_bytes(&text, &b"worlds".to_vec()));
    assert!(contains_bytes(&text, &b"".to_vec()));
}

#[test]
fn copy_is_equal() {
    let v = b"identifier".to_vec();
    assert_eq!(copy_bytes(&v), v);
}

#[test]
fn lexicographic_compare() {
    assert!(lex_leq_bytes(&b"alpha".to_vec(), &b"beta".to_vec()));
    assert!(!lex_leq_bytes(&b"beta".to_vec(), &b"alpha".to_vec()));
    assert!(lex_leq_bytes(&b"alpha".to_vec(), &b"alpha".to_vec()));
    assert!(lex_leq_bytes(&b"alpha".to_vec(), &b"alphabet".to_vec()));
    assert!(!lex_leq_bytes(&b"alphabet".to_vec(), &b"alpha".to_vec()));
    assert!(lex_leq_bytes(&b"".to_vec(), &b"a".to_vec()));
}

#[test]
fn sort_is_lexicographic() {
    let v = vec![
        b"owner/zeta".to_vec(),
        b"owner/alpha".to_vec(),
        b"other/plugin".to_vec(),
        b"owner/alpha".to_vec(),
    ];
    let sorted = sort_ids(v);
    assert_eq!(
        sorted,
        vec![
            b"other/plugin".to_vec(),
            b"owner/alpha".to_vec(),
            b"owner/alpha".to_vec(),
            b"owner/zeta".to_vec(),
        ]
    );
}
