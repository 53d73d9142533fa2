use toolfind::scan::{compiler_path_for, executable_name, is_candidate_path, locate_candidates};
use toolfind::select::{candidate_from_probe, select_best, Component};
use toolfind::version::DateVersion;

#[test]
fn test_executable_name() {
    assert_eq!(
        executable_name(&b"clippy-driver".to_vec(), false),
        b"clippy-driver".to_vec()
    );
    assert_eq!(
        executable_name(&b"clippy-driver".to_vec(), true),
        b"clippy-driver.exe".to_vec()
    );
}

#[test]
fn test_is_candidate_path() {
    let sep = b'/';
    let target = b"tool".to_vec();
    assert!(is_candidate_path(&b"/root/tc1/bin/tool".to_vec(), sep, &target));
    assert!(!is_candidate_path(&b"/root/tc1/lib/tool".to_vec(), sep, &target));
    assert!(!is_candidate_path(&b"/root/tc1/bin/other".to_vec(), sep, &target));
    assert!(!is_candidate_path(&b"/root/tc1/sbin/tool".to_vec(), sep, &target));
    assert!(!is_candidate_path(&b"tool".to_vec(), sep, &target));
    assert!(!is_candidate_path(&b"/root/tc1/bin/tool/extra".to_vec(), sep, &target));
}

#[test]
fn test_compiler_path_for() {
    assert_eq!(
        compiler_path_for(&b"/r/tc/bin/tool".to_vec(), b'/', &b"rustc".to_vec()),
        b"/r/tc/bin/rustc".to_vec()
    );
}

#[test]
fn test_locate_candidates() {
    let paths: Vec<Vec<u8>> = vec![
        b"/root/toolchains".to_vec(),
        b"/root/toolchains/stable".to_vec(),
        b"/root/toolchains/stable/bin".to_vec(),
        b"/root/toolchains/stable/bin/tool".to_vec(),
        b"/root/toolchains/stable/bin/rustc".to_vec(),
        b"/root/toolchains/beta/bin/other".to_vec(),
        b"/root/toolchains/beta/bin/tool".to_vec(),
    ];
    let pairs = locate_candidates(&paths, &b"tool".to_vec(), &b"rustc".to_vec(), b'/');
    assert_eq!(pairs.len(), 2);
    assert_eq!(pairs[0].0, b"/root/toolchains/stable/bin/tool".to_vec());
    assert_eq!(pairs[0].1, b"/root/toolchains/stable/bin/rustc".to_vec());
    assert_eq!(pairs[1].0, b"/root/toolchains/beta/bin/tool".to_vec());
    assert_eq!(pairs[1].1, b"/root/toolchains/beta/bin/rustc".to_vec());
}

#[test]
fn test_select_best_empty() {
    // An empty scan — root missing or holding nothing — yields no result.
    assert_eq!(select_best(&Vec::new()), None);
    assert_eq!(
        locate_candidates(&Vec::new(), &b"tool".to_vec(), &b"rustc".to_vec(), b'/').len(),
        0
    );
}

#[test]
fn test_missing_compiler_loses() {
    // A candidate whose probe failed stays in the set with no key and
    // loses to any candidate with one.
    let a = candidate_from_probe(b"/r/a/bin/tool".to_vec(), None);
    assert_eq!(a.date_vers, None);
    let b = candidate_from_probe(
        b"/r/b/bin/tool".to_vec(),
        Some(b"rustc 1.30.0 (1a2b3c4d5 2018-10-25)"),
    );
    assert!(b.date_vers.is_some());
    let best = select_best(&vec![a, b]).unwrap();
    assert_eq!(best, b"/r/b/bin/tool".to_vec());
}

#[test]
fn test_selector_prefers_latest_date() {
    let mk = |date: &[u8]| {
        candidate_from_probe(
            [b"/r/".as_ref(), date, b"/bin/tool".as_ref()].concat(),
            Some(&[b"rustc 1.0.0-nightly (9fda7c223 ".as_ref(), date, b")".as_ref()].concat()),
        )
    };
    let comps = vec![mk(b"2019-02-20"), mk(b"2019-02-24"), mk(b"2019-01-10")];
    assert_eq!(
        select_best(&comps).unwrap(),
        b"/r/2019-02-24/bin/tool".to_vec()
    );
}

#[test]
fn test_tie_goes_to_last_encountered() {
    let out: &[u8] = b"rustc 1.32.0 (9fda7c223 2019-01-16)";
    let a = candidate_from_probe(b"/r/a/bin/tool".to_vec(), Some(out));
    let b = candidate_from_probe(b"/r/b/bin/tool".to_vec(), Some(out));
    assert_eq!(select_best(&vec![a, b]).unwrap(), b"/r/b/bin/tool".to_vec());
}

#[test]
fn test_end_to_end_pick_highest() {
    // Two toolchains, each with a component and a compiler; the compilers
    // report different versions; the higher-versioned toolchain wins.
    let paths: Vec<Vec<u8>> = vec![
        b"/root/toolchains".to_vec(),
        b"/root/toolchains/stable/bin/tool".to_vec(),
        b"/root/toolchains/stable/bin/rustc".to_vec(),
        b"/root/toolchains/beta/bin/tool".to_vec(),
        b"/root/toolchains/beta/bin/rustc".to_vec(),
    ];
    let pairs = locate_candidates(&paths, &b"tool".to_vec(), &b"rustc".to_vec(), b'/');
    assert_eq!(pairs.len(), 2);
    let mut comps: Vec<Component> = Vec::new();
    for (comp_path, compiler_path) in pairs {
        let out: &[u8] = if compiler_path == b"/root/toolchains/stable/bin/rustc".to_vec() {
            b"rustc 1.32.0 (9fda7c223 2019-01-16)"
        } else {
            b"rustc 1.34.0 (097c04cf4 2019-04-20)"
        };
        comps.push(candidate_from_probe(comp_path, Some(out)));
    }
    assert_eq!(
        select_best(&comps).unwrap(),
        b"/root/toolchains/beta/bin/tool".to_vec()
    );
}

#[test]
fn test_component_new() {
    let c = Component::new(
        Some(DateVersion::new(None, b"2019-01-01".to_vec())),
        b"/r/bin/tool".to_vec(),
    );
    assert_eq!(c.path, b"/r/bin/tool".to_vec());
    assert_eq!(
        c.date_vers,
        Some(DateVersion::new(None, b"2019-01-01".to_vec()))
    );
}
