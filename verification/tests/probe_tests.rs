use workshop_core::error::Error;
use workshop_core::probe::{
    applicable_candidates, choose_docker_compose, choose_python, docker_compose_probers,
    expand_candidates, py_launcher_fallback, python_candidates, python_prober,
    substitute_username, Candidate, Os, ProbeEvent, ProbeOutcome, Prober,
};
use workshop_core::version::{ParseRule, Version};

fn named(name: &str) -> Candidate {
    Candidate { name: name.to_string(), only_on: None }
}

fn v(major: u64, minor: u64, patch: u64) -> Version {
    Version { major, minor, patch, pre: vec![] }
}

fn exited(success: bool, output: &[u8]) -> ProbeEvent {
    ProbeEvent::Exited { success, output: output.to_vec() }
}

#[test]
fn first_qualifying_candidate_wins_and_probing_stops() {
    // A fails to launch, B reports a version below the minimum, C
    // qualifies: probing returns C and asks for nothing after it.
    let candidates = vec![named("a"), named("b"), named("c"), named("d")];
    let mut p = Prober::new(candidates, v(3, 8, 0), ParseRule::LastSpace);

    assert_eq!(p.next_request().as_deref(), Some("a"));
    p.report(ProbeEvent::LaunchFailed);

    assert_eq!(p.next_request().as_deref(), Some("b"));
    p.report(exited(true, b"Python 3.6.0\n"));

    assert_eq!(p.next_request().as_deref(), Some("c"));
    p.report(exited(true, b"Python 3.11.2\n"));

    assert!(p.next_request().is_none());
    match p.outcome {
        Some(ProbeOutcome::Found { index, ref name, ref version }) => {
            assert_eq!(index, 2);
            assert_eq!(name, "c");
            assert_eq!((version.major, version.minor, version.patch), (3, 11, 2));
        },
        ref other => panic!("expected a find, got {:?}", other.is_some()),
    }
}

#[test]
fn empty_candidate_list_is_not_found_at_once() {
    let p = Prober::new(vec![], v(1, 0, 0), ParseRule::LastSpace);
    assert!(p.next_request().is_none());
    assert!(matches!(p.outcome, Some(ProbeOutcome::NotFound)));
}

#[test]
fn all_failing_candidates_end_in_not_found() {
    let mut p = Prober::new(vec![named("a"), named("b")], v(1, 0, 0), ParseRule::LastSpace);
    p.report(ProbeEvent::LaunchFailed);
    p.report(exited(false, b"Python 2.7.0\n"));
    assert!(p.next_request().is_none());
    assert!(matches!(p.outcome, Some(ProbeOutcome::NotFound)));
}

#[test]
fn nonzero_exit_and_unparsable_output_are_skipped() {
    let mut p = Prober::new(
        vec![named("a"), named("b"), named("c")],
        v(1, 0, 0),
        ParseRule::LastSpace,
    );
    p.report(exited(false, b"Python 3.11.2\n"));
    p.report(exited(true, b"no version here"));
    p.report(exited(true, b"Python 1.0.0"));
    match p.outcome {
        Some(ProbeOutcome::Found { index, ref name, .. }) => {
            assert_eq!(index, 2);
            assert_eq!(name, "c");
        },
        _ => panic!("expected the last candidate to qualify"),
    }
}

#[test]
fn platform_filter_keeps_order_and_tags() {
    let candidates = vec![
        named("shared"),
        Candidate { name: "linux-only".to_string(), only_on: Some(Os::Linux) },
        Candidate { name: "mac-only".to_string(), only_on: Some(Os::MacOs) },
        named("also-shared"),
    ];
    let kept = applicable_candidates(candidates, Os::Linux);
    let names: Vec<&str> = kept.iter().map(|c| c.name.as_str()).collect();
    assert_eq!(names, vec!["shared", "linux-only", "also-shared"]);
}

#[test]
fn tilde_expansion_touches_only_tilde_names() {
    let mut candidates = vec![named("/usr/bin/python3"), named("~/.pyenv/shims/python3")];
    expand_candidates(&mut candidates, Os::Linux);
    assert_eq!(candidates[0].name, "/usr/bin/python3");
    assert!(candidates[1].name.ends_with(".pyenv/shims/python3"));
    // the home directory is known here, so the tilde is really replaced
    assert!(!candidates[1].name.starts_with('~'));
    let mut on_windows = vec![named("~/.pyenv/shims/python3")];
    expand_candidates(&mut on_windows, Os::Windows);
    assert_eq!(on_windows[0].name, "~/.pyenv/shims/python3");
}

#[test]
fn python_prober_rejects_bad_minimum() {
    match python_prober("three point eight", Os::Linux) {
        Err(Error::NoPythonExecutable) => {},
        _ => panic!("a malformed minimum is the missing-interpreter failure"),
    }
}

#[test]
fn python_prober_carries_platform_candidates() {
    let p = python_prober("3.8.0", Os::Linux).expect("the minimum parses");
    let names: Vec<&str> = p.candidates.iter().map(|c| c.name.as_str()).collect();
    assert_eq!(names.len(), 7);
    assert_eq!(
        &names[..6],
        &["python3", "python", "py", "/usr/bin/python3", "/usr/local/bin/python3", "/bin/python3"],
    );
    assert!(names[6].ends_with(".pyenv/shims/python3"));
    assert_eq!((p.min_version.major, p.min_version.minor, p.min_version.patch), (3, 8, 0));
}

#[test]
fn python_table_has_all_platform_rows() {
    let all = python_candidates();
    assert_eq!(all.len(), 18);
    let windows = applicable_candidates(python_candidates(), Os::Windows);
    assert_eq!(windows.len(), 9);
    let mac = applicable_candidates(python_candidates(), Os::MacOs);
    assert_eq!(mac.len(), 8);
    let other = applicable_candidates(python_candidates(), Os::Other);
    assert_eq!(other.len(), 3);
}

#[test]
fn compose_probers_use_both_strategies() {
    let (plugin, standalone) = docker_compose_probers("2.20.0", Os::Linux).expect("minimum parses");
    assert_eq!(plugin.candidates[0].name, "docker");
    assert_eq!(standalone.candidates[0].name, "docker-compose");
    assert!(matches!(plugin.rule, ParseRule::LastV));
    assert!(matches!(standalone.rule, ParseRule::LastSpace));
    match docker_compose_probers("x.y.z", Os::Linux) {
        Err(Error::NoDockerComposeExecutable) => {},
        _ => panic!("a malformed minimum is the missing-compose failure"),
    }
}

#[test]
fn compose_choice_prefers_the_plugin() {
    let found = |name: &str| ProbeOutcome::Found {
        index: 0,
        name: name.to_string(),
        version: v(2, 36, 2),
    };
    assert_eq!(choose_docker_compose(found("docker"), found("docker-compose")), Ok("docker".to_string()));
    assert_eq!(
        choose_docker_compose(ProbeOutcome::NotFound, found("docker-compose")),
        Ok("docker-compose".to_string()),
    );
    assert_eq!(
        choose_docker_compose(ProbeOutcome::NotFound, ProbeOutcome::NotFound),
        Err(Error::NoDockerComposeExecutable),
    );
}

#[test]
fn python_choice_maps_not_found() {
    assert_eq!(choose_python(ProbeOutcome::NotFound), Err(Error::NoPythonExecutable));
    let f = ProbeOutcome::Found { index: 1, name: "python3".to_string(), version: v(3, 11, 2) };
    assert_eq!(choose_python(f), Ok("python3".to_string()));
}

#[test]
fn launcher_fallback_picks_first_matching_line() {
    let out = b" -2.7-64\n -3.12-64 *\n -3.11-64\n";
    let cmd = py_launcher_fallback(out).expect("a line holds the pattern");
    assert_eq!(cmd, b"py -3.12-64".to_vec());
    assert!(py_launcher_fallback(b"no interpreters\n").is_none());
    assert!(py_launcher_fallback(b"").is_none());
}

#[test]
fn username_placeholder_is_substituted() {
    let name = b"C:\\Users\\%USERNAME%\\AppData\\Local\\Programs\\Python\\Python39\\python.exe";
    let got = substitute_username(name, b"alice");
    assert_eq!(
        got,
        b"C:\\Users\\alice\\AppData\\Local\\Programs\\Python\\Python39\\python.exe".to_vec(),
    );
    // a name without the placeholder comes back unchanged
    assert_eq!(substitute_username(b"python3", b"alice"), b"python3".to_vec());
    // every occurrence is replaced, left to right
    assert_eq!(
        substitute_username(b"%USERNAME%/%USERNAME%", b"u"),
        b"u/u".to_vec(),
    );
}
