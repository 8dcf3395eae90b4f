use workshop_core::error::Error;
use workshop_core::store::{
    application_parts, init_data_dir, resolve_data_dir, CopyTree, SearchOutcome, UpwardSearch,
};

fn comps(parts: &[&str]) -> Vec<String> {
    parts.iter().map(|s| s.to_string()).collect()
}

#[test]
fn upward_search_finds_nearest_ancestor() {
    // cwd /x/y/z with /x/.workshops present and nothing under y or z
    let mut s = UpwardSearch::new(comps(&["x", "y", "z"]));
    assert_eq!(s.next_request(), Some(comps(&["x", "y", "z", ".workshops"])));
    s.report(false);
    assert_eq!(s.next_request(), Some(comps(&["x", "y", ".workshops"])));
    s.report(false);
    assert_eq!(s.next_request(), Some(comps(&["x", ".workshops"])));
    s.report(true);
    assert!(s.next_request().is_none());
    match s.outcome {
        Some(SearchOutcome::Found(p)) => assert_eq!(p, comps(&["x", ".workshops"])),
        _ => panic!("the search should end at /x/.workshops"),
    }
}

#[test]
fn upward_search_reaches_the_root_and_gives_up() {
    let mut s = UpwardSearch::new(comps(&["a", "b"]));
    s.report(false);
    s.report(false);
    assert_eq!(s.next_request(), Some(comps(&[".workshops"])));
    s.report(false);
    assert!(s.next_request().is_none());
    assert!(matches!(s.outcome, Some(SearchOutcome::NotFound)));
}

#[test]
fn data_dir_override_takes_precedence() {
    let r = resolve_data_dir(Some("/custom/store".to_string()), Some("/standard".to_string()));
    assert_eq!(r, Ok("/custom/store".to_string()));
    // an empty override is no override
    let r = resolve_data_dir(Some("".to_string()), Some("/standard".to_string()));
    assert_eq!(r, Ok("/standard".to_string()));
    let r = resolve_data_dir(None, Some("/standard".to_string()));
    assert_eq!(r, Ok("/standard".to_string()));
    let r = resolve_data_dir(None, None);
    assert_eq!(r, Err(Error::ApplicationDirsNotFound));
}

#[test]
fn application_parts_are_fixed() {
    let parts = application_parts();
    assert_eq!(parts, comps(&["io", "libp2p", "workshop"]));
}

#[test]
fn init_plans_the_copy_under_the_working_directory() {
    let plan = init_data_dir(
        &comps(&["home", "me", "project"]),
        &comps(&["data", "store"]),
        &"algorithms-101".to_string(),
        true,
    )
    .expect("the workshop exists");
    assert_eq!(plan.workshops_dir, comps(&["home", "me", "project", ".workshops"]));
    assert_eq!(plan.source, comps(&["data", "store", "algorithms-101"]));
    assert_eq!(
        plan.target,
        comps(&["home", "me", "project", ".workshops", "algorithms-101"]),
    );
}

#[test]
fn init_refuses_a_missing_workshop_and_plans_no_copy() {
    let r = init_data_dir(
        &comps(&["home", "me"]),
        &comps(&["data", "store"]),
        &"missing-workshop".to_string(),
        false,
    );
    match r {
        Err(Error::WorkshopDataDirNotFound) => {},
        _ => panic!("a missing workshop is refused outright"),
    }
}

#[test]
fn copy_tree_mirrors_files_and_descends_into_directories() {
    // source algorithms-101 holds a.txt and data/b.txt
    let source = comps(&["data", "store", "algorithms-101"]);
    let target = comps(&["home", "me", ".workshops", "algorithms-101"]);
    let mut m = CopyTree::new(source.clone(), target.clone());

    let (s0, t0) = m.next_dir().expect("the root pair is queued");
    assert_eq!(s0, source);
    assert_eq!(t0, target);
    m.report_entry("a.txt".to_string(), false);
    m.report_entry("data".to_string(), true);
    m.dir_done();

    let (s1, t1) = m.next_dir().expect("the data directory is queued");
    assert_eq!(s1, comps(&["data", "store", "algorithms-101", "data"]));
    assert_eq!(t1, comps(&["home", "me", ".workshops", "algorithms-101", "data"]));
    m.report_entry("b.txt".to_string(), false);
    m.dir_done();

    assert!(m.next_dir().is_none());
    assert!(m.done());
    assert_eq!(m.copies.len(), 2);
    assert_eq!(m.copies[0].0, comps(&["data", "store", "algorithms-101", "a.txt"]));
    assert_eq!(m.copies[0].1, comps(&["home", "me", ".workshops", "algorithms-101", "a.txt"]));
    assert_eq!(m.copies[1].0, comps(&["data", "store", "algorithms-101", "data", "b.txt"]));
    assert_eq!(
        m.copies[1].1,
        comps(&["home", "me", ".workshops", "algorithms-101", "data", "b.txt"]),
    );
    // every write lands under the target root: the data store is never touched
    for (from, to) in m.copies.iter() {
        assert!(from.starts_with(&source));
        assert!(to.starts_with(&target));
    }
}
