use workshop_core::status::{Config, Status};
use workshop_core::workshops::{
    all_programming_languages, all_spoken_languages, all_workshops, all_workshops_filtered,
    get_all_languages, load, LanguageSupport, ProgrammingCode, SpokenCode, WorkshopData,
    WorkshopEntry, Workshops,
};

#[allow(non_snake_case)]
fn DE() -> SpokenCode { SpokenCode { code: 10 } }
#[allow(non_snake_case)]
fn EN() -> SpokenCode { SpokenCode { code: 20 } }
#[allow(non_snake_case)]
fn FR() -> SpokenCode { SpokenCode { code: 30 } }
#[allow(non_snake_case)]
fn PY() -> ProgrammingCode { ProgrammingCode { code: 1 } }
#[allow(non_snake_case)]
fn RS() -> ProgrammingCode { ProgrammingCode { code: 2 } }

fn workshop(id: &str, rows: Vec<(SpokenCode, Vec<ProgrammingCode>)>) -> WorkshopEntry {
    WorkshopEntry {
        id: id.to_string(),
        data: WorkshopData {
            languages: rows
                .into_iter()
                .map(|(spoken, programming)| LanguageSupport { spoken, programming })
                .collect(),
        },
    }
}

fn store(entries: Vec<WorkshopEntry>) -> Workshops {
    Workshops { entries }
}

#[test]
fn spoken_aggregation_is_sorted_and_deduplicated() {
    // workshops {A: [en, fr], B: [en, de]} yield [de, en, fr]
    let a = workshop("A", vec![(EN(), vec![]), (FR(), vec![])]);
    let b = workshop("B", vec![(EN(), vec![]), (DE(), vec![])]);
    let spoken = all_spoken_languages(&store(vec![a, b]));
    assert_eq!(spoken, vec![DE(), EN(), FR()]);

    // the same workshops in the other enumeration order give the same list
    let a = workshop("A", vec![(EN(), vec![]), (FR(), vec![])]);
    let b = workshop("B", vec![(EN(), vec![]), (DE(), vec![])]);
    let spoken_swapped = all_spoken_languages(&store(vec![b, a]));
    assert_eq!(spoken_swapped, vec![DE(), EN(), FR()]);
}

#[test]
fn programming_aggregation_is_sorted_and_deduplicated() {
    let a = workshop("A", vec![(EN(), vec![RS(), PY()])]);
    let b = workshop("B", vec![(DE(), vec![RS()])]);
    let langs = all_programming_languages(&store(vec![a, b]));
    assert_eq!(langs, vec![PY(), RS()]);
}

#[test]
fn merge_lets_local_entries_override() {
    let app = store(vec![
        workshop("alpha", vec![(EN(), vec![PY()])]),
        workshop("beta", vec![(EN(), vec![PY()])]),
    ]);
    let local = store(vec![
        workshop("beta", vec![(FR(), vec![RS()])]),
        workshop("gamma", vec![(DE(), vec![])]),
    ]);
    let merged = all_workshops(app, Some(local));
    let ids: Vec<&str> = merged.entries.iter().map(|e| e.id.as_str()).collect();
    assert_eq!(ids, vec!["alpha", "beta", "gamma"]);
    // the surviving beta is the local one
    let beta = load(&merged, &"beta".to_string()).expect("beta is present");
    assert_eq!(beta.languages.len(), 1);
    assert_eq!(beta.languages[0].spoken, FR());
}

#[test]
fn merge_without_a_local_store_keeps_the_application_store() {
    let app = store(vec![workshop("alpha", vec![])]);
    let merged = all_workshops(app, None);
    assert_eq!(merged.entries.len(), 1);
    assert_eq!(merged.entries[0].id, "alpha");
}

#[test]
fn load_misses_an_absent_workshop() {
    let merged = store(vec![workshop("alpha", vec![])]);
    assert!(load(&merged, &"missing".to_string()).is_none());
}

#[test]
fn filtering_consults_both_language_axes() {
    let a = workshop("A", vec![(EN(), vec![PY()])]);
    let b = workshop("B", vec![(FR(), vec![RS()])]);
    let ws = store(vec![a, b]);
    let only_en = all_workshops_filtered(ws, Some(EN()), None);
    let ids: Vec<&str> = only_en.entries.iter().map(|e| e.id.as_str()).collect();
    assert_eq!(ids, vec!["A"]);

    let a = workshop("A", vec![(EN(), vec![PY()])]);
    let b = workshop("B", vec![(FR(), vec![RS()])]);
    let both = all_workshops_filtered(store(vec![a, b]), Some(FR()), Some(RS()));
    let ids: Vec<&str> = both.entries.iter().map(|e| e.id.as_str()).collect();
    assert_eq!(ids, vec!["B"]);

    let a = workshop("A", vec![(EN(), vec![PY()])]);
    let b = workshop("B", vec![(FR(), vec![RS()])]);
    let none = all_workshops_filtered(store(vec![a, b]), None, None);
    assert_eq!(none.entries.len(), 2);
}

#[test]
fn selection_asks_the_workshop_itself() {
    let a = workshop("A", vec![(EN(), vec![PY()])]);
    assert!(a.data.is_selected(Some(EN()), Some(PY())));
    assert!(a.data.is_selected(None, Some(PY())));
    assert!(!a.data.is_selected(Some(FR()), None));
    assert!(!a.data.is_selected(Some(EN()), Some(RS())));
    let spoken = a.data.get_all_spoken_languages();
    assert_eq!(spoken, vec![EN()]);
    let programming = a.data.get_all_programming_languages();
    assert_eq!(programming, vec![PY()]);
}

#[test]
fn language_mapping_merges_rows_per_spoken_language() {
    let a = workshop("A", vec![(EN(), vec![RS()])]);
    let b = workshop("B", vec![(EN(), vec![PY()]), (FR(), vec![PY()])]);
    let mapping = get_all_languages(&store(vec![a, b]));
    assert_eq!(mapping.len(), 2);
    assert_eq!(mapping[0].spoken, EN());
    assert_eq!(mapping[0].programming, vec![PY(), RS()]);
    assert_eq!(mapping[1].spoken, FR());
    assert_eq!(mapping[1].programming, vec![PY()]);
}

fn config() -> Config {
    Config {
        python_executable: Some("python3".to_string()),
        docker_compose_executable: None,
        git_executable: None,
        spoken_language: Some(EN()),
        programming_language: None,
        python_minimum_version: "3.8.0".to_string(),
        docker_compose_minimum_version: "2.20.0".to_string(),
        git_minimum_version: "2.30.0".to_string(),
    }
}

#[test]
fn status_starts_from_the_configuration_defaults() {
    let s = Status::from_config(config());
    assert_eq!(s.python_executable(), Some("python3"));
    assert_eq!(s.docker_compose_executable(), None);
    assert_eq!(s.git_executable(), None);
    assert_eq!(s.spoken_language(), Some(EN()));
    assert_eq!(s.programming_language(), None);
    assert_eq!(s.workshop(), None);
    assert_eq!(s.lesson(), None);
    assert_eq!(s.python_minimum_version(), "3.8.0");
    assert_eq!(s.docker_compose_minimum_version(), "2.20.0");
    assert_eq!(s.git_minimum_version(), "2.30.0");
}

#[test]
fn setters_update_the_context_and_optionally_the_defaults() {
    let mut s = Status::from_config(config());
    s.set_python_executable("/usr/bin/python3", false);
    assert_eq!(s.python_executable(), Some("/usr/bin/python3"));
    assert_eq!(s.config.python_executable, Some("python3".to_string()));
    s.set_python_executable("/bin/python3", true);
    assert_eq!(s.config.python_executable, Some("/bin/python3".to_string()));

    s.set_docker_compose_executable("docker", true);
    assert_eq!(s.docker_compose_executable(), Some("docker"));
    assert_eq!(s.config.docker_compose_executable, Some("docker".to_string()));

    s.set_git_executable("/usr/bin/git", false);
    assert_eq!(s.git_executable(), Some("/usr/bin/git"));
    assert_eq!(s.config.git_executable, None);

    s.set_spoken_language(Some(FR()), true);
    assert_eq!(s.spoken_language(), Some(FR()));
    assert_eq!(s.config.spoken_language, Some(FR()));
    s.set_spoken_language(None, false);
    assert_eq!(s.spoken_language(), None);
    assert_eq!(s.config.spoken_language, Some(FR()));

    s.set_programming_language(Some(RS()), false);
    assert_eq!(s.programming_language(), Some(RS()));
    assert_eq!(s.config.programming_language, None);

    s.set_workshop(Some("algorithms-101".to_string()));
    assert_eq!(s.workshop(), Some("algorithms-101"));
    s.set_lesson(Some("intro".to_string()));
    assert_eq!(s.lesson(), Some("intro"));
    s.set_workshop(None);
    assert_eq!(s.workshop(), None);
}
