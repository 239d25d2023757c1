use assessment_report::config::{first_repeat, render_config, validate, Config, ConfigError, General, Members};
use assessment_report::defaults::{is_missing, missing_from, template_config};

fn config(group: &str, me: &str, students: &[&str]) -> Config {
    Config {
        general: General { group_name: group.to_string(), my_name: me.to_string() },
        members: Members { students: students.iter().map(|s| s.to_string()).collect() },
    }
}

fn semantic(r: Result<(), ConfigError>) -> String {
    match r {
        Err(ConfigError::Semantic(m)) => m,
        Err(e) => panic!("unexpected error {e:?}"),
        Ok(()) => panic!("expected an error"),
    }
}

#[test]
fn a_good_configuration_is_accepted() {
    let c = config(" Team 3 ", "  Anna Berg ", &["Anna Berg", "Bo Ek", "Cy Lund"]);
    assert!(validate(&c).is_ok());
}

#[test]
fn student_count_must_be_one_to_seven() {
    let c = config("Team", "A", &[]);
    assert_eq!(semantic(validate(&c)), "[members] students must have 1-7 entries (found 0).");
    let c = config("Team", "A", &["A", "B", "C", "D", "E", "F", "G", "H"]);
    assert_eq!(semantic(validate(&c)), "[members] students must have 1-7 entries (found 8).");
    let c = config("Team", "A", &["A", "B", "C", "D", "E", "F", "G"]);
    assert!(validate(&c).is_ok());
    let c = config("Team", "A", &["A"]);
    assert!(validate(&c).is_ok());
}

#[test]
fn duplicates_are_found_after_trimming_and_lowercasing() {
    let c = config("Team", "Anna", &["Anna", "Bo", " bo "]);
    assert_eq!(semantic(validate(&c)), "duplicate student name: \" bo \"");
    let c = config("Team", "Anna", &["Anna", "Åsa", "ÅSA"]);
    assert_eq!(semantic(validate(&c)), "duplicate student name: \"ÅSA\"");
    let c = config("Team", "Anna", &["x", "y", "x", "y"]);
    assert_eq!(semantic(validate(&c)), "duplicate student name: \"x\"");
}

#[test]
fn the_user_must_be_listed() {
    let c = config("Team", "  Dora ", &["Anna", "Bo"]);
    assert_eq!(semantic(validate(&c)), "my_name \"Dora\" is not listed under [members] students");
    let c = config("Team", "ANNA", &["anna", "Bo"]);
    assert!(validate(&c).is_ok());
}

#[test]
fn placeholders_are_refused() {
    let placeholder = "config still contains placeholder values — update group_name and my_name";
    assert_eq!(semantic(validate(&template_config())), placeholder);
    let c = config(" group name ", "Anna", &["Anna"]);
    assert_eq!(semantic(validate(&c)), placeholder);
    let c = config("Group Name", "Anna", &["Anna"]);
    assert!(validate(&c).is_ok());
}

#[test]
fn rules_are_checked_in_order() {
    let c = config("group name", "Zed", &["a", "a"]);
    assert_eq!(semantic(validate(&c)), "duplicate student name: \"a\"");
}

#[test]
fn messages_of_each_error() {
    assert_eq!(
        ConfigError::Missing.message(),
        "config not found — a default has been written, fill it in and run again"
    );
    let io = std::io::Error::new(std::io::ErrorKind::Other, "disk on fire");
    assert_eq!(ConfigError::Io(io).message(), "could not read config: disk on fire");
    let parse = toml::from_str::<toml::Value>("= nope").unwrap_err();
    let text = parse.to_string();
    assert_eq!(ConfigError::Parse(parse).message(), format!("malformed config: {text}"));
    assert_eq!(ConfigError::Semantic("rule".to_string()).message(), "rule");
}

#[test]
fn template_renders_as_the_default_file() {
    let expected = "[general]\ngroup_name = \"group name\"\nmy_name    = \"name surname 1\"\n\n[members]\nstudents = [\n    \"name surname 1\",\n    \"name surname 2\",\n    \"name surname 3\",\n    \"name surname 4\",\n]\n";
    assert_eq!(render_config(&template_config()), expected);
}

#[test]
fn render_with_one_and_no_students() {
    let c = config("G", "M", &["M"]);
    assert_eq!(
        render_config(&c),
        "[general]\ngroup_name = \"G\"\nmy_name    = \"M\"\n\n[members]\nstudents = [\n    \"M\",\n]\n"
    );
    let c = config("G", "M", &[]);
    assert_eq!(
        render_config(&c),
        "[general]\ngroup_name = \"G\"\nmy_name    = \"M\"\n\n[members]\nstudents = [\n\n]\n"
    );
}

#[test]
fn rendered_config_parses_back_with_toml() {
    let c = config("Team 3", "Anna Berg", &["Anna Berg", "Bo Ek"]);
    let v: toml::Value = toml::from_str(&render_config(&c)).unwrap();
    assert_eq!(v["general"]["group_name"].as_str(), Some("Team 3"));
    assert_eq!(v["general"]["my_name"].as_str(), Some("Anna Berg"));
    assert_eq!(v["members"]["students"].as_array().unwrap().len(), 2);
}

#[test]
fn missing_paths_are_missing() {
    assert!(is_missing(&std::path::PathBuf::from("/no/such/dir/config.toml")));
    assert!(!is_missing(&std::path::PathBuf::from("/")));
}

#[test]
fn first_repeat_finds_the_first_duplicate_key() {
    let keys = |v: &[&str]| v.iter().map(|s| s.to_string()).collect::<Vec<String>>();
    assert_eq!(first_repeat(&keys(&["a", "b", "c"])), None);
    assert_eq!(first_repeat(&keys(&["a", "b", "b", "a"])), Some(2));
    assert_eq!(first_repeat(&keys(&["x", "y", "x", "y"])), Some(2));
    assert_eq!(first_repeat(&keys(&[])), None);
    assert_eq!(first_repeat(&keys(&["A", "a"])), None);
}

#[test]
fn missing_is_the_negation_of_existing() {
    assert!(missing_from(false));
    assert!(!missing_from(true));
}
