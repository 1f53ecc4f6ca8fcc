use qamd::config::{override_config, Config, Setting, Valid};
use qamd::dictionary::dictionary_lines;
use qamd::report::CheckName;

#[test]
fn empty_config_is_valid() {
    assert!(Config::default().validate().is_ok());
}

#[test]
fn empty_list_is_rejected() {
    let mut config = Config::new();
    config.disclosure_risk.regex_patterns = Some(Setting { setting: vec![], desc: String::new() });
    assert_eq!(config.validate(), Err("disclosure_risk.regex_patterns cannot be empty"));
}

#[test]
fn negative_length_is_rejected() {
    let mut config = Config::new();
    config.metadata.value_label_max_length = Some(Setting { setting: -1, desc: String::new() });
    assert_eq!(config.validate(), Err("metadata.value_label_max_length cannot be negative"));
}

#[test]
fn percentage_bounds() {
    let mut config = Config::new();
    config.data_integrity.system_missing_value_threshold = Some(Setting { setting: 100, desc: String::new() });
    assert!(config.validate().is_ok());
    config.data_integrity.system_missing_value_threshold = Some(Setting { setting: 0, desc: String::new() });
    assert!(config.validate().is_err());
    config.data_integrity.system_missing_value_threshold = Some(Setting { setting: 101, desc: String::new() });
    assert!(config.validate().is_err());
}

#[test]
fn first_violation_in_section_order() {
    let mut config = Config::new();
    config.basic_file_checks.bad_filename = Some(Setting { setting: String::new(), desc: String::new() });
    config.disclosure_risk.unique_values = Some(Setting { setting: 0, desc: String::new() });
    assert_eq!(config.validate(), Err("bad_filename cannot be an empty string"));
}

#[test]
fn dictionaries_of_a_check() {
    let mut config = Config::new();
    assert!(config.get_dictionaries(CheckName::StringValueSpellcheck).is_empty());
    config.data_integrity.string_value_spellcheck = Some(Setting {
        setting: vec![String::from("a.txt"), String::from("b.txt")],
        desc: String::new(),
    });
    assert_eq!(config.get_dictionaries(CheckName::StringValueSpellcheck), vec!["a.txt", "b.txt"]);
    assert!(config.get_dictionaries(CheckName::DateFormat).is_empty());
}

#[test]
fn dictionary_files_split_into_lines() {
    let lines = dictionary_lines(&vec![String::from("a\nb\n"), String::from("c")]);
    assert_eq!(lines, vec!["a", "b", "", "c"]);
}

#[test]
fn each_section_names_its_offending_setting() {
    let mut config = Config::new();
    config.metadata.primary_variable = Some(Setting { setting: String::new(), desc: String::new() });
    assert_eq!(config.validate(), Err("metadata.primary_variable cannot be an empty string"));

    let mut config = Config::new();
    config.metadata.value_label_odd_characters = Some(Setting { setting: vec![], desc: String::new() });
    assert_eq!(config.validate(), Err("metadata.value_label_odd_characters cannot be empty"));

    let mut config = Config::new();
    config.data_integrity.duplicate_values = Some(Setting { setting: vec![], desc: String::new() });
    assert_eq!(config.validate(), Err("data_integrity.duplicate_values cannot be empty"));

    let mut config = Config::new();
    config.disclosure_risk.date_format = Some(Setting { setting: vec![], desc: String::new() });
    assert_eq!(config.validate(), Err("disclosure_risk.date_format cannot be empty"));

    let mut config = Config::new();
    config.disclosure_risk.unique_values = Some(Setting { setting: 0, desc: String::new() });
    assert_eq!(config.validate(), Err("threshold out of bounds"));
}

#[test]
fn configured_value_wins_over_command_line() {
    assert_eq!(override_config(Some(true), false), Some(true));
    assert_eq!(override_config(None, false), Some(false));
}
