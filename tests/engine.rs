use qamd::config::{file_type, Config, FileType, Setting};
use qamd::context::{Event, FileInfo, LabelEvent, ValueEvent, WordLists};
use qamd::engine::run;
use qamd::frequency::FrequencyTable;
use qamd::model::{AnyValue, Variable, VariableType};
use qamd::report::{Category, CheckName, Report, Status};

fn status(report: &Report, name: CheckName) -> &Status {
    report.get(name).expect("status should be set")
}

fn info(rows: i32, vars: i32) -> Event {
    Event::Metadata(FileInfo {
        row_count: rows,
        var_count: vars,
        creation_time: 0,
        modified_time: 0,
        file_label: String::from("label"),
        format_version: 1,
        encoding: None,
        compression: String::from("None"),
    })
}

fn declare(index: i32, name: &str, type_: VariableType, labels: &str) -> Event {
    Event::Variable(Variable {
        index,
        name: name.to_string(),
        label: String::new(),
        type_,
        value_format: String::new(),
        value_labels: labels.to_string(),
    })
}

fn value(index: i32, row: i32, v: AnyValue, system_missing: bool) -> Event {
    Event::Value(ValueEvent {
        variable_index: index,
        row,
        value: v,
        system_missing,
        tagged_missing: false,
        tag: ' ',
        defined_missing: false,
    })
}

fn total_of(table: &FrequencyTable, index: i32) -> u64 {
    table
        .entries
        .iter()
        .filter(|e| e.variable.index == index)
        .map(|e| e.values.iter().map(|v| v.count).sum::<u64>())
        .sum()
}

fn describe(report: &Report) -> Vec<String> {
    CheckName::all()
        .iter()
        .map(|n| match report.get(*n) {
            None => String::from("-"),
            Some(s) => format!("{} {} {} {:?}", s.pass, s.fail, s.desc, s.locators.as_ref().map(|l| l.len())),
        })
        .collect()
}

fn dataset() -> Vec<Event> {
    let mut events = vec![
        info(10, 2),
        declare(0, "id", VariableType::Numeric, ""),
        declare(1, "city", VariableType::Text, "cities"),
    ];
    for row in 1..=10 {
        events.push(value(0, row, AnyValue::Int32(row), false));
        let (text, missing) = if row <= 8 { ("", true) } else { ("qux", false) };
        events.push(value(1, row, AnyValue::Str(text.to_string()), missing));
    }
    events.push(Event::ValueLabel(LabelEvent {
        set: String::from("cities"),
        value: AnyValue::Str(String::from("qux")),
        label: String::from("Quxville"),
    }));
    events
}

fn full_config() -> Config {
    let mut config = Config::new();
    config.metadata_only = Some(false);
    config.data_integrity.system_missing_value_threshold = Some(Setting {
        setting: 25,
        desc: String::from("sysmiss"),
    });
    config.data_integrity.duplicate_values = Some(Setting {
        setting: vec![String::from("id"), String::from("city")],
        desc: String::from("dups"),
    });
    config.disclosure_risk.regex_patterns = Some(Setting {
        setting: vec![String::from("^qux")],
        desc: String::from("regex"),
    });
    config.disclosure_risk.unique_values = Some(Setting {
        setting: 1,
        desc: String::from("unique"),
    });
    config.basic_file_checks.bad_filename = Some(Setting {
        setting: String::from("^([a-zA-Z0-9]+)\\.([a-zA-Z0-9]+)$"),
        desc: String::from("file name"),
    });
    config
}

#[test]
fn frequency_totals_equal_row_count() {
    let events = dataset();
    let context = run(&events, full_config(), String::from("data.csv"), WordLists::new());
    let rows = context.report.metadata.raw_case_count as u64;
    assert_eq!(rows, 10);
    for v in &context.variables {
        assert_eq!(total_of(&context.frequency_table, v.index), rows);
    }
}

#[test]
fn values_of_undeclared_variables_are_ignored() {
    let events = vec![info(1, 1), value(7, 1, AnyValue::Int32(1), false), declare(7, "late", VariableType::Numeric, "")];
    let context = run(&events, Config::new(), String::from("a.csv"), WordLists::new());
    assert_eq!(total_of(&context.frequency_table, 7), 0);
}

#[test]
fn eighty_percent_system_missing_fails() {
    let context = run(&dataset(), full_config(), String::from("data.csv"), WordLists::new());
    // "city": 8 of 10 observations are system missing, 80% > 25%
    let s = status(&context.report, CheckName::SystemMissingOverThreshold);
    assert_eq!((s.pass, s.fail), (1, 1));
    assert_eq!(s.desc, "sysmiss (Threshold: 25%)");
    assert_eq!(s.category, Category::DataIntegrity);
}

#[test]
fn repeated_values_fail_duplicate_check() {
    let context = run(&dataset(), full_config(), String::from("data.csv"), WordLists::new());
    // "id" holds ten distinct values, "city" repeats its values
    let s = status(&context.report, CheckName::DuplicateValues);
    assert_eq!((s.pass, s.fail), (1, 1));
    assert_eq!(s.desc, "dups (On variables [\"id\", \"city\"])");
}

#[test]
fn matching_value_fails_regex_check() {
    let mut events = vec![
        info(1, 2),
        declare(0, "a", VariableType::Text, ""),
        declare(1, "b", VariableType::Text, ""),
    ];
    events.push(value(0, 1, AnyValue::Str(String::from("qux")), false));
    events.push(value(1, 1, AnyValue::Str(String::from("bar")), false));
    let context = run(&events, full_config(), String::from("data.csv"), WordLists::new());
    let s = status(&context.report, CheckName::ValueRegexPatterns);
    assert_eq!((s.pass, s.fail), (1, 1));
    let locators = s.locators.as_ref().unwrap();
    assert_eq!(locators.len(), 1);
    assert_eq!(locators[0].variable_name, "a");
    assert_eq!(locators[0].value_index, 1);
}

#[test]
fn regex_check_counts_each_value() {
    let events = vec![
        info(2, 1),
        declare(0, "a", VariableType::Text, ""),
        value(0, 1, AnyValue::Str(String::from("qux")), false),
        value(0, 2, AnyValue::Str(String::from("bar")), false),
        value(0, 3, AnyValue::Str(String::from("quxx")), false),
    ];
    let context = run(&events, full_config(), String::from("data.csv"), WordLists::new());
    let s = status(&context.report, CheckName::ValueRegexPatterns);
    assert_eq!((s.pass, s.fail), (1, 2));
    let rows: Vec<i32> = s.locators.as_ref().unwrap().iter().map(|l| l.value_index).collect();
    assert_eq!(rows, vec![1, 3]);
}

#[test]
fn value_label_resolved_for_regex() {
    let mut config = full_config();
    config.disclosure_risk.regex_patterns = Some(Setting {
        setting: vec![String::from("ville$")],
        desc: String::from("regex"),
    });
    let mut events = vec![info(1, 1), declare(0, "city", VariableType::Text, "cities")];
    events.push(Event::ValueLabel(LabelEvent {
        set: String::from("cities"),
        value: AnyValue::Str(String::from("q")),
        label: String::from("Quxville"),
    }));
    events.push(value(0, 1, AnyValue::Str(String::from("q")), false));
    let context = run(&events, config, String::from("data.csv"), WordLists::new());
    let s = status(&context.report, CheckName::ValueRegexPatterns);
    assert_eq!((s.pass, s.fail), (0, 1));
}

#[test]
fn file_name_pattern_check() {
    let good = run(&dataset(), full_config(), String::from("goodfilename.dta"), WordLists::new());
    let s = status(&good.report, CheckName::BadFileName);
    assert_eq!((s.pass, s.fail), (1, 0));
    let bad = run(&dataset(), full_config(), String::from("bad& filename.foo"), WordLists::new());
    let s = status(&bad.report, CheckName::BadFileName);
    assert_eq!((s.pass, s.fail), (0, 1));
    assert_eq!(s.locators.as_ref().unwrap()[0].variable_index, -1);
}

#[test]
fn unique_values_examines_each_variable() {
    let context = run(&dataset(), full_config(), String::from("data.csv"), WordLists::new());
    let s = status(&context.report, CheckName::VariablesWithUniqueValues);
    // every id occurs once; "qux" occurs twice and "" eight times
    assert_eq!((s.pass, s.fail), (1, 1));
    assert_eq!(s.pass + s.fail, 2);
}

#[test]
fn running_twice_gives_the_same_summary() {
    let a = run(&dataset(), full_config(), String::from("data.csv"), WordLists::new());
    let b = run(&dataset(), full_config(), String::from("data.csv"), WordLists::new());
    assert_eq!(describe(&a.report), describe(&b.report));
}

#[test]
fn metadata_and_type_counts() {
    let context = run(&dataset(), Config::new(), String::from("data.csv"), WordLists::new());
    let m = &context.report.metadata;
    assert_eq!(m.variable_count, 2);
    assert_eq!(m.text_variables, 1);
    assert_eq!(m.numeric_variables, 1);
    assert_eq!(m.file_name, "data.csv");
    assert!(context.report.summary.iter().all(|s| s.is_none()));
}

#[test]
fn check_names_display_as_sentences() {
    assert_eq!(CheckName::BadFileName.to_string(), "Bad file name");
    assert_eq!(CheckName::all().len(), 17);
    assert_eq!(Category::DisclosureRisk.title(), "Disclosure Risk Checks");
}

#[test]
fn file_types_by_extension() {
    assert_eq!(file_type("data/mtcars.csv"), Some(FileType::CSV));
    assert_eq!(file_type("mtcars.dta"), Some(FileType::DTA));
    assert_eq!(file_type("mtcars.sav"), Some(FileType::SAV));
    assert_eq!(file_type("mtcars.sas7bdat"), Some(FileType::SAS7BDAT));
    assert_eq!(file_type("mtcars.txt"), None);
}

#[test]
fn odd_character_in_value_label_fails() {
    let mut config = Config::new();
    config.metadata.value_label_odd_characters = Some(Setting {
        setting: vec![String::from("#"), String::from("@"), String::from("!")],
        desc: String::from("odd"),
    });
    let mut events = vec![info(2, 1), declare(0, "first", VariableType::Text, "labels1")];
    events.push(Event::ValueLabel(LabelEvent {
        set: String::from("labels1"),
        value: AnyValue::Str(String::from("a")),
        label: String::from("this is fine"),
    }));
    events.push(Event::ValueLabel(LabelEvent {
        set: String::from("labels1"),
        value: AnyValue::Str(String::from("b")),
        label: String::from("this@ is far too long to pass the test"),
    }));
    let context = run(&events, config, String::from("data.csv"), WordLists::new());
    let s = status(&context.report, CheckName::ValueLabelOddCharacters);
    assert_eq!((s.pass, s.fail), (1, 1));
}

#[test]
fn relabelling_a_value_replaces_its_label() {
    let mut config = Config::new();
    config.metadata.value_label_odd_characters = Some(Setting {
        setting: vec![String::from("@")],
        desc: String::from("odd"),
    });
    let mut events = vec![info(1, 1), declare(0, "first", VariableType::Text, "labels1")];
    for label in ["bad@", "good"] {
        events.push(Event::ValueLabel(LabelEvent {
            set: String::from("labels1"),
            value: AnyValue::Int32(1),
            label: String::from(label),
        }));
    }
    let context = run(&events, config, String::from("data.csv"), WordLists::new());
    let s = status(&context.report, CheckName::ValueLabelOddCharacters);
    assert_eq!((s.pass, s.fail), (1, 0));
}
