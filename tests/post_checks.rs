use qamd::config::{Config, Setting};
use qamd::context::Context;
use qamd::dictionary::{dictionary_lines, string_value_spellcheck, string_value_stopword, value_label_spellcheck, variable_label_spellcheck};
use qamd::model::{AnyValue, Missing, Value, Variable, VariableType};
use qamd::post_checks::{
    bad_filename, duplicate_values, primary_variable, regex_patterns, string_value_odd_characters,
    system_missing_over_threshold, unique_values, value_label_max_length, value_label_odd_characters,
};
use qamd::report::{CheckName, Status};

const WORDS: &str = "this\nis\nfine\nfar\ntoo\nlong\nto\nthe\ntest\nfirst\nlabel\nsecond\nok\neither\nbar\nbaz";
const STOPWORDS: &str = "qux\nfoo";

fn assert_setting(status: Option<&Status>, pass: u64, fail: u64) {
    match status {
        Some(s) => {
            assert_eq!(s.pass, pass);
            assert_eq!(s.fail, fail);
        }
        None => panic!(" is None and should be Some(Setting)"),
    }
}

fn variable(index: i32, name: &str, label: &str, type_: VariableType, value_labels: &str) -> Variable {
    Variable {
        index,
        name: name.to_string(),
        label: label.to_string(),
        type_,
        value_format: String::new(),
        value_labels: value_labels.to_string(),
    }
}

fn setup() -> Context {
    let mut context = Context::new(Config::new());

    let first = variable(0, "first", "first fine label", VariableType::Text, "labels1");
    let mut qux = Value::from("qux");
    qux.label = String::from("this is fine");
    let mut bar = Value::from("bar#");
    bar.label = String::from("this@ is far too long to pss the test");
    context.frequency_table.add(&first, bar, 3);
    context.frequency_table.add(&first, Value::from("!baz"), 3);
    context.frequency_table.add(&first, qux, 4);

    let second = variable(1, "second", "second fine label", VariableType::Text, "");
    let mut missing_value = Value::from("");
    missing_value.missing = Missing::SYSTEM_MISSING;
    context.frequency_table.add(&second, Value::from("g@regs"), 2);
    context.frequency_table.add(&second, missing_value, 8);

    let badid = variable(2, "badid", "this is nt ok", VariableType::Numeric, "");
    for i in 1i32..=10 {
        if i == 4 {
            continue;
        }
        let quant = if i == 1 { 2 } else { 1 };
        let value = Value {
            variable: badid.clone(),
            row: i,
            value: AnyValue::from(i),
            label: String::new(),
            missing: Missing::NOT_MISSING,
        };
        context.frequency_table.add(&badid, value, quant);
    }

    let id = variable(3, "id", "this is nt ok either", VariableType::Numeric, "");
    for i in 1i32..=10 {
        let value = Value {
            variable: id.clone(),
            row: i,
            value: AnyValue::from(i),
            label: String::new(),
            missing: Missing::NOT_MISSING,
        };
        context.frequency_table.add(&id, value, 1);
    }

    context.value_labels.insert("labels1".to_string(), "qux".to_string(), "this is fine".to_string());
    context.value_labels.insert(
        "labels1".to_string(),
        "bar#".to_string(),
        "this@ is far too long to pss the test".to_string(),
    );

    context.report.metadata.variable_count = 4;
    context.report.metadata.raw_case_count = 10;
    context.variables = vec![first, second, badid, id];

    let words = dictionary_lines(&vec![WORDS.to_string()]);
    context.word_lists.value_label = words.clone();
    context.word_lists.variable_label = words.clone();
    context.word_lists.string_value = words;
    context.word_lists.stopword = dictionary_lines(&vec![STOPWORDS.to_string()]);
    context
}

#[test]
fn test_bad_filename() {
    let mut context = setup();

    assert!(context.report.get(CheckName::BadFileName).is_none());

    context.config.basic_file_checks.bad_filename = Some(Setting {
        setting: "^([a-zA-Z0-9]+)\\.([a-zA-Z0-9]+)$".to_string(),
        desc: "filename must match pattern".to_string(),
    });

    context.report.metadata.file_name = "goodfilename.dta".to_string();
    bad_filename(&mut context);
    assert_setting(context.report.get(CheckName::BadFileName), 1, 0);

    context.report.metadata.file_name = "bad& filename.foo".to_string();
    bad_filename(&mut context);
    assert_setting(context.report.get(CheckName::BadFileName), 0, 1);
}

#[test]
fn test_primary_variable() {
    let mut context = setup();
    assert!(context.report.metadata.case_count.is_none());

    context.config.metadata.primary_variable = Some(Setting {
        setting: String::from("first"),
        desc: String::from("primary variable"),
    });

    primary_variable(&mut context);
    if let Some(case_count) = context.report.metadata.case_count {
        assert_eq!(case_count, 3);
    } else {
        panic!("report.metadata.case_count should be Some(i32) but is None");
    }
}

#[test]
fn test_duplicate_values() {
    let mut context = setup();

    assert!(context.report.get(CheckName::DuplicateValues).is_none());

    context.config.data_integrity.duplicate_values = Some(Setting {
        setting: vec!["id", "badid"].iter().map(|s| s.to_string()).collect(),
        desc: "description from config".to_string(),
    });

    duplicate_values(&mut context);
    assert_setting(context.report.get(CheckName::DuplicateValues), 1, 1);
}

#[test]
fn test_system_missing_over_threshold() {
    let mut context = setup();

    assert!(context.report.get(CheckName::SystemMissingOverThreshold).is_none());

    context.config.data_integrity.system_missing_value_threshold = Some(Setting {
        setting: 25,
        desc: String::from("sysmiss values over a threshold"),
    });

    system_missing_over_threshold(&mut context);
    assert_setting(context.report.get(CheckName::SystemMissingOverThreshold), 3, 1);
}

#[test]
fn test_unique_values() {
    let mut context = setup();

    assert!(context.report.get(CheckName::VariablesWithUniqueValues).is_none());

    context.config.disclosure_risk.unique_values = Some(Setting {
        setting: 2,
        desc: String::from("outliers as defined by the threshold"),
    });

    unique_values(&mut context);
    assert_setting(context.report.get(CheckName::VariablesWithUniqueValues), 1, 3);
}

#[test]
fn test_value_label_max_length() {
    let mut context = setup();

    assert!(context.report.get(CheckName::ValueLabelMaxLength).is_none());

    context.config.metadata.value_label_max_length = Some(Setting {
        setting: 20,
        desc: String::from("value labels cannot be too long"),
    });

    value_label_max_length(&mut context);
    // each of the 24 values is examined; only the label of "bar#" is too long
    assert_setting(context.report.get(CheckName::ValueLabelMaxLength), 23, 1);
}

#[test]
fn test_value_label_odd_characters() {
    let mut context = setup();

    assert!(context.report.get(CheckName::ValueLabelOddCharacters).is_none());

    context.config.metadata.value_label_odd_characters = Some(Setting {
        setting: vec!["#", "@", "!"].iter().map(|s| s.to_string()).collect::<Vec<String>>(),
        desc: String::from("value labels shouldn't contain some characters"),
    });

    value_label_odd_characters(&mut context);
    assert_setting(context.report.get(CheckName::ValueLabelOddCharacters), 1, 1);
}

#[test]
fn test_string_value_odd_characters() {
    let mut context = setup();

    assert!(context.report.get(CheckName::StringValueOddCharacters).is_none());

    context.config.data_integrity.string_value_odd_characters = Some(Setting {
        setting: vec!["#", "@", "!"].iter().map(|s| s.to_string()).collect::<Vec<String>>(),
        desc: String::from("description from config"),
    })
}

#[test]
fn string_value_odd_characters_counts_text_values() {
    let mut context = setup();
    context.config.data_integrity.string_value_odd_characters = Some(Setting {
        setting: vec!["#", "@", "!"].iter().map(|s| s.to_string()).collect::<Vec<String>>(),
        desc: String::from("description from config"),
    });
    string_value_odd_characters(&mut context);
    // text values: bar#, !baz, qux, g@regs and the empty one
    assert_setting(context.report.get(CheckName::StringValueOddCharacters), 2, 3);
}

#[test]
fn test_regex_patterns() {
    let mut context = setup();

    assert!(context.report.get(CheckName::ValueRegexPatterns).is_none());

    context.config.disclosure_risk.regex_patterns = Some(Setting {
        setting: vec![r"^qux".to_string()],
        desc: "description from config".to_string(),
    });

    regex_patterns(&mut context);
    // each of the 24 values is examined; only "qux" matches
    assert_setting(context.report.get(CheckName::ValueRegexPatterns), 23, 1);
}

#[test]
fn invalid_regex_pattern_matches_nothing() {
    let mut context = setup();
    context.config.disclosure_risk.regex_patterns = Some(Setting {
        setting: vec![r"qux(".to_string()],
        desc: "description from config".to_string(),
    });
    regex_patterns(&mut context);
    assert_setting(context.report.get(CheckName::ValueRegexPatterns), 24, 0);
}

#[test]
fn test_value_label_spellcheck() {
    let mut context = setup();

    assert!(
        context.report.get(CheckName::ValueLabelSpellcheck).is_none(),
        "ValueLabelSpellcheck was set in the summary report"
    );

    context.config.metadata.value_label_spellcheck = Some(Setting {
        setting: vec!["test/words.txt".to_string()],
        desc: "spellcheck: description from config".to_string(),
    });

    value_label_spellcheck(&mut context);
    assert_setting(context.report.get(CheckName::ValueLabelSpellcheck), 1, 1);
}

#[test]
fn test_variable_label_spellcheck() {
    let mut context = setup();

    assert!(
        context.report.get(CheckName::VariableLabelSpellcheck).is_none(),
        "VariableLabelSpellcheck was set in the summary report"
    );

    context.config.metadata.variable_label_spellcheck = Some(Setting {
        setting: vec!["test/words.txt".to_string()],
        desc: "variable label spellcheck: description from config".to_string(),
    });

    variable_label_spellcheck(&mut context);
    assert_setting(context.report.get(CheckName::VariableLabelSpellcheck), 2, 2);
}

#[test]
fn test_string_value_spellcheck() {
    let mut context = setup();

    assert!(
        context.report.get(CheckName::StringValueSpellcheck).is_none(),
        "StringValueSpellcheck was set in the summary report."
    );

    context.config.data_integrity.string_value_spellcheck = Some(Setting {
        setting: vec!["test/words.txt".to_string()],
        desc: "string value spellcheck: description from config".to_string(),
    });

    string_value_spellcheck(&mut context);
    assert_setting(context.report.get(CheckName::StringValueSpellcheck), 3, 2);
}

#[test]
fn test_string_value_stopword() {
    let mut context = setup();

    assert!(
        context.report.get(CheckName::StringValueStopword).is_none(),
        "StringValueStopword was set in the summary report."
    );

    context.config.disclosure_risk.string_value_stopword = Some(Setting {
        setting: vec!["test/stopwords.txt".to_string()],
        desc: "string value stopword: desc from config".to_string(),
    });

    string_value_stopword(&mut context);
    assert_setting(context.report.get(CheckName::StringValueStopword), 4, 1);
}

#[test]
fn failures_are_located_only_when_asked() {
    let mut context = setup();
    context.config.metadata_only = Some(true);
    context.config.metadata.value_label_odd_characters = Some(Setting {
        setting: vec!["@".to_string()],
        desc: String::from("odd"),
    });
    value_label_odd_characters(&mut context);
    assert!(context.report.get(CheckName::ValueLabelOddCharacters).unwrap().locators.is_none());

    let mut context = setup();
    context.config.metadata.value_label_odd_characters = Some(Setting {
        setting: vec!["@".to_string()],
        desc: String::from("odd"),
    });
    context.config.data_integrity.string_value_spellcheck = Some(Setting {
        setting: vec!["test/words.txt".to_string()],
        desc: String::from("spelling"),
    });
    value_label_odd_characters(&mut context);
    string_value_spellcheck(&mut context);
    let odd = context.report.get(CheckName::ValueLabelOddCharacters).unwrap();
    let locators = odd.locators.as_ref().unwrap();
    assert_eq!(locators.len(), 1);
    assert_eq!(locators[0].variable_name, "first");
    assert_eq!(locators[0].value_index, -1);
    let spelling = context.report.get(CheckName::StringValueSpellcheck).unwrap();
    assert_eq!(spelling.locators.as_ref().unwrap().len() as u64, spelling.fail);
}

#[test]
fn duplicate_check_judges_each_variable_once() {
    let mut context = setup();
    context.config.data_integrity.duplicate_values = Some(Setting {
        setting: vec!["badid", "badid", "absent"].iter().map(|s| s.to_string()).collect(),
        desc: "description from config".to_string(),
    });
    duplicate_values(&mut context);
    assert_setting(context.report.get(CheckName::DuplicateValues), 2, 1);
}

#[test]
fn value_label_length_counts_each_value() {
    let mut context = setup();
    context.config.metadata.value_label_max_length = Some(Setting {
        setting: 5,
        desc: String::from("short labels"),
    });
    value_label_max_length(&mut context);
    // both labelled values of "first" fail
    assert_setting(context.report.get(CheckName::ValueLabelMaxLength), 22, 2);
}

#[test]
fn counts_that_miss_the_row_count_are_reported() {
    let mut context = setup();
    assert!(context.frequency_table.mismatched(10).is_empty());
    context.report.metadata.raw_case_count = 12;
    assert_eq!(context.frequency_table.mismatched(12), vec![0, 1, 2, 3]);
    let first = context.variables[0].clone();
    context.frequency_table.add(&first, Value::from("extra"), 2);
    assert_eq!(context.frequency_table.mismatched(12), vec![1, 2, 3]);
}
