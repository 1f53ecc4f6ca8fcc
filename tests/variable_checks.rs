use qamd::config::{Config, Setting};
use qamd::model::Variable;
use qamd::report::{CheckName, Report, Status};
use qamd::variable_checks::{date_format, missing_variable_labels, variable_label_max_length, variable_odd_characters};

fn assert_setting(status: Option<&Status>, pass: u64, fail: u64) {
    match status {
        Some(s) => {
            assert_eq!(s.pass, pass);
            assert_eq!(s.fail, fail);
        }
        None => panic!(" is None and should be Some(Setting)"),
    }
}

fn setup() -> (Variable, Config, Report) {
    let variable = Variable::from("foo");

    let mut config = Config::new();
    config.metadata.missing_variable_labels = Some(Setting {
        setting: true,
        desc: String::from("variables with no labels"),
    });

    config.disclosure_risk.date_format = Some(Setting {
        setting: vec!["SDATE", "TIME", "JJJ"].iter().map(|s| s.to_string()).collect::<Vec<String>>(),
        desc: String::from("date format"),
    });

    config.metadata.variable_label_max_length = Some(Setting {
        setting: 15,
        desc: String::from("label max length"),
    });

    config.metadata.variable_odd_characters = Some(Setting {
        setting: vec!["#", "@"].iter().map(|s| s.to_string()).collect::<Vec<String>>(),
        desc: String::from("variable odd characters"),
    });

    (variable, config, Report::new())
}

#[test]
fn test_date_format() {
    let (mut variable, config, mut report) = setup();

    assert!(report.get(CheckName::DateFormat).is_none());

    date_format(&variable, &config, &mut report);
    assert_setting(report.get(CheckName::DateFormat), 1, 0);

    variable.value_format = String::from("SDATE");
    date_format(&variable, &config, &mut report);
    assert_setting(report.get(CheckName::DateFormat), 1, 1);
}

#[test]
fn test_missing_variable_labels() {
    let (mut variable, config, mut report) = setup();

    assert!(report.get(CheckName::MissingVariableLabels).is_none());

    missing_variable_labels(&variable, &config, &mut report);
    assert_setting(report.get(CheckName::MissingVariableLabels), 0, 1);

    variable.label = String::from("variable label");
    missing_variable_labels(&variable, &config, &mut report);
    assert_setting(report.get(CheckName::MissingVariableLabels), 1, 1);
}

#[test]
fn test_variable_label_max_length() {
    let (mut variable, config, mut report) = setup();

    assert!(report.get(CheckName::VariableLabelMaxLength).is_none());

    variable.label = String::from("variable label");
    variable_label_max_length(&variable, &config, &mut report);
    assert_setting(report.get(CheckName::VariableLabelMaxLength), 1, 0);

    variable.label = String::from("variable label is far too long to pass the test");
    variable_label_max_length(&variable, &config, &mut report);
    assert_setting(report.get(CheckName::VariableLabelMaxLength), 1, 1);
}

#[test]
fn test_variable_odd_characters() {
    let (mut variable, config, mut report) = setup();

    assert!(report.get(CheckName::VariableOddCharacters).is_none());

    variable_odd_characters(&variable, &config, &mut report);
    assert_setting(report.get(CheckName::VariableOddCharacters), 1, 0);

    variable.name = String::from("foo@");
    variable_odd_characters(&variable, &config, &mut report);
    assert_setting(report.get(CheckName::VariableOddCharacters), 1, 1);

    variable.name = String::from("foo");
    variable.label = String::from("bad #label");
    variable_odd_characters(&variable, &config, &mut report);
    assert_setting(report.get(CheckName::VariableOddCharacters), 1, 2);
}

#[test]
fn variable_check_descriptions_carry_the_setting() {
    let (variable, config, mut report) = setup();
    variable_label_max_length(&variable, &config, &mut report);
    variable_odd_characters(&variable, &config, &mut report);
    assert_eq!(report.get(CheckName::VariableLabelMaxLength).unwrap().desc, "label max length (15 characters)");
    assert_eq!(report.get(CheckName::VariableOddCharacters).unwrap().desc, "variable odd characters [\"#\", \"@\"]");
}

#[test]
fn absent_setting_leaves_report_alone() {
    let variable = Variable::from("foo");
    let config = Config::new();
    let mut report = Report::new();
    date_format(&variable, &config, &mut report);
    missing_variable_labels(&variable, &config, &mut report);
    assert!(report.get(CheckName::DateFormat).is_none());
    assert!(report.get(CheckName::MissingVariableLabels).is_none());
}

#[test]
fn locators_only_when_asked() {
    let (mut variable, mut config, mut report) = setup();
    variable.value_format = String::from("SDATE");
    variable.index = 3;
    config.metadata_only = Some(true);
    date_format(&variable, &config, &mut report);
    assert!(report.get(CheckName::DateFormat).unwrap().locators.is_none());

    config.metadata_only = None;
    date_format(&variable, &config, &mut report);
    date_format(&variable, &config, &mut report);
    let status = report.get(CheckName::DateFormat).unwrap();
    assert_eq!(status.fail, 3);
    let locators = status.locators.as_ref().unwrap();
    assert_eq!(locators.len(), 1);
    assert_eq!(locators[0].variable_index, 3);
    assert_eq!(locators[0].value_index, -1);
}
