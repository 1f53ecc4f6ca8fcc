use qamd::config::{Config, Setting};
use qamd::model::{AnyValue, Missing, Value, Variable, VariableType};
use qamd::report::{CheckName, Report, Status};
use qamd::value_checks::value_defined_missing_no_label;

fn assert_setting(status: Option<&Status>, pass: u64, fail: u64) {
    match status {
        Some(s) => {
            assert_eq!(s.pass, pass);
            assert_eq!(s.fail, fail);
        }
        None => panic!(" is None and should be Some(Setting)"),
    }
}

fn setup() -> (Value, Config, Report) {
    let value = Value {
        variable: Variable {
            index: 0,
            name: String::from("test"),
            label: String::from("test variable label"),
            type_: VariableType::Text,
            value_format: String::new(),
            value_labels: String::new(),
        },
        row: 1,
        value: AnyValue::from("foo"),
        label: "this is a value label".to_string(),
        missing: Missing::NOT_MISSING,
    };

    (value, Config::default(), Report::new())
}

#[test]
fn test_value_defined_missing_no_label() {
    let (mut value, mut config, mut report) = setup();

    config.metadata.value_defined_missing_no_label = Some(Setting {
        setting: true,
        desc: "description from config".to_string(),
    });

    assert!(report.get(CheckName::ValueDefinedMissingNoLabel).is_none());

    value.missing = Missing::DEFINED_MISSING;
    value.label = "".to_string();

    value_defined_missing_no_label(&value, &config, &mut report);
    assert_setting(report.get(CheckName::ValueDefinedMissingNoLabel), 0, 1);

    value.missing = Missing::NOT_MISSING;

    value_defined_missing_no_label(&value, &config, &mut report);
    assert_setting(report.get(CheckName::ValueDefinedMissingNoLabel), 1, 1);
}

#[test]
fn missingness_precedence() {
    assert_eq!(Missing::from_signals(true, true, 'a', true), Missing::TAGGED_MISSING('a'));
    assert_eq!(Missing::from_signals(true, false, 'a', true), Missing::DEFINED_MISSING);
    assert_eq!(Missing::from_signals(true, false, 'a', false), Missing::SYSTEM_MISSING);
    assert_eq!(Missing::from_signals(false, false, 'a', false), Missing::NOT_MISSING);
    assert_eq!(Missing::TAGGED_MISSING('z').to_text(), "TAGGED_MISSING(z)");
}

#[test]
fn value_texts() {
    assert_eq!(AnyValue::Int32(-2147483648).to_text(), "-2147483648");
    assert_eq!(AnyValue::Int8(0).to_text(), "0");
    assert_eq!(AnyValue::Int16(1234).to_text(), "1234");
    assert_eq!(AnyValue::float_from_decimal("1").to_text(), "1.0");
    assert_eq!(AnyValue::double_from_decimal("-30").to_text(), "-30.0");
    assert_eq!(AnyValue::double_from_decimal(&format!("{}", 1e20f64)).to_text(), "100000000000000000000.0");
    assert_eq!(AnyValue::double_from_decimal("2.5").to_text(), "2.5");
    assert_eq!(AnyValue::double_from_decimal("NaN").to_text(), "NaN");
    assert_eq!(AnyValue::double_from_decimal("inf").to_text(), "inf");
    assert_eq!(AnyValue::double_from_decimal("-").to_text(), "-");
}
