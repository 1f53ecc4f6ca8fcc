//! Checks run once per value, as the values stream in.
use vstd::prelude::*;
use crate::config::Config;
use crate::model::{Missing, Value};
use crate::report::{keeps_locators, Category, CheckName, Locator, Report};

verus! {

/// The checks of this phase, in the order they run.
#[derive(Clone, Copy, Debug, PartialEq, Eq, Structural)]
pub enum ValueCheck {
    ValueDefinedMissingNoLabel,
}

/// Every value check, in the order they run.
pub fn register() -> (r: Vec<ValueCheck>)
    ensures
        r@ == seq![ValueCheck::ValueDefinedMissingNoLabel],
{
    let r = vec![ValueCheck::ValueDefinedMissingNoLabel];
    assert(r@ =~= seq![ValueCheck::ValueDefinedMissingNoLabel]);
    r
}

/// The locator of a value: its variable and its row.
pub open spec fn value_locator(v: &Value) -> Locator {
    Locator {
        variable_name: v.variable.name,
        variable_index: v.variable.index,
        value_index: v.row,
    }
}

/// What `value_defined_missing_no_label` leaves in the report.
pub open spec fn value_defined_missing_no_label_done(
    new: Report,
    old: Report,
    value: Value,
    config: Config,
) -> bool {
    match config.metadata.value_defined_missing_no_label {
        None => new == old,
        Some(s) => new.counted_once(
            &old,
            CheckName::ValueDefinedMissingNoLabel,
            s.desc@,
            Category::Metadata,
            s.setting && value.missing == Missing::DEFINED_MISSING && value.label@.len() == 0,
            value_locator(&value),
            keeps_locators(config.metadata_only),
        ),
    }
}

/// What running `check` leaves in the report.
pub open spec fn value_check_done(check: ValueCheck, new: Report, old: Report, value: Value, config: Config) -> bool {
    match check {
        ValueCheck::ValueDefinedMissingNoLabel => value_defined_missing_no_label_done(new, old, value, config),
    }
}

/// The checks `checks`, run in order on `value`, turn the summary of `old`
/// into that of `new`.
#[verifier::opaque]
pub open spec fn value_checks_ran(
    checks: Seq<ValueCheck>,
    new: Report,
    old: Report,
    value: Value,
    config: Config,
) -> bool {
    exists|rs: Seq<Report>|
        {
            &&& rs.len() == checks.len() + 1
            &&& rs[0] == old
            &&& rs.last().summary == new.summary
            &&& forall|k: int|
                0 <= k < checks.len() ==> value_check_done(#[trigger] checks[k], rs[k + 1], rs[k], value, config)
        }
}

/// A value fails when the setting is on, the value is a defined missing
/// value, and it has no label.
pub fn value_defined_missing_no_label(value: &Value, config: &Config, report: &mut Report)
    requires
        old(report).wf(),
        old(report).room(CheckName::ValueDefinedMissingNoLabel, 1),
    ensures
        value_defined_missing_no_label_done(*final(report), *old(report), *value, *config),
{
    if let Some(setting) = &config.metadata.value_defined_missing_no_label {
        let failed = setting.setting && value.missing == Missing::DEFINED_MISSING
            && value.label.as_str().is_empty();
        let loc = Locator::new(value.variable.name.clone(), value.variable.index, value.row);
        report.count_one(
            CheckName::ValueDefinedMissingNoLabel,
            setting.desc.as_str(),
            Category::Metadata,
            failed,
            loc,
            config.metadata_only != Some(true),
        );
    }
}

/// Runs one value check.
pub fn run_value_check(check: ValueCheck, value: &Value, config: &Config, report: &mut Report)
    requires
        old(report).wf(),
        forall|n: CheckName| old(report).room(n, 1),
    ensures
        final(report).wf(),
        final(report).metadata == old(report).metadata,
        forall|b: int| b >= 0 && #[trigger] old(report).bounded(b) ==> final(report).bounded(b + 1),
        forall|n: CheckName| n != CheckName::ValueDefinedMissingNoLabel ==> final(report).status(n) == old(report).status(n),
        value_check_done(check, *final(report), *old(report), *value, *config),
{
    let ghost before = *report;
    match check {
        ValueCheck::ValueDefinedMissingNoLabel => value_defined_missing_no_label(
            value,
            config,
            report,
        ),
    }
    proof {
        assert forall|b: int| b >= 0 && #[trigger] before.bounded(b) implies report.bounded(b + 1) by {
            if *report != before {
                crate::report::lemma_step_bounded(
                    *report,
                    before,
                    CheckName::ValueDefinedMissingNoLabel,
                    b,
                );
            }
        }
    }
}

} // verus!
