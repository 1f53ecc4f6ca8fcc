//! Checks run once per declared variable.
use vstd::prelude::*;
use crate::config::Config;
use crate::model::{decimal, decimal_text, Variable};
use crate::report::{keeps_locators, Category, CheckName, Locator, Report};
use crate::text::{contains, contains_any, list_text, listed, views};

verus! {

/// The checks of this phase, in the order they run.
#[derive(Clone, Copy, Debug, PartialEq, Eq, Structural)]
pub enum VariableCheck {
    DateFormat,
    MissingVariableLabels,
    VariableLabelMaxLength,
    VariableOddCharacters,
}

/// Every variable check, in the order they run.
pub fn register() -> (r: Vec<VariableCheck>)
    ensures
        r@ == seq![
            VariableCheck::DateFormat,
            VariableCheck::MissingVariableLabels,
            VariableCheck::VariableLabelMaxLength,
            VariableCheck::VariableOddCharacters,
        ],
{
    let r = vec![
        VariableCheck::DateFormat,
        VariableCheck::MissingVariableLabels,
        VariableCheck::VariableLabelMaxLength,
        VariableCheck::VariableOddCharacters,
    ];
    assert(r@ =~= seq![
        VariableCheck::DateFormat,
        VariableCheck::MissingVariableLabels,
        VariableCheck::VariableLabelMaxLength,
        VariableCheck::VariableOddCharacters,
    ]);
    r
}

/// The locator of a whole variable.
pub open spec fn variable_locator(v: &Variable) -> Locator {
    Locator { variable_name: v.name, variable_index: v.index, value_index: -1i32 }
}

/// The description of a length check: `desc (n characters)`.
pub open spec fn length_desc(desc: Seq<char>, n: i32) -> Seq<char> {
    desc + " ("@ + decimal(n as int) + " characters)"@
}

/// The description of a check over listed texts: `desc ["a", "b"]`.
pub open spec fn list_desc(desc: Seq<char>, items: Seq<String>) -> Seq<char> {
    desc + " "@ + listed(views(items))
}

pub(crate) fn length_description(desc: &String, n: i32) -> (r: String)
    ensures
        r@ == length_desc(desc@, n),
{
    let mut d = desc.clone();
    d.append(" (");
    let num = decimal_text(n as i64);
    d.append(num.as_str());
    d.append(" characters)");
    d
}

pub(crate) fn list_description(desc: &String, items: &Vec<String>) -> (r: String)
    ensures
        r@ == list_desc(desc@, items@),
{
    let mut d = desc.clone();
    d.append(" ");
    let l = list_text(items);
    d.append(l.as_str());
    d
}

/// What `date_format` leaves in the report.
pub open spec fn date_format_done(new: Report, old: Report, variable: Variable, config: Config) -> bool {
    match config.disclosure_risk.date_format {
        None => new == old,
        Some(s) => new.counted_once(
            &old,
            CheckName::DateFormat,
            s.desc@,
            Category::DisclosureRisk,
            contains_any(variable.value_format@, views(s.setting@)),
            variable_locator(&variable),
            keeps_locators(config.metadata_only),
        ),
    }
}

/// What `missing_variable_labels` leaves in the report.
pub open spec fn missing_variable_labels_done(new: Report, old: Report, variable: Variable, config: Config) -> bool {
    match config.metadata.missing_variable_labels {
        None => new == old,
        Some(s) => if s.setting {
            new.counted_once(
                &old,
                CheckName::MissingVariableLabels,
                s.desc@,
                Category::Metadata,
                variable.label@.len() == 0,
                variable_locator(&variable),
                keeps_locators(config.metadata_only),
            )
        } else {
            &&& new.wf()
            &&& new.same_except((&old), CheckName::MissingVariableLabels)
            &&& new.status(CheckName::MissingVariableLabels) matches Some(st)
                && st@ == crate::report::prior(
                old.status(CheckName::MissingVariableLabels),
                s.desc@,
                Category::Metadata,
            )
        },
    }
}

/// What `variable_label_max_length` leaves in the report.
pub open spec fn variable_label_max_length_done(new: Report, old: Report, variable: Variable, config: Config) -> bool {
    match config.metadata.variable_label_max_length {
        None => new == old,
        Some(s) => new.counted_once(
            &old,
            CheckName::VariableLabelMaxLength,
            length_desc(s.desc@, s.setting),
            Category::Metadata,
            variable.label@.len() > s.setting,
            variable_locator(&variable),
            keeps_locators(config.metadata_only),
        ),
    }
}

/// What `variable_odd_characters` leaves in the report.
pub open spec fn variable_odd_characters_done(new: Report, old: Report, variable: Variable, config: Config) -> bool {
    match config.metadata.variable_odd_characters {
        None => new == old,
        Some(s) => new.counted_once(
            &old,
            CheckName::VariableOddCharacters,
            list_desc(s.desc@, s.setting@),
            Category::Metadata,
            contains_any(variable.name@, views(s.setting@)) || contains_any(
                variable.label@,
                views(s.setting@),
            ),
            variable_locator(&variable),
            keeps_locators(config.metadata_only),
        ),
    }
}

/// What running `check` leaves in the report.
pub open spec fn variable_check_done(
    check: VariableCheck,
    new: Report,
    old: Report,
    variable: Variable,
    config: Config,
) -> bool {
    match check {
        VariableCheck::DateFormat => date_format_done(new, old, variable, config),
        VariableCheck::MissingVariableLabels => missing_variable_labels_done(new, old, variable, config),
        VariableCheck::VariableLabelMaxLength => variable_label_max_length_done(new, old, variable, config),
        VariableCheck::VariableOddCharacters => variable_odd_characters_done(new, old, variable, config),
    }
}

/// The checks `checks`, run in order on `variable`, turn the summary of
/// `old` into that of `new`.
#[verifier::opaque]
pub open spec fn variable_checks_ran(
    checks: Seq<VariableCheck>,
    new: Report,
    old: Report,
    variable: Variable,
    config: Config,
) -> bool {
    exists|rs: Seq<Report>|
        {
            &&& rs.len() == checks.len() + 1
            &&& rs[0] == old
            &&& rs.last().summary == new.summary
            &&& forall|k: int|
                0 <= k < checks.len() ==> variable_check_done(
                    #[trigger] checks[k],
                    rs[k + 1],
                    rs[k],
                    variable,
                    config,
                )
        }
}

/// A variable fails when its display format holds one of the configured
/// date or time specifiers.
pub fn date_format(variable: &Variable, config: &Config, report: &mut Report)
    requires
        old(report).wf(),
        old(report).room(CheckName::DateFormat, 1),
    ensures
        date_format_done(*final(report), *old(report), *variable, *config),
{
    if let Some(setting) = &config.disclosure_risk.date_format {
        let failed = contains(variable.value_format.as_str(), &setting.setting);
        let loc = Locator::new(variable.name.clone(), variable.index, -1);
        report.count_one(
            CheckName::DateFormat,
            setting.desc.as_str(),
            Category::DisclosureRisk,
            failed,
            loc,
            config.metadata_only != Some(true),
        );
    }
}

/// A variable fails when it has no label. The check is counted only when
/// its setting is `true`; when `false` its status is opened and left at zero.
pub fn missing_variable_labels(variable: &Variable, config: &Config, report: &mut Report)
    requires
        old(report).wf(),
        old(report).room(CheckName::MissingVariableLabels, 1),
    ensures
        missing_variable_labels_done(*final(report), *old(report), *variable, *config),
{
    if let Some(setting) = &config.metadata.missing_variable_labels {
        if setting.setting {
            let failed = variable.label.as_str().is_empty();
            let loc = Locator::new(variable.name.clone(), variable.index, -1);
            report.count_one(
                CheckName::MissingVariableLabels,
                setting.desc.as_str(),
                Category::Metadata,
                failed,
                loc,
                config.metadata_only != Some(true),
            );
        } else {
            report.include_check(
                CheckName::MissingVariableLabels,
                setting.desc.as_str(),
                Category::Metadata,
            );
        }
    }
}

/// A variable fails when its label is longer, in characters, than the maximum.
pub fn variable_label_max_length(variable: &Variable, config: &Config, report: &mut Report)
    requires
        old(report).wf(),
        old(report).room(CheckName::VariableLabelMaxLength, 1),
    ensures
        variable_label_max_length_done(*final(report), *old(report), *variable, *config),
{
    if let Some(setting) = &config.metadata.variable_label_max_length {
        let desc = length_description(&setting.desc, setting.setting);
        let len = crate::text::chars_of(variable.label.as_str()).len();
        let failed = setting.setting < 0 || len > setting.setting as usize;
        let loc = Locator::new(variable.name.clone(), variable.index, -1);
        report.count_one(
            CheckName::VariableLabelMaxLength,
            desc.as_str(),
            Category::Metadata,
            failed,
            loc,
            config.metadata_only != Some(true),
        );
    }
}

/// A variable fails when its name or its label holds one of the configured
/// odd characters.
pub fn variable_odd_characters(variable: &Variable, config: &Config, report: &mut Report)
    requires
        old(report).wf(),
        old(report).room(CheckName::VariableOddCharacters, 1),
    ensures
        variable_odd_characters_done(*final(report), *old(report), *variable, *config),
{
    if let Some(setting) = &config.metadata.variable_odd_characters {
        let desc = list_description(&setting.desc, &setting.setting);
        let failed = contains(variable.name.as_str(), &setting.setting) || contains(
            variable.label.as_str(),
            &setting.setting,
        );
        let loc = Locator::new(variable.name.clone(), variable.index, -1);
        report.count_one(
            CheckName::VariableOddCharacters,
            desc.as_str(),
            Category::Metadata,
            failed,
            loc,
            config.metadata_only != Some(true),
        );
    }
}

/// Runs one variable check.
pub fn run_variable_check(
    check: VariableCheck,
    variable: &Variable,
    config: &Config,
    report: &mut Report,
)
    requires
        old(report).wf(),
        forall|n: CheckName| old(report).room(n, 1),
    ensures
        final(report).wf(),
        final(report).metadata == old(report).metadata,
        forall|b: int| b >= 0 && #[trigger] old(report).bounded(b) ==> final(report).bounded(b + 1),
        variable_check_done(check, *final(report), *old(report), *variable, *config),
{
    let ghost before = *report;
    let ghost name = match check {
        VariableCheck::DateFormat => CheckName::DateFormat,
        VariableCheck::MissingVariableLabels => CheckName::MissingVariableLabels,
        VariableCheck::VariableLabelMaxLength => CheckName::VariableLabelMaxLength,
        VariableCheck::VariableOddCharacters => CheckName::VariableOddCharacters,
    };
    match check {
        VariableCheck::DateFormat => date_format(variable, config, report),
        VariableCheck::MissingVariableLabels => missing_variable_labels(variable, config, report),
        VariableCheck::VariableLabelMaxLength => variable_label_max_length(
            variable,
            config,
            report,
        ),
        VariableCheck::VariableOddCharacters => variable_odd_characters(variable, config, report),
    }
    proof {
        assert forall|b: int| b >= 0 && #[trigger] before.bounded(b) implies report.bounded(b + 1) by {
            if *report != before {
                crate::report::lemma_step_bounded(*report, before, name, b);
            }
        }
    }
}

} // verus!
