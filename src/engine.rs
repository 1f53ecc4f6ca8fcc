//! The whole run: ingestion, then the post checks in registration order.
use vstd::prelude::*;
use crate::config::Config;
use crate::context::{ingest, values_for, Context, Event, WordLists};
use crate::dictionary::{string_value_spellcheck, string_value_stopword, value_label_spellcheck, variable_label_spellcheck};
use crate::frequency::{total, ValueCount, VariableFrequencies};
use crate::post_checks::{
    bad_filename, bad_filename_done, duplicate_values, duplicate_values_done, how_many,
    label_count, lemma_how_many_bounds, lemma_how_many_step, lemma_sum_prefix, lemma_sum_step,
    lemma_take_all, primary_variable, primary_variable_done, regex_patterns, regex_patterns_done,
    string_value_odd_characters, string_value_odd_characters_done, sum_of,
    system_missing_over_threshold, system_missing_over_threshold_done, text_value, text_values,
    value_count,
    unique_values, unique_values_done, value_label_max_length, value_label_max_length_done,
    value_label_odd_characters, value_label_odd_characters_done,
};
use crate::report::{CheckName, Report};

verus! {

/// The post checks, in the order they run.
#[derive(Clone, Copy, Debug, PartialEq, Eq, Structural)]
pub enum PostCheck {
    BadFilename,
    PrimaryVariable,
    ValueLabelOddCharacters,
    ValueLabelMaxLength,
    ValueLabelSpellcheck,
    VariableLabelSpellcheck,
    DuplicateValues,
    StringValueOddCharacters,
    SystemMissingOverThreshold,
    StringValueSpellcheck,
    RegexPatterns,
    UniqueValues,
    StringValueStopword,
}

/// Every post check, in the order they run.
pub open spec fn post_checks() -> Seq<PostCheck> {
    seq![
        PostCheck::BadFilename,
        PostCheck::PrimaryVariable,
        PostCheck::ValueLabelOddCharacters,
        PostCheck::ValueLabelMaxLength,
        PostCheck::ValueLabelSpellcheck,
        PostCheck::VariableLabelSpellcheck,
        PostCheck::DuplicateValues,
        PostCheck::StringValueOddCharacters,
        PostCheck::SystemMissingOverThreshold,
        PostCheck::StringValueSpellcheck,
        PostCheck::RegexPatterns,
        PostCheck::UniqueValues,
        PostCheck::StringValueStopword,
    ]
}

/// Every post check, in the order they run.
pub fn register() -> (r: Vec<PostCheck>)
    ensures
        r@ == post_checks(),
{
    let r = vec![
        PostCheck::BadFilename,
        PostCheck::PrimaryVariable,
        PostCheck::ValueLabelOddCharacters,
        PostCheck::ValueLabelMaxLength,
        PostCheck::ValueLabelSpellcheck,
        PostCheck::VariableLabelSpellcheck,
        PostCheck::DuplicateValues,
        PostCheck::StringValueOddCharacters,
        PostCheck::SystemMissingOverThreshold,
        PostCheck::StringValueSpellcheck,
        PostCheck::RegexPatterns,
        PostCheck::UniqueValues,
        PostCheck::StringValueStopword,
    ];
    assert(r@ =~= post_checks());
    r
}

/// Whether `name` has room for `n` more passes and failures.
fn room_for(report: &Report, name: CheckName, n: u64) -> (r: bool)
    requires
        report.wf(),
    ensures
        r == report.room(name, n as int),
{
    match report.get(name) {
        None => true,
        Some(s) => s.pass <= u64::MAX - n && s.fail <= u64::MAX - n,
    }
}

/// The number of text values in the frequency table, if it fits.
fn text_value_count(context: &Context) -> (r: Option<u64>)
    ensures
        r matches Some(c) ==> c == sum_of(
            context.frequency_table.entries@,
            |e: VariableFrequencies| text_values(e),
        ),
        r is None ==> sum_of(
            context.frequency_table.entries@,
            |e: VariableFrequencies| text_values(e),
        ) > u64::MAX,
{
    let es = &context.frequency_table.entries;
    let ghost f = |e: VariableFrequencies| text_values(e);
    let mut sum: u64 = 0;
    let mut i: usize = 0;
    while i < es.len()
        invariant
            es@ == context.frequency_table.entries@,
            i <= es@.len(),
            sum == sum_of(es@.take(i as int), f),
            forall|e: VariableFrequencies| #[trigger] f(e) == text_values(e),
        decreases es@.len() - i,
    {
        let vs = &es[i].values;
        let ghost p = |v: ValueCount| text_value(v);
        let mut c: u64 = 0;
        let mut k: usize = 0;
        while k < vs.len()
            invariant
                es@ == context.frequency_table.entries@,
                i < es@.len(),
                vs@ == es@[i as int].values@,
                k <= vs@.len(),
                c <= k,
                c == how_many(vs@.take(k as int), p),
                forall|v: ValueCount| #[trigger] p(v) == text_value(v),
            decreases vs@.len() - k,
        {
            proof {
                lemma_how_many_step(vs@, k as int, p);
            }
            if let crate::model::AnyValue::Str(_) = &vs[k].value.value {
                c = c + 1;
            }
            k += 1;
        }
        proof {
            lemma_take_all(vs@);
            lemma_sum_step(es@, i as int, f);
            assert forall|e: VariableFrequencies| #[trigger] f(e) >= 0 by {
                lemma_how_many_bounds(e.values@, |v: ValueCount| text_value(v));
            }
            lemma_sum_prefix(es@, i + 1, f);
            assert(c == text_values(es@[i as int]));
            assert(sum_of(es@.take(i + 1), f) == sum + c);
            assert(sum_of(es@.take(i + 1), f) <= sum_of(es@, f));
        }
        if sum > u64::MAX - c {
            assert(f =~= (|e: VariableFrequencies| text_values(e)));
            return None;
        }
        sum = sum + c;
        i += 1;
    }
    proof {
        lemma_take_all(es@);
    }
    Some(sum)
}

/// The number of distinct values in the frequency table, if it fits.
fn value_total(context: &Context) -> (r: Option<u64>)
    ensures
        r matches Some(c) ==> c == sum_of(
            context.frequency_table.entries@,
            |e: VariableFrequencies| value_count(e),
        ),
        r is None ==> sum_of(
            context.frequency_table.entries@,
            |e: VariableFrequencies| value_count(e),
        ) > u64::MAX,
{
    let es = &context.frequency_table.entries;
    let ghost f = |e: VariableFrequencies| value_count(e);
    let mut sum: u64 = 0;
    let mut i: usize = 0;
    while i < es.len()
        invariant
            es@ == context.frequency_table.entries@,
            i <= es@.len(),
            sum == sum_of(es@.take(i as int), f),
            forall|e: VariableFrequencies| #[trigger] f(e) == value_count(e),
        decreases es@.len() - i,
    {
        let c = es[i].values.len() as u64;
        proof {
            lemma_sum_step(es@, i as int, f);
            assert forall|e: VariableFrequencies| #[trigger] f(e) >= 0 by {}
            lemma_sum_prefix(es@, i + 1, f);
        }
        if sum > u64::MAX - c {
            assert(f =~= (|e: VariableFrequencies| value_count(e)));
            return None;
        }
        sum = sum + c;
        i += 1;
    }
    proof {
        lemma_take_all(es@);
    }
    Some(sum)
}

/// The number of labels in the label sets of the declared variables, if
/// it fits.
fn label_count_total(context: &Context) -> (r: Option<u64>)
    requires
        context.value_labels.wf(),
    ensures
        r matches Some(c) ==> c == sum_of(
            context.variables@,
            |v: crate::model::Variable| label_count(context.value_labels, v),
        ),
        r is None ==> sum_of(
            context.variables@,
            |v: crate::model::Variable| label_count(context.value_labels, v),
        ) > u64::MAX,
{
    let vs = &context.variables;
    let labels = &context.value_labels;
    let ghost f = |v: crate::model::Variable| label_count(context.value_labels, v);
    let mut sum: u64 = 0;
    let mut i: usize = 0;
    while i < vs.len()
        invariant
            vs@ == context.variables@,
            *labels == context.value_labels,
            i <= vs@.len(),
            labels.wf(),
            sum == sum_of(vs@.take(i as int), f),
            forall|v: crate::model::Variable| #[trigger] f(v) == label_count(context.value_labels, v),
        decreases vs@.len() - i,
    {
        let c: u64 = match labels.position(&vs[i].value_labels) {
            None => 0,
            Some(p) => {
                proof {
                    crate::frequency::lemma_set_at(*labels, p as int);
                }
                labels.sets[p].labels.len() as u64
            },
        };
        proof {
            lemma_sum_step(vs@, i as int, f);
            assert forall|v: crate::model::Variable| #[trigger] f(v) >= 0 by {}
            lemma_sum_prefix(vs@, i + 1, f);
        }
        if sum > u64::MAX - c {
            assert(f =~= (|v: crate::model::Variable| label_count(context.value_labels, v)));
            return None;
        }
        sum = sum + c;
        i += 1;
    }
    proof {
        lemma_take_all(vs@);
    }
    Some(sum)
}

/// Whether the occurrences of each variable add up to a `u64`.
fn totals_fit(context: &Context) -> (r: bool)
    ensures
        r == context.frequency_table.totals_fit(),
{
    let es = &context.frequency_table.entries;
    let mut i: usize = 0;
    while i < es.len()
        invariant
            es@ == context.frequency_table.entries@,
            i <= es@.len(),
            forall|p: int| 0 <= p < i ==> total(#[trigger] es@[p].values@) <= u64::MAX,
        decreases es@.len() - i,
    {
        let vs = &es[i].values;
        let mut sum: u64 = 0;
        let mut k: usize = 0;
        while k < vs.len()
            invariant
                es@ == context.frequency_table.entries@,
                vs@ == es@[i as int].values@,
                i < es@.len(),
                k <= vs@.len(),
                sum == total(vs@.take(k as int)),
            decreases vs@.len() - k,
        {
            proof {
                assert(vs@.take(k + 1).drop_last() =~= vs@.take(k as int));
            }
            if sum > u64::MAX - vs[k].count {
                proof {
                    let t = vs@.take(k + 1);
                    assert(t.drop_last() =~= vs@.take(k as int));
                    assert(t.last() == vs@[k as int]);
                    assert(total(t) == sum + vs@[k as int].count);
                    crate::frequency::lemma_total_prefix(vs@, k + 1);
                    assert(total(es@[i as int].values@) > u64::MAX);
                    assert(total(context.frequency_table.entries@[i as int].values@) > u64::MAX);
                    assert(!context.frequency_table.totals_fit());
                }
                return false;
            }
            sum = sum + vs[k].count;
            k += 1;
        }
        proof {
            lemma_take_all(vs@);
        }
        i += 1;
    }
    true
}

/// There is room for the counts of `check`: they fit in a `u64` (and, for
/// the threshold check, so do the occurrences of each variable).
pub open spec fn post_check_fits(check: PostCheck, ctx: &Context) -> bool {
    let n = ctx.frequency_table.entries@.len() as int;
    match check {
        PostCheck::BadFilename => true,
        PostCheck::PrimaryVariable => true,
        PostCheck::ValueLabelOddCharacters => ctx.report.room(
            CheckName::ValueLabelOddCharacters,
            sum_of(ctx.variables@, |v: crate::model::Variable| label_count(ctx.value_labels, v)),
        ),
        PostCheck::ValueLabelMaxLength => ctx.report.room(
            CheckName::ValueLabelMaxLength,
            sum_of(ctx.frequency_table.entries@, |e: VariableFrequencies| value_count(e)),
        ),
        PostCheck::ValueLabelSpellcheck => ctx.report.room(CheckName::ValueLabelSpellcheck, usize::MAX as int),
        PostCheck::VariableLabelSpellcheck => ctx.report.room(
            CheckName::VariableLabelSpellcheck,
            usize::MAX as int,
        ),
        PostCheck::DuplicateValues => ctx.report.room(
            CheckName::DuplicateValues,
            match ctx.config.data_integrity.duplicate_values {
                Some(s) => s.setting@.len() as int,
                None => 0,
            } + n,
        ),
        PostCheck::StringValueOddCharacters => ctx.report.room(
            CheckName::StringValueOddCharacters,
            sum_of(ctx.frequency_table.entries@, |e: VariableFrequencies| text_values(e)),
        ),
        PostCheck::SystemMissingOverThreshold => ctx.frequency_table.totals_fit() && ctx.report.room(
            CheckName::SystemMissingOverThreshold,
            n,
        ),
        PostCheck::StringValueSpellcheck => ctx.report.room(CheckName::StringValueSpellcheck, usize::MAX as int),
        PostCheck::RegexPatterns => ctx.report.room(
            CheckName::ValueRegexPatterns,
            sum_of(ctx.frequency_table.entries@, |e: VariableFrequencies| value_count(e)),
        ),
        PostCheck::UniqueValues => ctx.report.room(CheckName::VariablesWithUniqueValues, n),
        PostCheck::StringValueStopword => ctx.report.room(CheckName::StringValueStopword, usize::MAX as int),
    }
}

/// What running `check` leaves in the context.
pub open spec fn post_check_done(check: PostCheck, new: &Context, old: &Context) -> bool {
    match check {
        PostCheck::BadFilename => bad_filename_done(new, old),
        PostCheck::PrimaryVariable => primary_variable_done(new, old),
        PostCheck::ValueLabelOddCharacters => value_label_odd_characters_done(new, old),
        PostCheck::ValueLabelMaxLength => value_label_max_length_done(new, old),
        PostCheck::ValueLabelSpellcheck => crate::dictionary::value_label_spellcheck_done(new, old),
        PostCheck::VariableLabelSpellcheck => crate::dictionary::variable_label_spellcheck_done(new, old),
        PostCheck::DuplicateValues => duplicate_values_done(new, old),
        PostCheck::StringValueOddCharacters => string_value_odd_characters_done(new, old),
        PostCheck::SystemMissingOverThreshold => system_missing_over_threshold_done(new, old),
        PostCheck::StringValueSpellcheck => crate::dictionary::string_value_spellcheck_done(new, old),
        PostCheck::RegexPatterns => regex_patterns_done(new, old),
        PostCheck::UniqueValues => unique_values_done(new, old),
        PostCheck::StringValueStopword => crate::dictionary::string_value_stopword_done(new, old),
    }
}

/// Runs one post check. A check whose counts could not be held in a `u64`
/// is left out.
pub fn run_post_check(check: PostCheck, context: &mut Context)
    requires
        old(context).wf(),
    ensures
        final(context).wf(),
        final(context).report_only(old(context)),
        final(context).report.metadata.file_name == old(context).report.metadata.file_name,
        final(context).report.metadata.raw_case_count == old(context).report.metadata.raw_case_count,
        post_check_fits(check, old(context)) ==> post_check_done(check, final(context), old(context)),
        old(context).config.checks_disabled() ==> final(context).report == old(context).report,
        !post_check_fits(check, old(context)) ==> *final(context) == *old(context),
{
    let n = context.frequency_table.entries.len() as u64;
    match check {
        PostCheck::BadFilename => bad_filename(context),
        PostCheck::PrimaryVariable => primary_variable(context),
        PostCheck::ValueLabelOddCharacters => {
            if let Some(c) = label_count_total(context) {
                if room_for(&context.report, CheckName::ValueLabelOddCharacters, c) {
                    value_label_odd_characters(context);
                }
            }
        },
        PostCheck::ValueLabelMaxLength => {
            if let Some(c) = value_total(context) {
                if room_for(&context.report, CheckName::ValueLabelMaxLength, c) {
                    value_label_max_length(context);
                }
            }
        },
        PostCheck::ValueLabelSpellcheck => {
            if room_for(&context.report, CheckName::ValueLabelSpellcheck, usize::MAX as u64) {
                value_label_spellcheck(context);
            }
        },
        PostCheck::VariableLabelSpellcheck => {
            if room_for(&context.report, CheckName::VariableLabelSpellcheck, usize::MAX as u64) {
                variable_label_spellcheck(context);
            }
        },
        PostCheck::DuplicateValues => {
            let names = match &context.config.data_integrity.duplicate_values {
                Some(s) => s.setting.len() as u64,
                None => 0,
            };
            if names <= u64::MAX - n && room_for(&context.report, CheckName::DuplicateValues, names + n) {
                duplicate_values(context);
            }
        },
        PostCheck::StringValueOddCharacters => {
            if let Some(c) = text_value_count(context) {
                if room_for(&context.report, CheckName::StringValueOddCharacters, c) {
                    string_value_odd_characters(context);
                }
            }
        },
        PostCheck::SystemMissingOverThreshold => {
            if totals_fit(context) && room_for(&context.report, CheckName::SystemMissingOverThreshold, n) {
                system_missing_over_threshold(context);
            }
        },
        PostCheck::StringValueSpellcheck => {
            if room_for(&context.report, CheckName::StringValueSpellcheck, usize::MAX as u64) {
                string_value_spellcheck(context);
            }
        },
        PostCheck::RegexPatterns => {
            if let Some(c) = value_total(context) {
                if room_for(&context.report, CheckName::ValueRegexPatterns, c) {
                    regex_patterns(context);
                }
            }
        },
        PostCheck::UniqueValues => {
            if room_for(&context.report, CheckName::VariablesWithUniqueValues, n) {
                unique_values(context);
            }
        },
        PostCheck::StringValueStopword => {
            if room_for(&context.report, CheckName::StringValueStopword, usize::MAX as u64) {
                string_value_stopword(context);
            }
        },
    }
}

/// The post checks `checks`, run in order, turn `old` into `new`; a check
/// whose counts would not fit is left out.
#[verifier::opaque]
pub open spec fn post_checks_ran(checks: Seq<PostCheck>, new: Context, old: Context) -> bool {
    exists|cs: Seq<Context>|
        {
            &&& cs.len() == checks.len() + 1
            &&& cs[0] == old
            &&& cs.last() == new
            &&& forall|k: int|
                0 <= k < checks.len() ==> {
                    &&& post_check_fits(#[trigger] checks[k], &cs[k]) ==> post_check_done(
                        checks[k],
                        &cs[k + 1],
                        &cs[k],
                    )
                    &&& !post_check_fits(checks[k], &cs[k]) ==> cs[k + 1] == cs[k]
                }
        }
}

/// Runs every post check of the context's registry, in order.
pub fn run_post_checks(context: &mut Context)
    requires
        old(context).wf(),
    ensures
        final(context).wf(),
        final(context).report_only(old(context)),
        final(context).report.metadata.file_name == old(context).report.metadata.file_name,
        final(context).report.metadata.raw_case_count == old(context).report.metadata.raw_case_count,
        post_checks_ran(old(context).checks.post@, *final(context), *old(context)),
        old(context).config.checks_disabled() ==> final(context).report == old(context).report,
{
    let n = context.checks.post.len();
    let mut i: usize = 0;
    let ghost cs = seq![*context];
    while i < n
        invariant
            context.config.checks_disabled() ==> context.report == old(context).report,
            cs.len() == i + 1,
            cs[0] == *old(context),
            cs.last() == *context,
            forall|k: int|
                0 <= k < i ==> {
                    &&& post_check_fits(#[trigger] context.checks.post@[k], &cs[k]) ==> post_check_done(
                        context.checks.post@[k],
                        &cs[k + 1],
                        &cs[k],
                    )
                    &&& !post_check_fits(context.checks.post@[k], &cs[k]) ==> cs[k + 1] == cs[k]
                },
            n == context.checks.post@.len(),
            i <= n,
            context.wf(),
            context.report_only(old(context)),
            context.report.metadata.file_name == old(context).report.metadata.file_name,
            context.report.metadata.raw_case_count == old(context).report.metadata.raw_case_count,
        decreases n - i,
    {
        let check = context.checks.post[i];
        run_post_check(check, context);
        proof {
            cs = cs.push(*context);
        }
        i += 1;
    }
    proof {
        reveal(post_checks_ran);
    }
}

/// What `ingest` gives for `events` under `config`, but for the file name,
/// which `run` sets afterwards.
pub open spec fn ingested(c: Context, events: Seq<Event>, config: Config) -> bool {
    &&& c.wf()
    &&& c.config == config
    &&& crate::context::registered(c.checks)
    &&& crate::context::file_facts(c.report.metadata, crate::context::last_info(events))
    &&& c.report.bounded(4 * events.len() as int)
    &&& forall|x: i32| #[trigger] c.frequency_table.total_of(x) == values_for(events, x)
    &&& forall|x: i32|
        crate::context::declared(events, x) <==> exists|p: int|
            0 <= p < c.variables@.len() && (#[trigger] c.variables@[p]).index == x
    &&& config.checks_disabled() ==> forall|k: int| 0 <= k < c.report.summary@.len() ==> #[trigger] c.report.summary@[k] is None
}

/// Analyses a data set: reads the reader's events, then runs the post
/// checks in order, and returns the final context, whose report is the
/// result. The frequency table it builds holds,
/// for every variable index, as many occurrences as the stream gave values
/// of a declared variable with that index.
pub fn run(events: &Vec<Event>, config: Config, file_name: String, word_lists: WordLists) -> (r: Context)
    requires
        8 * events@.len() <= u64::MAX,
    ensures
        r.wf(),
        r.config == config,
        forall|x: i32| #[trigger] r.frequency_table.total_of(x) == values_for(events@, x),
        r.report.metadata.file_name == file_name,
        r.word_lists == word_lists,
        exists|c: Context|
            {
                &&& ingested(c, events@, config)
                &&& c.word_lists == word_lists
                &&& c.report.metadata.file_name == file_name
                &&& c.frequency_table == r.frequency_table
                &&& c.variables == r.variables
                &&& c.value_labels == r.value_labels
                &&& post_checks_ran(c.checks.post@, r, c)
            },
        config.checks_disabled() ==> {
            &&& forall|k: int| 0 <= k < r.report.summary@.len() ==> #[trigger] r.report.summary@[k] is None
            &&& r.report.metadata.case_count is None
        },
{
    let mut context = ingest(events, config);
    context.report.metadata.file_name = file_name;
    context.word_lists = word_lists;
    let ghost ingested_ctx = context;
    proof {
        assert(ingested(ingested_ctx, events@, config));
    }
    run_post_checks(&mut context);
    assert(ingested_ctx.frequency_table == context.frequency_table);
    assert(ingested_ctx.variables == context.variables);
    assert(ingested_ctx.value_labels == context.value_labels);
    assert(post_checks_ran(ingested_ctx.checks.post@, context, ingested_ctx));
    context
}

} // verus!
