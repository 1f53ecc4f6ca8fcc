//! Checks run once, after the whole stream was read, over the complete
//! frequency table, variable list and value-label sets.
use vstd::prelude::*;
use crate::context::Context;
use crate::frequency::{total, ValueCount, VariableFrequencies};
use crate::model::Missing;
use crate::pattern::{matches_pattern, pattern_hits};
use crate::report::{keeps_locators, Category, CheckName, Locator, Report, Status};
use crate::text::views;

verus! {

/// How many elements of `s` satisfy `p`.
pub open spec fn how_many<T>(s: Seq<T>, p: spec_fn(T) -> bool) -> int
    decreases s.len(),
{
    if s.len() == 0 {
        0
    } else {
        how_many(s.drop_last(), p) + if p(s.last()) {
            1int
        } else {
            0int
        }
    }
}

/// The sum of `f` over the elements of `s`.
pub open spec fn sum_of<T>(s: Seq<T>, f: spec_fn(T) -> int) -> int
    decreases s.len(),
{
    if s.len() == 0 {
        0
    } else {
        sum_of(s.drop_last(), f) + f(s.last())
    }
}

pub proof fn lemma_how_many_step<T>(s: Seq<T>, i: int, p: spec_fn(T) -> bool)
    requires
        0 <= i < s.len(),
    ensures
        how_many(s.take(i + 1), p) == how_many(s.take(i), p) + if p(s[i]) {
            1int
        } else {
            0int
        },
{
    assert(s.take(i + 1).drop_last() =~= s.take(i));
}

pub proof fn lemma_how_many_bounds<T>(s: Seq<T>, p: spec_fn(T) -> bool)
    ensures
        0 <= how_many(s, p) <= s.len(),
    decreases s.len(),
{
    if s.len() > 0 {
        lemma_how_many_bounds(s.drop_last(), p);
    }
}

pub proof fn lemma_sum_step<T>(s: Seq<T>, i: int, f: spec_fn(T) -> int)
    requires
        0 <= i < s.len(),
    ensures
        sum_of(s.take(i + 1), f) == sum_of(s.take(i), f) + f(s[i]),
{
    assert(s.take(i + 1).drop_last() =~= s.take(i));
}

pub proof fn lemma_sum_prefix<T>(s: Seq<T>, i: int, f: spec_fn(T) -> int)
    requires
        0 <= i <= s.len(),
        forall|x: T| #[trigger] f(x) >= 0,
    ensures
        0 <= sum_of(s.take(i), f) <= sum_of(s, f),
    decreases s.len(),
{
    if i < s.len() {
        assert(s.drop_last().take(i) =~= s.take(i));
        lemma_sum_prefix(s.drop_last(), i, f);
    } else {
        assert(s.take(i) =~= s);
        lemma_sum_nonneg(s, f);
    }
}

pub proof fn lemma_sum_nonneg<T>(s: Seq<T>, f: spec_fn(T) -> int)
    requires
        forall|x: T| #[trigger] f(x) >= 0,
    ensures
        sum_of(s, f) >= 0,
    decreases s.len(),
{
    if s.len() > 0 {
        lemma_sum_nonneg(s.drop_last(), f);
    }
}

pub proof fn lemma_take_all<T>(s: Seq<T>)
    ensures
        s.take(s.len() as int) == s,
{
    assert(s.take(s.len() as int) =~= s);
}

impl Context {
    /// Only the report differs between `self` and `old`.
    pub open spec fn report_only(&self, old: &Context) -> bool {
        &&& self.config == old.config
        &&& self.checks == old.checks
        &&& self.variables == old.variables
        &&& self.value_labels == old.value_labels
        &&& self.frequency_table == old.frequency_table
        &&& self.word_lists == old.word_lists
    }
}

impl Report {
    /// Since `opened`, only locators of `name` were added, and none unless
    /// `keep` holds.
    pub open spec fn located_since(&self, opened: &Report, name: CheckName, keep: bool) -> bool {
        &&& self.wf()
        &&& self.same_except(opened, name)
        &&& self.status(name) matches Some(s) && opened.status(name) matches Some(o) && s.pass
            == o.pass && s.fail == o.fail && s.desc == o.desc && s.category == o.category && (!keep
            ==> s.locs() == o.locs())
    }
}

/// Some value of the entry occurred at most `threshold` times.
pub open spec fn has_rare_value(e: VariableFrequencies, threshold: int) -> bool {
    exists|k: int| 0 <= k < e.values@.len() && (#[trigger] e.values@[k]).count <= threshold
}

fn rare_value(e: &VariableFrequencies, threshold: i32) -> (r: bool)
    ensures
        r == has_rare_value(*e, threshold as int),
{
    let mut k: usize = 0;
    while k < e.values.len()
        invariant
            k <= e.values@.len(),
            forall|m: int| 0 <= m < k ==> (#[trigger] e.values@[m]).count > threshold,
        decreases e.values@.len() - k,
    {
        if threshold >= 0 && e.values[k].count <= threshold as u64 {
            return true;
        }
        k += 1;
    }
    false
}

/// The locator of a whole variable of the frequency table.
pub open spec fn entry_locator(e: VariableFrequencies) -> Locator {
    Locator { variable_name: e.variable.name, variable_index: e.variable.index, value_index: -1i32 }
}

/// The locators `ls` with one added for each entry of `es` that fails.
pub open spec fn entry_locators(
    ls: Seq<Locator>,
    es: Seq<VariableFrequencies>,
    fails: spec_fn(VariableFrequencies) -> bool,
) -> Seq<Locator>
    decreases es.len(),
{
    if es.len() == 0 {
        ls
    } else {
        let prev = entry_locators(ls, es.drop_last(), fails);
        if fails(es.last()) {
            crate::report::add_locator(prev, entry_locator(es.last()))
        } else {
            prev
        }
    }
}

/// A variable fails when one of its values occurs at most `threshold`
/// times; each variable of the frequency table is examined once.
pub fn unique_values(context: &mut Context)
    requires
        old(context).wf(),
        old(context).report.room(
            CheckName::VariablesWithUniqueValues,
            old(context).frequency_table.entries@.len() as int,
        ),
    ensures
        unique_values_done(final(context), old(context)),
{
    let name = CheckName::VariablesWithUniqueValues;
    if let Some(setting) = &context.config.disclosure_risk.unique_values {
        let ghost start = context.report;
        let ghost pred = |e: VariableFrequencies| has_rare_value(e, setting.setting as int);
        context.report.include_check(name, setting.desc.as_str(), Category::DisclosureRisk);
        let ghost opened = context.report;
        let keep = context.config.metadata_only != Some(true);
        let ghost opened_locs = opened.status(name)->Some_0.locs();
        let n = context.frequency_table.entries.len();
        let mut fails: u64 = 0;
        let mut i: usize = 0;
        while i < n
            invariant
                n == context.frequency_table.entries@.len(),
                i <= n,
                context.report.located_since(&opened, name, keep),
                context.report_only(old(context)),
                fails == how_many(context.frequency_table.entries@.take(i as int), pred),
                fails <= i,
                forall|e: VariableFrequencies| #[trigger] pred(e) == has_rare_value(e, setting.setting as int),
                opened.status(name) is Some,
                opened_locs == opened.status(name)->Some_0.locs(),
                keep ==> (context.report.status(name) matches Some(st) && st.locs() == entry_locators(
                    opened_locs,
                    context.frequency_table.entries@.take(i as int),
                    pred,
                )),
            decreases n - i,
        {
            let e = &context.frequency_table.entries[i];
            proof {
                lemma_how_many_step(context.frequency_table.entries@, i as int, pred);
                let es = context.frequency_table.entries@;
                assert(es.take(i + 1).drop_last() =~= es.take(i as int));
                assert(es.take(i + 1).last() == es[i as int]);
            }
            if rare_value(e, setting.setting) {
                fails = fails + 1;
                if keep {
                    let loc = Locator::new(e.variable.name.clone(), e.variable.index, -1);
                    context.report.locate(name, loc);
                }
            }
            i += 1;
        }
        proof {
            lemma_take_all(context.frequency_table.entries@);
            assert(pred =~= (|e: VariableFrequencies| has_rare_value(e, setting.setting as int)));
        }
        context.report.tally(name, n as u64 - fails, fails);
    }
}


/// Position `k` holds the first system-missing value of `vs`.
pub open spec fn first_sysmiss(vs: Seq<ValueCount>, k: int) -> bool {
    &&& 0 <= k < vs.len()
    &&& vs[k].value.missing == Missing::SYSTEM_MISSING
    &&& forall|j: int| 0 <= j < k ==> (#[trigger] vs[j]).value.missing != Missing::SYSTEM_MISSING
}

/// The system-missing values of the entry make up more than `threshold`
/// percent of its occurrences.
pub open spec fn sysmiss_over(e: VariableFrequencies, threshold: int) -> bool {
    exists|k: int|
        first_sysmiss(e.values@, k) && (#[trigger] e.values@[k]).count * 100 > threshold * total(
            e.values@,
        )
}

fn over_threshold(e: &VariableFrequencies, threshold: i32) -> (r: bool)
    requires
        total(e.values@) <= u64::MAX,
    ensures
        r == sysmiss_over(*e, threshold as int),
{
    let vs = &e.values;
    let mut sum: u128 = 0;
    let mut k: usize = 0;
    while k < vs.len()
        invariant
            k <= vs@.len(),
            vs@ == e.values@,
            total(vs@) <= u64::MAX,
            sum == total(vs@.take(k as int)),
        decreases vs@.len() - k,
    {
        proof {
            assert(vs@.take(k + 1).drop_last() =~= vs@.take(k as int));
            crate::frequency::lemma_total_prefix(vs@, k + 1);
        }
        sum = sum + vs[k].count as u128;
        k += 1;
    }
    proof {
        lemma_take_all(vs@);
    }
    let mut j: usize = 0;
    while j < vs.len()
        invariant
            j <= vs@.len(),
            vs@ == e.values@,
            sum == total(vs@),
            total(vs@) <= u64::MAX,
            forall|m: int| 0 <= m < j ==> (#[trigger] vs@[m]).value.missing != Missing::SYSTEM_MISSING,
        decreases vs@.len() - j,
    {
        if vs[j].value.missing == Missing::SYSTEM_MISSING {
            let c = vs[j].count as i128;
            let t = threshold as i128;
            let total_all = sum as i128;
            proof {
                assert(-0x8000_0000 * 0x1_0000_0000_0000_0000 <= t * total_all <= 0x8000_0000 * 0x1_0000_0000_0000_0000)
                    by (nonlinear_arith)
                    requires
                        -0x8000_0000 <= t <= 0x8000_0000,
                        0 <= total_all <= 0x1_0000_0000_0000_0000,
                ;
            }
            let r = c * 100 > t * total_all;
            proof {
                assert(first_sysmiss(vs@, j as int));
                if r {
                    assert(vs@[j as int].count * 100 > threshold * total(vs@));
                    assert(first_sysmiss(e.values@, j as int));
                    assert(e.values@[j as int].count * 100 > threshold * total(e.values@));
                }
                if !r {
                    assert(!(vs@[j as int].count * 100 > threshold * total(vs@)));
                    assert forall|k2: int| first_sysmiss(vs@, k2) implies !((#[trigger] vs@[k2]).count * 100
                        > threshold * total(vs@)) by {
                        if k2 < j {
                        } else if k2 > j {
                            assert(vs@[j as int].value.missing == Missing::SYSTEM_MISSING);
                        }
                    }
                }
            }
            return r;
        }
        j += 1;
    }
    false
}

/// A variable fails when more than the threshold percentage of its
/// occurrences are system missing, judged by the first system-missing
/// value recorded for it; each variable of the frequency table is
/// examined once.
pub fn system_missing_over_threshold(context: &mut Context)
    requires
        old(context).wf(),
        old(context).frequency_table.totals_fit(),
        old(context).report.room(
            CheckName::SystemMissingOverThreshold,
            old(context).frequency_table.entries@.len() as int,
        ),
    ensures
        system_missing_over_threshold_done(final(context), old(context)),
{
    let name = CheckName::SystemMissingOverThreshold;
    if let Some(setting) = &context.config.data_integrity.system_missing_value_threshold {
        let ghost pred = |e: VariableFrequencies| sysmiss_over(e, setting.setting as int);
        let desc = threshold_description(&setting.desc, setting.setting);
        context.report.include_check(name, desc.as_str(), Category::DataIntegrity);
        let ghost opened = context.report;
        let keep = context.config.metadata_only != Some(true);
        let ghost opened_locs = opened.status(name)->Some_0.locs();
        let n = context.frequency_table.entries.len();
        let mut fails: u64 = 0;
        let mut i: usize = 0;
        while i < n
            invariant
                n == context.frequency_table.entries@.len(),
                i <= n,
                context.frequency_table.totals_fit(),
                context.report.located_since(&opened, name, keep),
                context.report_only(old(context)),
                fails == how_many(context.frequency_table.entries@.take(i as int), pred),
                fails <= i,
                forall|e: VariableFrequencies| #[trigger] pred(e) == sysmiss_over(e, setting.setting as int),
                opened.status(name) is Some,
                opened_locs == opened.status(name)->Some_0.locs(),
                keep ==> (context.report.status(name) matches Some(st) && st.locs() == entry_locators(
                    opened_locs,
                    context.frequency_table.entries@.take(i as int),
                    pred,
                )),
            decreases n - i,
        {
            let e = &context.frequency_table.entries[i];
            proof {
                lemma_how_many_step(context.frequency_table.entries@, i as int, pred);
                let es = context.frequency_table.entries@;
                assert(es.take(i + 1).drop_last() =~= es.take(i as int));
                assert(es.take(i + 1).last() == es[i as int]);
                assert(total(context.frequency_table.entries@[i as int].values@) <= u64::MAX);
            }
            if over_threshold(e, setting.setting) {
                fails = fails + 1;
                if keep {
                    let loc = Locator::new(e.variable.name.clone(), e.variable.index, -1);
                    context.report.locate(name, loc);
                }
            }
            i += 1;
        }
        proof {
            lemma_take_all(context.frequency_table.entries@);
            assert(pred =~= (|e: VariableFrequencies| sysmiss_over(e, setting.setting as int)));
        }
        context.report.tally(name, n as u64 - fails, fails);
    }
}

/// The description of the threshold check: `desc (Threshold: n%)`.
pub open spec fn threshold_desc(desc: Seq<char>, n: i32) -> Seq<char> {
    desc + " (Threshold: "@ + crate::model::decimal(n as int) + "%)"@
}

fn threshold_description(desc: &String, n: i32) -> (r: String)
    ensures
        r@ == threshold_desc(desc@, n),
{
    let mut d = desc.clone();
    d.append(" (Threshold: ");
    let num = crate::model::decimal_text(n as i64);
    d.append(num.as_str());
    d.append("%)");
    d
}


/// The locator of a value of the entry: its variable and its row.
pub open spec fn row_locator(e: VariableFrequencies, v: ValueCount) -> Locator {
    Locator { variable_name: e.variable.name, variable_index: e.variable.index, value_index: v.value.row }
}

/// The locators `ls` with one added for each value of `vs` (values of the
/// entry `e`) that matches one of `patterns`.
pub open spec fn flagged_row_locators(
    ls: Seq<Locator>,
    e: VariableFrequencies,
    vs: Seq<ValueCount>,
    patterns: Seq<String>,
) -> Seq<Locator>
    decreases vs.len(),
{
    if vs.len() == 0 {
        ls
    } else {
        let prev = flagged_row_locators(ls, e, vs.drop_last(), patterns);
        if value_flagged(vs.last(), patterns) {
            crate::report::add_locator(prev, row_locator(e, vs.last()))
        } else {
            prev
        }
    }
}

/// The locators `ls` with one added for each value of the entries `es`
/// that matches one of `patterns`.
pub open spec fn flagged_locators(ls: Seq<Locator>, es: Seq<VariableFrequencies>, patterns: Seq<String>) -> Seq<Locator>
    decreases es.len(),
{
    if es.len() == 0 {
        ls
    } else {
        flagged_row_locators(flagged_locators(ls, es.drop_last(), patterns), es.last(), es.last().values@, patterns)
    }
}

/// The value, by its text or its label, matches one of `patterns`.
pub open spec fn value_flagged(v: ValueCount, patterns: Seq<String>) -> bool {
    exists|j: int|
        0 <= j < patterns.len() && (pattern_hits((#[trigger] patterns[j])@, v.key@) || pattern_hits(
            patterns[j]@,
            v.value.label@,
        ))
}

fn flagged_value(v: &ValueCount, patterns: &Vec<String>) -> (r: bool)
    ensures
        r == value_flagged(*v, patterns@),
{
    let mut j: usize = 0;
    while j < patterns.len()
        invariant
            j <= patterns@.len(),
            forall|m: int|
                0 <= m < j ==> !(pattern_hits((#[trigger] patterns@[m])@, v.key@) || pattern_hits(
                    patterns@[m]@,
                    v.value.label@,
                )),
        decreases patterns@.len() - j,
    {
        let p = patterns[j].as_str();
        if matches_pattern(p, v.key.as_str()) || matches_pattern(p, v.value.label.as_str()) {
            return true;
        }
        j += 1;
    }
    false
}

/// Position `p` holds the first entry of a variable named `name`.
pub open spec fn first_named(es: Seq<VariableFrequencies>, name: Seq<char>, p: int) -> bool {
    &&& 0 <= p < es.len()
    &&& es[p].variable.name@ == name
    &&& forall|j: int| 0 <= j < p ==> (#[trigger] es[j]).variable.name@ != name
}

/// How many distinct values occurred exactly once.
pub open spec fn singles(vs: Seq<ValueCount>) -> int {
    how_many(vs, |v: ValueCount| v.count == 1)
}

fn name_position(es: &Vec<VariableFrequencies>, name: &String) -> (r: Option<usize>)
    ensures
        r matches Some(p) ==> first_named(es@, name@, p as int),
        r is None ==> forall|p: int| 0 <= p < es@.len() ==> (#[trigger] es@[p]).variable.name@ != name@,
{
    let mut p: usize = 0;
    while p < es.len()
        invariant
            p <= es@.len(),
            forall|j: int| 0 <= j < p ==> (#[trigger] es@[j]).variable.name@ != name@,
        decreases es@.len() - p,
    {
        if es[p].variable.name == *name {
            return Some(p);
        }
        p += 1;
    }
    None
}

fn count_singles(vs: &Vec<ValueCount>) -> (r: usize)
    ensures
        r == singles(vs@),
{
    let ghost pred = |v: ValueCount| v.count == 1;
    let mut c: usize = 0;
    let mut k: usize = 0;
    while k < vs.len()
        invariant
            k <= vs@.len(),
            c <= k,
            c == how_many(vs@.take(k as int), pred),
            forall|v: ValueCount| #[trigger] pred(v) == (v.count == 1),
        decreases vs@.len() - k,
    {
        proof {
            lemma_how_many_step(vs@, k as int, pred);
        }
        if vs[k].count == 1 {
            c = c + 1;
        }
        k += 1;
    }
    proof {
        lemma_take_all(vs@);
    }
    c
}

/// The description of the duplicate check: `desc (On variables [...])`.
pub open spec fn variables_desc(desc: Seq<char>, names: Seq<String>) -> Seq<char> {
    desc + " (On variables "@ + crate::text::listed(views(names)) + ")"@
}

fn variables_description(desc: &String, names: &Vec<String>) -> (r: String)
    ensures
        r@ == variables_desc(desc@, names@),
{
    let mut d = desc.clone();
    d.append(" (On variables ");
    let l = crate::text::list_text(names);
    d.append(l.as_str());
    d.append(")");
    d
}

/// The case count that the primary-variable setting `name` gives: the
/// number of distinct values of the first variable of that name (at most
/// `i32::MAX`), or the old count (0 if none) when there is no such variable.
pub open spec fn case_count_of(es: Seq<VariableFrequencies>, name: Seq<char>, old: Option<i32>) -> Option<i32> {
    if exists|p: int| first_named(es, name, p) {
        let p = choose|p: int| first_named(es, name, p);
        let n = es[p].values@.len();
        Some(if n > i32::MAX { i32::MAX } else { n as i32 })
    } else {
        match old {
            Some(c) => Some(c),
            None => Some(0i32),
        }
    }
}

proof fn lemma_first_named_unique(es: Seq<VariableFrequencies>, name: Seq<char>, p: int, q: int)
    requires
        first_named(es, name, p),
        first_named(es, name, q),
    ensures
        p == q,
{
    if p < q {
        assert(es[p].variable.name@ != name);
    } else if q < p {
        assert(es[q].variable.name@ != name);
    }
}

/// Sets the case count to the number of distinct values of the primary
/// variable.
pub fn primary_variable(context: &mut Context)
    requires
        old(context).wf(),
    ensures
        primary_variable_done(final(context), old(context)),
{
    if let Some(setting) = &context.config.metadata.primary_variable {
        if context.report.metadata.case_count.is_none() {
            context.report.metadata.case_count = Some(0);
        }
        match name_position(&context.frequency_table.entries, &setting.setting) {
            Some(p) => {
                let n = context.frequency_table.entries[p].values.len();
                let c: i32 = if n > 0x7fff_ffff {
                    0x7fff_ffff
                } else {
                    n as i32
                };
                context.report.metadata.case_count = Some(c);
                proof {
                    let es = context.frequency_table.entries@;
                    let q = choose|q: int| first_named(es, setting.setting@, q);
                    lemma_first_named_unique(es, setting.setting@, p as int, q);
                }
            },
            None => {
                proof {
                    assert(!exists|p: int| first_named(context.frequency_table.entries@, setting.setting@, p));
                }
            },
        }
    }
}

/// The status of the file-name check: one pass when the name matched, else
/// one failure, located nowhere (an empty variable name, indices -1) when
/// locators are kept.
pub open spec fn filename_status(s: Status, desc: Seq<char>, matched: bool, keep: bool) -> bool {
    &&& s.pass == if matched { 1u64 } else { 0u64 }
    &&& s.fail == if matched { 0u64 } else { 1u64 }
    &&& s.desc@ == desc
    &&& s.category == Category::BasicFile
    &&& if matched || !keep {
        s.locs().len() == 0
    } else {
        &&& s.locs().len() == 1
        &&& s.locs()[0].variable_name@.len() == 0
        &&& s.locs()[0].variable_index == -1
        &&& s.locs()[0].value_index == -1
    }
}

/// Replaces the file-name check's status with the outcome of matching the
/// file name: `matched` tells whether it matched the configured pattern,
/// `keep` whether failures are located.
pub fn record_filename_check(report: &mut Report, desc: &str, matched: bool, keep: bool)
    requires
        old(report).wf(),
    ensures
        final(report).wf(),
        final(report).same_except(old(report), CheckName::BadFileName),
        final(report).status(CheckName::BadFileName) matches Some(s) && filename_status(s, desc@, matched, keep),
{
    let mut status = Status::new(desc, Category::BasicFile);
    if matched {
        status.pass = 1;
    } else {
        status.fail = 1;
        if keep {
            let v = vec![Locator::new(String::new(), -1, -1)];
            status.locators = Some(v);
        }
    }
    report.summary.set(CheckName::BadFileName.index(), Some(status));
}

/// The file's name must match the configured pattern; a pattern that is
/// not a valid regex matches nothing. The check's status is replaced on
/// each run.
pub fn bad_filename(context: &mut Context)
    requires
        old(context).wf(),
    ensures
        bad_filename_done(final(context), old(context)),
{
    if let Some(setting) = &context.config.basic_file_checks.bad_filename {
        let matched = matches_pattern(
            setting.setting.as_str(),
            context.report.metadata.file_name.as_str(),
        );
        let keep = context.config.metadata_only != Some(true);
        record_filename_check(&mut context.report, setting.desc.as_str(), matched, keep);
    }
}


/// The locators `ls` with one added for each text value of `vs` (values of
/// the entry `e`) that holds an odd character.
pub open spec fn odd_row_locators(
    ls: Seq<Locator>,
    e: VariableFrequencies,
    vs: Seq<ValueCount>,
    odd: Seq<Seq<char>>,
) -> Seq<Locator>
    decreases vs.len(),
{
    if vs.len() == 0 {
        ls
    } else {
        let prev = odd_row_locators(ls, e, vs.drop_last(), odd);
        if odd_text_value(vs.last(), odd) {
            crate::report::add_locator(prev, row_locator(e, vs.last()))
        } else {
            prev
        }
    }
}

/// The locators `ls` with one added for each text value of the entries
/// `es` that holds an odd character.
pub open spec fn odd_value_locators(ls: Seq<Locator>, es: Seq<VariableFrequencies>, odd: Seq<Seq<char>>) -> Seq<Locator>
    decreases es.len(),
{
    if es.len() == 0 {
        ls
    } else {
        odd_row_locators(odd_value_locators(ls, es.drop_last(), odd), es.last(), es.last().values@, odd)
    }
}

/// The locators `ls` with the variable's locator added for each label of
/// `labels` that holds an odd character.
pub open spec fn odd_label_row_locators(
    ls: Seq<Locator>,
    v: crate::model::Variable,
    labels: Seq<(String, String)>,
    odd: Seq<Seq<char>>,
) -> Seq<Locator>
    decreases labels.len(),
{
    if labels.len() == 0 {
        ls
    } else {
        let prev = odd_label_row_locators(ls, v, labels.drop_last(), odd);
        if odd_label(labels.last(), odd) {
            crate::report::add_locator(prev, crate::variable_checks::variable_locator(&v))
        } else {
            prev
        }
    }
}

/// The locators `ls` with a variable's locator added for each label of its
/// label set that holds an odd character, over the variables `vs`.
pub open spec fn odd_label_locators(
    ls: Seq<Locator>,
    vs: Seq<crate::model::Variable>,
    labels: crate::frequency::ValueLabels,
    odd: Seq<Seq<char>>,
) -> Seq<Locator>
    decreases vs.len(),
{
    if vs.len() == 0 {
        ls
    } else {
        odd_label_row_locators(
            odd_label_locators(ls, vs.drop_last(), labels, odd),
            vs.last(),
            labels.set(vs.last().value_labels@),
            odd,
        )
    }
}

/// The value is text.
pub open spec fn text_value(v: ValueCount) -> bool {
    v.value.value is Str
}

/// The value is text holding one of the odd characters.
pub open spec fn odd_text_value(v: ValueCount, odd: Seq<Seq<char>>) -> bool {
    v.value.value is Str && crate::text::contains_any(v.key@, odd)
}

/// How many text values the entry holds.
pub open spec fn text_values(e: VariableFrequencies) -> int {
    how_many(e.values@, |v: ValueCount| text_value(v))
}

/// How many text values of the entry hold an odd character.
pub open spec fn odd_text_values(e: VariableFrequencies, odd: Seq<Seq<char>>) -> int {
    how_many(e.values@, |v: ValueCount| odd_text_value(v, odd))
}

fn odd_values_of(
    report: &mut Report,
    name: CheckName,
    e: &VariableFrequencies,
    odd: &Vec<String>,
    keep: bool,
) -> (r: (u64, u64))
    requires
        old(report).wf(),
        old(report).status(name) is Some,
    ensures
        r.0 == text_values(*e),
        r.1 == odd_text_values(*e, views(odd@)),
        r.1 <= r.0,
        final(report).located_since(old(report), name, keep),
        keep ==> (final(report).status(name) matches Some(st) && st.locs() == odd_row_locators(
            old(report).status(name)->Some_0.locs(),
            *e,
            e.values@,
            views(odd@),
        )),
{
    let ghost tp = |v: ValueCount| text_value(v);
    let ghost op = |v: ValueCount| odd_text_value(v, views(odd@));
    let mut texts: u64 = 0;
    let mut odds: u64 = 0;
    let mut k: usize = 0;
    while k < e.values.len()
        invariant
            k <= e.values@.len(),
            report.located_since(old(report), name, keep),
            texts == how_many(e.values@.take(k as int), tp),
            odds == how_many(e.values@.take(k as int), op),
            odds <= texts <= k,
            forall|v: ValueCount| #[trigger] tp(v) == text_value(v),
            forall|v: ValueCount| #[trigger] op(v) == odd_text_value(v, views(odd@)),
            keep ==> (report.status(name) matches Some(st) && st.locs() == odd_row_locators(
                old(report).status(name)->Some_0.locs(),
                *e,
                e.values@.take(k as int),
                views(odd@),
            )),
        decreases e.values@.len() - k,
    {
        let v = &e.values[k];
        proof {
            assert(e.values@.take(k + 1).drop_last() =~= e.values@.take(k as int));
            assert(e.values@.take(k + 1).last() == e.values@[k as int]);
            lemma_how_many_step(e.values@, k as int, tp);
            lemma_how_many_step(e.values@, k as int, op);
        }
        if let crate::model::AnyValue::Str(_) = &v.value.value {
            texts = texts + 1;
            if crate::text::contains(v.key.as_str(), odd) {
                odds = odds + 1;
                if keep {
                    let loc = Locator::new(e.variable.name.clone(), e.variable.index, v.value.row);
                    report.locate(name, loc);
                }
            }
        }
        k += 1;
    }
    proof {
        lemma_take_all(e.values@);
    }
    (texts, odds)
}

/// Each text value of the frequency table is examined once: it fails when
/// it holds one of the configured odd characters.
pub fn string_value_odd_characters(context: &mut Context)
    requires
        old(context).wf(),
        old(context).report.room(
            CheckName::StringValueOddCharacters,
            sum_of(old(context).frequency_table.entries@, |e: VariableFrequencies| text_values(e)),
        ),
    ensures
        string_value_odd_characters_done(final(context), old(context)),
{
    let name = CheckName::StringValueOddCharacters;
    if let Some(setting) = &context.config.data_integrity.string_value_odd_characters {
        let ghost es = context.frequency_table.entries@;
        let ghost tf = |e: VariableFrequencies| text_values(e);
        let ghost of = |e: VariableFrequencies| odd_text_values(e, views(setting.setting@));
        proof {
            assert forall|e: VariableFrequencies| #[trigger] tf(e) >= 0 by {
                lemma_how_many_bounds(e.values@, |v: ValueCount| text_value(v));
            }
        }
        let desc = crate::variable_checks::list_description(&setting.desc, &setting.setting);
        context.report.include_check(name, desc.as_str(), Category::DataIntegrity);
        let ghost opened = context.report;
        let keep = context.config.metadata_only != Some(true);
        let ghost opened_locs = opened.status(name)->Some_0.locs();
        let n = context.frequency_table.entries.len();
        let mut examined: u64 = 0;
        let mut fails: u64 = 0;
        let mut i: usize = 0;
        while i < n
            invariant
                n == es.len(),
                es == context.frequency_table.entries@,
                i <= n,
                context.report.located_since(&opened, name, keep),
                context.report_only(old(context)),
                examined == sum_of(es.take(i as int), tf),
                fails == sum_of(es.take(i as int), of),
                fails <= examined,
                old(context).report.room(name, sum_of(es, tf)),
                forall|e: VariableFrequencies| #[trigger] tf(e) == text_values(e),
                forall|e: VariableFrequencies| #[trigger] of(e) == odd_text_values(e, views(setting.setting@)),
                forall|e: VariableFrequencies| #[trigger] tf(e) >= 0,
                opened.status(name) is Some,
                opened_locs == opened.status(name)->Some_0.locs(),
                keep ==> (context.report.status(name) matches Some(st) && st.locs() == odd_value_locators(
                    opened_locs,
                    es.take(i as int),
                    views(setting.setting@),
                )),
            decreases n - i,
        {
            let e = &context.frequency_table.entries[i];
            proof {
                assert(es.take(i + 1).drop_last() =~= es.take(i as int));
                assert(es.take(i + 1).last() == es[i as int]);
                lemma_sum_step(es, i as int, tf);
                lemma_sum_step(es, i as int, of);
                lemma_sum_prefix(es, i + 1, tf);
            }
            let (t, o) = odd_values_of(&mut context.report, name, e, &setting.setting, keep);
            examined = examined + t;
            fails = fails + o;
            i += 1;
        }
        proof {
            lemma_take_all(es);
        }
        context.report.tally(name, examined - fails, fails);
    }
}

/// How many labels the variable's label set holds.
pub open spec fn label_count(labels: crate::frequency::ValueLabels, v: crate::model::Variable) -> int {
    labels.set(v.value_labels@).len() as int
}

/// A label holds one of the odd characters.
pub open spec fn odd_label(l: (String, String), odd: Seq<Seq<char>>) -> bool {
    crate::text::contains_any(l.1@, odd)
}

/// How many labels of the variable's label set hold an odd character.
pub open spec fn odd_label_count(
    labels: crate::frequency::ValueLabels,
    v: crate::model::Variable,
    odd: Seq<Seq<char>>,
) -> int {
    how_many(labels.set(v.value_labels@), |l: (String, String)| odd_label(l, odd))
}

fn odd_labels_of(
    report: &mut Report,
    name: CheckName,
    labels: &crate::frequency::ValueLabels,
    v: &crate::model::Variable,
    odd: &Vec<String>,
    keep: bool,
) -> (r: (u64, u64))
    requires
        old(report).wf(),
        old(report).status(name) is Some,
        labels.wf(),
    ensures
        r.0 == label_count(*labels, *v),
        r.1 == odd_label_count(*labels, *v, views(odd@)),
        r.1 <= r.0,
        final(report).located_since(old(report), name, keep),
        keep ==> (final(report).status(name) matches Some(st) && st.locs() == odd_label_row_locators(
            old(report).status(name)->Some_0.locs(),
            *v,
            labels.set(v.value_labels@),
            views(odd@),
        )),
{
    match labels.position(&v.value_labels) {
        None => (0, 0),
        Some(p) => {
            let ls = &labels.sets[p].labels;
            proof {
                crate::frequency::lemma_set_at(*labels, p as int);
            }
            let ghost op = |l: (String, String)| odd_label(l, views(odd@));
            let mut odds: u64 = 0;
            let mut k: usize = 0;
            while k < ls.len()
                invariant
                    k <= ls@.len(),
                    ls@ == labels.set(v.value_labels@),
                    report.located_since(old(report), name, keep),
                    odds == how_many(ls@.take(k as int), op),
                    odds <= k,
                    forall|l: (String, String)| #[trigger] op(l) == odd_label(l, views(odd@)),
                    keep ==> (report.status(name) matches Some(st) && st.locs() == odd_label_row_locators(
                        old(report).status(name)->Some_0.locs(),
                        *v,
                        ls@.take(k as int),
                        views(odd@),
                    )),
                decreases ls@.len() - k,
            {
                proof {
                    lemma_how_many_step(ls@, k as int, op);
                    assert(ls@.take(k + 1).drop_last() =~= ls@.take(k as int));
                    assert(ls@.take(k + 1).last() == ls@[k as int]);
                }
                if crate::text::contains(ls[k].1.as_str(), odd) {
                    odds = odds + 1;
                    if keep {
                        let loc = Locator::new(v.name.clone(), v.index, -1);
                        report.locate(name, loc);
                    }
                }
                k += 1;
            }
            proof {
                lemma_take_all(ls@);
            }
            (ls.len() as u64, odds)
        },
    }
}

/// Each label of each declared variable's label set is examined once: it
/// fails when it holds one of the configured odd characters.
pub fn value_label_odd_characters(context: &mut Context)
    requires
        old(context).wf(),
        old(context).report.room(
            CheckName::ValueLabelOddCharacters,
            sum_of(old(context).variables@, |v: crate::model::Variable| label_count(old(context).value_labels, v)),
        ),
    ensures
        value_label_odd_characters_done(final(context), old(context)),
{
    let name = CheckName::ValueLabelOddCharacters;
    if let Some(setting) = &context.config.metadata.value_label_odd_characters {
        let ghost vs = context.variables@;
        let ghost labels = context.value_labels;
        let ghost tf = |v: crate::model::Variable| label_count(labels, v);
        let ghost of = |v: crate::model::Variable| odd_label_count(labels, v, views(setting.setting@));
        let desc = crate::variable_checks::list_description(&setting.desc, &setting.setting);
        context.report.include_check(name, desc.as_str(), Category::Metadata);
        let ghost opened = context.report;
        let keep = context.config.metadata_only != Some(true);
        let ghost opened_locs = opened.status(name)->Some_0.locs();
        let n = context.variables.len();
        let mut examined: u64 = 0;
        let mut fails: u64 = 0;
        let mut i: usize = 0;
        while i < n
            invariant
                n == vs.len(),
                vs == context.variables@,
                labels == context.value_labels,
                labels.wf(),
                i <= n,
                context.report.located_since(&opened, name, keep),
                context.report_only(old(context)),
                examined == sum_of(vs.take(i as int), tf),
                fails == sum_of(vs.take(i as int), of),
                fails <= examined,
                old(context).report.room(name, sum_of(vs, tf)),
                forall|v: crate::model::Variable| #[trigger] tf(v) == label_count(labels, v),
                forall|v: crate::model::Variable| #[trigger] of(v) == odd_label_count(labels, v, views(setting.setting@)),
                forall|v: crate::model::Variable| #[trigger] tf(v) >= 0,
                opened.status(name) is Some,
                opened_locs == opened.status(name)->Some_0.locs(),
                keep ==> (context.report.status(name) matches Some(st) && st.locs() == odd_label_locators(
                    opened_locs,
                    vs.take(i as int),
                    labels,
                    views(setting.setting@),
                )),
            decreases n - i,
        {
            let v = &context.variables[i];
            proof {
                assert(vs.take(i + 1).drop_last() =~= vs.take(i as int));
                assert(vs.take(i + 1).last() == vs[i as int]);
                lemma_sum_step(vs, i as int, tf);
                lemma_sum_step(vs, i as int, of);
                lemma_sum_prefix(vs, i + 1, tf);
            }
            let (t, o) = odd_labels_of(&mut context.report, name, &context.value_labels, v, &setting.setting, keep);
            examined = examined + t;
            fails = fails + o;
            i += 1;
        }
        proof {
            lemma_take_all(vs);
        }
        context.report.tally(name, examined - fails, fails);
    }
}

/// What `bad_filename` leaves in the context.
pub open spec fn bad_filename_done(new: &Context, old: &Context) -> bool {
    &&& new.wf()
    &&& new.report_only(old)
    &&& new.report.metadata == old.report.metadata
    &&& match old.config.basic_file_checks.bad_filename {
        None => new.report == old.report,
        Some(s) => {
            &&& new.report.same_except(&old.report, CheckName::BadFileName)
            &&& new.report.status(CheckName::BadFileName) matches Some(st)
                && filename_status(
                st,
                s.desc@,
                pattern_hits(s.setting@, old.report.metadata.file_name@),
                keeps_locators(old.config.metadata_only),
            )
        }
    }
}

/// What `primary_variable` leaves in the context.
pub open spec fn primary_variable_done(new: &Context, old: &Context) -> bool {
    &&& new.wf()
    &&& new.report_only(old)
    &&& new.report.summary == old.report.summary
    &&& new.report.metadata.raw_case_count == old.report.metadata.raw_case_count
    &&& new.report.metadata.file_name == old.report.metadata.file_name
    &&& match old.config.metadata.primary_variable {
        None => new.report == old.report,
        Some(s) => new.report.metadata.case_count == case_count_of(
            old.frequency_table.entries@,
            s.setting@,
            old.report.metadata.case_count,
        )
    }
}

/// What `value_label_odd_characters` leaves in the context.
pub open spec fn value_label_odd_characters_done(new: &Context, old: &Context) -> bool {
    &&& new.wf()
    &&& new.report_only(old)
    &&& new.report.metadata == old.report.metadata
    &&& match old.config.metadata.value_label_odd_characters {
        None => new.report == old.report,
        Some(s) => {
            let vs = old.variables@;
            let labels = old.value_labels;
            let n = sum_of(vs, |v: crate::model::Variable| label_count(labels, v));
            let f = sum_of(vs, |v: crate::model::Variable| odd_label_count(labels, v, views(s.setting@)));
            new.report.tallied_quietly(
                &old.report,
                CheckName::ValueLabelOddCharacters,
                crate::variable_checks::list_desc(s.desc@, s.setting@),
                Category::Metadata,
                n - f,
                f,
                keeps_locators(old.config.metadata_only),
            ) && (keeps_locators(old.config.metadata_only) ==> (new.report.status(
                CheckName::ValueLabelOddCharacters,
            ) matches Some(st) && st.locs() == odd_label_locators(
                crate::report::prior(old.report.status(CheckName::ValueLabelOddCharacters), crate::variable_checks::list_desc(s.desc@, s.setting@), Category::Metadata).locators,
                vs,
                labels,
                views(s.setting@),
            )))
        }
    }
}

/// What `string_value_odd_characters` leaves in the context.
pub open spec fn string_value_odd_characters_done(new: &Context, old: &Context) -> bool {
    &&& new.wf()
    &&& new.report_only(old)
    &&& new.report.metadata == old.report.metadata
    &&& match old.config.data_integrity.string_value_odd_characters {
        None => new.report == old.report,
        Some(s) => {
            let es = old.frequency_table.entries@;
            let n = sum_of(es, |e: VariableFrequencies| text_values(e));
            let f = sum_of(es, |e: VariableFrequencies| odd_text_values(e, views(s.setting@)));
            new.report.tallied_quietly(
                &old.report,
                CheckName::StringValueOddCharacters,
                crate::variable_checks::list_desc(s.desc@, s.setting@),
                Category::DataIntegrity,
                n - f,
                f,
                keeps_locators(old.config.metadata_only),
            ) && (keeps_locators(old.config.metadata_only) ==> (new.report.status(
                CheckName::StringValueOddCharacters,
            ) matches Some(st) && st.locs() == odd_value_locators(
                crate::report::prior(old.report.status(CheckName::StringValueOddCharacters), crate::variable_checks::list_desc(s.desc@, s.setting@), Category::DataIntegrity).locators,
                es,
                views(s.setting@),
            )))
        }
    }
}

/// What `system_missing_over_threshold` leaves in the context.
pub open spec fn system_missing_over_threshold_done(new: &Context, old: &Context) -> bool {
    &&& new.wf()
    &&& new.report_only(old)
    &&& new.report.metadata == old.report.metadata
    &&& match old.config.data_integrity.system_missing_value_threshold {
        None => new.report == old.report,
        Some(s) => {
            let es = old.frequency_table.entries@;
            let f = how_many(es, |e: VariableFrequencies| sysmiss_over(e, s.setting as int));
            new.report.tallied_quietly(
                &old.report,
                CheckName::SystemMissingOverThreshold,
                threshold_desc(s.desc@, s.setting),
                Category::DataIntegrity,
                es.len() - f,
                f,
                keeps_locators(old.config.metadata_only),
            ) && (keeps_locators(old.config.metadata_only) ==> (new.report.status(
                CheckName::SystemMissingOverThreshold,
            ) matches Some(st) && st.locs() == entry_locators(
                crate::report::prior(old.report.status(CheckName::SystemMissingOverThreshold), threshold_desc(s.desc@, s.setting), Category::DataIntegrity).locators,
                es,
                |e: VariableFrequencies| sysmiss_over(e, s.setting as int),
            )))
        }
    }
}

/// What `unique_values` leaves in the context.
pub open spec fn unique_values_done(new: &Context, old: &Context) -> bool {
    &&& new.wf()
    &&& new.report_only(old)
    &&& new.report.metadata == old.report.metadata
    &&& match old.config.disclosure_risk.unique_values {
        None => new.report == old.report,
        Some(s) => {
            let es = old.frequency_table.entries@;
            let f = how_many(es, |e: VariableFrequencies| has_rare_value(e, s.setting as int));
            new.report.tallied_quietly(
                &old.report,
                CheckName::VariablesWithUniqueValues,
                s.desc@,
                Category::DisclosureRisk,
                es.len() - f,
                f,
                keeps_locators(old.config.metadata_only),
            ) && (keeps_locators(old.config.metadata_only) ==> (new.report.status(
                CheckName::VariablesWithUniqueValues,
            ) matches Some(st) && st.locs() == entry_locators(
                crate::report::prior(old.report.status(CheckName::VariablesWithUniqueValues), s.desc@, Category::DisclosureRisk).locators,
                es,
                |e: VariableFrequencies| has_rare_value(e, s.setting as int),
            )))
        }
    }
}


/// How many values the entry holds.
pub open spec fn value_count(e: VariableFrequencies) -> int {
    e.values@.len() as int
}

/// How many values of the entry match one of `patterns`.
pub open spec fn flagged_values(e: VariableFrequencies, patterns: Seq<String>) -> int {
    how_many(e.values@, |v: ValueCount| value_flagged(v, patterns))
}

/// Counts the values of the entry that match a pattern, locating each.
fn flag_entry(
    report: &mut Report,
    name: CheckName,
    e: &VariableFrequencies,
    patterns: &Vec<String>,
    keep: bool,
) -> (r: u64)
    requires
        old(report).wf(),
        old(report).status(name) is Some,
    ensures
        r == flagged_values(*e, patterns@),
        r <= e.values@.len(),
        final(report).located_since(old(report), name, keep),
        keep ==> (final(report).status(name) matches Some(st) && st.locs() == flagged_row_locators(
            old(report).status(name)->Some_0.locs(),
            *e,
            e.values@,
            patterns@,
        )),
{
    let ghost fp = |v: ValueCount| value_flagged(v, patterns@);
    let mut hits: u64 = 0;
    let mut k: usize = 0;
    while k < e.values.len()
        invariant
            k <= e.values@.len(),
            report.located_since(old(report), name, keep),
            hits == how_many(e.values@.take(k as int), fp),
            hits <= k,
            forall|v: ValueCount| #[trigger] fp(v) == value_flagged(v, patterns@),
            keep ==> (report.status(name) matches Some(st) && st.locs() == flagged_row_locators(
                old(report).status(name)->Some_0.locs(),
                *e,
                e.values@.take(k as int),
                patterns@,
            )),
        decreases e.values@.len() - k,
    {
        let v = &e.values[k];
        proof {
            assert(e.values@.take(k + 1).drop_last() =~= e.values@.take(k as int));
            assert(e.values@.take(k + 1).last() == e.values@[k as int]);
            lemma_how_many_step(e.values@, k as int, fp);
        }
        if flagged_value(v, patterns) {
            hits = hits + 1;
            if keep {
                let loc = Locator::new(e.variable.name.clone(), e.variable.index, v.value.row);
                report.locate(name, loc);
            }
        }
        k += 1;
    }
    proof {
        lemma_take_all(e.values@);
    }
    hits
}

/// Each value of the frequency table is examined once: it fails when its
/// text or its label matches one of the configured patterns (the first
/// match decides; a pattern that is not a valid regex matches nothing).
pub fn regex_patterns(context: &mut Context)
    requires
        old(context).wf(),
        old(context).report.room(
            CheckName::ValueRegexPatterns,
            sum_of(old(context).frequency_table.entries@, |e: VariableFrequencies| value_count(e)),
        ),
    ensures
        regex_patterns_done(final(context), old(context)),
{
    let name = CheckName::ValueRegexPatterns;
    if let Some(setting) = &context.config.disclosure_risk.regex_patterns {
        let ghost es = context.frequency_table.entries@;
        let ghost tf = |e: VariableFrequencies| value_count(e);
        let ghost of = |e: VariableFrequencies| flagged_values(e, setting.setting@);
        context.report.include_check(name, setting.desc.as_str(), Category::DisclosureRisk);
        let ghost opened = context.report;
        let keep = context.config.metadata_only != Some(true);
        let ghost opened_locs = opened.status(name)->Some_0.locs();
        let n = context.frequency_table.entries.len();
        let mut examined: u64 = 0;
        let mut fails: u64 = 0;
        let mut i: usize = 0;
        while i < n
            invariant
                n == es.len(),
                es == context.frequency_table.entries@,
                i <= n,
                context.report.located_since(&opened, name, keep),
                context.report_only(old(context)),
                examined == sum_of(es.take(i as int), tf),
                fails == sum_of(es.take(i as int), of),
                fails <= examined,
                old(context).report.room(name, sum_of(es, tf)),
                forall|e: VariableFrequencies| #[trigger] tf(e) == value_count(e),
                forall|e: VariableFrequencies| #[trigger] of(e) == flagged_values(e, setting.setting@),
                forall|e: VariableFrequencies| #[trigger] tf(e) >= 0,
                opened.status(name) is Some,
                opened_locs == opened.status(name)->Some_0.locs(),
                keep ==> (context.report.status(name) matches Some(st) && st.locs() == flagged_locators(
                    opened_locs,
                    es.take(i as int),
                    setting.setting@,
                )),
            decreases n - i,
        {
            let e = &context.frequency_table.entries[i];
            proof {
                assert(es.take(i + 1).drop_last() =~= es.take(i as int));
                assert(es.take(i + 1).last() == es[i as int]);
                lemma_sum_step(es, i as int, tf);
                lemma_sum_step(es, i as int, of);
                lemma_sum_prefix(es, i + 1, tf);
            }
            let o = flag_entry(&mut context.report, name, e, &setting.setting, keep);
            examined = examined + e.values.len() as u64;
            fails = fails + o;
            i += 1;
        }
        proof {
            lemma_take_all(es);
        }
        context.report.tally(name, examined - fails, fails);
    }
}

/// The value's label is longer than `max` characters.
pub open spec fn long_label_value(v: ValueCount, max: int) -> bool {
    v.value.label@.len() > max
}

/// How many values of the entry have a label longer than `max`.
pub open spec fn long_labels(e: VariableFrequencies, max: int) -> int {
    how_many(e.values@, |v: ValueCount| long_label_value(v, max))
}

/// The locators `ls` with one added for each value of `vs` (values of the
/// entry `e`) whose label is longer than `max`.
pub open spec fn long_row_locators(
    ls: Seq<Locator>,
    e: VariableFrequencies,
    vs: Seq<ValueCount>,
    max: int,
) -> Seq<Locator>
    decreases vs.len(),
{
    if vs.len() == 0 {
        ls
    } else {
        let prev = long_row_locators(ls, e, vs.drop_last(), max);
        if long_label_value(vs.last(), max) {
            crate::report::add_locator(prev, row_locator(e, vs.last()))
        } else {
            prev
        }
    }
}

/// The locators `ls` with one added for each value of the entries `es`
/// whose label is longer than `max`.
pub open spec fn long_label_locators(ls: Seq<Locator>, es: Seq<VariableFrequencies>, max: int) -> Seq<Locator>
    decreases es.len(),
{
    if es.len() == 0 {
        ls
    } else {
        long_row_locators(long_label_locators(ls, es.drop_last(), max), es.last(), es.last().values@, max)
    }
}

/// Counts the values of the entry with a label longer than `max`, locating
/// each.
fn long_labels_of(
    report: &mut Report,
    name: CheckName,
    e: &VariableFrequencies,
    max: i32,
    keep: bool,
) -> (r: u64)
    requires
        old(report).wf(),
        old(report).status(name) is Some,
    ensures
        r == long_labels(*e, max as int),
        r <= e.values@.len(),
        final(report).located_since(old(report), name, keep),
        keep ==> (final(report).status(name) matches Some(st) && st.locs() == long_row_locators(
            old(report).status(name)->Some_0.locs(),
            *e,
            e.values@,
            max as int,
        )),
{
    let ghost lp = |v: ValueCount| long_label_value(v, max as int);
    let mut hits: u64 = 0;
    let mut k: usize = 0;
    while k < e.values.len()
        invariant
            k <= e.values@.len(),
            report.located_since(old(report), name, keep),
            hits == how_many(e.values@.take(k as int), lp),
            hits <= k,
            forall|v: ValueCount| #[trigger] lp(v) == long_label_value(v, max as int),
            keep ==> (report.status(name) matches Some(st) && st.locs() == long_row_locators(
                old(report).status(name)->Some_0.locs(),
                *e,
                e.values@.take(k as int),
                max as int,
            )),
        decreases e.values@.len() - k,
    {
        let v = &e.values[k];
        proof {
            assert(e.values@.take(k + 1).drop_last() =~= e.values@.take(k as int));
            assert(e.values@.take(k + 1).last() == e.values@[k as int]);
            lemma_how_many_step(e.values@, k as int, lp);
        }
        let len = crate::text::chars_of(v.value.label.as_str()).len();
        if max < 0 || len > max as usize {
            hits = hits + 1;
            if keep {
                let loc = Locator::new(e.variable.name.clone(), e.variable.index, v.value.row);
                report.locate(name, loc);
            }
        }
        k += 1;
    }
    proof {
        lemma_take_all(e.values@);
    }
    hits
}

/// Each value of the frequency table is examined once: it fails when its
/// label is longer, in characters, than the maximum.
pub fn value_label_max_length(context: &mut Context)
    requires
        old(context).wf(),
        old(context).report.room(
            CheckName::ValueLabelMaxLength,
            sum_of(old(context).frequency_table.entries@, |e: VariableFrequencies| value_count(e)),
        ),
    ensures
        value_label_max_length_done(final(context), old(context)),
{
    let name = CheckName::ValueLabelMaxLength;
    if let Some(setting) = &context.config.metadata.value_label_max_length {
        let ghost es = context.frequency_table.entries@;
        let ghost tf = |e: VariableFrequencies| value_count(e);
        let ghost of = |e: VariableFrequencies| long_labels(e, setting.setting as int);
        let desc = crate::variable_checks::length_description(&setting.desc, setting.setting);
        context.report.include_check(name, desc.as_str(), Category::Metadata);
        let ghost opened = context.report;
        let keep = context.config.metadata_only != Some(true);
        let ghost opened_locs = opened.status(name)->Some_0.locs();
        let n = context.frequency_table.entries.len();
        let mut examined: u64 = 0;
        let mut fails: u64 = 0;
        let mut i: usize = 0;
        while i < n
            invariant
                n == es.len(),
                es == context.frequency_table.entries@,
                i <= n,
                context.report.located_since(&opened, name, keep),
                context.report_only(old(context)),
                examined == sum_of(es.take(i as int), tf),
                fails == sum_of(es.take(i as int), of),
                fails <= examined,
                old(context).report.room(name, sum_of(es, tf)),
                forall|e: VariableFrequencies| #[trigger] tf(e) == value_count(e),
                forall|e: VariableFrequencies| #[trigger] of(e) == long_labels(e, setting.setting as int),
                forall|e: VariableFrequencies| #[trigger] tf(e) >= 0,
                opened.status(name) is Some,
                opened_locs == opened.status(name)->Some_0.locs(),
                keep ==> (context.report.status(name) matches Some(st) && st.locs() == long_label_locators(
                    opened_locs,
                    es.take(i as int),
                    setting.setting as int,
                )),
            decreases n - i,
        {
            let e = &context.frequency_table.entries[i];
            proof {
                assert(es.take(i + 1).drop_last() =~= es.take(i as int));
                assert(es.take(i + 1).last() == es[i as int]);
                lemma_sum_step(es, i as int, tf);
                lemma_sum_step(es, i as int, of);
                lemma_sum_prefix(es, i + 1, tf);
            }
            let o = long_labels_of(&mut context.report, name, e, setting.setting, keep);
            examined = examined + e.values.len() as u64;
            fails = fails + o;
            i += 1;
        }
        proof {
            lemma_take_all(es);
        }
        context.report.tally(name, examined - fails, fails);
    }
}

/// What `regex_patterns` leaves in the context.
pub open spec fn regex_patterns_done(new: &Context, old: &Context) -> bool {
    &&& new.wf()
    &&& new.report_only(old)
    &&& new.report.metadata == old.report.metadata
    &&& match old.config.disclosure_risk.regex_patterns {
        None => new.report == old.report,
        Some(s) => {
            let es = old.frequency_table.entries@;
            let n = sum_of(es, |e: VariableFrequencies| value_count(e));
            let f = sum_of(es, |e: VariableFrequencies| flagged_values(e, s.setting@));
            &&& new.report.tallied_quietly(
                &old.report,
                CheckName::ValueRegexPatterns,
                s.desc@,
                Category::DisclosureRisk,
                n - f,
                f,
                keeps_locators(old.config.metadata_only),
            )
            &&& keeps_locators(old.config.metadata_only) ==> (new.report.status(
                CheckName::ValueRegexPatterns,
            ) matches Some(st) && st.locs() == flagged_locators(
                crate::report::prior(
                    old.report.status(CheckName::ValueRegexPatterns),
                    s.desc@,
                    Category::DisclosureRisk,
                ).locators,
                es,
                s.setting@,
            ))
        },
    }
}

/// What `value_label_max_length` leaves in the context.
pub open spec fn value_label_max_length_done(new: &Context, old: &Context) -> bool {
    &&& new.wf()
    &&& new.report_only(old)
    &&& new.report.metadata == old.report.metadata
    &&& match old.config.metadata.value_label_max_length {
        None => new.report == old.report,
        Some(s) => {
            let es = old.frequency_table.entries@;
            let desc = crate::variable_checks::length_desc(s.desc@, s.setting);
            let n = sum_of(es, |e: VariableFrequencies| value_count(e));
            let f = sum_of(es, |e: VariableFrequencies| long_labels(e, s.setting as int));
            &&& new.report.tallied_quietly(
                &old.report,
                CheckName::ValueLabelMaxLength,
                desc,
                Category::Metadata,
                n - f,
                f,
                keeps_locators(old.config.metadata_only),
            )
            &&& keeps_locators(old.config.metadata_only) ==> (new.report.status(
                CheckName::ValueLabelMaxLength,
            ) matches Some(st) && st.locs() == long_label_locators(
                crate::report::prior(old.report.status(CheckName::ValueLabelMaxLength), desc, Category::Metadata).locators,
                es,
                s.setting as int,
            ))
        },
    }
}


/// The variable of the entry is one of `names`, and fewer of its values
/// occur exactly once than the file has rows: some row repeats a value.
pub open spec fn has_duplicates(e: VariableFrequencies, names: Seq<String>, rows: int) -> bool {
    views(names).contains(e.variable.name@) && singles(e.values@) != rows
}

/// The passes of the duplicate check: the configured names less the
/// failing variables, and none when more variables failed than names.
pub open spec fn duplicate_passes(names: int, fails: int) -> int {
    if fails <= names {
        names - fails
    } else {
        0
    }
}

/// Each variable of the frequency table whose name is configured is
/// judged once: it fails when fewer of its values occur exactly once than
/// the file has rows. The passes are the configured names less the
/// failures.
pub fn duplicate_values(context: &mut Context)
    requires
        old(context).wf(),
        old(context).config.data_integrity.duplicate_values matches Some(s) ==> old(
            context,
        ).report.room(
            CheckName::DuplicateValues,
            (s.setting@.len() + old(context).frequency_table.entries@.len()) as int,
        ),
    ensures
        duplicate_values_done(final(context), old(context)),
{
    let name = CheckName::DuplicateValues;
    if let Some(setting) = &context.config.data_integrity.duplicate_values {
        let rows = context.report.metadata.raw_case_count;
        let ghost es = context.frequency_table.entries@;
        let ghost pred = |e: VariableFrequencies| has_duplicates(e, setting.setting@, rows as int);
        let desc = variables_description(&setting.desc, &setting.setting);
        context.report.include_check(name, desc.as_str(), Category::DataIntegrity);
        let ghost opened = context.report;
        let keep = context.config.metadata_only != Some(true);
        let ghost opened_locs = opened.status(name)->Some_0.locs();
        let n = context.frequency_table.entries.len();
        let mut fails: u64 = 0;
        let mut i: usize = 0;
        while i < n
            invariant
                n == es.len(),
                i <= n,
                es == context.frequency_table.entries@,
                context.report.located_since(&opened, name, keep),
                context.report_only(old(context)),
                fails == how_many(es.take(i as int), pred),
                fails <= i,
                forall|e: VariableFrequencies| #[trigger] pred(e) == has_duplicates(e, setting.setting@, rows as int),
                opened.status(name) is Some,
                opened_locs == opened.status(name)->Some_0.locs(),
                keep ==> (context.report.status(name) matches Some(st) && st.locs() == entry_locators(
                    opened_locs,
                    es.take(i as int),
                    pred,
                )),
            decreases n - i,
        {
            let e = &context.frequency_table.entries[i];
            proof {
                lemma_how_many_step(es, i as int, pred);
                assert(es.take(i + 1).drop_last() =~= es.take(i as int));
                assert(es.take(i + 1).last() == es[i as int]);
            }
            if crate::text::is_word_of(&e.variable.name, &setting.setting) {
                let c = count_singles(&e.values);
                if rows < 0 || c as u64 != rows as u64 {
                    fails = fails + 1;
                    if keep {
                        let loc = Locator::new(e.variable.name.clone(), e.variable.index, -1);
                        context.report.locate(name, loc);
                    }
                }
            }
            i += 1;
        }
        proof {
            lemma_take_all(es);
            assert(pred =~= (|e: VariableFrequencies| has_duplicates(e, setting.setting@, rows as int)));
        }
        let names = setting.setting.len() as u64;
        let passes = if fails <= names {
            names - fails
        } else {
            0
        };
        context.report.tally(name, passes, fails);
    }
}

/// What `duplicate_values` leaves in the context.
pub open spec fn duplicate_values_done(new: &Context, old: &Context) -> bool {
    &&& new.wf()
    &&& new.report_only(old)
    &&& new.report.metadata == old.report.metadata
    &&& match old.config.data_integrity.duplicate_values {
        None => new.report == old.report,
        Some(s) => {
            let es = old.frequency_table.entries@;
            let rows = old.report.metadata.raw_case_count as int;
            let desc = variables_desc(s.desc@, s.setting@);
            let f = how_many(es, |e: VariableFrequencies| has_duplicates(e, s.setting@, rows));
            &&& new.report.tallied_quietly(
                &old.report,
                CheckName::DuplicateValues,
                desc,
                Category::DataIntegrity,
                duplicate_passes(s.setting@.len() as int, f),
                f,
                keeps_locators(old.config.metadata_only),
            )
            &&& keeps_locators(old.config.metadata_only) ==> (new.report.status(
                CheckName::DuplicateValues,
            ) matches Some(st) && st.locs() == entry_locators(
                crate::report::prior(old.report.status(CheckName::DuplicateValues), desc, Category::DataIntegrity).locators,
                es,
                |e: VariableFrequencies| has_duplicates(e, s.setting@, rows),
            ))
        },
    }
}

} // verus!