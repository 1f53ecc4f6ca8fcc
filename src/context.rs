//! The ingestion pass: the reader's events feed the variable list, the
//! value-label sets, the frequency table and the per-variable and per-value
//! checks.
use vstd::prelude::*;
use crate::config::Config;
use crate::frequency::{FrequencyTable, ValueLabels};
use crate::model::{AnyValue, Missing, Value, Variable, VariableType};
use crate::report::{CheckName, Report};
use crate::value_checks::{run_value_check, ValueCheck};
use crate::variable_checks::{run_variable_check, VariableCheck};

verus! {

/// What the reader says of the file as a whole.
#[derive(Clone, Debug)]
pub struct FileInfo {
    pub row_count: i32,
    pub var_count: i32,
    pub creation_time: i64,
    pub modified_time: i64,
    pub file_label: String,
    pub format_version: i64,
    pub encoding: Option<String>,
    pub compression: String,
}

/// One cell as the reader delivers it, with its three missingness signals.
#[derive(Clone, Debug)]
pub struct ValueEvent {
    /// The index of the variable, as declared.
    pub variable_index: i32,
    pub row: i32,
    pub value: AnyValue,
    pub system_missing: bool,
    pub tagged_missing: bool,
    pub tag: char,
    pub defined_missing: bool,
}

/// One label of a value-label set.
#[derive(Clone, Debug)]
pub struct LabelEvent {
    pub set: String,
    pub value: AnyValue,
    pub label: String,
}

/// An event of the reader's stream.
#[derive(Clone, Debug)]
pub enum Event {
    Metadata(FileInfo),
    Variable(Variable),
    Value(ValueEvent),
    ValueLabel(LabelEvent),
}

/// A variable with index `x` is declared among `events`.
pub open spec fn declared(events: Seq<Event>, x: i32) -> bool {
    exists|i: int| 0 <= i < events.len() && ((#[trigger] events[i]) matches Event::Variable(v) && v.index == x)
}

/// How many value events of `events` name variable index `x` after a
/// variable with that index was declared.
pub open spec fn values_for(events: Seq<Event>, x: i32) -> int
    decreases events.len(),
{
    if events.len() == 0 {
        0
    } else {
        let prev = events.drop_last();
        values_for(prev, x) + if (events.last() matches Event::Value(v) && v.variable_index == x)
            && declared(prev, x) {
            1int
        } else {
            0int
        }
    }
}

impl FileInfo {
    /// An equal copy.
    pub fn duplicate(&self) -> (r: FileInfo)
        ensures
            r == *self,
    {
        FileInfo {
            row_count: self.row_count,
            var_count: self.var_count,
            creation_time: self.creation_time,
            modified_time: self.modified_time,
            file_label: self.file_label.clone(),
            format_version: self.format_version,
            encoding: match &self.encoding {
                Some(e) => Some(e.clone()),
                None => None,
            },
            compression: self.compression.clone(),
        }
    }
}

/// Reads the stream of events into a fresh context. For every variable
/// index, the occurrences in the frequency table add up to the number of
/// values the stream gave for a declared variable with that index.
/// The last metadata event of `events`, if any.
pub open spec fn last_info(events: Seq<Event>) -> Option<FileInfo>
    decreases events.len(),
{
    if events.len() == 0 {
        None
    } else {
        match events.last() {
            Event::Metadata(info) => Some(info),
            _ => last_info(events.drop_last()),
        }
    }
}

/// The file facts of `m` are those of the metadata event `info`, or the
/// blank ones when there was none; no case count is set yet.
pub open spec fn file_facts(m: crate::report::Metadata, info: Option<FileInfo>) -> bool {
    &&& m.case_count is None
    &&& match info {
        Some(i) => {
            &&& m.raw_case_count == i.row_count
            &&& m.variable_count == i.var_count
            &&& m.creation_time == i.creation_time
            &&& m.modified_time == i.modified_time
            &&& m.file_label == i.file_label
            &&& m.file_format_version == i.format_version
            &&& m.file_encoding == i.encoding
            &&& m.compression == i.compression
        },
        None => {
            &&& m.raw_case_count == 0
            &&& m.variable_count == 0
            &&& m.creation_time == 0
            &&& m.modified_time == 0
            &&& m.file_label@.len() == 0
            &&& m.file_format_version == 0
            &&& m.file_encoding is None
            &&& m.compression@.len() == 0
        },
    }
}

/// The checks that `Check::new` registers.
pub open spec fn registered(c: Check) -> bool {
    &&& c.variable@ == seq![
        VariableCheck::DateFormat,
        VariableCheck::MissingVariableLabels,
        VariableCheck::VariableLabelMaxLength,
        VariableCheck::VariableOddCharacters,
    ]
    &&& c.value@ == seq![ValueCheck::ValueDefinedMissingNoLabel]
    &&& c.post@ == crate::engine::post_checks()
}

/// What holds of a context once it has read the events `seen`.
pub open spec fn read_so_far(ctx: Context, config: Config, seen: Seq<Event>) -> bool {
    &&& ctx.wf()
    &&& ctx.config == config
    &&& registered(ctx.checks)
    &&& file_facts(ctx.report.metadata, last_info(seen))
    &&& ctx.report.metadata.file_name@.len() == 0
    &&& config.checks_disabled() ==> forall|k: int| 0 <= k < ctx.report.summary@.len() ==> #[trigger] ctx.report.summary@[k] is None
    &&& ctx.report.bounded(4 * seen.len() as int)
    &&& ctx.report.metadata.text_variables <= seen.len()
    &&& ctx.report.metadata.numeric_variables <= seen.len()
    &&& forall|x: i32| #[trigger] ctx.frequency_table.total_of(x) == values_for(seen, x)
    &&& forall|x: i32| #[trigger] ctx.frequency_table.total_of(x) <= seen.len()
    &&& forall|x: i32|
        declared(seen, x) <==> exists|p: int|
            0 <= p < ctx.variables@.len() && (#[trigger] ctx.variables@[p]).index == x
}

/// Reads one more event.
#[verifier::rlimit(60)]
fn read_event(ctx: &mut Context, event: &Event, Ghost(config): Ghost<Config>, Ghost(prev): Ghost<Seq<Event>>)
    requires
        read_so_far(*old(ctx), config, prev),
        8 * (prev.len() + 1) <= u64::MAX,
    ensures
        read_so_far(*final(ctx), config, prev.push(*event)),
{
    let ghost next = prev.push(*event);
    let ghost i: int = prev.len() as int;
    proof {
        assert(next.drop_last() =~= prev);
        assert forall|x: i32| declared(prev, x) implies declared(next, x) by {
            let j = choose|j: int| 0 <= j < prev.len() && ((#[trigger] prev[j]) matches Event::Variable(v) && v.index == x);
            assert(next[j] == prev[j]);
        }
    }
    match event {
        Event::Metadata(info) => {
            ctx.handle_metadata(info.duplicate());
            proof {
                assert forall|x: i32| declared(next, x) implies declared(prev, x) by {
                    let j = choose|j: int| 0 <= j < next.len() && ((#[trigger] next[j]) matches Event::Variable(v) && v.index == x);
                    assert(prev[j] == next[j]);
                }
            }
        },
        Event::Variable(v) => {
            proof {
                assert(ctx.report.bounded(u64::MAX - 4)) by {
                    assert forall|k: int| 0 <= k < ctx.report.summary@.len() && #[trigger] ctx.report.summary@[k] is Some implies ctx.report.summary@[k]->Some_0.pass <= u64::MAX - 4 && ctx.report.summary@[k]->Some_0.fail <= u64::MAX - 4 by {
                        assert(ctx.report.summary@[k]->Some_0.pass <= 4 * i);
                    }
                }
            }
            let ghost before = ctx;
            ctx.handle_variable(v.duplicate());
            proof {
                assert(before.report.bounded(4 * i));
                assert(ctx.report.bounded(4 * i + 4));
                assert forall|x: i32| declared(next, x) <==> exists|p: int|
                    0 <= p < ctx.variables@.len() && (#[trigger] ctx.variables@[p]).index == x by {
                    if declared(next, x) && !declared(prev, x) {
                        let j = choose|j: int| 0 <= j < next.len() && ((#[trigger] next[j]) matches Event::Variable(w) && w.index == x);
                        if j < prev.len() {
                            assert(prev[j] == next[j]);
                        }
                        assert(ctx.variables@[ctx.variables@.len() - 1] == *v);
                    }
                    if declared(prev, x) {
                        let p = choose|p: int| 0 <= p < before.variables@.len() && (#[trigger] before.variables@[p]).index == x;
                        assert(ctx.variables@[p] == before.variables@[p]);
                    }
                    if exists|p: int| 0 <= p < ctx.variables@.len() && (#[trigger] ctx.variables@[p]).index == x {
                        let p = choose|p: int| 0 <= p < ctx.variables@.len() && (#[trigger] ctx.variables@[p]).index == x;
                        if p < before.variables@.len() {
                            assert(before.variables@[p] == ctx.variables@[p]);
                        } else {
                            assert(next[prev.len() as int] == Event::Variable(*v));
                        }
                    }
                }
            }
        },
        Event::Value(ev) => {
            proof {
                assert(ctx.report.bounded(u64::MAX - 1)) by {
                    assert forall|k: int| 0 <= k < ctx.report.summary@.len() && #[trigger] ctx.report.summary@[k] is Some implies ctx.report.summary@[k]->Some_0.pass <= u64::MAX - 1 && ctx.report.summary@[k]->Some_0.fail <= u64::MAX - 1 by {
                        assert(ctx.report.summary@[k]->Some_0.pass <= 4 * i);
                    }
                }
                crate::frequency::lemma_totals_room(ctx.frequency_table, i as int);
            }
            let ghost before = ctx;
            ctx.handle_value(ev);
            proof {
                assert(before.report.bounded(4 * i));
                assert(ctx.report.bounded(4 * i + 1));
                assert(ctx.report.bounded(4 * i + 4)) by {
                    assert forall|k: int| 0 <= k < ctx.report.summary@.len() && #[trigger] ctx.report.summary@[k] is Some implies ctx.report.summary@[k]->Some_0.pass <= 4 * i + 4 && ctx.report.summary@[k]->Some_0.fail <= 4 * i + 4 by {
                    }
                }
                assert forall|x: i32| declared(next, x) implies declared(prev, x) by {
                    let j = choose|j: int| 0 <= j < next.len() && ((#[trigger] next[j]) matches Event::Variable(w) && w.index == x);
                    assert(prev[j] == next[j]);
                }
                assert forall|x: i32| #[trigger] ctx.frequency_table.total_of(x) == values_for(next, x) by {
                    assert(values_for(next, x) == values_for(prev, x) + if (next.last() matches Event::Value(w) && w.variable_index == x) && declared(prev, x) { 1int } else { 0int });
                }
            }
        },
        Event::ValueLabel(ev) => {
            ctx.handle_value_label(ev);
            proof {
                assert forall|x: i32| declared(next, x) implies declared(prev, x) by {
                    let j = choose|j: int| 0 <= j < next.len() && ((#[trigger] next[j]) matches Event::Variable(w) && w.index == x);
                    assert(prev[j] == next[j]);
                }
            }
        },
    }
    proof {
        assert forall|x: i32| #[trigger] ctx.frequency_table.total_of(x) == values_for(next, x) by {
            assert(values_for(next, x) == values_for(prev, x) + if (next.last() matches Event::Value(w) && w.variable_index == x) && declared(prev, x) { 1int } else { 0int });
        }
    }
}

pub fn ingest(events: &Vec<Event>, config: Config) -> (r: Context)
    requires
        8 * events@.len() <= u64::MAX,
    ensures
        r.wf(),
        r.config == config,
        forall|x: i32| #[trigger] r.frequency_table.total_of(x) == values_for(events@, x),
        forall|x: i32|
            declared(events@, x) <==> exists|p: int|
                0 <= p < r.variables@.len() && (#[trigger] r.variables@[p]).index == x,
        r.report.bounded(4 * events@.len() as int),
        registered(r.checks),
        file_facts(r.report.metadata, last_info(events@)),
        r.report.metadata.file_name@.len() == 0,
        config.checks_disabled() ==> forall|k: int| 0 <= k < r.report.summary@.len() ==> #[trigger] r.report.summary@[k] is None,
{
    let mut ctx = Context::new(config);
    let mut i: usize = 0;
    proof {
        assert(events@.take(0) =~= Seq::<Event>::empty());
    }
    while i < events.len()
        invariant
            8 * events@.len() <= u64::MAX,
            i <= events@.len(),
            read_so_far(ctx, config, events@.take(i as int)),
        decreases events@.len() - i,
    {
        read_event(&mut ctx, &events[i], Ghost(config), Ghost(events@.take(i as int)));
        proof {
            assert(events@.take(i + 1) =~= events@.take(i as int).push(events@[i as int]));
        }
        i += 1;
    }
    proof {
        assert(events@.take(i as int) =~= events@);
    }
    ctx
}

/// After `event`, the value checks ran in order on the value it gives the
/// first declared variable with its index: its label comes from the
/// variable's label set, its missingness from the event's signals.
/// Position `p` holds the first variable with index `x`.
pub open spec fn is_first(vars: Seq<Variable>, x: i32, p: int) -> bool {
    &&& 0 <= p < vars.len()
    &&& vars[p].index == x
    &&& forall|q: int| 0 <= q < p ==> (#[trigger] vars[q]).index != x
}

/// The value that `event` gives the variable `var`: its label comes from
/// the variable's label set, its missingness from the event's signals.
pub open spec fn resolved(v: Value, var: Variable, labels: ValueLabels, event: ValueEvent) -> bool {
    &&& v.variable == var
    &&& v.row == event.row
    &&& v.value == event.value
    &&& v.label@ == labels.label(var.value_labels@, event.value.text())
    &&& v.missing == crate::model::missing_of(
        event.system_missing,
        event.tagged_missing,
        event.tag,
        event.defined_missing,
    )
}

/// After `event`, the value it gives the first declared variable with its
/// index was counted in the frequency table (under its text, or as the
/// representative of a new text) and the value checks ran on it in order.
#[verifier::opaque]
pub open spec fn value_handled(new: Context, old: Context, event: ValueEvent) -> bool {
    forall|p: int|
        #[trigger] is_first(old.variables@, event.variable_index, p) ==> exists|v: Value|
            resolved(v, old.variables@[p], old.value_labels, event)
                && new.frequency_table.added(&old.frequency_table, old.variables@[p], v, 1)
                && crate::value_checks::value_checks_ran(
                old.checks.value@,
                new.report,
                old.report,
                v,
                old.config,
            )
}

/// The checks of each phase.
#[derive(Clone, Debug)]
pub struct Check {
    pub variable: Vec<VariableCheck>,
    pub value: Vec<ValueCheck>,
    pub post: Vec<crate::engine::PostCheck>,
}

impl Check {
    /// Every check of every phase.
    pub fn new() -> (r: Check)
        ensures
            r.variable@ == seq![
                VariableCheck::DateFormat,
                VariableCheck::MissingVariableLabels,
                VariableCheck::VariableLabelMaxLength,
                VariableCheck::VariableOddCharacters,
            ],
            r.value@ == seq![ValueCheck::ValueDefinedMissingNoLabel],
            r.post@ == crate::engine::post_checks(),
    {
        Check {
            variable: crate::variable_checks::register(),
            value: crate::value_checks::register(),
            post: crate::engine::register(),
        }
    }
}

/// The words of the dictionary files of each dictionary check, one entry
/// per line.
#[derive(Clone, Debug)]
pub struct WordLists {
    pub variable_label: Vec<String>,
    pub value_label: Vec<String>,
    pub string_value: Vec<String>,
    pub stopword: Vec<String>,
}

impl WordLists {
    /// No words at all.
    pub fn new() -> (r: WordLists)
        ensures
            r.variable_label@.len() == 0,
            r.value_label@.len() == 0,
            r.string_value@.len() == 0,
            r.stopword@.len() == 0,
    {
        WordLists {
            variable_label: Vec::new(),
            value_label: Vec::new(),
            string_value: Vec::new(),
            stopword: Vec::new(),
        }
    }
}

/// The state of one analysis.
#[derive(Clone, Debug)]
pub struct Context {
    pub config: Config,
    pub report: Report,
    pub checks: Check,
    /// The declared variables, in declaration order.
    pub variables: Vec<Variable>,
    pub value_labels: ValueLabels,
    pub frequency_table: FrequencyTable,
    pub word_lists: WordLists,
}

impl Context {
    pub open spec fn wf(&self) -> bool {
        &&& self.report.wf()
        &&& self.frequency_table.wf()
        &&& self.value_labels.wf()
    }

    /// A context for `config` with nothing read yet.
    pub fn new(config: Config) -> (r: Context)
        ensures
            r.wf(),
            r.config == config,
            r.variables@.len() == 0,
            r.frequency_table.entries@.len() == 0,
            r.report.bounded(0),
            r.report.metadata.blank(),
            r.checks.variable@.len() == 4,
            r.checks.value@.len() == 1,
            registered(r.checks),
            forall|k: int| 0 <= k < r.report.summary@.len() ==> #[trigger] r.report.summary@[k] is None,
            forall|x: i32| #[trigger] r.frequency_table.total_of(x) == 0,
    {
        let r = Context {
            config,
            report: Report::new(),
            checks: Check::new(),
            variables: Vec::new(),
            value_labels: ValueLabels::new(),
            frequency_table: FrequencyTable::new(),
            word_lists: WordLists::new(),
        };
        r
    }

    /// Position of the variable with index `x`.
    pub fn variable_position(&self, x: i32) -> (r: Option<usize>)
        ensures
            r matches Some(p) ==> p < self.variables@.len() && self.variables@[p as int].index == x
                && forall|q: int| 0 <= q < p ==> (#[trigger] self.variables@[q]).index != x,
            r is None ==> forall|p: int| 0 <= p < self.variables@.len() ==> (#[trigger] self.variables@[p]).index != x,
    {
        let mut p: usize = 0;
        while p < self.variables.len()
            invariant
                p <= self.variables@.len(),
                forall|k: int| 0 <= k < p ==> (#[trigger] self.variables@[k]).index != x,
            decreases self.variables@.len() - p,
        {
            if self.variables[p].index == x {
                return Some(p);
            }
            p += 1;
        }
        None
    }

    /// Records the file's metadata.
    pub fn handle_metadata(&mut self, info: FileInfo)
        ensures
            final(self).report.metadata.raw_case_count == info.row_count,
            final(self).report.metadata.variable_count == info.var_count,
            final(self).report.metadata.file_label == info.file_label,
            final(self).report.metadata.file_encoding == info.encoding,
            final(self).report.metadata.creation_time == info.creation_time,
            final(self).report.metadata.modified_time == info.modified_time,
            final(self).report.metadata.file_format_version == info.format_version,
            final(self).report.metadata.compression == info.compression,
            final(self).report.metadata.file_name == old(self).report.metadata.file_name,
            final(self).report.metadata.case_count == old(self).report.metadata.case_count,
            final(self).report.metadata.text_variables == old(self).report.metadata.text_variables,
            final(self).report.metadata.numeric_variables == old(self).report.metadata.numeric_variables,
            final(self).report.summary == old(self).report.summary,
            final(self).variables == old(self).variables,
            final(self).frequency_table == old(self).frequency_table,
            final(self).value_labels == old(self).value_labels,
            final(self).config == old(self).config,
            final(self).checks == old(self).checks,
    {
        self.report.metadata.raw_case_count = info.row_count;
        self.report.metadata.variable_count = info.var_count;
        self.report.metadata.creation_time = info.creation_time;
        self.report.metadata.modified_time = info.modified_time;
        self.report.metadata.file_label = info.file_label;
        self.report.metadata.file_format_version = info.format_version;
        self.report.metadata.file_encoding = info.encoding;
        self.report.metadata.compression = info.compression;
    }

    /// Resolves the value's label and missingness, counts it in the
    /// frequency table and runs the value checks on it. A value of a
    /// variable that was not declared is ignored.
    pub fn handle_value(&mut self, event: &ValueEvent)
        requires
            old(self).wf(),
            old(self).report.bounded(u64::MAX - old(self).checks.value@.len()),
            old(self).frequency_table.room(1),
        ensures
            final(self).wf(),
            final(self).variables == old(self).variables,
            final(self).value_labels == old(self).value_labels,
            final(self).config == old(self).config,
            final(self).checks == old(self).checks,
            final(self).report.metadata == old(self).report.metadata,
            old(self).config.checks_disabled() ==> final(self).report.summary == old(self).report.summary,
            forall|x: i32| #[trigger] final(self).frequency_table.total_of(x) == old(self).frequency_table.total_of(x) + if x
                == event.variable_index && exists|p: int| 0 <= p < old(self).variables@.len() && (#[trigger] old(self).variables@[p]).index == x {
                1int
            } else {
                0int
            },
            forall|b: int| b >= 0 && #[trigger] old(self).report.bounded(b) ==> final(self).report.bounded(
                b + old(self).checks.value@.len(),
            ),
            (forall|p: int| 0 <= p < old(self).variables@.len() ==> (#[trigger] old(self).variables@[p]).index != event.variable_index)
                ==> final(self).report == old(self).report,
            value_handled(*final(self), *old(self), *event),
    {
        match self.variable_position(event.variable_index) {
            None => {
                proof {
                    reveal(value_handled);
                }
            },
            Some(p) => {
                let var = self.variables[p].duplicate();
                let text = event.value.to_text();
                let label = self.value_labels.lookup(&var.value_labels, &text);
                let missing = Missing::from_signals(
                    event.system_missing,
                    event.tagged_missing,
                    event.tag,
                    event.defined_missing,
                );
                let value = Value {
                    variable: var.duplicate(),
                    row: event.row,
                    value: event.value.duplicate(),
                    label,
                    missing,
                };
                self.frequency_table.add(&var, value.duplicate(), 1);
                let ghost table = self.frequency_table;
                let mut i: usize = 0;
                let ghost start = self.report;
                let ghost rs = seq![self.report];
                let n = self.checks.value.len();
                while i < n
                    invariant
                        self.config.checks_disabled() ==> self.report.summary == start.summary,
                        rs.len() == i + 1,
                        rs[0] == start,
                        rs.last() == self.report,
                        forall|k: int|
                            0 <= k < i ==> crate::value_checks::value_check_done(
                                #[trigger] self.checks.value@[k],
                                rs[k + 1],
                                rs[k],
                                value,
                                self.config,
                            ),
                        n == self.checks.value@.len(),
                        n == old(self).checks.value@.len(),
                        i <= n,
                        self.wf(),
                        self.report.metadata == old(self).report.metadata,
                        self.config == old(self).config,
                        self.checks == old(self).checks,
                        self.variables == old(self).variables,
                        self.value_labels == old(self).value_labels,
                        forall|x: i32| #[trigger] self.frequency_table.total_of(x) == old(self).frequency_table.total_of(x) + if x
                            == event.variable_index {
                            1int
                        } else {
                            0int
                        },
                        start == old(self).report,
                        table == self.frequency_table,
                        table.added(&old(self).frequency_table, old(self).variables@[p as int], value, 1),
                        start.bounded(u64::MAX - n),
                        forall|b: int| b >= 0 && #[trigger] start.bounded(b) ==> self.report.bounded(b + i),
                    decreases n - i,
                {
                    let check = self.checks.value[i];
                    let ghost before = self.report;
                    proof {
                        assert(start.bounded(u64::MAX - n));
                        crate::report::lemma_bounded_room(self.report, u64::MAX - n + i);
                    }
                    run_value_check(check, &value, &self.config, &mut self.report);
                    proof {
                        rs = rs.push(self.report);
                        assert forall|b: int| b >= 0 && #[trigger] start.bounded(b) implies self.report.bounded(
                            b + i + 1,
                        ) by {
                            assert(before.bounded(b + i));
                        }
                    }
                    i += 1;
                }
                proof {
                    reveal(value_handled);
                    reveal(crate::value_checks::value_checks_ran);
                    assert(rs.last().summary == self.report.summary);
                    assert(crate::value_checks::value_checks_ran(
                        old(self).checks.value@,
                        self.report,
                        old(self).report,
                        value,
                        old(self).config,
                    ));
                    assert(resolved(value, old(self).variables@[p as int], old(self).value_labels, *event));
                    assert forall|q: int| #[trigger] is_first(old(self).variables@, event.variable_index, q) implies exists|v: Value|
                        resolved(v, old(self).variables@[q], old(self).value_labels, *event)
                            && self.frequency_table.added(&old(self).frequency_table, old(self).variables@[q], v, 1)
                            && crate::value_checks::value_checks_ran(
                            old(self).checks.value@,
                            self.report,
                            old(self).report,
                            v,
                            old(self).config,
                        ) by {
                        if q < p {
                            assert(old(self).variables@[q].index != event.variable_index);
                        } else if q > p {
                            assert(old(self).variables@[p as int].index == event.variable_index);
                        }
                    }
                }
            },
        }
    }

    /// Adds a label to a value-label set.
    pub fn handle_value_label(&mut self, event: &LabelEvent)
        requires
            old(self).wf(),
        ensures
            final(self).wf(),
            final(self).value_labels.label(event.set@, event.value.text()) == event.label@,
            forall|i: Seq<char>, t: Seq<char>|
                !(i == event.set@ && t == event.value.text()) ==> #[trigger] final(self).value_labels.label(i, t)
                    == old(self).value_labels.label(i, t),
            final(self).variables == old(self).variables,
            final(self).frequency_table == old(self).frequency_table,
            final(self).report == old(self).report,
            final(self).config == old(self).config,
            final(self).checks == old(self).checks,
    {
        let text = event.value.to_text();
        self.value_labels.insert(event.set.clone(), text, event.label.clone());
    }

    /// Appends a declared variable, runs the variable checks on it and
    /// counts its type.
    pub fn handle_variable(&mut self, variable: Variable)
        requires
            old(self).wf(),
            old(self).report.bounded(u64::MAX - old(self).checks.variable@.len()),
            variable.type_ == VariableType::Text ==> old(self).report.metadata.text_variables < u64::MAX,
            variable.type_ == VariableType::Numeric ==> old(self).report.metadata.numeric_variables < u64::MAX,
        ensures
            final(self).wf(),
            final(self).variables@ == old(self).variables@.push(variable),
            final(self).frequency_table == old(self).frequency_table,
            final(self).value_labels == old(self).value_labels,
            final(self).config == old(self).config,
            final(self).checks == old(self).checks,
            final(self).report.metadata == (crate::report::Metadata {
                text_variables: final(self).report.metadata.text_variables,
                numeric_variables: final(self).report.metadata.numeric_variables,
                ..old(self).report.metadata
            }),
            old(self).config.checks_disabled() ==> final(self).report.summary == old(self).report.summary,
            final(self).report.metadata.text_variables == old(self).report.metadata.text_variables + if variable.type_
                == VariableType::Text {
                1int
            } else {
                0int
            },
            final(self).report.metadata.numeric_variables == old(self).report.metadata.numeric_variables + if variable.type_
                == VariableType::Numeric {
                1int
            } else {
                0int
            },
            forall|b: int| b >= 0 && #[trigger] old(self).report.bounded(b) ==> final(self).report.bounded(
                b + old(self).checks.variable@.len(),
            ),
            crate::variable_checks::variable_checks_ran(
                old(self).checks.variable@,
                final(self).report,
                old(self).report,
                variable,
                old(self).config,
            ),
    {
        let mut i: usize = 0;
        let ghost start = self.report;
        let ghost rs = seq![self.report];
        let n = self.checks.variable.len();
        while i < n
            invariant
                self.config.checks_disabled() ==> self.report.summary == start.summary,
                rs.len() == i + 1,
                rs[0] == start,
                rs.last() == self.report,
                forall|k: int|
                    0 <= k < i ==> crate::variable_checks::variable_check_done(
                        #[trigger] self.checks.variable@[k],
                        rs[k + 1],
                        rs[k],
                        variable,
                        self.config,
                    ),
                n == self.checks.variable@.len(),
                n == old(self).checks.variable@.len(),
                i <= n,
                self.wf(),
                self.report.metadata == old(self).report.metadata,
                self.config == old(self).config,
                self.checks == old(self).checks,
                self.variables == old(self).variables,
                self.frequency_table == old(self).frequency_table,
                self.value_labels == old(self).value_labels,
                start == old(self).report,
                start.bounded(u64::MAX - n),
                forall|b: int| b >= 0 && #[trigger] start.bounded(b) ==> self.report.bounded(b + i),
            decreases n - i,
        {
            let check = self.checks.variable[i];
            let ghost before = self.report;
            proof {
                assert(start.bounded(u64::MAX - n));
                crate::report::lemma_bounded_room(self.report, u64::MAX - n + i);
            }
            run_variable_check(check, &variable, &self.config, &mut self.report);
            proof {
                rs = rs.push(self.report);
                assert forall|b: int| b >= 0 && #[trigger] start.bounded(b) implies self.report.bounded(
                    b + i + 1,
                ) by {
                    assert(before.bounded(b + i));
                }
            }
            i += 1;
        }
        self.report.metadata.count_type(variable.type_);
        self.variables.push(variable);
        proof {
            reveal(crate::variable_checks::variable_checks_ran);
            assert(rs.last().summary == self.report.summary);
        }
    }
}

} // verus!
