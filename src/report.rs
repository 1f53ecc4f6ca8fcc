//! The report: file metadata and one status per check identifier.
use vstd::prelude::*;
use crate::model::VariableType;
use crate::text::{sentence_of, to_sentence};

verus! {

/// How many check identifiers there are.
pub const CHECK_COUNT: usize = 17;

/// The identifier of each check, in report order.
#[derive(Clone, Copy, Debug, PartialEq, Eq, Structural, Hash, PartialOrd, Ord)]
pub enum CheckName {
    BadFileName,
    MissingVariableLabels,
    VariableOddCharacters,
    VariableLabelMaxLength,
    VariableLabelSpellcheck,
    ValueLabelOddCharacters,
    ValueLabelMaxLength,
    ValueLabelSpellcheck,
    ValueDefinedMissingNoLabel,
    DuplicateValues,
    StringValueOddCharacters,
    StringValueSpellcheck,
    SystemMissingOverThreshold,
    DateFormat,
    ValueRegexPatterns,
    VariablesWithUniqueValues,
    StringValueStopword,
}

impl CheckName {
    /// Position of the check in the report.
    pub open spec fn rank(self) -> int {
        match self {
            CheckName::BadFileName => 0,
            CheckName::MissingVariableLabels => 1,
            CheckName::VariableOddCharacters => 2,
            CheckName::VariableLabelMaxLength => 3,
            CheckName::VariableLabelSpellcheck => 4,
            CheckName::ValueLabelOddCharacters => 5,
            CheckName::ValueLabelMaxLength => 6,
            CheckName::ValueLabelSpellcheck => 7,
            CheckName::ValueDefinedMissingNoLabel => 8,
            CheckName::DuplicateValues => 9,
            CheckName::StringValueOddCharacters => 10,
            CheckName::StringValueSpellcheck => 11,
            CheckName::SystemMissingOverThreshold => 12,
            CheckName::DateFormat => 13,
            CheckName::ValueRegexPatterns => 14,
            CheckName::VariablesWithUniqueValues => 15,
            CheckName::StringValueStopword => 16,
        }
    }

    /// The identifier as written in the source.
    pub open spec fn ident(self) -> Seq<char> {
        match self {
            CheckName::BadFileName => "BadFileName"@,
            CheckName::MissingVariableLabels => "MissingVariableLabels"@,
            CheckName::VariableOddCharacters => "VariableOddCharacters"@,
            CheckName::VariableLabelMaxLength => "VariableLabelMaxLength"@,
            CheckName::VariableLabelSpellcheck => "VariableLabelSpellcheck"@,
            CheckName::ValueLabelOddCharacters => "ValueLabelOddCharacters"@,
            CheckName::ValueLabelMaxLength => "ValueLabelMaxLength"@,
            CheckName::ValueLabelSpellcheck => "ValueLabelSpellcheck"@,
            CheckName::ValueDefinedMissingNoLabel => "ValueDefinedMissingNoLabel"@,
            CheckName::DuplicateValues => "DuplicateValues"@,
            CheckName::StringValueOddCharacters => "StringValueOddCharacters"@,
            CheckName::StringValueSpellcheck => "StringValueSpellcheck"@,
            CheckName::SystemMissingOverThreshold => "SystemMissingOverThreshold"@,
            CheckName::DateFormat => "DateFormat"@,
            CheckName::ValueRegexPatterns => "ValueRegexPatterns"@,
            CheckName::VariablesWithUniqueValues => "VariablesWithUniqueValues"@,
            CheckName::StringValueStopword => "StringValueStopword"@,
        }
    }

    /// Position of the check in the report.
    pub fn index(&self) -> (r: usize)
        ensures
            r as int == self.rank(),
            r < CHECK_COUNT,
    {
        match self {
            CheckName::BadFileName => 0,
            CheckName::MissingVariableLabels => 1,
            CheckName::VariableOddCharacters => 2,
            CheckName::VariableLabelMaxLength => 3,
            CheckName::VariableLabelSpellcheck => 4,
            CheckName::ValueLabelOddCharacters => 5,
            CheckName::ValueLabelMaxLength => 6,
            CheckName::ValueLabelSpellcheck => 7,
            CheckName::ValueDefinedMissingNoLabel => 8,
            CheckName::DuplicateValues => 9,
            CheckName::StringValueOddCharacters => 10,
            CheckName::StringValueSpellcheck => 11,
            CheckName::SystemMissingOverThreshold => 12,
            CheckName::DateFormat => 13,
            CheckName::ValueRegexPatterns => 14,
            CheckName::VariablesWithUniqueValues => 15,
            CheckName::StringValueStopword => 16,
        }
    }

    /// The identifier as written in the source.
    pub fn ident_str(&self) -> (r: &'static str)
        ensures
            r@ == self.ident(),
    {
        match self {
            CheckName::BadFileName => "BadFileName",
            CheckName::MissingVariableLabels => "MissingVariableLabels",
            CheckName::VariableOddCharacters => "VariableOddCharacters",
            CheckName::VariableLabelMaxLength => "VariableLabelMaxLength",
            CheckName::VariableLabelSpellcheck => "VariableLabelSpellcheck",
            CheckName::ValueLabelOddCharacters => "ValueLabelOddCharacters",
            CheckName::ValueLabelMaxLength => "ValueLabelMaxLength",
            CheckName::ValueLabelSpellcheck => "ValueLabelSpellcheck",
            CheckName::ValueDefinedMissingNoLabel => "ValueDefinedMissingNoLabel",
            CheckName::DuplicateValues => "DuplicateValues",
            CheckName::StringValueOddCharacters => "StringValueOddCharacters",
            CheckName::StringValueSpellcheck => "StringValueSpellcheck",
            CheckName::SystemMissingOverThreshold => "SystemMissingOverThreshold",
            CheckName::DateFormat => "DateFormat",
            CheckName::ValueRegexPatterns => "ValueRegexPatterns",
            CheckName::VariablesWithUniqueValues => "VariablesWithUniqueValues",
            CheckName::StringValueStopword => "StringValueStopword",
        }
    }

    /// The identifier as a sentence, for display: `"Bad file name"`.
    pub fn to_string(&self) -> (r: String)
        ensures
            r@ == sentence_of(self.ident()),
    {
        to_sentence(self.ident_str())
    }

    /// Every check identifier, in report order.
    pub fn all() -> (r: Vec<CheckName>)
        ensures
            r@.len() == CHECK_COUNT,
            forall|i: int| 0 <= i < CHECK_COUNT ==> (#[trigger] r@[i]).rank() == i,
    {
        vec![
            CheckName::BadFileName,
            CheckName::MissingVariableLabels,
            CheckName::VariableOddCharacters,
            CheckName::VariableLabelMaxLength,
            CheckName::VariableLabelSpellcheck,
            CheckName::ValueLabelOddCharacters,
            CheckName::ValueLabelMaxLength,
            CheckName::ValueLabelSpellcheck,
            CheckName::ValueDefinedMissingNoLabel,
            CheckName::DuplicateValues,
            CheckName::StringValueOddCharacters,
            CheckName::StringValueSpellcheck,
            CheckName::SystemMissingOverThreshold,
            CheckName::DateFormat,
            CheckName::ValueRegexPatterns,
            CheckName::VariablesWithUniqueValues,
            CheckName::StringValueStopword,
        ]
    }
}

/// The group a check belongs to.
#[derive(Clone, Copy, Debug, PartialEq, Eq, Structural)]
pub enum Category {
    BasicFile,
    Metadata,
    DataIntegrity,
    DisclosureRisk,
}

impl Category {
    /// Every category, in report order.
    pub fn variants() -> (r: Vec<Category>)
        ensures
            r@ == seq![
                Category::BasicFile,
                Category::Metadata,
                Category::DataIntegrity,
                Category::DisclosureRisk,
            ],
    {
        let r = vec![
            Category::BasicFile,
            Category::Metadata,
            Category::DataIntegrity,
            Category::DisclosureRisk,
        ];
        assert(r@ =~= seq![
            Category::BasicFile,
            Category::Metadata,
            Category::DataIntegrity,
            Category::DisclosureRisk,
        ]);
        r
    }

    /// The heading of the category.
    pub fn title(&self) -> (r: &'static str)
        ensures
            r@ == match *self {
                Category::BasicFile => "Basic File Checks"@,
                Category::Metadata => "Metadata Checks"@,
                Category::DataIntegrity => "Data Integrity Checks"@,
                Category::DisclosureRisk => "Disclosure Risk Checks"@,
            },
    {
        match self {
            Category::BasicFile => "Basic File Checks",
            Category::Metadata => "Metadata Checks",
            Category::DataIntegrity => "Data Integrity Checks",
            Category::DisclosureRisk => "Disclosure Risk Checks",
        }
    }
}

/// Where a failure was found: a variable, and a row or -1.
#[derive(Clone, Debug)]
pub struct Locator {
    pub variable_name: String,
    pub variable_index: i32,
    /// The row of the value, or -1 when the failure is not row-specific.
    pub value_index: i32,
}

impl Locator {
    /// Two locators with the same variable index and row are the same entry
    /// of a status's locator set.
    pub open spec fn key(&self) -> (i32, i32) {
        (self.variable_index, self.value_index)
    }

    pub fn new(variable_name: String, variable_index: i32, value_index: i32) -> (r: Locator)
        ensures
            r.variable_name == variable_name,
            r.variable_index == variable_index,
            r.value_index == value_index,
    {
        Locator { variable_name, variable_index, value_index }
    }
}

/// The locators of `ls`, with `l` added unless one with its key is there.
pub open spec fn add_locator(ls: Seq<Locator>, l: Locator) -> Seq<Locator> {
    if exists|i: int| 0 <= i < ls.len() && (#[trigger] ls[i]).key() == l.key() {
        ls
    } else {
        ls.push(l)
    }
}

/// No two locators of `ls` share a key.
pub open spec fn keys_unique(ls: Seq<Locator>) -> bool {
    forall|i: int, j: int| 0 <= i < j < ls.len() ==> (#[trigger] ls[i]).key() != (#[trigger] ls[j]).key()
}

/// What a status says: its counts, description, category and locators.
pub ghost struct StatusView {
    pub pass: int,
    pub fail: int,
    pub desc: Seq<char>,
    pub category: Category,
    pub locators: Seq<Locator>,
}

impl StatusView {
    /// One more item examined: a failure (located when `keep` holds) or a
    /// pass.
    pub open spec fn counted(self, failed: bool, loc: Locator, keep: bool) -> StatusView {
        if failed {
            StatusView {
                fail: self.fail + 1,
                locators: if keep {
                    add_locator(self.locators, loc)
                } else {
                    self.locators
                },
                ..self
            }
        } else {
            StatusView { pass: self.pass + 1, ..self }
        }
    }

    /// `passed` more passes and `failed` more failures.
    pub open spec fn added(self, passed: int, failed: int) -> StatusView {
        StatusView { pass: self.pass + passed, fail: self.fail + failed, ..self }
    }
}

/// The status a check starts from: the one it left earlier, or a fresh one
/// with this description and category.
pub open spec fn prior(s: Option<Status>, desc: Seq<char>, category: Category) -> StatusView {
    match s {
        Some(s) => s@,
        None => StatusView { pass: 0, fail: 0, desc, category, locators: Seq::empty() },
    }
}

/// Locators are recorded unless the configuration asks for metadata only.
pub open spec fn keeps_locators(metadata_only: Option<bool>) -> bool {
    metadata_only != Some(true)
}

/// The outcome of one check.
#[derive(Clone, Debug)]
pub struct Status {
    pub pass: u64,
    pub fail: u64,
    pub desc: String,
    pub category: Category,
    /// Failure locations, `None` until the first one is recorded.
    pub locators: Option<Vec<Locator>>,
}

impl View for Status {
    type V = StatusView;

    open spec fn view(&self) -> StatusView {
        StatusView {
            pass: self.pass as int,
            fail: self.fail as int,
            desc: self.desc@,
            category: self.category,
            locators: self.locs(),
        }
    }
}

impl Status {
    /// The recorded failure locations.
    pub open spec fn locs(&self) -> Seq<Locator> {
        match self.locators {
            Some(v) => v@,
            None => Seq::empty(),
        }
    }

    /// The status of a check that has examined nothing yet.
    pub open spec fn fresh(&self, desc: Seq<char>, category: Category) -> bool {
        &&& self.pass == 0
        &&& self.fail == 0
        &&& self.desc@ == desc
        &&& self.category == category
        &&& self.locators is None
    }

    pub fn new(desc: &str, category: Category) -> (r: Status)
        ensures
            r.fresh(desc@, category),
    {
        Status { pass: 0, fail: 0, desc: desc.to_owned(), category, locators: None }
    }

    /// Records a failure location, keeping one locator per key.
    pub fn insert_locator(&mut self, l: Locator)
        requires
            keys_unique(old(self).locs()),
        ensures
            final(self).locs() == add_locator(old(self).locs(), l),
            keys_unique(final(self).locs()),
            final(self).pass == old(self).pass,
            final(self).fail == old(self).fail,
            final(self).desc == old(self).desc,
            final(self).category == old(self).category,
    {
        let mut taken: Option<Vec<Locator>> = None;
        core::mem::swap(&mut self.locators, &mut taken);
        let mut v = match taken {
            Some(v) => v,
            None => Vec::new(),
        };
        if !has_key(&v, &l) {
            v.push(l);
        }
        self.locators = Some(v);
    }
}

fn has_key(v: &Vec<Locator>, l: &Locator) -> (r: bool)
    ensures
        r == exists|i: int| 0 <= i < v@.len() && (#[trigger] v@[i]).key() == l.key(),
{
    let mut i: usize = 0;
    while i < v.len()
        invariant
            i <= v@.len(),
            forall|k: int| 0 <= k < i ==> (#[trigger] v@[k]).key() != l.key(),
        decreases v@.len() - i,
    {
        if v[i].variable_index == l.variable_index && v[i].value_index == l.value_index {
            assert(v@[i as int].key() == l.key());
            return true;
        }
        i += 1;
    }
    false
}

/// Facts about the file as a whole.
#[derive(Clone, Debug)]
pub struct Metadata {
    pub file_name: String,
    /// The number of rows the reader announced.
    pub raw_case_count: i32,
    /// Distinct values of the primary variable, when one is configured.
    pub case_count: Option<i32>,
    pub variable_count: i32,
    /// How many text variables were declared.
    pub text_variables: u64,
    /// How many numeric variables were declared.
    pub numeric_variables: u64,
    pub creation_time: i64,
    pub modified_time: i64,
    pub file_label: String,
    pub file_format_version: i64,
    pub file_encoding: Option<String>,
    pub compression: String,
}

impl Metadata {
    /// Nothing known yet: zero counts, empty texts.
    pub open spec fn blank(&self) -> bool {
        &&& self.file_name@.len() == 0
        &&& self.raw_case_count == 0
        &&& self.case_count is None
        &&& self.variable_count == 0
        &&& self.text_variables == 0
        &&& self.numeric_variables == 0
        &&& self.creation_time == 0
        &&& self.modified_time == 0
        &&& self.file_label@.len() == 0
        &&& self.file_format_version == 0
        &&& self.file_encoding is None
        &&& self.compression@.len() == 0
    }

    pub fn new() -> (r: Metadata)
        ensures
            r.blank(),
    {
        Metadata {
            file_name: String::new(),
            raw_case_count: 0,
            case_count: None,
            variable_count: 0,
            text_variables: 0,
            numeric_variables: 0,
            creation_time: 0,
            modified_time: 0,
            file_label: String::new(),
            file_format_version: 0,
            file_encoding: None,
            compression: String::new(),
        }
    }

    /// Counts one more declared variable of this type.
    pub fn count_type(&mut self, t: VariableType)
        requires
            t == VariableType::Text ==> old(self).text_variables < u64::MAX,
            t == VariableType::Numeric ==> old(self).numeric_variables < u64::MAX,
        ensures
            final(self).text_variables == old(self).text_variables + if t == VariableType::Text {
                1int
            } else {
                0int
            },
            final(self).numeric_variables == old(self).numeric_variables + if t
                == VariableType::Numeric {
                1int
            } else {
                0int
            },
            *final(self) == (Metadata {
                text_variables: final(self).text_variables,
                numeric_variables: final(self).numeric_variables,
                ..*old(self)
            }),
    {
        match t {
            VariableType::Text => self.text_variables = self.text_variables + 1,
            VariableType::Numeric => self.numeric_variables = self.numeric_variables + 1,
        }
    }
}

/// File metadata and the status of each check that ran.
#[derive(Clone, Debug)]
pub struct Report {
    pub metadata: Metadata,
    /// One slot per check identifier, in report order; a slot is filled
    /// the first time its check runs.
    pub summary: Vec<Option<Status>>,
}

impl Report {
    /// One slot per identifier, and each status's locators keyed uniquely.
    pub open spec fn wf(&self) -> bool {
        &&& self.summary@.len() == CHECK_COUNT
        &&& forall|i: int|
            0 <= i < CHECK_COUNT && #[trigger] self.summary@[i] is Some ==> keys_unique(
                self.summary@[i]->Some_0.locs(),
            )
    }

    /// The status of a check, if it ran.
    pub open spec fn status(&self, name: CheckName) -> Option<Status> {
        self.summary@[name.rank()]
    }

    /// Only the status of `name` differs between the two reports, and the
    /// metadata is the same.
    pub open spec fn same_except(&self, other: &Report, name: CheckName) -> bool {
        &&& self.metadata == other.metadata
        &&& self.summary@.len() == other.summary@.len()
        &&& forall|i: int|
            0 <= i < self.summary@.len() && i != name.rank() ==> #[trigger] self.summary@[i]
                == other.summary@[i]
    }

    /// No count of any status exceeds `b`.
    pub open spec fn bounded(&self, b: int) -> bool {
        forall|i: int|
            0 <= i < self.summary@.len() && #[trigger] self.summary@[i] is Some ==> self.summary@[i]->Some_0.pass
                <= b && self.summary@[i]->Some_0.fail <= b
    }

    /// There is room to count `n` more passes and failures for `name`.
    pub open spec fn room(&self, name: CheckName, n: int) -> bool {
        &&& 0 <= n <= u64::MAX
        &&& self.status(name) matches Some(s) ==> s.pass + n <= u64::MAX && s.fail + n <= u64::MAX
    }

    pub fn new() -> (r: Report)
        ensures
            r.wf(),
            r.metadata.blank(),
            forall|i: int| 0 <= i < CHECK_COUNT ==> #[trigger] r.summary@[i] is None,
    {
        let mut summary: Vec<Option<Status>> = Vec::new();
        let mut i: usize = 0;
        while i < CHECK_COUNT
            invariant
                i <= CHECK_COUNT,
                summary@.len() == i,
                forall|k: int| 0 <= k < i ==> #[trigger] summary@[k] is None,
            decreases CHECK_COUNT - i,
        {
            summary.push(None);
            i += 1;
        }
        Report { metadata: Metadata::new(), summary }
    }

    /// The status of a check, if it ran.
    pub fn get(&self, name: CheckName) -> (r: Option<&Status>)
        requires
            self.wf(),
        ensures
            r == match self.status(name) {
                Some(s) => Some(&s),
                None => None::<&Status>,
            },
    {
        match &self.summary[name.index()] {
            Some(s) => Some(s),
            None => None,
        }
    }

    /// `self` is `old` after counting one item for `name`, whose status
    /// starts from `desc` and `category` if it is new.
    pub open spec fn counted_once(
        &self,
        old: &Report,
        name: CheckName,
        desc: Seq<char>,
        category: Category,
        failed: bool,
        loc: Locator,
        keep: bool,
    ) -> bool {
        &&& self.wf()
        &&& self.same_except(old, name)
        &&& self.status(name) matches Some(s) && s@ == prior(old.status(name), desc, category).counted(
            failed,
            loc,
            keep,
        )
    }

    /// `self` is `old` after `passed` passes and `failed` failures were
    /// counted for `name`, whose status starts from `desc` and `category` if
    /// it is new; only locators may have been added besides.
    pub open spec fn tallied(
        &self,
        old: &Report,
        name: CheckName,
        desc: Seq<char>,
        category: Category,
        passed: int,
        failed: int,
    ) -> bool {
        &&& self.wf()
        &&& self.same_except(old, name)
        &&& self.status(name) matches Some(s) && {
            let p = prior(old.status(name), desc, category);
            &&& s.pass == p.pass + passed
            &&& s.fail == p.fail + failed
            &&& s.desc@ == p.desc
            &&& s.category == p.category
        }
    }

    /// `tallied`, and when locators are not kept, the status of `name` has
    /// the locators it started with.
    pub open spec fn tallied_quietly(
        &self,
        old: &Report,
        name: CheckName,
        desc: Seq<char>,
        category: Category,
        passed: int,
        failed: int,
        keep: bool,
    ) -> bool {
        &&& self.tallied(old, name, desc, category, passed, failed)
        &&& !keep ==> (self.status(name) matches Some(s) && s.locs() == prior(
            old.status(name),
            desc,
            category,
        ).locators)
    }

    /// Opens the status of `name` if needed and counts one examined item,
    /// a failure located at `loc` or a pass.
    pub fn count_one(
        &mut self,
        name: CheckName,
        desc: &str,
        category: Category,
        failed: bool,
        loc: Locator,
        keep: bool,
    )
        requires
            old(self).wf(),
            old(self).room(name, 1),
        ensures
            final(self).counted_once(old(self), name, desc@, category, failed, loc, keep),
    {
        self.include_check(name, desc, category);
        if failed {
            self.tally(name, 0, 1);
            if keep {
                self.locate(name, loc);
            }
        } else {
            self.tally(name, 1, 0);
        }
    }

    /// Creates the status of `name`, unless it exists already.
    pub fn include_check(&mut self, name: CheckName, desc: &str, category: Category)
        requires
            old(self).wf(),
        ensures
            final(self).wf(),
            final(self).same_except(old(self), name),
            old(self).status(name) is Some ==> final(self).status(name) == old(self).status(
                name,
            ),
            old(self).status(name) is None ==> (final(self).status(name) matches Some(s)
                && s.fresh(desc@, category)),
    {
        let i = name.index();
        if self.summary[i].is_none() {
            self.summary.set(i, Some(Status::new(desc, category)));
        }
    }

    /// Adds `passed` passes and `failed` failures to the status of `name`.
    pub fn tally(&mut self, name: CheckName, passed: u64, failed: u64)
        requires
            old(self).wf(),
            old(self).status(name) is Some,
            old(self).status(name)->Some_0.pass + passed <= u64::MAX,
            old(self).status(name)->Some_0.fail + failed <= u64::MAX,
        ensures
            final(self).wf(),
            final(self).same_except(old(self), name),
            final(self).status(name) matches Some(s) && {
                let o = old(self).status(name)->Some_0;
                &&& s.pass == o.pass + passed
                &&& s.fail == o.fail + failed
                &&& s.desc == o.desc
                &&& s.category == o.category
                &&& s.locators == o.locators
            },
    {
        let i = name.index();
        let mut slot: Option<Status> = None;
        self.summary.set_and_swap(i, &mut slot);
        let mut s = slot.unwrap();
        s.pass = s.pass + passed;
        s.fail = s.fail + failed;
        self.summary.set(i, Some(s));
    }

    /// Records a failure location for `name`.
    pub fn locate(&mut self, name: CheckName, l: Locator)
        requires
            old(self).wf(),
            old(self).status(name) is Some,
        ensures
            final(self).wf(),
            final(self).same_except(old(self), name),
            final(self).status(name) matches Some(s) && {
                let o = old(self).status(name)->Some_0;
                &&& s.pass == o.pass
                &&& s.fail == o.fail
                &&& s.desc == o.desc
                &&& s.category == o.category
                &&& s.locs() == add_locator(o.locs(), l)
            },
    {
        let i = name.index();
        let mut slot: Option<Status> = None;
        self.summary.set_and_swap(i, &mut slot);
        let mut s = slot.unwrap();
        s.insert_locator(l);
        self.summary.set(i, Some(s));
    }
}

/// A check that counted one item raised its pass and fail counts, taken
/// together, by exactly one.
pub proof fn lemma_counted_once_examines_one(
    new: Report,
    old: Report,
    name: CheckName,
    desc: Seq<char>,
    category: Category,
    failed: bool,
    loc: Locator,
    keep: bool,
)
    requires
        new.counted_once(&old, name, desc, category, failed, loc, keep),
    ensures
        new.status(name) matches Some(s) && s.pass + s.fail == prior(old.status(name), desc, category).pass
            + prior(old.status(name), desc, category).fail + 1,
{
}

/// A check that examined `passed + failed` items raised its pass and fail
/// counts, taken together, by exactly that many; a check that ran for the
/// first time has as many passes and failures as items examined.
pub proof fn lemma_tallied_examines_all(
    new: Report,
    old: Report,
    name: CheckName,
    desc: Seq<char>,
    category: Category,
    passed: int,
    failed: int,
)
    requires
        new.tallied(&old, name, desc, category, passed, failed),
    ensures
        new.status(name) matches Some(s) && s.pass + s.fail == prior(old.status(name), desc, category).pass
            + prior(old.status(name), desc, category).fail + passed + failed,
        old.status(name) is None ==> (new.status(name) matches Some(s) && s.pass + s.fail == passed
            + failed),
{
}

/// Counts bounded by `c` leave room for one more.
pub proof fn lemma_bounded_room(r: Report, c: int)
    requires
        r.wf(),
        r.bounded(c),
        c + 1 <= u64::MAX,
    ensures
        forall|n: CheckName| #[trigger] r.room(n, 1),
{
    assert forall|n: CheckName| #[trigger] r.room(n, 1) by {
        if r.status(n) is Some {
            assert(r.summary@[n.rank()] is Some);
        }
    }
}

/// Counting one item raises no count above the old bound plus one.
pub proof fn lemma_step_bounded(new: Report, old: Report, name: CheckName, b: int)
    requires
        b >= 0,
        old.bounded(b),
        new.same_except(&old, name),
        new.status(name) matches Some(s) && s.pass <= (if old.status(name) is Some {
            old.status(name)->Some_0.pass as int
        } else {
            0
        }) + 1 && s.fail <= (if old.status(name) is Some {
            old.status(name)->Some_0.fail as int
        } else {
            0
        }) + 1,
    ensures
        new.bounded(b + 1),
{
    assert forall|i: int|
        0 <= i < new.summary@.len() && #[trigger] new.summary@[i] is Some implies new.summary@[i]->Some_0.pass
        <= b + 1 && new.summary@[i]->Some_0.fail <= b + 1 by {
        if i != name.rank() {
            assert(new.summary@[i] == old.summary@[i]);
        }
    }
}

} // verus!
