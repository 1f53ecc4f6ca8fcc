//! The configuration: four independently optional sections of settings.
//! A setting that is absent disables its check.
use vstd::prelude::*;

verus! {

/// A configuration part that can be checked once, when it is loaded.
pub trait Valid {
    /// The message for the first offending setting, in declaration order;
    /// `None` when every setting is in range.
    spec fn first_error(&self) -> Option<&'static str>;

    /// Checks the part; on failure the message names the first offending
    /// setting.
    fn validate(&self) -> (r: Result<(), &'static str>)
        ensures
            r == match self.first_error() {
                None => Ok::<(), &'static str>(()),
                Some(m) => Err(m),
            },
    ;
}

/// The kinds of data file the tool reads.
#[derive(Clone, Copy, Debug, PartialEq, Eq, Structural)]
pub enum FileType {
    SAV,
    DTA,
    SAS7BDAT,
    CSV,
}

/// One rule's setting with a description for the report.
#[derive(Clone, Debug)]
pub struct Setting<T> {
    pub setting: T,
    pub desc: String,
}

/// A list setting, if present, holds at least one entry.
pub open spec fn list_ok(s: Option<Setting<Vec<String>>>) -> bool {
    s matches Some(x) ==> x.setting@.len() > 0
}

/// A text setting, if present, is not empty.
pub open spec fn text_ok(s: Option<Setting<String>>) -> bool {
    s matches Some(x) ==> x.setting@.len() > 0
}

/// A length setting, if present, is not negative.
pub open spec fn length_ok(s: Option<Setting<i32>>) -> bool {
    s matches Some(x) ==> x.setting >= 0
}

/// A percentage setting, if present, lies in `1..=100`.
pub open spec fn percent_ok(s: Option<Setting<i32>>) -> bool {
    s matches Some(x) ==> 0 < x.setting <= 100
}

fn list_valid(s: &Option<Setting<Vec<String>>>) -> (r: bool)
    ensures
        r == list_ok(*s),
{
    match s {
        None => true,
        Some(x) => x.setting.len() > 0,
    }
}

fn text_valid(s: &Option<Setting<String>>) -> (r: bool)
    ensures
        r == text_ok(*s),
{
    match s {
        None => true,
        Some(x) => !x.setting.as_str().is_empty(),
    }
}

fn length_valid(s: &Option<Setting<i32>>) -> (r: bool)
    ensures
        r == length_ok(*s),
{
    match s {
        None => true,
        Some(x) => x.setting >= 0,
    }
}

fn percent_valid(s: &Option<Setting<i32>>) -> (r: bool)
    ensures
        r == percent_ok(*s),
{
    match s {
        None => true,
        Some(x) => x.setting > 0 && x.setting <= 100,
    }
}

/// Checks on the data file itself.
#[derive(Clone, Debug)]
pub struct BasicFileChecks {
    /// Pattern that the file's name must match.
    pub bad_filename: Option<Setting<String>>,
}

impl BasicFileChecks {
    /// Every check of this part is switched off.
    pub open spec fn disabled(&self) -> bool {
        &&& self.bad_filename is None
    }

    /// No basic file check configured.
    pub fn new() -> (r: BasicFileChecks)
        ensures
            r.disabled(),
    {
        BasicFileChecks { bad_filename: None }
    }
}

impl Valid for BasicFileChecks {
    open spec fn first_error(&self) -> Option<&'static str> {
        if !text_ok(self.bad_filename) {
            Some("bad_filename cannot be an empty string")
        } else {
            None
        }
    }

    fn validate(&self) -> (r: Result<(), &'static str>) {
        if !text_valid(&self.bad_filename) {
            return Err("bad_filename cannot be an empty string");
        }
        Ok(())
    }
}

/// Checks on variable and value metadata.
#[derive(Clone, Debug)]
pub struct Metadata {
    pub primary_variable: Option<Setting<String>>,
    pub missing_variable_labels: Option<Setting<bool>>,
    pub variable_odd_characters: Option<Setting<Vec<String>>>,
    pub variable_label_max_length: Option<Setting<i32>>,
    pub variable_label_spellcheck: Option<Setting<Vec<String>>>,
    pub value_label_odd_characters: Option<Setting<Vec<String>>>,
    pub value_label_max_length: Option<Setting<i32>>,
    pub value_label_spellcheck: Option<Setting<Vec<String>>>,
    /// Values defined as missing must carry a label.
    pub value_defined_missing_no_label: Option<Setting<bool>>,
}

impl Metadata {
    /// Every check of this part is switched off.
    pub open spec fn disabled(&self) -> bool {
        &&& self.primary_variable is None
        &&& self.missing_variable_labels is None
        &&& self.variable_odd_characters is None
        &&& self.variable_label_max_length is None
        &&& self.variable_label_spellcheck is None
        &&& self.value_label_odd_characters is None
        &&& self.value_label_max_length is None
        &&& self.value_label_spellcheck is None
        &&& self.value_defined_missing_no_label is None
    }

    /// No metadata check configured.
    pub fn new() -> (r: Metadata)
        ensures
            r.disabled(),
    {
        Metadata {
            primary_variable: None,
            missing_variable_labels: None,
            variable_odd_characters: None,
            variable_label_max_length: None,
            variable_label_spellcheck: None,
            value_label_odd_characters: None,
            value_label_max_length: None,
            value_label_spellcheck: None,
            value_defined_missing_no_label: None,
        }
    }
}

impl Valid for Metadata {
    open spec fn first_error(&self) -> Option<&'static str> {
        if !text_ok(self.primary_variable) {
            Some("metadata.primary_variable cannot be an empty string")
        } else if !list_ok(self.variable_odd_characters) {
            Some("metadata.variable_odd_characters cannot be empty")
        } else if !length_ok(self.variable_label_max_length) {
            Some("metadata.variable_label_max_length cannot be negative")
        } else if !list_ok(self.variable_label_spellcheck) {
            Some("metadata.variable_label_spellcheck cannot be empty")
        } else if !list_ok(self.value_label_odd_characters) {
            Some("metadata.value_label_odd_characters cannot be empty")
        } else if !length_ok(self.value_label_max_length) {
            Some("metadata.value_label_max_length cannot be negative")
        } else if !list_ok(self.value_label_spellcheck) {
            Some("metadata.value_label_spellcheck cannot be empty")
        } else {
            None
        }
    }

    fn validate(&self) -> (r: Result<(), &'static str>) {
        if !text_valid(&self.primary_variable) {
            return Err("metadata.primary_variable cannot be an empty string");
        }
        if !list_valid(&self.variable_odd_characters) {
            return Err("metadata.variable_odd_characters cannot be empty");
        }
        if !length_valid(&self.variable_label_max_length) {
            return Err("metadata.variable_label_max_length cannot be negative");
        }
        if !list_valid(&self.variable_label_spellcheck) {
            return Err("metadata.variable_label_spellcheck cannot be empty");
        }
        if !list_valid(&self.value_label_odd_characters) {
            return Err("metadata.value_label_odd_characters cannot be empty");
        }
        if !length_valid(&self.value_label_max_length) {
            return Err("metadata.value_label_max_length cannot be negative");
        }
        if !list_valid(&self.value_label_spellcheck) {
            return Err("metadata.value_label_spellcheck cannot be empty");
        }
        Ok(())
    }
}

/// Checks on the integrity of the values.
#[derive(Clone, Debug)]
pub struct DataIntegrity {
    /// Variables whose values must all be distinct.
    pub duplicate_values: Option<Setting<Vec<String>>>,
    pub string_value_odd_characters: Option<Setting<Vec<String>>>,
    pub string_value_spellcheck: Option<Setting<Vec<String>>>,
    /// Highest acceptable share of system-missing values, in percent.
    pub system_missing_value_threshold: Option<Setting<i32>>,
}

impl DataIntegrity {
    /// Every check of this part is switched off.
    pub open spec fn disabled(&self) -> bool {
        &&& self.duplicate_values is None
        &&& self.string_value_odd_characters is None
        &&& self.string_value_spellcheck is None
        &&& self.system_missing_value_threshold is None
    }

    /// No data integrity check configured.
    pub fn new() -> (r: DataIntegrity)
        ensures
            r.disabled(),
    {
        DataIntegrity {
            duplicate_values: None,
            string_value_odd_characters: None,
            string_value_spellcheck: None,
            system_missing_value_threshold: None,
        }
    }
}

impl Valid for DataIntegrity {
    open spec fn first_error(&self) -> Option<&'static str> {
        if !list_ok(self.duplicate_values) {
            Some("data_integrity.duplicate_values cannot be empty")
        } else if !list_ok(self.string_value_odd_characters) {
            Some("data_integrity.string_value_odd_characters cannot be empty")
        } else if !list_ok(self.string_value_spellcheck) {
            Some("data_integrity.string_value_spellcheck cannot be empty")
        } else if !percent_ok(self.system_missing_value_threshold) {
            Some(
                "data_integrity.system_missing_value_threshold out of bounds, must be between 1 and 100 inclusive",
            )
        } else {
            None
        }
    }

    fn validate(&self) -> (r: Result<(), &'static str>) {
        if !list_valid(&self.duplicate_values) {
            return Err("data_integrity.duplicate_values cannot be empty");
        }
        if !list_valid(&self.string_value_odd_characters) {
            return Err("data_integrity.string_value_odd_characters cannot be empty");
        }
        if !list_valid(&self.string_value_spellcheck) {
            return Err("data_integrity.string_value_spellcheck cannot be empty");
        }
        if !percent_valid(&self.system_missing_value_threshold) {
            return Err(
                "data_integrity.system_missing_value_threshold out of bounds, must be between 1 and 100 inclusive",
            );
        }
        Ok(())
    }
}

/// Checks on the risk of identifying individuals.
#[derive(Clone, Debug)]
pub struct DisclosureRisk {
    /// Display-format fragments that mark a variable as a date.
    pub date_format: Option<Setting<Vec<String>>>,
    pub regex_patterns: Option<Setting<Vec<String>>>,
    /// A variable fails when one of its values occurs at most this often.
    pub unique_values: Option<Setting<i32>>,
    pub string_value_stopword: Option<Setting<Vec<String>>>,
}

impl DisclosureRisk {
    /// Every check of this part is switched off.
    pub open spec fn disabled(&self) -> bool {
        &&& self.date_format is None
        &&& self.regex_patterns is None
        &&& self.unique_values is None
        &&& self.string_value_stopword is None
    }

    /// No disclosure check configured.
    pub fn new() -> (r: DisclosureRisk)
        ensures
            r.disabled(),
    {
        DisclosureRisk {
            date_format: None,
            regex_patterns: None,
            unique_values: None,
            string_value_stopword: None,
        }
    }
}

impl Valid for DisclosureRisk {
    open spec fn first_error(&self) -> Option<&'static str> {
        if !list_ok(self.date_format) {
            Some("disclosure_risk.date_format cannot be empty")
        } else if !list_ok(self.regex_patterns) {
            Some("disclosure_risk.regex_patterns cannot be empty")
        } else if !percent_ok(self.unique_values) {
            Some("threshold out of bounds")
        } else if !list_ok(self.string_value_stopword) {
            Some("disclosure_risk.string_value_stopword cannot be empty")
        } else {
            None
        }
    }

    fn validate(&self) -> (r: Result<(), &'static str>) {
        if !list_valid(&self.date_format) {
            return Err("disclosure_risk.date_format cannot be empty");
        }
        if !list_valid(&self.regex_patterns) {
            return Err("disclosure_risk.regex_patterns cannot be empty");
        }
        if !percent_valid(&self.unique_values) {
            return Err("threshold out of bounds");
        }
        if !list_valid(&self.string_value_stopword) {
            return Err("disclosure_risk.string_value_stopword cannot be empty");
        }
        Ok(())
    }
}

/// The whole configuration.
#[derive(Clone, Debug)]
pub struct Config {
    /// Leave failure locations out of the report.
    pub metadata_only: Option<bool>,
    pub progress: Option<bool>,
    pub basic_file_checks: BasicFileChecks,
    pub metadata: Metadata,
    pub data_integrity: DataIntegrity,
    pub disclosure_risk: DisclosureRisk,
}

impl Config {
    /// Every check is switched off, whatever the output options.
    pub open spec fn checks_disabled(&self) -> bool {
        &&& self.basic_file_checks.disabled()
        &&& self.metadata.disabled()
        &&& self.data_integrity.disabled()
        &&& self.disclosure_risk.disabled()
    }

    /// Every check is switched off and no output option is set.
    pub open spec fn disabled(&self) -> bool {
        &&& self.metadata_only is None
        &&& self.progress is None
        &&& self.basic_file_checks.disabled()
        &&& self.metadata.disabled()
        &&& self.data_integrity.disabled()
        &&& self.disclosure_risk.disabled()
    }

    /// A configuration with every check disabled.
    pub fn new() -> (r: Config)
        ensures
            r.disabled(),
    {
        Config {
            metadata_only: None,
            progress: None,
            basic_file_checks: BasicFileChecks::new(),
            metadata: Metadata::new(),
            data_integrity: DataIntegrity::new(),
            disclosure_risk: DisclosureRisk::new(),
        }
    }
}

/// The dictionary files configured for a dictionary check, if any.
pub open spec fn dictionary_paths(c: Config, name: crate::report::CheckName) -> Seq<String> {
    match name {
        crate::report::CheckName::ValueLabelSpellcheck => match c.metadata.value_label_spellcheck {
            Some(s) => s.setting@,
            None => Seq::empty(),
        },
        crate::report::CheckName::VariableLabelSpellcheck => match c.metadata.variable_label_spellcheck {
            Some(s) => s.setting@,
            None => Seq::empty(),
        },
        crate::report::CheckName::StringValueSpellcheck => match c.data_integrity.string_value_spellcheck {
            Some(s) => s.setting@,
            None => Seq::empty(),
        },
        crate::report::CheckName::StringValueStopword => match c.disclosure_risk.string_value_stopword {
            Some(s) => s.setting@,
            None => Seq::empty(),
        },
        _ => Seq::empty(),
    }
}

fn copy_strings(v: &Vec<String>) -> (r: Vec<String>)
    ensures
        r@ == v@,
{
    let mut r: Vec<String> = Vec::new();
    let mut i: usize = 0;
    while i < v.len()
        invariant
            i <= v@.len(),
            r@ == v@.take(i as int),
        decreases v@.len() - i,
    {
        r.push(v[i].clone());
        proof {
            assert(v@.take(i + 1) =~= v@.take(i as int).push(v@[i as int]));
        }
        i += 1;
    }
    proof {
        assert(v@.take(i as int) =~= v@);
    }
    r
}

impl Config {
    /// The dictionary files configured for the dictionary check `name`;
    /// empty for a check that reads none or is not configured.
    pub fn get_dictionaries(&self, name: crate::report::CheckName) -> (r: Vec<String>)
        ensures
            r@ == dictionary_paths(*self, name),
    {
        let s = match name {
            crate::report::CheckName::ValueLabelSpellcheck => &self.metadata.value_label_spellcheck,
            crate::report::CheckName::VariableLabelSpellcheck => &self.metadata.variable_label_spellcheck,
            crate::report::CheckName::StringValueSpellcheck => &self.data_integrity.string_value_spellcheck,
            crate::report::CheckName::StringValueStopword => &self.disclosure_risk.string_value_stopword,
            _ => return Vec::new(),
        };
        match s {
            Some(x) => copy_strings(&x.setting),
            None => Vec::new(),
        }
    }
}

/// The file type that a path's extension names.
pub open spec fn file_type_of(path: Seq<char>) -> Option<FileType> {
    if path.len() >= 4 && path.subrange(path.len() - 4, path.len() as int) == ".csv"@ {
        Some(FileType::CSV)
    } else if path.len() >= 4 && path.subrange(path.len() - 4, path.len() as int) == ".dta"@ {
        Some(FileType::DTA)
    } else if path.len() >= 4 && path.subrange(path.len() - 4, path.len() as int) == ".sav"@ {
        Some(FileType::SAV)
    } else if path.len() >= 9 && path.subrange(path.len() - 9, path.len() as int) == ".sas7bdat"@ {
        Some(FileType::SAS7BDAT)
    } else {
        None
    }
}

fn ends_with(path: &Vec<char>, suffix: &str) -> (r: bool)
    ensures
        r == (path@.len() >= suffix@.len() && path@.subrange(
            path@.len() - suffix@.len(),
            path@.len() as int,
        ) == suffix@),
{
    let suf = crate::text::chars_of(suffix);
    if suf.len() > path.len() {
        return false;
    }
    let pl = path.len();
    let start = pl - suf.len();
    let mut k: usize = 0;
    while k < suf.len()
        invariant
            pl == path@.len(),
            suf@ == suffix@,
            start == path@.len() - suf@.len(),
            k <= suf@.len(),
            forall|m: int| 0 <= m < k ==> path@[start + m] == suf@[m],
        decreases suf@.len() - k,
    {
        if path[start + k] != suf[k] {
            assert(path@.subrange(start as int, path@.len() as int)[k as int] != suffix@[k as int]);
            return false;
        }
        k += 1;
    }
    assert(path@.subrange(start as int, path@.len() as int) =~= suffix@);
    true
}

/// The file type that a path's extension names, if it names one the tool
/// reads.
pub fn file_type(path: &str) -> (r: Option<FileType>)
    ensures
        r == file_type_of(path@),
{
    let p = crate::text::chars_of(path);
    proof {
        reveal_strlit(".csv");
        reveal_strlit(".dta");
        reveal_strlit(".sav");
        reveal_strlit(".sas7bdat");
    }
    if ends_with(&p, ".csv") {
        Some(FileType::CSV)
    } else if ends_with(&p, ".dta") {
        Some(FileType::DTA)
    } else if ends_with(&p, ".sav") {
        Some(FileType::SAV)
    } else if ends_with(&p, ".sas7bdat") {
        Some(FileType::SAS7BDAT)
    } else {
        None
    }
}

/// The configured value when there is one, else `value`: a setting given in
/// the file wins over one given on the command line.
pub fn override_config<T>(option: Option<T>, value: T) -> (r: Option<T>)
    ensures
        r == match option {
            Some(v) => Some(v),
            None => Some(value),
        },
{
    match option {
        Some(v) => Some(v),
        None => Some(value),
    }
}

impl Valid for Config {
    open spec fn first_error(&self) -> Option<&'static str> {
        if self.basic_file_checks.first_error() is Some {
            self.basic_file_checks.first_error()
        } else if self.metadata.first_error() is Some {
            self.metadata.first_error()
        } else if self.data_integrity.first_error() is Some {
            self.data_integrity.first_error()
        } else {
            self.disclosure_risk.first_error()
        }
    }

    fn validate(&self) -> (r: Result<(), &'static str>) {
        match self.basic_file_checks.validate() {
            Err(m) => return Err(m),
            Ok(()) => {},
        }
        match self.metadata.validate() {
            Err(m) => return Err(m),
            Ok(()) => {},
        }
        match self.data_integrity.validate() {
            Err(m) => return Err(m),
            Ok(()) => {},
        }
        self.disclosure_risk.validate()
    }
}

impl Default for Config {
    fn default() -> (r: Config)
        ensures
            r.disabled(),
    {
        Config::new()
    }
}

} // verus!
