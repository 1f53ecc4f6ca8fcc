//! The data model: variables, raw values and their missingness.
use vstd::prelude::*;

verus! {

/// Whether a variable holds text or numbers.
#[derive(Clone, Copy, Debug, PartialEq, Eq, Structural, Hash)]
pub enum VariableType {
    Text,
    Numeric,
}

/// A column of the data set, as declared by the reader.
#[derive(Clone, Debug)]
pub struct Variable {
    /// Position of the variable in the data set.
    pub index: i32,
    pub name: String,
    pub label: String,
    pub type_: VariableType,
    /// The display format, which may hold date specifiers.
    pub value_format: String,
    /// Id of the variable's value-label set, empty if it has none.
    pub value_labels: String,
}

impl Variable {
    /// An equal copy of the variable.
    pub fn duplicate(&self) -> (r: Variable)
        ensures
            r == *self,
    {
        Variable {
            index: self.index,
            name: self.name.clone(),
            label: self.label.clone(),
            type_: self.type_,
            value_format: self.value_format.clone(),
            value_labels: self.value_labels.clone(),
        }
    }

    /// A text variable at index 0 with this name and nothing else set.
    pub fn named(s: &str) -> (r: Variable)
        ensures
            r.index == 0,
            r.name@ == s@,
            r.label@.len() == 0,
            r.type_ == VariableType::Text,
            r.value_format@.len() == 0,
            r.value_labels@.len() == 0,
    {
        Variable {
            index: 0,
            name: s.to_owned(),
            label: String::new(),
            type_: VariableType::Text,
            value_format: String::new(),
            value_labels: String::new(),
        }
    }
}

impl<'a> From<&'a str> for Variable {
    fn from(s: &'a str) -> Variable {
        Variable::named(s)
    }
}

impl<'a> vstd::std_specs::convert::FromSpecImpl<&'a str> for Variable {
    open spec fn obeys_from_spec() -> bool {
        false
    }

    open spec fn from_spec(v: &'a str) -> Variable {
        arbitrary()
    }
}

/// Why a value is missing, if it is.
#[allow(non_camel_case_types)]
#[derive(Clone, Copy, Debug, PartialEq, Eq, Structural, Hash)]
pub enum Missing {
    NOT_MISSING,
    SYSTEM_MISSING,
    TAGGED_MISSING(char),
    DEFINED_MISSING,
}

/// The missingness that the reader's three signals give: a tag wins over a
/// defined missing value, which wins over a system-missing one.
pub open spec fn missing_of(system: bool, tagged: bool, tag: char, defined: bool) -> Missing {
    if tagged {
        Missing::TAGGED_MISSING(tag)
    } else if defined {
        Missing::DEFINED_MISSING
    } else if system {
        Missing::SYSTEM_MISSING
    } else {
        Missing::NOT_MISSING
    }
}

impl Missing {
    /// Classifies a value from the reader's signals.
    pub fn from_signals(system: bool, tagged: bool, tag: char, defined: bool) -> (r: Missing)
        ensures
            r == missing_of(system, tagged, tag, defined),
    {
        if tagged {
            Missing::TAGGED_MISSING(tag)
        } else if defined {
            Missing::DEFINED_MISSING
        } else if system {
            Missing::SYSTEM_MISSING
        } else {
            Missing::NOT_MISSING
        }
    }

    /// The name of the variant, with the tag of a tagged missing value.
    pub fn to_text(&self) -> (r: String)
        ensures
            r@ == match *self {
                Missing::NOT_MISSING => "NOT_MISSING"@,
                Missing::SYSTEM_MISSING => "SYSTEM_MISSING"@,
                Missing::TAGGED_MISSING(c) => "TAGGED_MISSING("@ + seq![c] + ")"@,
                Missing::DEFINED_MISSING => "DEFINED_MISSING"@,
            },
    {
        match *self {
            Missing::NOT_MISSING => "NOT_MISSING".to_owned(),
            Missing::SYSTEM_MISSING => "SYSTEM_MISSING".to_owned(),
            Missing::TAGGED_MISSING(c) => {
                let mut out = crate::text::chars_of("TAGGED_MISSING(");
                out.push(c);
                out.push(')');
                proof {
                    reveal_strlit(")");
                    assert(out@ =~= "TAGGED_MISSING("@ + seq![c] + ")"@);
                }
                crate::text::string_of(&out)
            },
            Missing::DEFINED_MISSING => "DEFINED_MISSING".to_owned(),
        }
    }
}

/// The decimal digit for `d`.
pub open spec fn digit_char(d: nat) -> char {
    if d == 0 {
        '0'
    } else if d == 1 {
        '1'
    } else if d == 2 {
        '2'
    } else if d == 3 {
        '3'
    } else if d == 4 {
        '4'
    } else if d == 5 {
        '5'
    } else if d == 6 {
        '6'
    } else if d == 7 {
        '7'
    } else if d == 8 {
        '8'
    } else {
        '9'
    }
}

/// The decimal digits of `n`, without leading zeros.
pub open spec fn digits(n: nat) -> Seq<char>
    decreases n,
{
    if n < 10 {
        seq![digit_char(n)]
    } else {
        digits(n / 10).push(digit_char(n % 10))
    }
}

/// The decimal rendering of an integer, with a leading minus when negative.
pub open spec fn decimal(n: int) -> Seq<char> {
    if n < 0 {
        seq!['-'] + digits((-n) as nat)
    } else {
        digits(n as nat)
    }
}

fn digit(d: u64) -> (c: char)
    requires
        d < 10,
    ensures
        c == digit_char(d as nat),
{
    if d == 0 {
        '0'
    } else if d == 1 {
        '1'
    } else if d == 2 {
        '2'
    } else if d == 3 {
        '3'
    } else if d == 4 {
        '4'
    } else if d == 5 {
        '5'
    } else if d == 6 {
        '6'
    } else if d == 7 {
        '7'
    } else if d == 8 {
        '8'
    } else {
        '9'
    }
}

/// The decimal rendering of `n`.
pub fn decimal_text(n: i64) -> (r: String)
    ensures
        r@ == decimal(n as int),
{
    let negative = n < 0;
    let mut m: u64 = if negative {
        (-(n as i128)) as u64
    } else {
        n as u64
    };
    let ghost whole: nat = m as nat;
    let mut out: Vec<char> = Vec::new();
    while m >= 10
        invariant
            digits(whole) == digits(m as nat) + out@,
        decreases m,
    {
        let d = digit(m % 10);
        proof {
            assert(digits(m as nat) == digits((m / 10) as nat).push(d));
            assert(digits((m / 10) as nat).push(d) + out@ =~= digits((m / 10) as nat) + out@.insert(
                0,
                d,
            ));
        }
        out.insert(0, d);
        m = m / 10;
    }
    let d = digit(m);
    out.insert(0, d);
    proof {
        assert(digits(whole) =~= out@);
    }
    if negative {
        out.insert(0, '-');
        proof {
            assert(out@ =~= seq!['-'] + digits(whole));
        }
    }
    crate::text::string_of(&out)
}

/// A raw value as the reader delivered it. A floating-point value is kept
/// as its canonical fixed decimal rendering, which is all the checks read of it.
#[derive(Clone, Debug)]
pub enum AnyValue {
    Str(String),
    Int8(i8),
    Int16(i16),
    Int32(i32),
    Float(String),
    Double(String),
}

/// The text is a whole number in plain decimal notation: an optional
/// minus sign and at least one digit.
pub open spec fn integral_text(s: Seq<char>) -> bool {
    digits_only(unsigned_part(s))
}

/// The text without a leading minus sign.
pub open spec fn unsigned_part(s: Seq<char>) -> Seq<char> {
    if s.len() > 0 && s[0] == '-' {
        s.drop_first()
    } else {
        s
    }
}

/// The text is one or more decimal digits.
pub open spec fn digits_only(d: Seq<char>) -> bool {
    d.len() > 0 && forall|i: int| 0 <= i < d.len() ==> is_digit_char(#[trigger] d[i])
}

/// The character is a decimal digit.
pub open spec fn is_digit_char(c: char) -> bool {
    '0' <= c && c <= '9'
}

/// The canonical text of a float given in plain decimal notation (as
/// `Display` prints it, never with an exponent): a whole number gets `.0`,
/// any other text (a fraction, `NaN`, `inf`) is kept.
pub open spec fn float_rendering(s: Seq<char>) -> Seq<char> {
    if integral_text(s) {
        s + ".0"@
    } else {
        s
    }
}

impl AnyValue {
    /// An equal copy of the value.
    pub fn duplicate(&self) -> (r: AnyValue)
        ensures
            r == *self,
    {
        match self {
            AnyValue::Str(s) => AnyValue::Str(s.clone()),
            AnyValue::Int8(i) => AnyValue::Int8(*i),
            AnyValue::Int16(i) => AnyValue::Int16(*i),
            AnyValue::Int32(i) => AnyValue::Int32(*i),
            AnyValue::Float(s) => AnyValue::Float(s.clone()),
            AnyValue::Double(s) => AnyValue::Double(s.clone()),
        }
    }

    /// The textual form of the value; two values are the same key of the
    /// frequency table exactly when their texts are equal.
    pub open spec fn text(&self) -> Seq<char> {
        match *self {
            AnyValue::Str(s) => s@,
            AnyValue::Int8(i) => decimal(i as int),
            AnyValue::Int16(i) => decimal(i as int),
            AnyValue::Int32(i) => decimal(i as int),
            AnyValue::Float(s) => s@,
            AnyValue::Double(s) => s@,
        }
    }

    /// The textual form of the value.
    pub fn to_text(&self) -> (r: String)
        ensures
            r@ == self.text(),
    {
        match self {
            AnyValue::Str(s) => s.clone(),
            AnyValue::Int8(i) => decimal_text(*i as i64),
            AnyValue::Int16(i) => decimal_text(*i as i64),
            AnyValue::Int32(i) => decimal_text(*i as i64),
            AnyValue::Float(s) => s.clone(),
            AnyValue::Double(s) => s.clone(),
        }
    }

    /// A text value.
    pub fn from_str(s: &str) -> (r: AnyValue)
        ensures
            r matches AnyValue::Str(t) && t@ == s@,
    {
        AnyValue::Str(s.to_owned())
    }

    /// A 32-bit float from its plain decimal form (as `Display` prints it).
    pub fn float_from_decimal(s: &str) -> (r: AnyValue)
        ensures
            r matches AnyValue::Float(t) && t@ == float_rendering(s@),
    {
        AnyValue::Float(render_float(s))
    }

    /// A 64-bit float from its plain decimal form (as `Display` prints it).
    pub fn double_from_decimal(s: &str) -> (r: AnyValue)
        ensures
            r matches AnyValue::Double(t) && t@ == float_rendering(s@),
    {
        AnyValue::Double(render_float(s))
    }
}

impl<'a> From<&'a str> for AnyValue {
    fn from(s: &'a str) -> AnyValue {
        AnyValue::from_str(s)
    }
}

impl<'a> vstd::std_specs::convert::FromSpecImpl<&'a str> for AnyValue {
    open spec fn obeys_from_spec() -> bool {
        false
    }

    open spec fn from_spec(v: &'a str) -> AnyValue {
        arbitrary()
    }
}

impl From<i32> for AnyValue {
    fn from(i: i32) -> AnyValue {
        AnyValue::Int32(i)
    }
}

impl vstd::std_specs::convert::FromSpecImpl<i32> for AnyValue {
    open spec fn obeys_from_spec() -> bool {
        true
    }

    open spec fn from_spec(v: i32) -> AnyValue {
        AnyValue::Int32(v)
    }
}

/// One observed cell: a variable's value in one row.
#[derive(Clone, Debug)]
pub struct Value {
    pub variable: Variable,
    /// The row of the value.
    pub row: i32,
    pub value: AnyValue,
    /// The label of the value in the variable's label set, empty if none.
    pub label: String,
    pub missing: Missing,
}

impl Value {
    /// An equal copy of the value.
    pub fn duplicate(&self) -> (r: Value)
        ensures
            r == *self,
    {
        Value {
            variable: self.variable.duplicate(),
            row: self.row,
            value: self.value.duplicate(),
            label: self.label.clone(),
            missing: self.missing,
        }
    }

    /// A present text value in row 0 of a text variable named `foo`.
    pub fn from_text(s: &str) -> (r: Value)
        ensures
            r.value matches AnyValue::Str(t) && t@ == s@,
            r.row == 0,
            r.label@.len() == 0,
            r.missing == Missing::NOT_MISSING,
    {
        Value {
            variable: Variable::named("foo"),
            row: 0,
            value: AnyValue::from_str(s),
            label: String::new(),
            missing: Missing::NOT_MISSING,
        }
    }
}

impl<'a> From<&'a str> for Value {
    fn from(s: &'a str) -> Value {
        Value::from_text(s)
    }
}

impl<'a> vstd::std_specs::convert::FromSpecImpl<&'a str> for Value {
    open spec fn obeys_from_spec() -> bool {
        false
    }

    open spec fn from_spec(v: &'a str) -> Value {
        arbitrary()
    }
}

fn is_digit(c: char) -> (r: bool)
    ensures
        r == is_digit_char(c),
{
    '0' <= c && c <= '9'
}

fn render_float(s: &str) -> (r: String)
    ensures
        r@ == float_rendering(s@),
{
    let chars = crate::text::chars_of(s);
    let start: usize = if chars.len() > 0 && chars[0] == '-' {
        1
    } else {
        0
    };
    let ghost digits = unsigned_part(s@);
    proof {
        assert(digits =~= chars@.subrange(start as int, chars@.len() as int));
    }
    let mut all_digits = chars.len() > start;
    let mut i: usize = start;
    while i < chars.len()
        invariant
            chars@ == s@,
            start <= i <= chars@.len(),
            digits == chars@.subrange(start as int, chars@.len() as int),
            all_digits == (chars@.len() > start && forall|k: int|
                start <= k < i ==> is_digit_char(#[trigger] chars@[k])),
        decreases chars@.len() - i,
    {
        if !is_digit(chars[i]) {
            all_digits = false;
        }
        i += 1;
    }
    proof {
        if all_digits {
            assert forall|k: int| 0 <= k < digits.len() implies is_digit_char(#[trigger] digits[k]) by {
                assert(digits[k] == chars@[start + k]);
            }
            assert(integral_text(s@));
        } else if chars@.len() > start {
            let k = choose|k: int| start <= k < i && !is_digit_char(#[trigger] chars@[k]);
            assert(digits[k - start] == chars@[k]);
            assert(!integral_text(s@));
        } else {
            assert(!integral_text(s@));
        }
    }
    if all_digits {
        let mut out = chars;
        out.push('.');
        out.push('0');
        proof {
            reveal_strlit(".0");
            assert(out@ =~= s@ + ".0"@);
        }
        crate::text::string_of(&out)
    } else {
        s.to_owned()
    }
}

} // verus!
