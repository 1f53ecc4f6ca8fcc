//! The frequency table (per variable, how often each distinct value
//! occurred) and the value-label sets.
//!
//! Values are told apart by their text alone. The first value seen with a
//! given text is kept as the representative of all later ones: their rows,
//! labels and missingness are not stored.
use vstd::prelude::*;
use crate::model::{Value, Variable};

verus! {

/// A distinct value of a variable and how often it occurred.
#[derive(Clone, Debug)]
pub struct ValueCount {
    /// The first value seen with this text.
    pub value: Value,
    /// The text of the value, which identifies it.
    pub key: String,
    pub count: u64,
}

/// The distinct values of one variable.
#[derive(Clone, Debug)]
pub struct VariableFrequencies {
    pub variable: Variable,
    pub values: Vec<ValueCount>,
}

/// The sum of the counts of `vs`.
pub open spec fn total(vs: Seq<ValueCount>) -> int
    decreases vs.len(),
{
    if vs.len() == 0 {
        0
    } else {
        total(vs.drop_last()) + vs.last().count
    }
}

/// Each key is the text of its value, no key appears twice, and every
/// distinct value occurred at least once.
pub open spec fn counts_wf(vs: Seq<ValueCount>) -> bool {
    &&& forall|i: int| 0 <= i < vs.len() ==> (#[trigger] vs[i]).key@ == vs[i].value.value.text()
    &&& forall|i: int| 0 <= i < vs.len() ==> (#[trigger] vs[i]).count >= 1
    &&& forall|i: int, j: int|
        0 <= i < j < vs.len() ==> (#[trigger] vs[i]).key@ != (#[trigger] vs[j]).key@
}

proof fn lemma_total_update(vs: Seq<ValueCount>, i: int, c: ValueCount)
    requires
        0 <= i < vs.len(),
    ensures
        total(vs.update(i, c)) == total(vs) - vs[i].count + c.count,
    decreases vs.len(),
{
    if i < vs.len() - 1 {
        assert(vs.update(i, c).drop_last() =~= vs.drop_last().update(i, c));
        lemma_total_update(vs.drop_last(), i, c);
    } else {
        assert(vs.update(i, c).drop_last() =~= vs.drop_last());
    }
}

pub proof fn lemma_total_push(vs: Seq<ValueCount>, c: ValueCount)
    ensures
        total(vs.push(c)) == total(vs) + c.count,
{
    assert(vs.push(c).drop_last() =~= vs);
}

/// `new` is `old` with `n` more occurrences of `value`: the count of the
/// value with the same text grows, or the value is appended as the
/// representative of its text.
pub open spec fn counted_into(old: VariableFrequencies, new: VariableFrequencies, value: Value, n: u64) -> bool {
    &&& new.variable == old.variable
    &&& if exists|k: int| 0 <= k < old.values@.len() && (#[trigger] old.values@[k]).key@ == value.value.text() {
        forall|k: int|
            0 <= k < old.values@.len() && (#[trigger] old.values@[k]).key@ == value.value.text() ==> new.values@
                == old.values@.update(k, ValueCount { count: (old.values@[k].count + n) as u64, ..old.values@[k] })
    } else {
        &&& new.values@.len() == old.values@.len() + 1
        &&& new.values@.drop_last() == old.values@
        &&& new.values@.last().value == value
        &&& new.values@.last().count == n
    }
}

/// Per variable, the distinct values seen and their counts, in the order
/// the variables were first seen.
#[derive(Clone, Debug)]
pub struct FrequencyTable {
    pub entries: Vec<VariableFrequencies>,
}

impl FrequencyTable {
    /// No two entries are for the same variable index, and each entry's
    /// counts are well formed.
    pub open spec fn wf(&self) -> bool {
        &&& forall|i: int| 0 <= i < self.entries@.len() ==> counts_wf(#[trigger] self.entries@[i].values@)
        &&& forall|i: int, j: int|
            0 <= i < j < self.entries@.len() ==> (#[trigger] self.entries@[i]).variable.index != (
            #[trigger] self.entries@[j]).variable.index
    }

    /// Every count can grow by `n`.
    pub open spec fn room(&self, n: int) -> bool {
        forall|i: int, k: int|
            0 <= i < self.entries@.len() && 0 <= k < self.entries@[i].values@.len() ==> (
            #[trigger] self.entries@[i].values@[k]).count + n <= u64::MAX
    }

    /// The occurrences of each variable add up to a number that fits in
    /// a `u64`.
    pub open spec fn totals_fit(&self) -> bool {
        forall|p: int| 0 <= p < self.entries@.len() ==> total(#[trigger] self.entries@[p].values@) <= u64::MAX
    }

    /// The total of the entry for variable index `index`, 0 if it has none.
    pub open spec fn total_of(&self, index: i32) -> int {
        if exists|i: int| 0 <= i < self.entries@.len() && (#[trigger] self.entries@[i]).variable.index == index {
            let i = choose|i: int| 0 <= i < self.entries@.len() && (#[trigger] self.entries@[i]).variable.index == index;
            total(self.entries@[i].values@)
        } else {
            0
        }
    }

    pub fn new() -> (r: FrequencyTable)
        ensures
            r.wf(),
            r.entries@.len() == 0,
    {
        FrequencyTable { entries: Vec::new() }
    }

    /// Position of the entry for variable index `index`.
    pub fn position(&self, index: i32) -> (r: Option<usize>)
        ensures
            r matches Some(i) ==> i < self.entries@.len() && self.entries@[i as int].variable.index
                == index,
            r is None ==> forall|i: int|
                0 <= i < self.entries@.len() ==> (#[trigger] self.entries@[i]).variable.index
                    != index,
    {
        let mut i: usize = 0;
        while i < self.entries.len()
            invariant
                i <= self.entries@.len(),
                forall|k: int| 0 <= k < i ==> (#[trigger] self.entries@[k]).variable.index != index,
            decreases self.entries@.len() - i,
        {
            if self.entries[i].variable.index == index {
                return Some(i);
            }
            i += 1;
        }
        None
    }

    /// `self` is `old` with `n` more occurrences of `value` for `variable`:
    /// the variable's entry is updated as `counted_into` says and no other
    /// entry changes, or, when the variable has no entry yet, a new entry
    /// holding just this value is appended.
    pub open spec fn added(&self, old: &FrequencyTable, variable: Variable, value: Value, n: u64) -> bool {
        &&& forall|p: int|
            0 <= p < old.entries@.len() && (#[trigger] old.entries@[p]).variable.index == variable.index
                ==> counted_into(old.entries@[p], self.entries@[p], value, n) && self.entries@
                == old.entries@.update(p, self.entries@[p])
        &&& (forall|p: int|
            0 <= p < old.entries@.len() ==> (#[trigger] old.entries@[p]).variable.index
                != variable.index) ==> {
            &&& self.entries@.len() == old.entries@.len() + 1
            &&& self.entries@.drop_last() == old.entries@
            &&& self.entries@.last().variable == variable
            &&& self.entries@.last().values@.len() == 1
            &&& self.entries@.last().values@[0].value == value
            &&& self.entries@.last().values@[0].count == n
        }
    }

    /// Counts `n` more occurrences of `value` for `variable`: the count of
    /// the value with the same text grows, or the value is added as the
    /// representative of its text.
    pub fn add(&mut self, variable: &Variable, value: Value, n: u64)
        requires
            old(self).wf(),
            old(self).room(n as int),
            n >= 1,
        ensures
            final(self).wf(),
            final(self).total_of(variable.index) == old(self).total_of(variable.index) + n,
            forall|x: i32|
                x != variable.index ==> #[trigger] final(self).total_of(x) == old(self).total_of(x),
            final(self).entries@.len() >= old(self).entries@.len(),
            final(self).added(old(self), *variable, value, n),
    {
        let key = value.value.to_text();
        match self.position(variable.index) {
            Some(p) => {
                let mut entry = VariableFrequencies {
                    variable: Variable::named(""),
                    values: Vec::new(),
                };
                self.entries.set_and_swap(p, &mut entry);
                let ghost old_values = entry.values@;
                proof {
                    assert(counts_wf(old_values));
                }
                let pos = key_position(&entry.values, &key);
                match pos {
                    Some(k) => {
                        let mut vc = ValueCount {
                            value: Value::from_text(""),
                            key: String::new(),
                            count: 0,
                        };
                        entry.values.set_and_swap(k, &mut vc);
                        assert(old(self).entries@[p as int].values@[k as int] == vc);
                        let ghost before_count = vc;
                        vc.count = vc.count + n;
                        assert(vc == ValueCount { count: (before_count.count + n) as u64, ..before_count });
                        entry.values.set_and_swap(k, &mut vc);
                        proof {
                            assert forall|k2: int|
                                0 <= k2 < old_values.len() && (#[trigger] old_values[k2]).key@ == value.value.text()
                            implies entry.values@ == old_values.update(
                                k2,
                                ValueCount { count: (old_values[k2].count + n) as u64, ..old_values[k2] },
                            ) by {
                                if k2 < k {
                                    assert(old_values[k2].key@ != old_values[k as int].key@);
                                } else if k2 > k {
                                    assert(old_values[k as int].key@ != old_values[k2].key@);
                                }
                            }
                            assert(old_values[k as int].key@ == value.value.text());
                            assert(entry.variable == old(self).entries@[p as int].variable);
                            assert(counted_into(old(self).entries@[p as int], entry, value, n));
                            lemma_total_update(old_values, k as int, entry.values@[k as int]);
                            assert(entry.values@ == old_values.update(k as int, entry.values@[k as int]));
                            assert forall|i: int, j: int|
                                0 <= i < j < entry.values@.len() implies (#[trigger] entry.values@[i]).key@
                                != (#[trigger] entry.values@[j]).key@ by {
                                assert(entry.values@[i].key == old_values[i].key);
                                assert(entry.values@[j].key == old_values[j].key);
                            }
                        }
                    },
                    None => {
                        let ghost v0 = value;
                        let vc = ValueCount { value, key, count: n };
                        entry.values.push(vc);
                        proof {
                            assert(!exists|k: int| 0 <= k < old_values.len() && (#[trigger] old_values[k]).key@ == v0.value.text());
                            assert(entry.values@.drop_last() =~= old_values);
                            assert(counted_into(old(self).entries@[p as int], entry, v0, n));
                            lemma_total_push(old_values, vc);
                            let vs = entry.values@;
                            assert(vs == old_values.push(vc));
                            assert forall|i: int| 0 <= i < vs.len() implies (#[trigger] vs[i]).key@
                                == vs[i].value.value.text() && vs[i].count >= 1 by {
                                if i < old_values.len() {
                                    assert(vs[i] == old_values[i]);
                                }
                            }
                            assert forall|i: int, j: int|
                                0 <= i < j < vs.len() implies (#[trigger] vs[i]).key@ != (
                                #[trigger] vs[j]).key@ by {
                                assert(vs[i] == old_values[i]);
                                if j < old_values.len() {
                                    assert(vs[j] == old_values[j]);
                                }
                            }
                            assert(counts_wf(vs));
                        }
                    },
                }
                proof {
                    assert(entry.variable == old(self).entries@[p as int].variable);
                    assert(old_values == old(self).entries@[p as int].values@);
                    assert(counted_into(old(self).entries@[p as int], entry, value, n));
                }
                let ghost updated = entry;
                self.entries.set_and_swap(p, &mut entry);
                proof {
                    let e = old(self).entries@;
                    assert(self.entries@[p as int] == updated);
                    let f = self.entries@;
                    assert forall|i: int| 0 <= i < f.len() && i != p implies f[i] == e[i] by {}
                    assert(f[p as int].variable == e[p as int].variable);
                    assert(counts_wf(f[p as int].values@));
                    assert forall|i: int| 0 <= i < f.len() implies counts_wf(
                        #[trigger] f[i].values@,
                    ) by {
                        if i != p {
                            assert(f[i] == e[i]);
                        }
                    }
                    assert forall|i: int, j: int|
                        0 <= i < j < f.len() implies (#[trigger] f[i]).variable.index != (
                        #[trigger] f[j]).variable.index by {
                        assert(f[i].variable.index == e[i].variable.index);
                        assert(f[j].variable.index == e[j].variable.index);
                    }
                    assert(self.wf());
                    assert(counted_into(e[p as int], f[p as int], value, n));
                    assert(f =~= e.update(p as int, f[p as int]));
                    assert forall|q: int|
                        0 <= q < e.len() && (#[trigger] e[q]).variable.index == variable.index implies q == p by {
                        if q < p {
                            assert(e[q].variable.index != e[p as int].variable.index);
                        } else if q > p {
                            assert(e[p as int].variable.index != e[q].variable.index);
                        }
                    }
                    assert forall|x: i32| #[trigger] self.total_of(x) == if x == variable.index {
                        old(self).total_of(x) + n
                    } else {
                        old(self).total_of(x)
                    } by {
                        lemma_total_of(*old(self), x);
                        lemma_total_of(*self, x);
                    }
                }
            },
            None => {
                let mut values: Vec<ValueCount> = Vec::new();
                let vc = ValueCount { value, key, count: n };
                values.push(vc);
                proof {
                    lemma_total_push(Seq::empty(), vc);
                    assert(values@ =~= Seq::<ValueCount>::empty().push(vc));
                }
                self.entries.push(VariableFrequencies { variable: variable.duplicate(), values });
                proof {
                    let e = old(self).entries@;
                    let f = self.entries@;
                    assert forall|i: int| 0 <= i < e.len() implies f[i] == e[i] by {}
                    assert(counts_wf(f.last().values@));
                    assert forall|i: int| 0 <= i < f.len() implies counts_wf(
                        #[trigger] f[i].values@,
                    ) by {
                        if i < e.len() {
                            assert(f[i] == e[i]);
                        }
                    }
                    assert forall|i: int, j: int|
                        0 <= i < j < f.len() implies (#[trigger] f[i]).variable.index != (
                        #[trigger] f[j]).variable.index by {
                        assert(f[i] == e[i]);
                        if j < e.len() {
                            assert(f[j] == e[j]);
                        }
                    }
                    assert(self.wf());
                    assert(f.drop_last() =~= e);
                    assert forall|x: i32| #[trigger] self.total_of(x) == if x == variable.index {
                        old(self).total_of(x) + n
                    } else {
                        old(self).total_of(x)
                    } by {
                        lemma_total_of(*old(self), x);
                        lemma_total_of(*self, x);
                    }
                }
            },
        }
    }
}

/// With unique indices, the total of `x` is that of its entry.
pub proof fn lemma_total_of(t: FrequencyTable, x: i32)
    requires
        t.wf(),
    ensures
        forall|p: int|
            0 <= p < t.entries@.len() && t.entries@[p].variable.index == x ==> t.total_of(x)
                == total(#[trigger] t.entries@[p].values@),
        (forall|p: int| 0 <= p < t.entries@.len() ==> (#[trigger] t.entries@[p]).variable.index != x)
            ==> t.total_of(x) == 0,
{
    assert forall|p: int|
        0 <= p < t.entries@.len() && t.entries@[p].variable.index == x implies t.total_of(x)
        == total(#[trigger] t.entries@[p].values@) by {
        let i = choose|i: int| 0 <= i < t.entries@.len() && (#[trigger] t.entries@[i]).variable.index == x;
        if i != p {
            if i < p {
                assert(t.entries@[i].variable.index != t.entries@[p].variable.index);
            } else {
                assert(t.entries@[p].variable.index != t.entries@[i].variable.index);
            }
        }
    }
}

proof fn lemma_count_le_total(vs: Seq<ValueCount>, k: int)
    requires
        0 <= k < vs.len(),
    ensures
        vs[k].count <= total(vs),
    decreases vs.len(),
{
    if k < vs.len() - 1 {
        lemma_count_le_total(vs.drop_last(), k);
    }
    lemma_total_nonneg(vs.drop_last());
}

pub proof fn lemma_total_prefix(vs: Seq<ValueCount>, k: int)
    requires
        0 <= k <= vs.len(),
    ensures
        total(vs.take(k)) <= total(vs),
        total(vs.take(k)) >= 0,
    decreases vs.len(),
{
    lemma_total_nonneg(vs.take(k));
    if k < vs.len() {
        assert(vs.drop_last().take(k) =~= vs.take(k));
        lemma_total_prefix(vs.drop_last(), k);
    } else {
        assert(vs.take(k) =~= vs);
    }
}

pub proof fn lemma_total_nonneg(vs: Seq<ValueCount>)
    ensures
        total(vs) >= 0,
    decreases vs.len(),
{
    if vs.len() > 0 {
        lemma_total_nonneg(vs.drop_last());
    }
}

/// Totals bounded by `b` leave room for one more occurrence of any value.
pub proof fn lemma_totals_room(t: FrequencyTable, b: int)
    requires
        t.wf(),
        forall|x: i32| #[trigger] t.total_of(x) <= b,
        b + 1 <= u64::MAX,
    ensures
        t.room(1),
{
    assert forall|i: int, k: int|
        0 <= i < t.entries@.len() && 0 <= k < t.entries@[i].values@.len() implies (
        #[trigger] t.entries@[i].values@[k]).count + 1 <= u64::MAX by {
        lemma_count_le_total(t.entries@[i].values@, k);
        lemma_total_of(t, t.entries@[i].variable.index);
        assert(t.total_of(t.entries@[i].variable.index) <= b);
    }
}

/// The variable indices of the entries of `es` whose occurrences do not
/// add up to `rows`, in table order.
pub open spec fn mismatched_indices(es: Seq<VariableFrequencies>, rows: int) -> Seq<i32>
    decreases es.len(),
{
    if es.len() == 0 {
        Seq::empty()
    } else {
        let prev = mismatched_indices(es.drop_last(), rows);
        if total(es.last().values@) != rows {
            prev.push(es.last().variable.index)
        } else {
            prev
        }
    }
}

impl FrequencyTable {
    /// The variables whose counts do not add up to `rows`, the number of
    /// rows the file announced: a broken consistency invariant, reported
    /// rather than enforced.
    pub fn mismatched(&self, rows: i32) -> (r: Vec<i32>)
        ensures
            r@ == mismatched_indices(self.entries@, rows as int),
    {
        let es = &self.entries;
        let mut out: Vec<i32> = Vec::new();
        let mut i: usize = 0;
        while i < es.len()
            invariant
                es@ == self.entries@,
                i <= es@.len(),
                out@ == mismatched_indices(es@.take(i as int), rows as int),
            decreases es@.len() - i,
        {
            let vs = &es[i].values;
            let mut sum: u64 = 0;
            let mut over = false;
            let mut k: usize = 0;
            while k < vs.len()
                invariant
                    vs@ == es@[i as int].values@,
                    i < es@.len(),
                    k <= vs@.len(),
                    !over ==> sum == total(vs@.take(k as int)),
                    !over ==> sum <= 0x8000_0000,
                    over ==> total(vs@) > 0x8000_0000,
                decreases vs@.len() - k,
            {
                if !over {
                    proof {
                        let t = vs@.take(k + 1);
                        assert(t.drop_last() =~= vs@.take(k as int));
                        assert(t.last() == vs@[k as int]);
                        lemma_total_prefix(vs@, k + 1);
                    }
                    if vs[k].count > 0x8000_0000 - sum {
                        over = true;
                    } else {
                        sum = sum + vs[k].count;
                    }
                }
                k += 1;
            }
            proof {
                assert(vs@.take(vs@.len() as int) =~= vs@);
                let t = es@.take(i + 1);
                assert(t.drop_last() =~= es@.take(i as int));
                assert(t.last() == es@[i as int]);
            }
            let mismatch = over || rows < 0 || sum != rows as u64;
            if mismatch {
                out.push(es[i].variable.index);
            }
            i += 1;
        }
        proof {
            assert(es@.take(i as int) =~= es@);
        }
        out
    }
}

/// Position of the value whose text is `key`.
fn key_position(vs: &Vec<ValueCount>, key: &String) -> (r: Option<usize>)
    ensures
        r matches Some(k) ==> k < vs@.len() && vs@[k as int].key@ == key@,
        r is None ==> forall|k: int| 0 <= k < vs@.len() ==> (#[trigger] vs@[k]).key@ != key@,
{
    let mut k: usize = 0;
    while k < vs.len()
        invariant
            k <= vs@.len(),
            forall|m: int| 0 <= m < k ==> (#[trigger] vs@[m]).key@ != key@,
        decreases vs@.len() - k,
    {
        if vs[k].key == *key {
            return Some(k);
        }
        k += 1;
    }
    None
}


/// A value-label set: labels keyed by the text of a value.
#[derive(Clone, Debug)]
pub struct LabelSet {
    pub id: String,
    /// Pairs of value text and label, no value text twice.
    pub labels: Vec<(String, String)>,
}

/// No value text is labelled twice.
pub open spec fn labels_wf(ls: Seq<(String, String)>) -> bool {
    forall|i: int, j: int| 0 <= i < j < ls.len() ==> (#[trigger] ls[i]).0@ != (#[trigger] ls[j]).0@
}

/// The label of value text `text` among the pairs `ls`, empty when there
/// is none.
pub open spec fn label_in(ls: Seq<(String, String)>, text: Seq<char>) -> Seq<char> {
    if exists|k: int| 0 <= k < ls.len() && (#[trigger] ls[k]).0@ == text {
        let k = choose|k: int| 0 <= k < ls.len() && (#[trigger] ls[k]).0@ == text;
        ls[k].1@
    } else {
        Seq::empty()
    }
}

proof fn lemma_label_at(ls: Seq<(String, String)>, k: int)
    requires
        labels_wf(ls),
        0 <= k < ls.len(),
    ensures
        label_in(ls, ls[k].0@) == ls[k].1@,
{
    let t = ls[k].0@;
    let j = choose|j: int| 0 <= j < ls.len() && (#[trigger] ls[j]).0@ == t;
    if j < k {
        assert(ls[j].0@ != ls[k].0@);
    } else if j > k {
        assert(ls[k].0@ != ls[j].0@);
    }
}

/// Relabelling position `k`, whose text is `text`, changes the label of
/// `text` alone.
proof fn lemma_label_relabel(ls: Seq<(String, String)>, k: int, pair: (String, String))
    requires
        labels_wf(ls),
        0 <= k < ls.len(),
        pair.0@ == ls[k].0@,
        labels_wf(ls.update(k, pair)),
    ensures
        label_in(ls.update(k, pair), pair.0@) == pair.1@,
        forall|t: Seq<char>| t != pair.0@ ==> #[trigger] label_in(ls.update(k, pair), t) == label_in(ls, t),
{
    let ls2 = ls.update(k, pair);
    lemma_label_at(ls2, k);
    assert forall|t: Seq<char>| t != pair.0@ implies #[trigger] label_in(ls2, t) == label_in(ls, t) by {
        if exists|j: int| 0 <= j < ls.len() && (#[trigger] ls[j]).0@ == t {
            let j = choose|j: int| 0 <= j < ls.len() && (#[trigger] ls[j]).0@ == t;
            lemma_label_at(ls, j);
            assert(ls2[j] == ls[j]);
            lemma_label_at(ls2, j);
        } else {
            assert forall|j: int| 0 <= j < ls2.len() implies (#[trigger] ls2[j]).0@ != t by {
                if j != k {
                    assert(ls2[j] == ls[j]);
                }
            }
        }
    }
}

/// Appending a pair for a new text changes the label of that text alone.
proof fn lemma_label_append(ls: Seq<(String, String)>, pair: (String, String))
    requires
        labels_wf(ls),
        labels_wf(ls.push(pair)),
        forall|j: int| 0 <= j < ls.len() ==> (#[trigger] ls[j]).0@ != pair.0@,
    ensures
        label_in(ls.push(pair), pair.0@) == pair.1@,
        forall|t: Seq<char>| t != pair.0@ ==> #[trigger] label_in(ls.push(pair), t) == label_in(ls, t),
{
    let ls2 = ls.push(pair);
    lemma_label_at(ls2, ls.len() as int);
    assert forall|t: Seq<char>| t != pair.0@ implies #[trigger] label_in(ls2, t) == label_in(ls, t) by {
        if exists|j: int| 0 <= j < ls.len() && (#[trigger] ls[j]).0@ == t {
            let j = choose|j: int| 0 <= j < ls.len() && (#[trigger] ls[j]).0@ == t;
            lemma_label_at(ls, j);
            assert(ls2[j] == ls[j]);
            lemma_label_at(ls2, j);
        } else {
            assert forall|j: int| 0 <= j < ls2.len() implies (#[trigger] ls2[j]).0@ != t by {
                if j < ls.len() {
                    assert(ls2[j] == ls[j]);
                }
            }
        }
    }
}

/// The value-label sets read so far.
#[derive(Clone, Debug)]
pub struct ValueLabels {
    pub sets: Vec<LabelSet>,
}

impl ValueLabels {
    /// Set ids are unique, and so are the value texts within a set.
    pub open spec fn wf(&self) -> bool {
        &&& forall|i: int| 0 <= i < self.sets@.len() ==> labels_wf(#[trigger] self.sets@[i].labels@)
        &&& forall|i: int, j: int|
            0 <= i < j < self.sets@.len() ==> (#[trigger] self.sets@[i]).id@ != (
            #[trigger] self.sets@[j]).id@
    }

    /// The labels of set `id`, empty when there is no such set.
    pub open spec fn set(&self, id: Seq<char>) -> Seq<(String, String)> {
        if exists|i: int| 0 <= i < self.sets@.len() && (#[trigger] self.sets@[i]).id@ == id {
            let i = choose|i: int| 0 <= i < self.sets@.len() && (#[trigger] self.sets@[i]).id@ == id;
            self.sets@[i].labels@
        } else {
            Seq::empty()
        }
    }

    /// The label of value text `text` in set `id`, empty when there is none.
    pub open spec fn label(&self, id: Seq<char>, text: Seq<char>) -> Seq<char> {
        label_in(self.set(id), text)
    }

    pub fn new() -> (r: ValueLabels)
        ensures
            r.wf(),
            r.sets@.len() == 0,
    {
        ValueLabels { sets: Vec::new() }
    }

    /// Position of set `id`.
    pub fn position(&self, id: &String) -> (r: Option<usize>)
        ensures
            r matches Some(i) ==> i < self.sets@.len() && self.sets@[i as int].id@ == id@,
            r is None ==> forall|i: int| 0 <= i < self.sets@.len() ==> (#[trigger] self.sets@[i]).id@ != id@,
    {
        let mut i: usize = 0;
        while i < self.sets.len()
            invariant
                i <= self.sets@.len(),
                forall|k: int| 0 <= k < i ==> (#[trigger] self.sets@[k]).id@ != id@,
            decreases self.sets@.len() - i,
        {
            if self.sets[i].id == *id {
                return Some(i);
            }
            i += 1;
        }
        None
    }

    /// The label of value text `text` in set `id`, empty when there is none.
    pub fn lookup(&self, id: &String, text: &String) -> (r: String)
        requires
            self.wf(),
        ensures
            r@ == self.label(id@, text@),
    {
        match self.position(id) {
            None => String::new(),
            Some(p) => {
                let ls = &self.sets[p].labels;
                proof {
                    lemma_set_at(*self, p as int);
                }
                let mut k: usize = 0;
                while k < ls.len()
                    invariant
                        self.wf(),
                        p < self.sets@.len(),
                        ls@ == self.sets@[p as int].labels@,
                        ls@ == self.set(id@),
                        k <= ls@.len(),
                        forall|m: int| 0 <= m < k ==> (#[trigger] ls@[m]).0@ != text@,
                    decreases ls@.len() - k,
                {
                    if ls[k].0 == *text {
                        proof {
                            let j = choose|j: int| 0 <= j < ls@.len() && (#[trigger] ls@[j]).0@ == text@;
                            assert(labels_wf(self.sets@[p as int].labels@));
                            if j != k {
                                if j < k {
                                    assert(ls@[j].0@ != ls@[k as int].0@);
                                } else {
                                    assert(ls@[k as int].0@ != ls@[j].0@);
                                }
                            }
                        }
                        return ls[k].1.clone();
                    }
                    k += 1;
                }
                String::new()
            },
        }
    }

    /// Labels value text `text` with `label` in set `id`, replacing an
    /// earlier label of the same text.
    pub fn insert(&mut self, id: String, text: String, label: String)
        requires
            old(self).wf(),
        ensures
            final(self).wf(),
            final(self).label(id@, text@) == label@,
            forall|i: Seq<char>, t: Seq<char>|
                !(i == id@ && t == text@) ==> #[trigger] final(self).label(i, t) == old(self).label(i, t),
    {
        let ghost id0 = id@;
        let ghost text0 = text@;
        let ghost label0 = label@;
        match self.position(&id) {
            None => {
                let ghost e = self.sets@;
                let set = LabelSet { id, labels: vec![(text, label)] };
                self.sets.push(set);
                proof {
                    let f = self.sets@;
                    assert forall|i: int, j: int| 0 <= i < j < f.len() implies (#[trigger] f[i]).id@
                        != (#[trigger] f[j]).id@ by {
                        assert(f[i] == e[i]);
                        if j < e.len() {
                            assert(f[j] == e[j]);
                        }
                    }
                    assert forall|i: int| 0 <= i < f.len() implies labels_wf(#[trigger] f[i].labels@) by {
                        if i < e.len() {
                            assert(f[i] == e[i]);
                        }
                    }
                    lemma_other_sets(*old(self), *self, id0);
                    lemma_set_at(*self, e.len() as int);
                    let ls = f[e.len() as int].labels@;
                    lemma_label_at(ls, 0);
                    assert(!exists|q: int| 0 <= q < e.len() && (#[trigger] e[q]).id@ == id0);
                    assert(old(self).set(id0) == Seq::<(String, String)>::empty());
                    assert forall|t: Seq<char>| t != text0 implies #[trigger] self.label(id0, t) == old(self).label(id0, t) by {
                        assert forall|j: int| 0 <= j < ls.len() implies (#[trigger] ls[j]).0@ != t by {}
                    }
                    assert forall|i: Seq<char>, t: Seq<char>| !(i == id0 && t == text0) implies #[trigger] self.label(i, t) == old(self).label(i, t) by {
                        if i == id0 {
                            assert(self.label(id0, t) == old(self).label(id0, t));
                        }
                    }
                }
            },
            Some(p) => {
                let ghost e = self.sets@;
                let mut set = LabelSet { id: String::new(), labels: Vec::new() };
                self.sets.set_and_swap(p, &mut set);
                let ghost before = set.labels@;
                proof {
                    assert(labels_wf(before));
                }
                let pos = text_position(&set.labels, &text);
                if let Some(k) = pos {
                    let mut pair = (String::new(), String::new());
                    set.labels.set_and_swap(k, &mut pair);
                    let key = pair.0;
                    let ghost pair0 = (key, label);
                    set.labels.set(k, (key, label));
                    proof {
                        assert(set.labels@ == before.update(k as int, pair0));
                        let a = set.labels@;
                        assert forall|i: int, j: int| 0 <= i < j < a.len() implies (#[trigger] a[i]).0@
                            != (#[trigger] a[j]).0@ by {
                            assert(a[i].0@ == before[i].0@);
                            assert(a[j].0@ == before[j].0@);
                        }
                        lemma_label_relabel(before, k as int, pair0);
                    }
                } else {
                    let ghost pair0 = (text, label);
                    set.labels.push((text, label));
                    proof {
                        assert(set.labels@ == before.push(pair0));
                        let a = set.labels@;
                        assert forall|i: int, j: int| 0 <= i < j < a.len() implies (#[trigger] a[i]).0@
                            != (#[trigger] a[j]).0@ by {
                            assert(a[i] == before[i]);
                            if j < before.len() {
                                assert(a[j] == before[j]);
                            }
                        }
                        lemma_label_append(before, pair0);
                    }
                }
                let ghost after = set.labels@;
                proof {
                    assert(label_in(after, text0) == label0);
                    assert(forall|t: Seq<char>| t != text0 ==> #[trigger] label_in(after, t) == label_in(before, t));
                }
                self.sets.set_and_swap(p, &mut set);
                proof {
                    let f = self.sets@;
                    assert forall|i: int, j: int| 0 <= i < j < f.len() implies (#[trigger] f[i]).id@
                        != (#[trigger] f[j]).id@ by {
                        assert(f[i].id == e[i].id);
                        assert(f[j].id == e[j].id);
                    }
                    assert forall|i: int| 0 <= i < f.len() implies labels_wf(#[trigger] f[i].labels@) by {
                        if i != p {
                            assert(f[i] == e[i]);
                        }
                    }
                    assert(f[p as int].id@ == id0);
                    assert(f[p as int].labels@ == after);
                    lemma_other_sets(*old(self), *self, id0);
                    lemma_set_at(*self, p as int);
                    lemma_set_at(*old(self), p as int);
                    assert(self.set(id0) == after);
                    assert(old(self).set(id0) == before);
                    assert forall|i: Seq<char>, t: Seq<char>| !(i == id0 && t == text0) implies #[trigger] self.label(i, t) == old(self).label(i, t) by {
                        if i == id0 {
                            assert(label_in(after, t) == label_in(before, t));
                        }
                    }
                }
            },
        }
    }
}

/// Position of the pair labelling value text `text`.
fn text_position(ls: &Vec<(String, String)>, text: &String) -> (r: Option<usize>)
    ensures
        r matches Some(k) ==> k < ls@.len() && ls@[k as int].0@ == text@,
        r is None ==> forall|k: int| 0 <= k < ls@.len() ==> (#[trigger] ls@[k]).0@ != text@,
{
    let mut k: usize = 0;
    while k < ls.len()
        invariant
            k <= ls@.len(),
            forall|m: int| 0 <= m < k ==> (#[trigger] ls@[m]).0@ != text@,
        decreases ls@.len() - k,
    {
        if ls[k].0 == *text {
            return Some(k);
        }
        k += 1;
    }
    None
}

/// Sets whose id is not `id0` keep their position and contents, and any
/// set appended has the id `id0`: then every other id names the same set.
proof fn lemma_other_sets(v: ValueLabels, v2: ValueLabels, id0: Seq<char>)
    requires
        v.wf(),
        v2.wf(),
        v2.sets@.len() >= v.sets@.len(),
        forall|q: int| 0 <= q < v.sets@.len() ==> (#[trigger] v2.sets@[q]).id@ == v.sets@[q].id@,
        forall|q: int|
            0 <= q < v.sets@.len() && v.sets@[q].id@ != id0 ==> #[trigger] v2.sets@[q] == v.sets@[q],
        forall|q: int| v.sets@.len() <= q < v2.sets@.len() ==> (#[trigger] v2.sets@[q]).id@ == id0,
    ensures
        forall|i: Seq<char>| i != id0 ==> #[trigger] v2.set(i) == v.set(i),
{
    assert forall|i: Seq<char>| i != id0 implies #[trigger] v2.set(i) == v.set(i) by {
        if exists|q: int| 0 <= q < v.sets@.len() && (#[trigger] v.sets@[q]).id@ == i {
            let q = choose|q: int| 0 <= q < v.sets@.len() && (#[trigger] v.sets@[q]).id@ == i;
            lemma_set_at(v, q);
            assert(v2.sets@[q] == v.sets@[q]);
            lemma_set_at(v2, q);
        } else {
            assert forall|q: int| 0 <= q < v2.sets@.len() implies (#[trigger] v2.sets@[q]).id@ != i by {
                if q < v.sets@.len() {
                    assert(v2.sets@[q].id@ == v.sets@[q].id@);
                }
            }
        }
    }
}

/// With unique ids, the labels of set `id` are those of its entry.
pub proof fn lemma_set_at(v: ValueLabels, p: int)
    requires
        v.wf(),
        0 <= p < v.sets@.len(),
    ensures
        v.set(v.sets@[p].id@) == v.sets@[p].labels@,
{
    let id = v.sets@[p].id@;
    let i = choose|i: int| 0 <= i < v.sets@.len() && (#[trigger] v.sets@[i]).id@ == id;
    if i != p {
        if i < p {
            assert(v.sets@[i].id@ != v.sets@[p].id@);
        } else {
            assert(v.sets@[p].id@ != v.sets@[i].id@);
        }
    }
}

} // verus!
