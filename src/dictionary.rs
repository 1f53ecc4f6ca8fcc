//! Dictionary checks: spell checks of labels and text values, and the
//! stop-word check of text values.
use vstd::prelude::*;
use crate::config::{Config, Setting};
use crate::context::{Context, WordLists};
use crate::model::{Variable, VariableType};
use crate::post_checks::{how_many, lemma_how_many_step, lemma_take_all};
use crate::report::{keeps_locators, Category, CheckName, Locator};
use crate::text::{chars_of, normal_word, normalize_word, only_words_of, spellcheck_predicate, stopword_predicate, string_of, views};

verus! {

/// A word to look up, and where it was found.
#[derive(Clone, Debug)]
pub struct Word {
    pub text: String,
    pub locator: Locator,
}

/// Some word of `ws` has the text `t`.
pub open spec fn has_text(ws: Seq<Word>, t: Seq<char>) -> bool {
    exists|i: int| 0 <= i < ws.len() && (#[trigger] ws[i]).text@ == t
}

/// No two words of `ws` have the same text.
pub open spec fn distinct_texts(ws: Seq<Word>) -> bool {
    forall|i: int, j: int| 0 <= i < j < ws.len() ==> (#[trigger] ws[i]).text@ != (#[trigger] ws[j]).text@
}

/// Adds a word unless one with its text is there already; the first
/// location of a text is kept.
fn add_word(words: &mut Vec<Word>, text: String, locator: Locator)
    requires
        distinct_texts(old(words)@),
    ensures
        distinct_texts(final(words)@),
        forall|t: Seq<char>| #[trigger] has_text(final(words)@, t) <==> (has_text(old(words)@, t) || t == text@),
{
    let mut k: usize = 0;
    while k < words.len()
        invariant
            k <= words@.len(),
            words@ == old(words)@,
            distinct_texts(words@),
            forall|m: int| 0 <= m < k ==> (#[trigger] words@[m]).text@ != text@,
        decreases words@.len() - k,
    {
        if words[k].text == text {
            assert(has_text(words@, text@));
            return;
        }
        k += 1;
    }
    let ghost before = words@;
    let ghost t0 = text@;
    words.push(Word { text, locator });
    proof {
        let ws = words@;
        assert forall|i: int, j: int| 0 <= i < j < ws.len() implies (#[trigger] ws[i]).text@ != (
        #[trigger] ws[j]).text@ by {
            assert(ws[i] == before[i]);
            if j < before.len() {
                assert(ws[j] == before[j]);
            }
        }
        assert forall|t: Seq<char>| #[trigger] has_text(ws, t) <==> (has_text(before, t) || t == t0) by {
            if has_text(before, t) {
                let i = choose|i: int| 0 <= i < before.len() && (#[trigger] before[i]).text@ == t;
                assert(ws[i] == before[i]);
            }
            if t == t0 {
                assert(ws[ws.len() - 1].text@ == t0);
            }
            if has_text(ws, t) {
                let i = choose|i: int| 0 <= i < ws.len() && (#[trigger] ws[i]).text@ == t;
                if i < before.len() {
                    assert(ws[i] == before[i]);
                }
            }
        }
    }
}

/// The labels of the declared variables, each once, located at the first
/// variable that has it.
pub fn variable_label_words(variables: &Vec<Variable>) -> (r: Vec<Word>)
    ensures
        distinct_texts(r@),
        forall|t: Seq<char>| #[trigger] has_text(r@, t) <==> exists|p: int|
            0 <= p < variables@.len() && (#[trigger] variables@[p]).label@ == t,
{
    let mut words: Vec<Word> = Vec::new();
    let mut i: usize = 0;
    while i < variables.len()
        invariant
            i <= variables@.len(),
            distinct_texts(words@),
            forall|t: Seq<char>| #[trigger] has_text(words@, t) <==> exists|p: int|
                0 <= p < i && (#[trigger] variables@[p]).label@ == t,
        decreases variables@.len() - i,
    {
        let v = &variables[i];
        let loc = Locator::new(v.name.clone(), v.index, -1);
        add_word(&mut words, v.label.clone(), loc);
        proof {
            assert forall|t: Seq<char>| #[trigger] has_text(words@, t) <==> exists|p: int|
                0 <= p < i + 1 && (#[trigger] variables@[p]).label@ == t by {
                if t == variables@[i as int].label@ {
                    assert(variables@[i as int].label@ == t);
                }
            }
        }
        i += 1;
    }
    words
}

/// The labels of the label sets of the declared variables that name one,
/// each once, located at the first variable that has it.
pub fn value_label_words(context: &Context) -> (r: Vec<Word>)
    requires
        context.value_labels.wf(),
    ensures
        distinct_texts(r@),
        forall|t: Seq<char>| #[trigger] has_text(r@, t) <==> exists|p: int, k: int|
            0 <= p < context.variables@.len() && context.variables@[p].value_labels@.len() > 0 && 0 <= k
                < context.value_labels.set(context.variables@[p].value_labels@).len() && (#[trigger] context.value_labels.set(
                context.variables@[p].value_labels@,
            )[k]).1@ == t,
{
    let variables = &context.variables;
    let labels = &context.value_labels;
    let mut words: Vec<Word> = Vec::new();
    let mut i: usize = 0;
    while i < variables.len()
        invariant
            i <= variables@.len(),
            labels.wf(),
            distinct_texts(words@),
            forall|t: Seq<char>| #[trigger] has_text(words@, t) <==> exists|p: int, k: int|
                0 <= p < i && variables@[p].value_labels@.len() > 0 && 0 <= k < labels.set(
                    variables@[p].value_labels@,
                ).len() && (#[trigger] labels.set(variables@[p].value_labels@)[k]).1@ == t,
        decreases variables@.len() - i,
    {
        let v = &variables[i];
        let ghost before = words@;
        if !v.value_labels.as_str().is_empty() {
            match labels.position(&v.value_labels) {
                None => {},
                Some(s) => {
                    let ls = &labels.sets[s].labels;
                    proof {
                        crate::frequency::lemma_set_at(*labels, s as int);
                    }
                    let mut k: usize = 0;
                    while k < ls.len()
                        invariant
                            k <= ls@.len(),
                            ls@ == labels.set(v.value_labels@),
                            distinct_texts(words@),
                            forall|t: Seq<char>| #[trigger] has_text(words@, t) <==> (has_text(before, t) || exists|m: int|
                                0 <= m < k && (#[trigger] ls@[m]).1@ == t),
                        decreases ls@.len() - k,
                    {
                        let loc = Locator::new(v.name.clone(), v.index, -1);
                        add_word(&mut words, ls[k].1.clone(), loc);
                        proof {
                            assert forall|t: Seq<char>| #[trigger] has_text(words@, t) <==> (has_text(before, t) || exists|m: int|
                                0 <= m < k + 1 && (#[trigger] ls@[m]).1@ == t) by {
                                if t == ls@[k as int].1@ {
                                    assert(ls@[k as int].1@ == t);
                                }
                            }
                        }
                        k += 1;
                    }
                },
            }
        }
        proof {
            assert forall|t: Seq<char>| #[trigger] has_text(words@, t) <==> exists|p: int, k: int|
                0 <= p < i + 1 && variables@[p].value_labels@.len() > 0 && 0 <= k < labels.set(
                    variables@[p].value_labels@,
                ).len() && (#[trigger] labels.set(variables@[p].value_labels@)[k]).1@ == t by {
                if has_text(words@, t) && !has_text(before, t) {
                    let m = choose|m: int| 0 <= m < labels.set(v.value_labels@).len() && (#[trigger] labels.set(v.value_labels@)[m]).1@ == t;
                    assert(labels.set(variables@[i as int].value_labels@)[m].1@ == t);
                }
                if exists|p: int, k: int|
                    0 <= p < i + 1 && variables@[p].value_labels@.len() > 0 && 0 <= k < labels.set(
                        variables@[p].value_labels@,
                    ).len() && (#[trigger] labels.set(variables@[p].value_labels@)[k]).1@ == t {
                    let (p, k) = choose|p: int, k: int|
                        0 <= p < i + 1 && variables@[p].value_labels@.len() > 0 && 0 <= k < labels.set(
                            variables@[p].value_labels@,
                        ).len() && (#[trigger] labels.set(variables@[p].value_labels@)[k]).1@ == t;
                    if p == i {
                        assert(labels.set(v.value_labels@)[k].1@ == t);
                    } else {
                        assert(has_text(before, t));
                    }
                }
            }
        }
        i += 1;
    }
    words
}

/// The texts of the values of the text variables, each once, located at the
/// row kept for the value.
pub fn string_value_words(context: &Context) -> (r: Vec<Word>)
    ensures
        distinct_texts(r@),
        forall|t: Seq<char>| #[trigger] has_text(r@, t) <==> exists|p: int, k: int|
            0 <= p < context.frequency_table.entries@.len()
                && context.frequency_table.entries@[p].variable.type_ == VariableType::Text && 0 <= k
                < context.frequency_table.entries@[p].values@.len() && (
            #[trigger] context.frequency_table.entries@[p].values@[k]).key@ == t,
{
    let es = &context.frequency_table.entries;
    let mut words: Vec<Word> = Vec::new();
    let mut i: usize = 0;
    while i < es.len()
        invariant
            i <= es@.len(),
            distinct_texts(words@),
            forall|t: Seq<char>| #[trigger] has_text(words@, t) <==> exists|p: int, k: int|
                0 <= p < i && es@[p].variable.type_ == VariableType::Text && 0 <= k < es@[p].values@.len()
                    && (#[trigger] es@[p].values@[k]).key@ == t,
        decreases es@.len() - i,
    {
        let e = &es[i];
        let ghost before = words@;
        if e.variable.type_ == VariableType::Text {
            let mut k: usize = 0;
            while k < e.values.len()
                invariant
                    k <= e.values@.len(),
                    distinct_texts(words@),
                    forall|t: Seq<char>| #[trigger] has_text(words@, t) <==> (has_text(before, t) || exists|m: int|
                        0 <= m < k && (#[trigger] e.values@[m]).key@ == t),
                decreases e.values@.len() - k,
            {
                let v = &e.values[k];
                let loc = Locator::new(e.variable.name.clone(), e.variable.index, v.value.row);
                add_word(&mut words, v.key.clone(), loc);
                proof {
                    assert forall|t: Seq<char>| #[trigger] has_text(words@, t) <==> (has_text(before, t) || exists|m: int|
                        0 <= m < k + 1 && (#[trigger] e.values@[m]).key@ == t) by {
                        if t == e.values@[k as int].key@ {
                            assert(e.values@[k as int].key@ == t);
                        }
                    }
                }
                k += 1;
            }
        }
        proof {
            assert forall|t: Seq<char>| #[trigger] has_text(words@, t) <==> exists|p: int, k: int|
                0 <= p < i + 1 && es@[p].variable.type_ == VariableType::Text && 0 <= k < es@[p].values@.len()
                    && (#[trigger] es@[p].values@[k]).key@ == t by {
                if has_text(words@, t) && !has_text(before, t) {
                    let m = choose|m: int| 0 <= m < e.values@.len() && (#[trigger] e.values@[m]).key@ == t;
                    assert(es@[i as int].values@[m].key@ == t);
                }
                if exists|p: int, k: int|
                    0 <= p < i + 1 && es@[p].variable.type_ == VariableType::Text && 0 <= k < es@[p].values@.len()
                        && (#[trigger] es@[p].values@[k]).key@ == t {
                    let (p, k) = choose|p: int, k: int|
                        0 <= p < i + 1 && es@[p].variable.type_ == VariableType::Text && 0 <= k < es@[p].values@.len()
                            && (#[trigger] es@[p].values@[k]).key@ == t;
                    if p == i {
                        assert(e.values@[k].key@ == t);
                    } else {
                        assert(has_text(before, t));
                    }
                }
            }
        }
        i += 1;
    }
    words
}


/// Which way a dictionary check judges a word.
#[derive(Clone, Copy, Debug, PartialEq, Eq, Structural)]
pub enum DictionaryPredicate {
    /// The word passes when every part of it is in the dictionary.
    Spellcheck,
    /// The word passes unless every part of it is in the dictionary.
    Stopword,
}

/// Whether `word`, once normalised, passes the check against `dict`.
pub open spec fn word_passes(kind: DictionaryPredicate, word: Seq<char>, dict: Seq<Seq<char>>) -> bool {
    let w = normal_word(word);
    match kind {
        DictionaryPredicate::Spellcheck => w.len() == 0 || only_words_of(w, dict),
        DictionaryPredicate::Stopword => w.len() == 0 || !only_words_of(w, dict),
    }
}

/// The setting of a dictionary check.
pub open spec fn dictionary_setting(config: Config, name: CheckName) -> Option<Setting<Vec<String>>> {
    match name {
        CheckName::ValueLabelSpellcheck => config.metadata.value_label_spellcheck,
        CheckName::VariableLabelSpellcheck => config.metadata.variable_label_spellcheck,
        CheckName::StringValueSpellcheck => config.data_integrity.string_value_spellcheck,
        CheckName::StringValueStopword => config.disclosure_risk.string_value_stopword,
        _ => None,
    }
}

/// The dictionary words of a dictionary check.
pub open spec fn dictionary_words(lists: WordLists, name: CheckName) -> Seq<String> {
    match name {
        CheckName::ValueLabelSpellcheck => lists.value_label@,
        CheckName::VariableLabelSpellcheck => lists.variable_label@,
        CheckName::StringValueSpellcheck => lists.string_value@,
        _ => lists.stopword@,
    }
}

/// The category of a dictionary check.
pub open spec fn dictionary_category(name: CheckName) -> Category {
    match name {
        CheckName::StringValueSpellcheck => Category::DataIntegrity,
        CheckName::StringValueStopword => Category::DisclosureRisk,
        _ => Category::Metadata,
    }
}

fn setting_of(config: &Config, name: CheckName) -> (r: Option<&Setting<Vec<String>>>)
    ensures
        r == match dictionary_setting(*config, name) {
            Some(s) => Some(&s),
            None => None::<&Setting<Vec<String>>>,
        },
{
    let s = match name {
        CheckName::ValueLabelSpellcheck => &config.metadata.value_label_spellcheck,
        CheckName::VariableLabelSpellcheck => &config.metadata.variable_label_spellcheck,
        CheckName::StringValueSpellcheck => &config.data_integrity.string_value_spellcheck,
        CheckName::StringValueStopword => &config.disclosure_risk.string_value_stopword,
        _ => return None,
    };
    match s {
        Some(x) => Some(x),
        None => None,
    }
}

fn words_of(lists: &WordLists, name: CheckName) -> (r: &Vec<String>)
    ensures
        r@ == dictionary_words(*lists, name),
{
    match name {
        CheckName::ValueLabelSpellcheck => &lists.value_label,
        CheckName::VariableLabelSpellcheck => &lists.variable_label,
        CheckName::StringValueSpellcheck => &lists.string_value,
        _ => &lists.stopword,
    }
}

fn category_of(name: CheckName) -> (r: Category)
    ensures
        r == dictionary_category(name),
{
    match name {
        CheckName::StringValueSpellcheck => Category::DataIntegrity,
        CheckName::StringValueStopword => Category::DisclosureRisk,
        _ => Category::Metadata,
    }
}

/// The locators `ls` with the locator of each word of `words` that fails
/// added.
pub open spec fn word_locators(
    ls: Seq<Locator>,
    words: Seq<Word>,
    passes: spec_fn(Word) -> bool,
) -> Seq<Locator>
    decreases words.len(),
{
    if words.len() == 0 {
        ls
    } else {
        let prev = word_locators(ls, words.drop_last(), passes);
        if passes(words.last()) {
            prev
        } else {
            crate::report::add_locator(prev, words.last().locator)
        }
    }
}

/// `new` is `old` after the dictionary check `name` judged `words`.
pub open spec fn dictionary_outcome(
    new: &Context,
    old: &Context,
    name: CheckName,
    words: Seq<Word>,
    kind: DictionaryPredicate,
) -> bool {
    &&& new.wf()
    &&& new.report_only(old)
    &&& new.report.metadata == old.report.metadata
    &&& match dictionary_setting(old.config, name) {
        None => new.report == old.report,
        Some(s) => {
            let dict = views(dictionary_words(old.word_lists, name));
            let p = how_many(words, |w: Word| word_passes(kind, w.text@, dict));
            &&& new.report.tallied_quietly(
                &old.report,
                name,
                s.desc@,
                dictionary_category(name),
                p,
                words.len() - p,
                keeps_locators(old.config.metadata_only),
            )
            &&& keeps_locators(old.config.metadata_only) ==> (new.report.status(name) matches Some(st)
                && st.locs() == word_locators(
                crate::report::prior(old.report.status(name), s.desc@, dictionary_category(name)).locators,
                words,
                |w: Word| word_passes(kind, w.text@, dict),
            ))
        },
    }
}

/// Judges each word once against the check's dictionary: a word passes or
/// fails by `predicate` on its normalised form.
pub fn dictionary(
    context: &mut Context,
    check_name: CheckName,
    words: &Vec<Word>,
    predicate: DictionaryPredicate,
)
    requires
        old(context).wf(),
        old(context).report.room(check_name, words@.len() as int),
    ensures
        dictionary_outcome(final(context), old(context), check_name, words@, predicate),
{
    let name = check_name;
    if let Some(setting) = setting_of(&context.config, name) {
        let dict = words_of(&context.word_lists, name);
        let ghost dv = views(dict@);
        let ghost pred = |w: Word| word_passes(predicate, w.text@, dv);
        context.report.include_check(name, setting.desc.as_str(), category_of(name));
        let ghost opened = context.report;
        let keep = context.config.metadata_only != Some(true);
        let ghost opened_locs = opened.status(name)->Some_0.locs();
        let n = words.len();
        let mut passes: u64 = 0;
        let mut i: usize = 0;
        while i < n
            invariant
                n == words@.len(),
                i <= n,
                dict@ == dictionary_words(context.word_lists, name),
                context.report.located_since(&opened, name, keep),
                context.report_only(old(context)),
                passes == how_many(words@.take(i as int), pred),
                passes <= i,
                forall|w: Word| #[trigger] pred(w) == word_passes(predicate, w.text@, dv),
                dv == views(dict@),
                opened.status(name) is Some,
                opened_locs == opened.status(name)->Some_0.locs(),
                keep ==> (context.report.status(name) matches Some(st) && st.locs() == word_locators(
                    opened_locs,
                    words@.take(i as int),
                    pred,
                )),
            decreases n - i,
        {
            proof {
                lemma_how_many_step(words@, i as int, pred);
                assert(words@.take(i + 1).drop_last() =~= words@.take(i as int));
                assert(words@.take(i + 1).last() == words@[i as int]);
            }
            let w = normalize_word(&words[i].text);
            let ok = match predicate {
                DictionaryPredicate::Spellcheck => spellcheck_predicate(w.as_str(), dict),
                DictionaryPredicate::Stopword => stopword_predicate(w.as_str(), dict),
            };
            if ok {
                passes = passes + 1;
            } else if keep {
                let loc = Locator::new(
                    words[i].locator.variable_name.clone(),
                    words[i].locator.variable_index,
                    words[i].locator.value_index,
                );
                context.report.locate(name, loc);
            }
            i += 1;
        }
        proof {
            lemma_take_all(words@);
            assert(pred =~= (|w: Word| word_passes(predicate, w.text@, dv)));
        }
        context.report.tally(name, passes, n as u64 - passes);
    }
}

/// Spell-checks the labels of the value-label sets, each distinct label
/// once.
pub fn value_label_spellcheck(context: &mut Context)
    requires
        old(context).wf(),
        old(context).report.room(CheckName::ValueLabelSpellcheck, usize::MAX as int),
    ensures
        value_label_spellcheck_done(final(context), old(context)),
{
    let words = value_label_words(context);
    let count = words.len();
    assert(count as int <= usize::MAX as int);
    dictionary(context, CheckName::ValueLabelSpellcheck, &words, DictionaryPredicate::Spellcheck);
}

/// Spell-checks the variable labels, each distinct label once.
pub fn variable_label_spellcheck(context: &mut Context)
    requires
        old(context).wf(),
        old(context).report.room(CheckName::VariableLabelSpellcheck, usize::MAX as int),
    ensures
        variable_label_spellcheck_done(final(context), old(context)),
{
    let words = variable_label_words(&context.variables);
    let count = words.len();
    assert(count as int <= usize::MAX as int);
    dictionary(context, CheckName::VariableLabelSpellcheck, &words, DictionaryPredicate::Spellcheck);
}

/// The distinct texts of the values of text variables, as found in the
/// frequency table.
pub open spec fn string_value_source(context: &Context, t: Seq<char>) -> bool {
    exists|p: int, k: int|
        0 <= p < context.frequency_table.entries@.len()
            && context.frequency_table.entries@[p].variable.type_ == VariableType::Text && 0 <= k
            < context.frequency_table.entries@[p].values@.len() && (
        #[trigger] context.frequency_table.entries@[p].values@[k]).key@ == t
}

/// Spell-checks the values of text variables, each distinct text once.
pub fn string_value_spellcheck(context: &mut Context)
    requires
        old(context).wf(),
        old(context).report.room(CheckName::StringValueSpellcheck, usize::MAX as int),
    ensures
        string_value_spellcheck_done(final(context), old(context)),
{
    let words = string_value_words(context);
    let count = words.len();
    assert(count as int <= usize::MAX as int);
    dictionary(context, CheckName::StringValueSpellcheck, &words, DictionaryPredicate::Spellcheck);
}

/// Looks for stop words among the values of text variables, each distinct
/// text once.
pub fn string_value_stopword(context: &mut Context)
    requires
        old(context).wf(),
        old(context).report.room(CheckName::StringValueStopword, usize::MAX as int),
    ensures
        string_value_stopword_done(final(context), old(context)),
{
    let words = string_value_words(context);
    let count = words.len();
    assert(count as int <= usize::MAX as int);
    dictionary(context, CheckName::StringValueStopword, &words, DictionaryPredicate::Stopword);
}


/// The lines of `s`, split at each newline as `str::split('\n')` does.
pub open spec fn split_lines(s: Seq<char>) -> Seq<Seq<char>>
    decreases s.len(),
{
    if s.len() == 0 {
        seq![Seq::<char>::empty()]
    } else {
        let prev = split_lines(s.drop_last());
        if s.last() == '\n' {
            prev.push(Seq::<char>::empty())
        } else {
            prev.update(prev.len() - 1, prev.last().push(s.last()))
        }
    }
}

proof fn lemma_lines_nonempty(s: Seq<char>)
    ensures
        split_lines(s).len() >= 1,
    decreases s.len(),
{
    if s.len() > 0 {
        lemma_lines_nonempty(s.drop_last());
    }
}

/// The lines of every file, one after the other.
pub open spec fn all_lines(files: Seq<Seq<char>>) -> Seq<Seq<char>>
    decreases files.len(),
{
    if files.len() == 0 {
        Seq::empty()
    } else {
        all_lines(files.drop_last()) + split_lines(files.last())
    }
}

/// The lines of a text.
pub fn lines_of(s: &str) -> (r: Vec<String>)
    ensures
        views(r@) == split_lines(s@),
{
    let chars = chars_of(s);
    let mut lines: Vec<String> = Vec::new();
    let mut current: Vec<char> = Vec::new();
    let mut i: usize = 0;
    proof {
        assert(chars@.take(0) =~= Seq::<char>::empty());
        assert(views(lines@) =~= Seq::<Seq<char>>::empty());
    }
    while i < chars.len()
        invariant
            chars@ == s@,
            i <= chars@.len(),
            views(lines@).push(current@) == split_lines(chars@.take(i as int)),
        decreases chars@.len() - i,
    {
        let ghost before = chars@.take(i as int);
        proof {
            assert(chars@.take(i + 1).drop_last() =~= before);
            lemma_lines_nonempty(before);
        }
        let c = chars[i];
        if c == '\n' {
            let line = string_of(&current);
            let ghost old_lines = lines@;
            lines.push(line);
            current = Vec::new();
            proof {
                assert(views(lines@) =~= views(old_lines).push(line@));
            }
        } else {
            let ghost old_current = current@;
            current.push(c);
            proof {
                let sp = split_lines(before);
                assert(views(lines@).push(old_current) == sp);
                assert(views(lines@).push(current@) =~= sp.update(sp.len() - 1, sp.last().push(c)));
            }
        }
        i += 1;
    }
    let last = string_of(&current);
    let ghost old_lines = lines@;
    lines.push(last);
    proof {
        assert(chars@.take(i as int) =~= s@);
        assert(views(lines@) =~= views(old_lines).push(last@));
    }
    lines
}

/// The dictionary made of the contents of its files: every line of every
/// file, in order.
pub fn dictionary_lines(contents: &Vec<String>) -> (r: Vec<String>)
    ensures
        views(r@) == all_lines(views(contents@)),
{
    let mut words: Vec<String> = Vec::new();
    let mut i: usize = 0;
    proof {
        assert(views(contents@).take(0) =~= Seq::<Seq<char>>::empty());
        assert(views(words@) =~= Seq::<Seq<char>>::empty());
    }
    while i < contents.len()
        invariant
            i <= contents@.len(),
            views(words@) == all_lines(views(contents@).take(i as int)),
        decreases contents@.len() - i,
    {
        let mut lines = lines_of(contents[i].as_str());
        let ghost before = words@;
        let ghost added = lines@;
        words.append(&mut lines);
        proof {
            let t = views(contents@).take(i + 1);
            assert(t.drop_last() =~= views(contents@).take(i as int));
            assert(t.last() == contents@[i as int]@);
            assert(views(words@) =~= views(before) + views(added));
        }
        i += 1;
    }
    proof {
        assert(views(contents@).take(i as int) =~= views(contents@));
    }
    words
}

/// What `value_label_spellcheck` leaves in the context.
pub open spec fn value_label_spellcheck_done(new: &Context, old: &Context) -> bool {
    &&& exists|ws: Seq<Word>|
        {
            &&& distinct_texts(ws)
            &&& forall|t: Seq<char>| #[trigger] has_text(ws, t) <==> exists|p: int, k: int|
                0 <= p < old.variables@.len() && old.variables@[p].value_labels@.len() > 0
                    && 0 <= k < old.value_labels.set(old.variables@[p].value_labels@).len()
                    && (#[trigger] old.value_labels.set(old.variables@[p].value_labels@)[k]).1@
                    == t
            &&& dictionary_outcome(new, old, CheckName::ValueLabelSpellcheck, ws, DictionaryPredicate::Spellcheck)
        }
}

/// What `variable_label_spellcheck` leaves in the context.
pub open spec fn variable_label_spellcheck_done(new: &Context, old: &Context) -> bool {
    &&& exists|ws: Seq<Word>|
        {
            &&& distinct_texts(ws)
            &&& forall|t: Seq<char>| #[trigger] has_text(ws, t) <==> exists|p: int|
                0 <= p < old.variables@.len() && (#[trigger] old.variables@[p]).label@ == t
            &&& dictionary_outcome(new, old, CheckName::VariableLabelSpellcheck, ws, DictionaryPredicate::Spellcheck)
        }
}

/// What `string_value_spellcheck` leaves in the context.
pub open spec fn string_value_spellcheck_done(new: &Context, old: &Context) -> bool {
    &&& exists|ws: Seq<Word>|
        {
            &&& distinct_texts(ws)
            &&& forall|t: Seq<char>| #[trigger] has_text(ws, t) <==> string_value_source(old, t)
            &&& dictionary_outcome(new, old, CheckName::StringValueSpellcheck, ws, DictionaryPredicate::Spellcheck)
        }
}

/// What `string_value_stopword` leaves in the context.
pub open spec fn string_value_stopword_done(new: &Context, old: &Context) -> bool {
    &&& exists|ws: Seq<Word>|
        {
            &&& distinct_texts(ws)
            &&& forall|t: Seq<char>| #[trigger] has_text(ws, t) <==> string_value_source(old, t)
            &&& dictionary_outcome(new, old, CheckName::StringValueStopword, ws, DictionaryPredicate::Stopword)
        }
}

} // verus!
