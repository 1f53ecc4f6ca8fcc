//! Text predicates shared by the checks: substring search, dictionary
//! membership of space-separated words, and word normalisation.
use vstd::prelude::*;

verus! {

/// The contents of each string of a list.
pub open spec fn views(v: Seq<String>) -> Seq<Seq<char>> {
    v.map_values(|s: String| s@)
}

/// `pat` occurs in `text` starting at position `i`.
pub open spec fn occurs_at(text: Seq<char>, pat: Seq<char>, i: int) -> bool {
    0 <= i && i + pat.len() <= text.len() && text.subrange(i, i + pat.len()) == pat
}

/// `pat` occurs somewhere in `text` (the empty pattern occurs in every text).
pub open spec fn has_substring(text: Seq<char>, pat: Seq<char>) -> bool {
    exists|i: int| occurs_at(text, pat, i)
}

/// At least one of `patterns` occurs in `text`.
pub open spec fn contains_any(text: Seq<char>, patterns: Seq<Seq<char>>) -> bool {
    exists|k: int| 0 <= k < patterns.len() && has_substring(text, #[trigger] patterns[k])
}

/// The pieces of `s` between single space characters, as `str::split(" ")`
/// yields them: always at least one piece, possibly empty ones.
pub open spec fn split_spaces(s: Seq<char>) -> Seq<Seq<char>>
    decreases s.len(),
{
    if s.len() == 0 {
        seq![Seq::<char>::empty()]
    } else {
        let prev = split_spaces(s.drop_last());
        if s.last() == ' ' {
            prev.push(Seq::<char>::empty())
        } else {
            prev.update(prev.len() - 1, prev.last().push(s.last()))
        }
    }
}

/// Every piece of `s` between spaces is one of the words of `dict`.
pub open spec fn only_words_of(s: Seq<char>, dict: Seq<Seq<char>>) -> bool {
    forall|k: int| 0 <= k < split_spaces(s).len() ==> dict.contains(#[trigger] split_spaces(s)[k])
}

/// What `char::is_ascii_punctuation` accepts.
pub open spec fn is_ascii_punctuation(c: char) -> bool {
    ('!' <= c && c <= '/') || (':' <= c && c <= '@') || ('[' <= c && c <= '`') || ('{' <= c
        && c <= '~')
}

/// `s` without its ASCII punctuation characters.
pub open spec fn strip_punctuation(s: Seq<char>) -> Seq<char>
    decreases s.len(),
{
    if s.len() == 0 {
        s
    } else {
        let prev = strip_punctuation(s.drop_last());
        if is_ascii_punctuation(s.last()) {
            prev
        } else {
            prev.push(s.last())
        }
    }
}

/// The result of `str::to_lowercase` on a text.
pub uninterp spec fn lower_of(s: Seq<char>) -> Seq<char>;

/// The result of `char::is_uppercase` on a character.
pub uninterp spec fn upper_case_char(c: char) -> bool;

/// The characters that `char::to_uppercase` yields for a character.
pub uninterp spec fn upper_of(c: char) -> Seq<char>;

/// What `char::is_whitespace` accepts: the characters with the Unicode
/// `White_Space` property.
pub open spec fn is_white(c: char) -> bool {
    ('\t' <= c && c <= '\r') || c == ' ' || c == '\u{85}' || c == '\u{a0}' || c == '\u{1680}' || (
    '\u{2000}' <= c && c <= '\u{200a}') || c == '\u{2028}' || c == '\u{2029}' || c == '\u{202f}'
        || c == '\u{205f}' || c == '\u{3000}'
}

/// The text without its leading white space.
pub open spec fn trim_start(s: Seq<char>) -> Seq<char>
    decreases s.len(),
{
    if s.len() > 0 && is_white(s[0]) {
        trim_start(s.drop_first())
    } else {
        s
    }
}

/// The text without its trailing white space.
pub open spec fn trim_end(s: Seq<char>) -> Seq<char>
    decreases s.len(),
{
    if s.len() > 0 && is_white(s.last()) {
        trim_end(s.drop_last())
    } else {
        s
    }
}

/// The text without leading and trailing white space, as `str::trim`
/// leaves it.
pub open spec fn trimmed(s: Seq<char>) -> Seq<char> {
    trim_end(trim_start(s))
}

/// A normalised dictionary word: punctuation dropped, then lower-cased.
pub open spec fn normal_word(s: Seq<char>) -> Seq<char> {
    lower_of(strip_punctuation(s))
}

/// Relies on `str::chars`: the characters of the text, in order.
#[verifier::external_body]
pub(crate) fn chars_of(s: &str) -> (r: Vec<char>)
    ensures
        r@ == s@,
{
    s.chars().collect()
}

/// Relies on `String: FromIterator<char>`: the string of these characters.
#[verifier::external_body]
pub(crate) fn string_of(v: &Vec<char>) -> (r: String)
    ensures
        r@ == v@,
{
    v.iter().collect()
}

/// Relies on `str::to_lowercase`, whose result depends on the text alone.
#[verifier::external_body]
fn lowercase(s: &str) -> (r: String)
    ensures
        r@ == lower_of(s@),
        s@.len() == 0 ==> r@.len() == 0,
{
    s.to_lowercase()
}

/// Relies on `char::is_uppercase`, which depends on the character alone.
#[verifier::external_body]
fn is_uppercase(c: char) -> (r: bool)
    ensures
        r == upper_case_char(c),
{
    c.is_uppercase()
}

/// Relies on `char::to_uppercase`, collected into a string.
#[verifier::external_body]
fn uppercase_char(c: char) -> (r: String)
    ensures
        r@ == upper_of(c),
{
    c.to_uppercase().collect()
}

fn white(c: char) -> (r: bool)
    ensures
        r == is_white(c),
{
    ('\t' <= c && c <= '\r') || c == ' ' || c == '\u{85}' || c == '\u{a0}' || c == '\u{1680}' || (
    '\u{2000}' <= c && c <= '\u{200a}') || c == '\u{2028}' || c == '\u{2029}' || c == '\u{202f}'
        || c == '\u{205f}' || c == '\u{3000}'
}

/// The text without leading and trailing white space.
pub fn trim(s: &str) -> (r: String)
    ensures
        r@ == trimmed(s@),
{
    let chars = chars_of(s);
    let n = chars.len();
    let mut a: usize = 0;
    proof {
        assert(s@.subrange(0, n as int) =~= s@);
    }
    while a < n && white(chars[a])
        invariant
            chars@ == s@,
            n == chars@.len(),
            a <= n,
            trim_start(s@) == trim_start(s@.subrange(a as int, n as int)),
        decreases n - a,
    {
        proof {
            let t = s@.subrange(a as int, n as int);
            assert(t.drop_first() =~= s@.subrange(a + 1, n as int));
        }
        a += 1;
    }
    proof {
        let t = s@.subrange(a as int, n as int);
        if a < n {
            assert(t[0] == chars@[a as int]);
        }
        assert(trim_start(s@) == t);
    }
    let mut b: usize = n;
    while b > a && white(chars[b - 1])
        invariant
            chars@ == s@,
            n == chars@.len(),
            a <= b <= n,
            trimmed(s@) == trim_end(s@.subrange(a as int, b as int)),
        decreases b - a,
    {
        proof {
            let t = s@.subrange(a as int, b as int);
            assert(t.drop_last() =~= s@.subrange(a as int, b - 1));
        }
        b -= 1;
    }
    let mut out: Vec<char> = Vec::new();
    let mut k: usize = a;
    while k < b
        invariant
            chars@ == s@,
            n == chars@.len(),
            a <= k <= b <= n,
            out@ == s@.subrange(a as int, k as int),
        decreases b - k,
    {
        out.push(chars[k]);
        proof {
            assert(s@.subrange(a as int, k + 1) =~= s@.subrange(a as int, k as int).push(chars@[k as int]));
        }
        k += 1;
    }
    proof {
        let t = s@.subrange(a as int, b as int);
        if b > a {
            assert(t.last() == chars@[b - 1]);
        }
        assert(trim_end(t) == t);
    }
    string_of(&out)
}

/// Whether `pat` occurs in `text` at position `i`.
fn occurs_at_exec(text: &Vec<char>, pat: &Vec<char>, i: usize) -> (r: bool)
    requires
        i + pat@.len() <= text@.len(),
    ensures
        r == occurs_at(text@, pat@, i as int),
{
    let tl = text.len();
    let mut j: usize = 0;
    while j < pat.len()
        invariant
            tl == text@.len(),
            j <= pat@.len(),
            i + pat@.len() <= text@.len(),
            forall|k: int| 0 <= k < j ==> text@[i + k] == pat@[k],
        decreases pat@.len() - j,
    {
        if text[i + j] != pat[j] {
            assert(text@.subrange(i as int, i + pat@.len())[j as int] != pat@[j as int]);
            return false;
        }
        j += 1;
    }
    assert(text@.subrange(i as int, i + pat@.len()) =~= pat@);
    true
}

/// Whether `pat` occurs anywhere in `text`.
pub(crate) fn substring_of(text: &Vec<char>, pat: &Vec<char>) -> (r: bool)
    ensures
        r == has_substring(text@, pat@),
{
    if pat.len() > text.len() {
        return false;
    }
    if pat.len() == 0 {
        assert(text@.subrange(0, 0) =~= pat@);
        assert(occurs_at(text@, pat@, 0));
        return true;
    }
    let tl = text.len();
    let last = tl - pat.len();
    let mut i: usize = 0;
    while i <= last
        invariant
            tl == text@.len(),
            last < tl,
            last == text@.len() - pat@.len(),
            forall|k: int| 0 <= k < i ==> !occurs_at(text@, pat@, k),
        decreases last + 1 - i,
    {
        if occurs_at_exec(text, pat, i) {
            return true;
        }
        i += 1;
    }
    assert forall|k: int| !occurs_at(text@, pat@, k) by {
        if 0 <= k < i {
        }
    }
    false
}

/// True when at least one of `patterns` occurs in `string`.
pub fn contains(string: &str, patterns: &Vec<String>) -> (r: bool)
    ensures
        r == contains_any(string@, views(patterns@)),
{
    let text = chars_of(string);
    let mut k: usize = 0;
    while k < patterns.len()
        invariant
            text@ == string@,
            k <= patterns@.len(),
            forall|m: int| 0 <= m < k ==> !has_substring(string@, #[trigger] patterns@[m]@),
        decreases patterns@.len() - k,
    {
        let pat = chars_of(patterns[k].as_str());
        if substring_of(&text, &pat) {
            assert(views(patterns@)[k as int] == patterns@[k as int]@);
            return true;
        }
        k += 1;
    }
    assert forall|m: int| 0 <= m < views(patterns@).len() implies !has_substring(
        string@,
        #[trigger] views(patterns@)[m],
    ) by {
        assert(views(patterns@)[m] == patterns@[m]@);
    }
    false
}


/// The text with a space put before each upper-case character.
pub open spec fn spaced(s: Seq<char>) -> Seq<char>
    decreases s.len(),
{
    if s.len() == 0 {
        s
    } else if upper_case_char(s.last()) {
        spaced(s.drop_last()).push(' ').push(s.last())
    } else {
        spaced(s.drop_last()).push(s.last())
    }
}

/// The text with its first character replaced by its upper-case form.
pub open spec fn capitalized(s: Seq<char>) -> Seq<char> {
    if s.len() == 0 {
        s
    } else {
        upper_of(s[0]) + s.drop_first()
    }
}

/// An identifier in camel case turned into a sentence.
pub open spec fn sentence_of(s: Seq<char>) -> Seq<char> {
    capitalized(lower_of(trimmed(spaced(s))))
}

proof fn lemma_split_nonempty(s: Seq<char>)
    ensures
        split_spaces(s).len() >= 1,
    decreases s.len(),
{
    if s.len() > 0 {
        lemma_split_nonempty(s.drop_last());
    }
}

/// Whether `w` is one of the words of `dict`.
pub(crate) fn is_word_of(w: &String, dict: &Vec<String>) -> (r: bool)
    ensures
        r == views(dict@).contains(w@),
{
    let mut k: usize = 0;
    while k < dict.len()
        invariant
            k <= dict@.len(),
            forall|m: int| 0 <= m < k ==> dict@[m]@ != w@,
        decreases dict@.len() - k,
    {
        if dict[k] == *w {
            assert(views(dict@)[k as int] == w@);
            return true;
        }
        k += 1;
    }
    assert forall|m: int| 0 <= m < views(dict@).len() implies views(dict@)[m] != w@ by {
        assert(views(dict@)[m] == dict@[m]@);
    }
    false
}

/// True when every piece of `string` between single spaces is one of
/// `patterns`.
pub fn only_contains(string: &str, patterns: &Vec<String>) -> (r: bool)
    ensures
        r == only_words_of(string@, views(patterns@)),
{
    let chars = chars_of(string);
    let ghost dict = views(patterns@);
    let mut current: Vec<char> = Vec::new();
    let mut all = true;
    let mut i: usize = 0;
    proof {
        assert(chars@.take(0) =~= Seq::<char>::empty());
    }
    while i < chars.len()
        invariant
            chars@ == string@,
            dict == views(patterns@),
            i <= chars@.len(),
            split_spaces(chars@.take(i as int)).last() == current@,
            all == (forall|k: int|
                0 <= k < split_spaces(chars@.take(i as int)).len() - 1 ==> dict.contains(
                    #[trigger] split_spaces(chars@.take(i as int))[k],
                )),
        decreases chars@.len() - i,
    {
        let ghost before = chars@.take(i as int);
        let ghost after = chars@.take(i + 1);
        proof {
            assert(after.drop_last() =~= before);
            lemma_split_nonempty(before);
        }
        let c = chars[i];
        if c == ' ' {
            let w = string_of(&current);
            let found = is_word_of(&w, patterns);
            proof {
                let sp = split_spaces(before);
                assert(split_spaces(after) == sp.push(Seq::<char>::empty()));
                assert forall|k: int| 0 <= k < split_spaces(after).len() - 1 implies (
                split_spaces(after)[k] == sp[k]) by {}
            }
            proof {
                let sp = split_spaces(before);
                let sq = split_spaces(after);
                if all && found {
                    assert forall|k: int| 0 <= k < sq.len() - 1 implies dict.contains(
                        #[trigger] sq[k],
                    ) by {
                        if k < sp.len() - 1 {
                            assert(sq[k] == sp[k]);
                        } else {
                            assert(sq[k] == sp.last());
                        }
                    }
                }
                if !all {
                    let k0 = choose|k: int|
                        0 <= k < sp.len() - 1 && !dict.contains(#[trigger] sp[k]);
                    assert(sq[k0] == sp[k0]);
                }
                if !found {
                    assert(sq[sp.len() - 1] == sp.last());
                }
            }
            all = all && found;
            current = Vec::new();
        } else {
            current.push(c);
            proof {
                let sp = split_spaces(before);
                let sq = split_spaces(after);
                assert(sq == sp.update(sp.len() - 1, sp.last().push(c)));
                assert forall|k: int| 0 <= k < sq.len() - 1 implies sq[k] == sp[k] by {}
                if !all {
                    let k0 = choose|k: int|
                        0 <= k < sp.len() - 1 && !dict.contains(#[trigger] sp[k]);
                    assert(sq[k0] == sp[k0]);
                }
            }
        }
        i += 1;
    }
    let w = string_of(&current);
    let found = is_word_of(&w, patterns);
    proof {
        assert(chars@.take(i as int) =~= string@);
        lemma_split_nonempty(string@);
    }
    all && found
}

/// A word passes the spell check when it is empty or made only of
/// dictionary words separated by single spaces.
pub fn spellcheck_predicate(word: &str, dictionary: &Vec<String>) -> (r: bool)
    ensures
        r == (word@.len() == 0 || only_words_of(word@, views(dictionary@))),
{
    word.is_empty() || only_contains(word, dictionary)
}

/// A word passes the stop-word check when it is empty or not made only of
/// listed words.
pub fn stopword_predicate(word: &str, dictionary: &Vec<String>) -> (r: bool)
    ensures
        r == (word@.len() == 0 || !only_words_of(word@, views(dictionary@))),
{
    word.is_empty() || !only_contains(word, dictionary)
}

fn is_punctuation(c: char) -> (r: bool)
    ensures
        r == is_ascii_punctuation(c),
{
    ('!' <= c && c <= '/') || (':' <= c && c <= '@') || ('[' <= c && c <= '`') || ('{' <= c
        && c <= '~')
}

/// The word without ASCII punctuation, lower-cased.
pub fn normalize_word(word: &String) -> (r: String)
    ensures
        r@ == normal_word(word@),
{
    let chars = chars_of(word.as_str());
    let mut kept: Vec<char> = Vec::new();
    let mut i: usize = 0;
    proof {
        assert(chars@.take(0) =~= Seq::<char>::empty());
    }
    while i < chars.len()
        invariant
            chars@ == word@,
            i <= chars@.len(),
            kept@ == strip_punctuation(chars@.take(i as int)),
        decreases chars@.len() - i,
    {
        proof {
            assert(chars@.take(i + 1).drop_last() =~= chars@.take(i as int));
        }
        let c = chars[i];
        if !is_punctuation(c) {
            kept.push(c);
        }
        i += 1;
    }
    proof {
        assert(chars@.take(i as int) =~= word@);
    }
    let stripped = string_of(&kept);
    lowercase(stripped.as_str())
}

/// The text with its first character in upper case.
pub fn capitalize(s: &str) -> (r: String)
    ensures
        r@ == capitalized(s@),
{
    let chars = chars_of(s);
    if chars.len() == 0 {
        return String::new();
    }
    let first = uppercase_char(chars[0]);
    let mut out = chars_of(first.as_str());
    let mut i: usize = 1;
    while i < chars.len()
        invariant
            chars@ == s@,
            1 <= i <= chars@.len(),
            out@ == upper_of(s@[0]) + chars@.subrange(1, i as int),
        decreases chars@.len() - i,
    {
        out.push(chars[i]);
        proof {
            assert(chars@.subrange(1, i + 1) =~= chars@.subrange(1, i as int).push(chars@[i as int]));
        }
        i += 1;
    }
    proof {
        assert(chars@.subrange(1, i as int) =~= s@.drop_first());
    }
    string_of(&out)
}

/// A camel-case identifier as a sentence: `"ThisIsASentence"` becomes
/// `"This is a sentence"`.
pub fn to_sentence(s: &str) -> (r: String)
    ensures
        r@ == sentence_of(s@),
{
    let chars = chars_of(s);
    let mut out: Vec<char> = Vec::new();
    let mut i: usize = 0;
    proof {
        assert(chars@.take(0) =~= Seq::<char>::empty());
    }
    while i < chars.len()
        invariant
            chars@ == s@,
            i <= chars@.len(),
            out@ == spaced(chars@.take(i as int)),
        decreases chars@.len() - i,
    {
        proof {
            assert(chars@.take(i + 1).drop_last() =~= chars@.take(i as int));
        }
        let c = chars[i];
        if is_uppercase(c) {
            out.push(' ');
        }
        out.push(c);
        i += 1;
    }
    proof {
        assert(chars@.take(i as int) =~= s@);
    }
    let joined = string_of(&out);
    let trimmed = trim(joined.as_str());
    let lowered = lowercase(trimmed.as_str());
    capitalize(lowered.as_str())
}


/// A text between double quotes.
pub open spec fn quoted(s: Seq<char>) -> Seq<char> {
    seq!['"'] + s + seq!['"']
}

/// The quoted items, separated by a comma and a space.
pub open spec fn joined(items: Seq<Seq<char>>) -> Seq<char>
    decreases items.len(),
{
    if items.len() == 0 {
        Seq::empty()
    } else if items.len() == 1 {
        quoted(items[0])
    } else {
        joined(items.drop_last()) + seq![',', ' '] + quoted(items.last())
    }
}

/// A list of texts as `["a", "b"]`.
pub open spec fn listed(items: Seq<Seq<char>>) -> Seq<char> {
    seq!['['] + joined(items) + seq![']']
}

fn push_all(out: &mut Vec<char>, s: &Vec<char>)
    ensures
        final(out)@ == old(out)@ + s@,
{
    let mut i: usize = 0;
    while i < s.len()
        invariant
            i <= s@.len(),
            out@ == old(out)@ + s@.take(i as int),
        decreases s@.len() - i,
    {
        out.push(s[i]);
        proof {
            assert(s@.take(i + 1) =~= s@.take(i as int).push(s@[i as int]));
        }
        i += 1;
    }
    proof {
        assert(s@.take(i as int) =~= s@);
    }
}

/// The list of texts as `["a", "b"]`.
pub fn list_text(items: &Vec<String>) -> (r: String)
    ensures
        r@ == listed(views(items@)),
{
    let ghost all = views(items@);
    let mut out: Vec<char> = vec!['['];
    let mut k: usize = 0;
    proof {
        assert(all.take(0) =~= Seq::<Seq<char>>::empty());
        assert(out@ =~= seq!['['] + joined(all.take(0)));
    }
    while k < items.len()
        invariant
            all == views(items@),
            k <= items@.len(),
            out@ == seq!['['] + joined(all.take(k as int)),
        decreases items@.len() - k,
    {
        let ghost before = out@;
        let item = chars_of(items[k].as_str());
        if k > 0 {
            out.push(',');
            out.push(' ');
        }
        out.push('"');
        push_all(&mut out, &item);
        out.push('"');
        proof {
            let t = all.take(k + 1);
            assert(t.drop_last() =~= all.take(k as int));
            assert(t.last() == items@[k as int]@);
            if k == 0 {
                assert(out@ =~= seq!['['] + joined(t));
            } else {
                assert(out@ =~= seq!['['] + joined(t));
            }
        }
        k += 1;
    }
    out.push(']');
    proof {
        assert(all.take(k as int) =~= all);
        assert(out@ =~= listed(all));
    }
    string_of(&out)
}

} // verus!
