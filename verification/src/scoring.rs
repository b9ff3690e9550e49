//! The texts that categories are found by, and what scores decide.
//!
//! Scores are double-precision numbers, by their bits.
use crate::ieee;
use crate::text;
use indexmap::IndexMap;
use vstd::prelude::*;
use vstd::string::*;

verus! {

/// What a screenshot says.
#[derive(Debug)]
pub struct Input {
    pub title: String,
    pub ocr_text: String,
    pub process_name: String,
}

/// `zeroize::Zeroize::zeroize` on a `String`: its bytes are overwritten, and
/// then it is empty. Nothing is said of the memory, which Verus does not see.
#[verifier::external_body]
fn wipe_text(text: &mut String)
    ensures
        final(text)@ == Seq::<char>::empty(),
{
    zeroize::Zeroize::zeroize(text);
}

impl Input {
    /// Overwrites what the screenshot says, once it is no longer needed.
    pub fn wipe(&mut self)
        ensures
            final(self).title@.len() == 0,
            final(self).ocr_text@.len() == 0,
            final(self).process_name@.len() == 0,
    {
        wipe_text(&mut self.title);
        wipe_text(&mut self.ocr_text);
        wipe_text(&mut self.process_name);
    }
}

/// The category of what belongs nowhere.
pub const UNCATEGORIZED: &'static str = "未分类";

/// The name of a program in the form in which names are compared.
pub open spec fn normalized(process: Seq<char>) -> Seq<char> {
    text::lowercase_of(text::trimmed(process))
}

/// The name of a program in the form in which names are compared.
pub fn normalize_process(process: &str) -> (result: String)
    ensures
        result@ == normalized(process@),
{
    text::to_lowercase(&text::trim(process))
}

// ---------------------------------------------------------------------------
// Patterns
// ---------------------------------------------------------------------------
/// Whether a pattern is found in a text; nothing where it is no pattern.
pub uninterp spec fn pattern_found(pattern: Seq<char>, text: Seq<char>) -> Option<bool>;

/// A text without what a pattern first finds in it; nothing where it is no
/// pattern.
pub uninterp spec fn without_match(pattern: Seq<char>, text: Seq<char>) -> Option<Seq<char>>;

/// `regex::Regex::is_match`: whether the pattern is found somewhere in the
/// text. What patterns mean is left to the name.
#[verifier::external_body]
fn find_pattern(pattern: &str, text: &str) -> (result: Option<bool>)
    ensures
        result == pattern_found(pattern@, text@),
{
    Some(regex::Regex::new(pattern).ok()?.is_match(text))
}

/// `regex::Regex::replace` with nothing: the text without the first match. A
/// text in which the pattern is not found is left as it is; what patterns mean
/// is left to the name.
#[verifier::external_body]
fn remove_match(pattern: &str, text: &str) -> (result: Option<String>)
    ensures
        match result {
            Some(rest) => {
                &&& without_match(pattern@, text@) == Some(rest@)
                &&& pattern_found(pattern@, text@) == Some(false) ==> rest@ == text@
            },
            None => without_match(pattern@, text@) is None,
        },
{
    Some(regex::Regex::new(pattern).ok()?.replace(text, "").into_owned())
}

/// What the patterns for the names of browsers begin with: a dash, and perhaps
/// the name of a profile and another dash.
pub const PATTERN_HEAD: &'static str = "(?i)\\s*[-–—]\\s*(?:[\\w\\s]*[-–—]\\s*)?";

/// What they end with: the rest of the title.
pub const PATTERN_TAIL: &'static str = ".*$";

/// The pattern for the name of a browser.
pub open spec fn browser_name_pattern(process: Seq<char>) -> Option<Seq<char>> {
    if process == "msedge.exe"@ {
        Some("Microsoft[\\u{200b}\\u{200c}\\u{200d}\\u{feff}]*\\s*Edge"@)
    } else if process == "chrome.exe"@ {
        Some("Google[\\u{200b}\\u{200c}\\u{200d}\\u{feff}]*\\s*Chrome"@)
    } else if process == "firefox.exe"@ {
        Some("Mozilla[\\u{200b}\\u{200c}\\u{200d}\\u{feff}]*\\s*Firefox"@)
    } else if process == "brave.exe"@ {
        Some("Brave"@)
    } else if process == "opera.exe"@ {
        Some("Opera"@)
    } else if process == "vivaldi.exe"@ {
        Some("Vivaldi"@)
    } else {
        None
    }
}

fn browser_name(process: &str) -> (result: Option<&'static str>)
    ensures
        match result {
            Some(name) => browser_name_pattern(process@) == Some(name@),
            None => browser_name_pattern(process@) is None,
        },
{
    if text::same(process, "msedge.exe") {
        Some("Microsoft[\\u{200b}\\u{200c}\\u{200d}\\u{feff}]*\\s*Edge")
    } else if text::same(process, "chrome.exe") {
        Some("Google[\\u{200b}\\u{200c}\\u{200d}\\u{feff}]*\\s*Chrome")
    } else if text::same(process, "firefox.exe") {
        Some("Mozilla[\\u{200b}\\u{200c}\\u{200d}\\u{feff}]*\\s*Firefox")
    } else if text::same(process, "brave.exe") {
        Some("Brave")
    } else if text::same(process, "opera.exe") {
        Some("Opera")
    } else if text::same(process, "vivaldi.exe") {
        Some("Vivaldi")
    } else {
        None
    }
}

/// The title, or what is left of it where that is more than a character.
pub open spec fn cleaned_or_whole(title: Seq<char>, cleaned: Seq<char>) -> Seq<char> {
    if text::trimmed(cleaned).len() < 2 {
        title
    } else {
        text::trimmed(cleaned)
    }
}

/// The title, or what is left of it where that is more than a character.
pub fn settle_title(title: &str, cleaned: &str) -> (result: String)
    ensures
        result@ == cleaned_or_whole(title@, cleaned@),
{
    let trimmed = text::trim(cleaned);
    if text::chars_of(&trimmed).len() < 2 {
        title.to_owned()
    } else {
        trimmed
    }
}

/// A title without the name of the browser at its end.
pub open spec fn stripped(title: Seq<char>, process: Seq<char>) -> Seq<char> {
    match browser_name_pattern(normalized(process)) {
        Some(name) => match without_match(PATTERN_HEAD@ + name + PATTERN_TAIL@, title) {
            Some(cleaned) => cleaned_or_whole(title, cleaned),
            None => title,
        },
        None => title,
    }
}

/// A title without the name of the browser at its end.
pub fn strip_app_suffix(title: &str, process: &str) -> (result: String)
    ensures
        result@ == stripped(title@, process@),
{
    let normal = normalize_process(process);
    match browser_name(&normal) {
        Some(name) => {
            let pattern = text::join3(PATTERN_HEAD, name, PATTERN_TAIL);
            match remove_match(&pattern, title) {
                Some(cleaned) => settle_title(title, &cleaned),
                None => title.to_owned(),
            }
        },
        None => title.to_owned(),
    }
}

/// The pattern of words that are made of digits and signs alone.
pub const NUMERIC_PATTERN: &'static str = "^[\\d:./\\\\-]+$";

/// The words that are kept: of more than one character and not made of digits
/// and signs alone, and no more than 24 of them.
pub open spec fn picked(words: Seq<Seq<char>>, numeric: Seq<bool>) -> Seq<Seq<char>>
    decreases words.len(),
{
    if words.len() == 0 {
        Seq::empty()
    } else {
        let before = picked(words.drop_last(), numeric.drop_last());
        if before.len() < 24 && words.last().len() > 1 && !numeric.last() {
            before.push(words.last())
        } else {
            before
        }
    }
}

/// The words that are kept, as one text of no more than 200 characters.
pub fn pick_words(words: &Vec<String>, numeric: &Vec<bool>) -> (result: String)
    requires
        numeric@.len() == words@.len(),
    ensures
        result@ == text::take_chars(text::spaced(picked(text::texts(words@), numeric@)), 200),
{
    let ghost all = text::texts(words@);
    let mut kept: Vec<String> = Vec::new();
    let mut i: usize = 0;
    assert(text::texts(kept@) =~= Seq::<Seq<char>>::empty());
    while i < words.len()
        invariant
            i <= words@.len(),
            numeric@.len() == words@.len(),
            all == text::texts(words@),
            text::texts(kept@) == picked(all.take(i as int), numeric@.take(i as int)),
        decreases words@.len() - i,
    {
        proof {
            assert(all.take(i + 1).drop_last() =~= all.take(i as int));
            assert(numeric@.take(i + 1).drop_last() =~= numeric@.take(i as int));
            assert(all.take(i + 1).last() == words@[i as int]@);
            assert(text::texts(kept@).len() == kept@.len());
        }
        let ghost before = text::texts(kept@);
        if kept.len() < 24 && text::chars_of(&words[i]).len() > 1 && !numeric[i] {
            kept.push(words[i].clone());
            assert(text::texts(kept@) =~= before.push(words@[i as int]@));
        }
        i = i + 1;
    }
    proof {
        assert(all.take(all.len() as int) =~= all);
        assert(numeric@.take(all.len() as int) =~= numeric@);
    }
    let line = text::join_spaced(&kept);
    text::prefix(&line, 200)
}

/// Which words are made of digits and signs alone.
pub open spec fn numeric_words(words: Seq<Seq<char>>) -> Seq<bool> {
    words.map_values(|w: Seq<char>| pattern_found(NUMERIC_PATTERN@, w) == Some(true))
}

/// What is worth comparing in a text that was read from a screenshot.
pub open spec fn cleaned_ocr(s: Seq<char>) -> Seq<char> {
    text::take_chars(text::spaced(picked(text::words(s), numeric_words(text::words(s)))), 200)
}

/// What is worth comparing in a text that was read from a screenshot.
pub fn clean_ocr(ocr_text: &str) -> (result: String)
    ensures
        result@ == cleaned_ocr(ocr_text@),
{
    let words = text::split_words(ocr_text);
    let mut numeric: Vec<bool> = Vec::new();
    let mut i: usize = 0;
    while i < words.len()
        invariant
            i == numeric@.len(),
            i <= words@.len(),
            forall|j: int|
                0 <= j < i ==> #[trigger] numeric@[j] == (pattern_found(
                    NUMERIC_PATTERN@,
                    words@[j]@,
                ) == Some(true)),
        decreases words@.len() - i,
    {
        let found = match find_pattern(NUMERIC_PATTERN, &words[i]) {
            Some(found) => found,
            None => false,
        };
        numeric.push(found);
        i = i + 1;
    }
    assert(numeric@ =~= numeric_words(text::texts(words@)));
    pick_words(&words, &numeric)
}

/// What of a text is compared: what is worth it, else how the text begins.
pub open spec fn snippet_of(cleaned: Seq<char>, whole: Seq<char>) -> Seq<char> {
    if cleaned.len() == 0 {
        text::take_chars(whole, 200)
    } else {
        cleaned
    }
}

fn snippet(ocr_text: &str, whole: &str) -> (result: String)
    ensures
        result@ == snippet_of(cleaned_ocr(ocr_text@), whole@),
{
    let cleaned = clean_ocr(ocr_text);
    if text::chars_of(&cleaned).len() == 0 {
        text::prefix(whole, 200)
    } else {
        cleaned
    }
}

/// The character is a letter or a digit, by the tables of Unicode.
pub uninterp spec fn letter_or_digit(c: char) -> bool;

/// `char::is_alphanumeric`: the tables are left to the name. Of the ASCII
/// characters, the letters and digits are.
#[verifier::external_body]
fn is_letter_or_digit(c: char) -> (result: bool)
    ensures
        result == letter_or_digit(c),
        (c as int) < 128 ==> result == ('0' <= c <= '9' || 'a' <= c <= 'z' || 'A' <= c <= 'Z'),
{
    c.is_alphanumeric()
}

/// How many letters and digits there are.
pub open spec fn letters_and_digits(s: Seq<char>) -> nat
    decreases s.len(),
{
    if s.len() == 0 {
        0
    } else {
        letters_and_digits(s.drop_last()) + if letter_or_digit(s.last()) {
            1nat
        } else {
            0
        }
    }
}

/// The text says enough to be compared on its own: at least eight characters,
/// among them four letters or digits and four that differ.
pub open spec fn says_enough(s: Seq<char>) -> bool {
    let line = text::spaced(text::words(s));
    line.len() >= 8 && letters_and_digits(line) >= 4 && line.to_set().len() >= 4
}

fn count_letters(chars: &Vec<char>) -> (result: usize)
    ensures
        result == letters_and_digits(chars@),
{
    let mut count: usize = 0;
    let mut i: usize = 0;
    while i < chars.len()
        invariant
            i <= chars@.len(),
            count <= i,
            count == letters_and_digits(chars@.take(i as int)),
        decreases chars@.len() - i,
    {
        assert(chars@.take(i + 1).drop_last() =~= chars@.take(i as int));
        if is_letter_or_digit(chars[i]) {
            count = count + 1;
        }
        i = i + 1;
    }
    assert(chars@.take(chars@.len() as int) =~= chars@);
    count
}

fn count_distinct(chars: &Vec<char>) -> (result: usize)
    ensures
        result == chars@.to_set().len(),
{
    let mut seen: Vec<char> = Vec::new();
    let mut i: usize = 0;
    while i < chars.len()
        invariant
            i <= chars@.len(),
            seen@.no_duplicates(),
            forall|c: char| seen@.contains(c) == chars@.take(i as int).contains(c),
        decreases chars@.len() - i,
    {
        let c: char = chars[i];
        let mut known = false;
        let mut j: usize = 0;
        while j < seen.len()
            invariant
                j <= seen@.len(),
                known == seen@.take(j as int).contains(c),
            decreases seen@.len() - j,
        {
            assert(seen@.take(j + 1) =~= seen@.take(j as int).push(seen@[j as int]));
            if seen[j] == c {
                known = true;
                assert(seen@.take(j + 1)[j as int] == c);
            }
            proof {
                let shorter = seen@.take(j as int);
                let longer = seen@.take(j + 1);
                if shorter.contains(c) {
                    let k = choose|k: int| 0 <= k < shorter.len() && shorter[k] == c;
                    assert(longer[k] == c);
                }
                if longer.contains(c) && seen@[j as int] != c {
                    let k = choose|k: int| 0 <= k < longer.len() && longer[k] == c;
                    assert(shorter[k] == c);
                }
            }
            j = j + 1;
        }
        assert(seen@.take(seen@.len() as int) =~= seen@);
        let ghost before = seen@;
        if !known {
            seen.push(c);
        }
        proof {
            let shorter = chars@.take(i as int);
            let longer = chars@.take(i + 1);
            assert(longer =~= shorter.push(c));
            assert forall|d: char| seen@.contains(d) == longer.contains(d) by {
                assert(before.contains(d) == shorter.contains(d));
                if shorter.contains(d) {
                    let k = choose|k: int| 0 <= k < shorter.len() && shorter[k] == d;
                    assert(longer[k] == d);
                }
                if longer.contains(d) && d != c {
                    let k = choose|k: int| 0 <= k < longer.len() && longer[k] == d;
                    assert(shorter[k] == d);
                }
                if d == c {
                    assert(longer[i as int] == d);
                }
                if before.contains(d) {
                    let k = choose|k: int| 0 <= k < before.len() && before[k] == d;
                    assert(seen@[k] == d);
                }
                if !known && d == c {
                    assert(seen@[before.len() as int] == d);
                }
                if seen@.contains(d) && d != c {
                    let k = choose|k: int| 0 <= k < seen@.len() && seen@[k] == d;
                    assert(before[k] == d);
                }
            }
        }
        i = i + 1;
    }
    proof {
        assert(chars@.take(chars@.len() as int) =~= chars@);
        seen@.unique_seq_to_set();
        assert(seen@.to_set() =~= chars@.to_set());
    }
    seen.len()
}

/// The text says enough to be compared on its own.
pub fn informative(s: &str) -> (result: bool)
    ensures
        result == says_enough(s@),
{
    let words = text::split_words(s);
    let line = text::join_spaced(&words);
    let chars = text::chars_of(&line);
    chars.len() >= 8 && count_letters(&chars) >= 4 && count_distinct(&chars) >= 4
}

// ---------------------------------------------------------------------------
// Vectors
// ---------------------------------------------------------------------------
/// How many numbers each vector has to hold.
pub open spec fn width_of(vectors: Seq<Vec<u32>>, expected: Option<usize>) -> int {
    match expected {
        Some(n) => n as int,
        None => if vectors.len() > 0 {
            vectors[0]@.len() as int
        } else {
            0
        },
    }
}

/// The vectors are as many as were asked for, hold the same count of numbers,
/// and only finite ones.
pub open spec fn sound_vectors(vectors: Seq<Vec<u32>>, count: nat, expected: Option<usize>) -> bool {
    &&& vectors.len() == count
    &&& width_of(vectors, expected) != 0
    &&& forall|i: int|
        0 <= i < vectors.len() ==> (#[trigger] vectors[i])@.len() == width_of(vectors, expected)
    &&& forall|i: int, j: int|
        0 <= i < vectors.len() && 0 <= j < vectors[i]@.len() ==> ieee::is_finite32(
            #[trigger] vectors[i]@[j],
        )
}

fn finite_row(row: &Vec<u32>) -> (result: bool)
    ensures
        result == (forall|j: int| 0 <= j < row@.len() ==> ieee::is_finite32(#[trigger] row@[j])),
{
    let mut j: usize = 0;
    while j < row.len()
        invariant
            j <= row@.len(),
            forall|k: int| 0 <= k < j ==> ieee::is_finite32(#[trigger] row@[k]),
        decreases row@.len() - j,
    {
        if !ieee::finite32(row[j]) {
            return false;
        }
        j = j + 1;
    }
    true
}

/// Checks vectors, whose numbers are given by their bits.
pub fn validate_vectors(vectors: &Vec<Vec<u32>>, count: usize, expected: Option<usize>) -> (result:
    Result<(), String>)
    ensures
        match result {
            Ok(_) => sound_vectors(vectors@, count as nat, expected),
            Err(e) => !sound_vectors(vectors@, count as nat, expected) && e@
                == "invalid BGE classification vectors"@,
        },
{
    let width: usize = match expected {
        Some(n) => n,
        None => if vectors.len() > 0 {
            vectors[0].len()
        } else {
            0
        },
    };
    let told = "invalid BGE classification vectors";
    if vectors.len() != count || width == 0 {
        return Err(told.to_owned());
    }
    let mut i: usize = 0;
    while i < vectors.len()
        invariant
            i <= vectors@.len(),
            width == width_of(vectors@, expected),
            vectors@.len() == count,
            told@ == "invalid BGE classification vectors"@,
            forall|k: int| 0 <= k < i ==> (#[trigger] vectors@[k])@.len() == width,
            forall|k: int, j: int|
                0 <= k < i && 0 <= j < vectors@[k]@.len() ==> ieee::is_finite32(
                    #[trigger] vectors@[k]@[j],
                ),
        decreases vectors@.len() - i,
    {
        if vectors[i].len() != width || !finite_row(&vectors[i]) {
            return Err(told.to_owned());
        }
        i = i + 1;
    }
    Ok(())
}

// ---------------------------------------------------------------------------
// Scores
// ---------------------------------------------------------------------------
/// Scores by category.
pub type Scores = IndexMap<String, u64>;

/// What the map of scores holds, in its order.
pub uninterp spec fn scored(scores: Scores) -> Seq<(Seq<char>, u64)>;

/// `indexmap::IndexMap::new`: an empty map.
#[verifier::external_body]
pub(crate) fn no_scores() -> (result: Scores)
    ensures
        scored(result) == Seq::<(Seq<char>, u64)>::empty(),
{
    IndexMap::new()
}

/// `indexmap::IndexMap::len`: how many scores there are.
#[verifier::external_body]
pub(crate) fn score_count(scores: &Scores) -> (result: usize)
    ensures
        result == scored(*scores).len(),
{
    scores.len()
}

/// `indexmap::IndexMap::get_index`: the category at a place, with its score. No
/// category is there twice.
#[verifier::external_body]
pub(crate) fn score_at(scores: &Scores, at: usize) -> (result: Option<(&String, &u64)>)
    ensures
        match result {
            Some(entry) => {
                &&& at < scored(*scores).len()
                &&& scored(*scores)[at as int] == (entry.0@, *entry.1)
                &&& crate::anchors::place(scored(*scores), entry.0@) == at
            },
            None => at >= scored(*scores).len(),
        },
{
    scores.get_index(at)
}

/// `indexmap::IndexMap::get`: the score of a category, if it has one.
#[verifier::external_body]
pub(crate) fn score_of<'a>(scores: &'a Scores, category: &str) -> (result: Option<&'a u64>)
    ensures
        match result {
            Some(score) => crate::anchors::listed(scored(*scores), category@) && *score == scored(
                *scores,
            )[crate::anchors::place(scored(*scores), category@)].1,
            None => !crate::anchors::listed(scored(*scores), category@),
        },
{
    scores.get(category)
}

/// `indexmap::IndexMap::insert`: the score of a category that has one is
/// replaced; a new category comes last.
#[verifier::external_body]
pub(crate) fn put_score(scores: &mut Scores, category: String, score: u64)
    ensures
        scored(*final(scores)) == crate::anchors::put(scored(*old(scores)), category@, score),
{
    scores.insert(category, score);
}

/// The first category with the best score, or none, with a score below all.
pub open spec fn best_of(list: Seq<(Seq<char>, u64)>) -> (Seq<char>, u64)
    decreases list.len(),
{
    if list.len() == 0 {
        (UNCATEGORIZED@, 0xFFF0_0000_0000_0000)
    } else {
        let winner = best_of(list.drop_last());
        if ieee::below(winner.1, list.last().1) {
            list.last()
        } else {
            winner
        }
    }
}

/// The first category with the best score.
pub fn best(scores: &Scores) -> (result: (String, u64))
    ensures
        (result.0@, result.1) == best_of(scored(*scores)),
{
    let ghost list = scored(*scores);
    let mut category: String = UNCATEGORIZED.to_owned();
    let mut score: u64 = 0xFFF0_0000_0000_0000;
    let count: usize = score_count(scores);
    let mut i: usize = 0;
    while i < count
        invariant
            i <= count,
            list == scored(*scores),
            count == list.len(),
            (category@, score) == best_of(list.take(i as int)),
        decreases count - i,
    {
        assert(list.take(i + 1).drop_last() =~= list.take(i as int));
        match score_at(scores, i) {
            Some((name, value)) => {
                if ieee::less(score, *value) {
                    category = name.clone();
                    score = *value;
                }
            },
            None => {},
        }
        i = i + 1;
    }
    assert(list.take(count as int) =~= list);
    (category, score)
}

/// No score is above that of the best category.
pub proof fn law_best_is_not_beaten(list: Seq<(Seq<char>, u64)>, i: int)
    requires
        0 <= i < list.len(),
    ensures
        !ieee::below(best_of(list).1, list[i].1),
    decreases list.len(),
{
    if i < list.len() - 1 {
        law_best_is_not_beaten(list.drop_last(), i);
        lemma_best_is_a_number(list.drop_last());
        assert(list.drop_last()[i] == list[i]);
    } else {
        lemma_best_is_a_number(list.drop_last());
    }
}

proof fn lemma_best_is_a_number(list: Seq<(Seq<char>, u64)>)
    ensures
        !ieee::is_nan(best_of(list).1),
    decreases list.len(),
{
    if list.len() > 0 {
        lemma_best_is_a_number(list.drop_last());
    }
}

/// The best category is one of the list, unless none of its scores is a number
/// above all others.
pub proof fn lemma_best_is_listed(list: Seq<(Seq<char>, u64)>)
    ensures
        best_of(list).1 == 0xFFF0_0000_0000_0000 || exists|i: int|
            0 <= i < list.len() && #[trigger] list[i] == best_of(list),
    decreases list.len(),
{
    if list.len() > 0 {
        let head = list.drop_last();
        lemma_best_is_listed(head);
        if best_of(list) == best_of(head) && best_of(head).1 != 0xFFF0_0000_0000_0000 {
            let i = choose|i: int| 0 <= i < head.len() && #[trigger] head[i] == best_of(head);
            assert(list[i] == best_of(list));
        } else {
            assert(list[list.len() - 1] == list.last());
        }
    }
}

/// How much the scores of a program's own anchors add, by how many categories
/// they speak for.
pub open spec fn boost_of(diversity: nat) -> u64 {
    if diversity == 0 {
        0
    } else if diversity == 1 {
        0x3FC3_3333_3333_3333
    } else if diversity <= 3 {
        0x3FD3_3333_3333_3333
    } else {
        0x3FE0_0000_0000_0000
    }
}

/// How much the scores of a program's own anchors add: 0, 0.15, 0.3 or 0.5.
pub fn boost(diversity: usize) -> (result: u64)
    ensures
        result == boost_of(diversity as nat),
{
    if diversity == 0 {
        0
    } else if diversity == 1 {
        0x3FC3_3333_3333_3333
    } else if diversity <= 3 {
        0x3FD3_3333_3333_3333
    } else {
        0x3FE0_0000_0000_0000
    }
}

/// The score of a category, or zero.
pub open spec fn score_or_zero(list: Seq<(Seq<char>, u64)>, category: Seq<char>) -> u64 {
    if crate::anchors::listed(list, category) {
        list[crate::anchors::place(list, category)].1
    } else {
        0
    }
}

pub(crate) fn value_or_zero(scores: &Scores, category: &str) -> (result: u64)
    ensures
        result == score_or_zero(scored(*scores), category@),
{
    match score_of(scores, category) {
        Some(value) => *value,
        None => 0,
    }
}

/// The scores from the title, each with that from the text of the screenshot.
pub fn paired(scores: &Scores, others: &Scores) -> (result: Vec<(u64, u64)>)
    ensures
        result@ == scored(*scores).map_values(
            |e: (Seq<char>, u64)| (e.1, score_or_zero(scored(*others), e.0)),
        ),
{
    let ghost list = scored(*scores);
    let count: usize = score_count(scores);
    let mut pairs: Vec<(u64, u64)> = Vec::new();
    let mut i: usize = 0;
    while i < count
        invariant
            i <= count,
            i == pairs@.len(),
            list == scored(*scores),
            count == list.len(),
            forall|j: int|
                0 <= j < i ==> #[trigger] pairs@[j] == (
                    list[j].1,
                    score_or_zero(scored(*others), list[j].0),
                ),
        decreases count - i,
    {
        match score_at(scores, i) {
            Some((name, value)) => {
                let other: u64 = value_or_zero(others, name);
                pairs.push((*value, other));
            },
            None => {
                pairs.push((0, 0));
            },
        }
        i = i + 1;
    }
    pairs
}

/// The categories in the same order, with other scores.
pub open spec fn revalued(list: Seq<(Seq<char>, u64)>, values: Seq<u64>) -> Seq<(Seq<char>, u64)> {
    Seq::new(list.len(), |i: int| (list[i].0, values[i]))
}

/// The categories in the same order, with other scores.
pub fn revalue(scores: &Scores, values: &Vec<u64>) -> (result: Scores)
    requires
        values@.len() == scored(*scores).len(),
    ensures
        scored(result) == revalued(scored(*scores), values@),
{
    let ghost list = scored(*scores);
    let count: usize = score_count(scores);
    let mut new_scores = no_scores();
    let mut i: usize = 0;
    assert(revalued(list, values@).take(0) =~= Seq::<(Seq<char>, u64)>::empty());
    while i < count
        invariant
            i <= count,
            list == scored(*scores),
            count == list.len(),
            values@.len() == count,
            scored(new_scores) == revalued(list, values@).take(i as int),
        decreases count - i,
    {
        let ghost before = scored(new_scores);
        match score_at(scores, i) {
            Some((name, _)) => {
                put_score(&mut new_scores, name.clone(), values[i]);
                proof {
                    crate::anchors::lemma_place(list, name@);
                    assert forall|j: int| 0 <= j < before.len() implies (#[trigger] before[j]).0
                        != name@ by {
                        assert(list[j].0 != name@);
                    }
                    crate::anchors::lemma_place_is(before, name@, before.len() as int);
                    assert(scored(new_scores) =~= revalued(list, values@).take(i + 1));
                }
            },
            None => {},
        }
        i = i + 1;
    }
    assert(revalued(list, values@).take(count as int) =~= revalued(list, values@));
    new_scores
}

/// The list with one more entry, after all whose score is not less.
pub open spec fn with_entry(list: Seq<(Seq<char>, u64)>, entry: (Seq<char>, u64)) -> Seq<
    (Seq<char>, u64),
>
    decreases list.len(),
{
    if list.len() == 0 || ieee::total_position(list.last().1) >= ieee::total_position(entry.1) {
        list.push(entry)
    } else {
        with_entry(list.drop_last(), entry).push(list.last())
    }
}

/// The entries with the best scores first; of equal ones the earlier first.
pub open spec fn best_first(list: Seq<(Seq<char>, u64)>) -> Seq<(Seq<char>, u64)>
    decreases list.len(),
{
    if list.len() == 0 {
        Seq::empty()
    } else {
        with_entry(best_first(list.drop_last()), list.last())
    }
}

/// The texts of a list of scores.
pub open spec fn score_views(list: Seq<(String, u64)>) -> Seq<(Seq<char>, u64)> {
    list.map_values(|e: (String, u64)| (e.0@, e.1))
}

fn place_entry(list: &mut Vec<(String, u64)>, name: String, score: u64)
    requires
        old(list)@.len() < usize::MAX,
    ensures
        score_views(final(list)@) == with_entry(score_views(old(list)@), (name@, score)),
{
    let ghost before = score_views(list@);
    let ghost entry = (name@, score);
    let mut at: usize = list.len();
    assert(before.take(at as int) =~= before);
    assert(with_entry(before.take(at as int), entry) + before.skip(at as int) =~= with_entry(
        before,
        entry,
    ));
    while at > 0 && ieee::before_in_total(list[at - 1].1, score)
        invariant
            at <= list@.len(),
            before == score_views(list@),
            entry == (name@, score),
            with_entry(before.take(at as int), entry) + before.skip(at as int) == with_entry(
                before,
                entry,
            ),
        decreases at,
    {
        proof {
            let head = before.take(at as int);
            assert(head.drop_last() =~= before.take(at - 1));
            assert(head.last() == before[at - 1]);
            assert(with_entry(before.take(at - 1), entry).push(before[at - 1]) + before.skip(
                at as int,
            ) =~= with_entry(before.take(at - 1), entry) + before.skip(at - 1));
        }
        at = at - 1;
    }
    proof {
        if at > 0 {
            assert(before.take(at as int).last() == before[at - 1]);
        }
        assert(with_entry(before.take(at as int), entry) == before.take(at as int).push(entry));
        assert(before.take(at as int).push(entry) + before.skip(at as int) =~= before.insert(
            at as int,
            entry,
        ));
    }
    list.insert(at, (name, score));
    assert(score_views(list@) =~= before.insert(at as int, entry));
}

/// The best scores, the best first.
pub fn top(scores: &Scores, count: usize) -> (result: Vec<(String, u64)>)
    ensures
        ({
            let sorted = best_first(scored(*scores));
            score_views(result@) == if sorted.len() <= count {
                sorted
            } else {
                sorted.take(count as int)
            }
        }),
{
    let ghost list = scored(*scores);
    let total: usize = score_count(scores);
    let mut sorted: Vec<(String, u64)> = Vec::new();
    let mut i: usize = 0;
    assert(score_views(sorted@) =~= Seq::<(Seq<char>, u64)>::empty());
    while i < total
        invariant
            i <= total,
            i == sorted@.len(),
            list == scored(*scores),
            total == list.len(),
            score_views(sorted@) == best_first(list.take(i as int)),
        decreases total - i,
    {
        proof {
            assert(list.take(i + 1).drop_last() =~= list.take(i as int));
            assert(list.take(i + 1).last() == list[i as int]);
        }
        match score_at(scores, i) {
            Some((name, value)) => {
                let ghost before = score_views(sorted@);
                place_entry(&mut sorted, name.clone(), *value);
                proof {
                    lemma_with_entry_len(before, (name@, *value));
                    assert(score_views(sorted@).len() == sorted@.len());
                }
            },
            None => {},
        }
        i = i + 1;
    }
    assert(list.take(total as int) =~= list);
    let ghost all = score_views(sorted@);
    if sorted.len() > count {
        sorted.truncate(count);
        assert(score_views(sorted@) =~= all.take(count as int));
    }
    sorted
}

proof fn lemma_with_entry_len(list: Seq<(Seq<char>, u64)>, entry: (Seq<char>, u64))
    ensures
        with_entry(list, entry).len() == list.len() + 1,
    decreases list.len(),
{
    if list.len() > 0 && ieee::total_position(list.last().1) < ieee::total_position(entry.1) {
        lemma_with_entry_len(list.drop_last(), entry);
    }
}

/// Nothing that is listed later has a better score than what is listed before
/// it.
pub proof fn law_best_come_first(list: Seq<(Seq<char>, u64)>, i: int, j: int)
    requires
        0 <= i < j < list.len(),
    ensures
        best_first(list).len() == list.len(),
        ieee::total_position(best_first(list)[i].1) >= ieee::total_position(best_first(list)[j].1),
{
    lemma_best_first(list);
}

spec fn falling(list: Seq<(Seq<char>, u64)>) -> bool {
    forall|i: int, j: int|
        0 <= i < j < list.len() ==> ieee::total_position((#[trigger] list[i]).1)
            >= ieee::total_position((#[trigger] list[j]).1)
}

proof fn lemma_with_entry_falls(list: Seq<(Seq<char>, u64)>, entry: (Seq<char>, u64))
    requires
        falling(list),
    ensures
        falling(with_entry(list, entry)),
        forall|i: int|
            0 <= i < with_entry(list, entry).len() ==> (#[trigger] with_entry(list, entry)[i])
                == entry || list.contains(with_entry(list, entry)[i]),
    decreases list.len(),
{
    let after = with_entry(list, entry);
    if list.len() == 0 || ieee::total_position(list.last().1) >= ieee::total_position(entry.1) {
        assert forall|i: int, j: int| 0 <= i < j < after.len() implies ieee::total_position(
            (#[trigger] after[i]).1,
        ) >= ieee::total_position((#[trigger] after[j]).1) by {
            assert(after[i] == list[i]);
            if j < list.len() {
                assert(after[j] == list[j]);
            } else if i < list.len() - 1 {
                assert(ieee::total_position(list[i].1) >= ieee::total_position(
                    list[list.len() - 1].1,
                ));
            }
        }
        assert forall|i: int| 0 <= i < after.len() implies (#[trigger] after[i]) == entry
            || list.contains(after[i]) by {
            if i < list.len() {
                assert(after[i] == list[i]);
            }
        }
    } else {
        let head = list.drop_last();
        assert forall|i: int, j: int| 0 <= i < j < head.len() implies ieee::total_position(
            (#[trigger] head[i]).1,
        ) >= ieee::total_position((#[trigger] head[j]).1) by {
            assert(head[i] == list[i] && head[j] == list[j]);
        }
        lemma_with_entry_falls(head, entry);
        let inner = with_entry(head, entry);
        assert forall|i: int, j: int| 0 <= i < j < after.len() implies ieee::total_position(
            (#[trigger] after[i]).1,
        ) >= ieee::total_position((#[trigger] after[j]).1) by {
            assert(after[i] == inner[i]);
            if j < inner.len() {
                assert(after[j] == inner[j]);
            } else {
                assert(inner[i] == entry || head.contains(inner[i]));
                if inner[i] != entry {
                    let k = choose|k: int| 0 <= k < head.len() && head[k] == inner[i];
                    assert(list[k] == head[k]);
                    assert(ieee::total_position(list[k].1) >= ieee::total_position(
                        list[list.len() - 1].1,
                    ));
                }
            }
        }
        assert forall|i: int| 0 <= i < after.len() implies (#[trigger] after[i]) == entry
            || list.contains(after[i]) by {
            if i < inner.len() {
                assert(after[i] == inner[i]);
                assert(inner[i] == entry || head.contains(inner[i]));
                if inner[i] != entry {
                    let k = choose|k: int| 0 <= k < head.len() && head[k] == inner[i];
                    assert(list[k] == after[i]);
                }
            } else {
                assert(list[list.len() - 1] == after[i]);
            }
        }
    }
}

proof fn lemma_best_first(list: Seq<(Seq<char>, u64)>)
    ensures
        best_first(list).len() == list.len(),
        falling(best_first(list)),
    decreases list.len(),
{
    if list.len() > 0 {
        lemma_best_first(list.drop_last());
        lemma_with_entry_len(best_first(list.drop_last()), list.last());
        lemma_with_entry_falls(best_first(list.drop_last()), list.last());
    }
}

// ---------------------------------------------------------------------------
// Decisions
// ---------------------------------------------------------------------------
/// The texts that a screenshot is compared by.
#[derive(Debug)]
pub struct QueryTexts {
    /// The title, or how the text of the screenshot begins.
    pub title: String,
    /// The title without the name of the browser.
    pub clean_title: String,
    /// Diagnostics compare the whole title with the program's own anchors.
    pub local_is_whole_title: bool,
}

/// How a classification begins.
#[derive(Debug)]
pub enum QueryStart {
    /// There is nothing to compare: the reason.
    Empty { reason: &'static str },
    /// These texts are compared.
    Texts { texts: QueryTexts },
}

/// The text that is looked at; diagnostics trim it.
pub open spec fn looked_at(s: Seq<char>, debug: bool) -> Seq<char> {
    if debug {
        text::trimmed(s)
    } else {
        s
    }
}

/// The title that is compared.
pub open spec fn query_title(title: Seq<char>, ocr: Seq<char>) -> Seq<char> {
    if text::trimmed(title).len() == 0 {
        text::take_chars(ocr, 200)
    } else {
        title
    }
}

fn look_at(s: &String, debug: bool) -> (result: String)
    ensures
        result@ == looked_at(s@, debug),
{
    if debug {
        text::trim(s)
    } else {
        s.clone()
    }
}

fn blank(s: &str) -> (result: bool)
    ensures
        result == (text::trimmed(s@).len() == 0),
{
    let trimmed = text::trim(s);
    text::chars_of(&trimmed).len() == 0
}

/// What a query compares, if anything.
pub open spec fn query_begun(
    input: &Input,
    indexed: usize,
    debug: bool,
    result: QueryStart,
) -> bool {
    ({
        let title = looked_at(input.title@, debug);
        let ocr = looked_at(input.ocr_text@, debug);
        match result {
            QueryStart::Empty { reason } => if indexed == 0 {
                reason@ == "empty_anchor_index"@
            } else {
                &&& text::trimmed(title).len() == 0
                &&& text::trimmed(ocr).len() == 0
                &&& reason@ == "empty_input"@
            },
            QueryStart::Texts { texts } => {
                &&& indexed > 0
                &&& text::trimmed(title).len() > 0 || text::trimmed(ocr).len() > 0
                &&& texts.title@ == query_title(title, ocr)
                &&& texts.clean_title@ == stripped(texts.title@, input.process_name@)
                &&& texts.local_is_whole_title == (debug && texts.title@
                    != texts.clean_title@)
            },
        }
    })
}

/// How the classification of a screenshot begins. `indexed` tells how many
/// anchors there are.
pub fn begin_query(input: &Input, indexed: usize, debug: bool) -> (result: QueryStart)
    ensures
        query_begun(input, indexed, debug, result),
{
    if indexed == 0 {
        return QueryStart::Empty { reason: "empty_anchor_index" };
    }
    let title = look_at(&input.title, debug);
    let ocr = look_at(&input.ocr_text, debug);
    if blank(&title) && blank(&ocr) {
        return QueryStart::Empty { reason: "empty_input" };
    }
    let title = if blank(&title) {
        text::prefix(&ocr, 200)
    } else {
        title
    };
    let clean_title = strip_app_suffix(&title, &input.process_name);
    let local_is_whole_title = debug && !text::same(&title, &clean_title);
    QueryStart::Texts { texts: QueryTexts { title, clean_title, local_is_whole_title } }
}

/// What the scores of a title decide.
#[derive(Debug)]
pub struct TitleVerdict {
    /// The program's own anchors agree strongly enough.
    pub veto: bool,
    /// The score is too low to go by the title alone, and there is a text.
    pub needs_ocr: bool,
    /// The text of the screenshot that is compared too.
    pub snippet: Option<String>,
}

/// The program's own anchors agree with the best category, strongly enough.
pub open spec fn vetoes(scores: Seq<(Seq<char>, u64)>, local: Seq<(Seq<char>, u64)>) -> bool {
    ieee::reaches(best_of(local).1, 0x3FE0_0000_0000_0000) && best_of(local).0 == best_of(scores).0
}

/// What the scores of a title say, and what is compared besides.
pub open spec fn title_judged(
    scores: &Scores,
    local: &Scores,
    input: &Input,
    debug: bool,
    result: TitleVerdict,
) -> bool {
    ({
        let ocr = looked_at(input.ocr_text@, debug);
        &&& result.veto == vetoes(scored(*scores), scored(*local))
        &&& result.needs_ocr == (ieee::below(
            best_of(scored(*scores)).1,
            0x3FE1_9999_9999_999A,
        ) && text::trimmed(ocr).len() > 0)
        &&& match result.snippet {
            Some(s) => result.needs_ocr && !result.veto && s@ == snippet_of(
                cleaned_ocr(ocr),
                ocr,
            ),
            None => !result.needs_ocr || result.veto,
        }
    })
}

/// Whether the text of a screenshot is compared too: where the best score is
/// below 0.55, unless the program's own anchors agree with a score of at least
/// 0.5.
pub fn judge_title(scores: &Scores, local: &Scores, input: &Input, debug: bool) -> (result:
    TitleVerdict)
    ensures
        title_judged(scores, local, input, debug, result),
{
    let ocr = look_at(&input.ocr_text, debug);
    let (category, score) = best(scores);
    let (local_category, local_score) = best(local);
    let veto = ieee::at_least(local_score, 0x3FE0_0000_0000_0000) && text::same(
        &local_category,
        &category,
    );
    let needs_ocr = ieee::less(score, 0x3FE1_9999_9999_999A) && !blank(&ocr);
    let compared = if needs_ocr && !veto {
        Some(snippet(&ocr, &ocr))
    } else {
        None
    };
    TitleVerdict { veto, needs_ocr, snippet: compared }
}

/// The category that a program speaks for.
pub open spec fn prior_of(priors: Seq<(String, String)>, process: Seq<char>) -> Option<Seq<char>>
    decreases priors.len(),
{
    if priors.len() == 0 {
        None
    } else if priors[0].0@ == process {
        Some(priors[0].1@)
    } else {
        prior_of(priors.drop_first(), process)
    }
}

/// The category that a program speaks for, if any.
pub fn process_prior(priors: &Vec<(String, String)>, process: &str) -> (result: Option<String>)
    ensures
        match result {
            Some(category) => prior_of(priors@, normalized(process@)) == Some(category@),
            None => prior_of(priors@, normalized(process@)) is None,
        },
{
    let normal = normalize_process(process);
    let mut i: usize = 0;
    assert(priors@.skip(0) =~= priors@);
    while i < priors.len()
        invariant
            i <= priors@.len(),
            normal@ == normalized(process@),
            prior_of(priors@, normal@) == prior_of(priors@.skip(i as int), normal@),
        decreases priors@.len() - i,
    {
        assert(priors@.skip(i as int).drop_first() =~= priors@.skip(i + 1));
        if text::same(&priors[i].0, &normal) {
            return Some(priors[i].1.clone());
        }
        i = i + 1;
    }
    None
}

/// The category that a score is enough for: one below 0.38 leaves the screenshot
/// without a category.
pub open spec fn category_for(category: Seq<char>, score: u64) -> Seq<char> {
    if ieee::below(score, 0x3FD8_51EB_851E_B852) {
        UNCATEGORIZED@
    } else {
        category
    }
}

/// What a classification comes to, by the best category and its score. A score
/// that is no score is an error.
pub fn settle_category(category: String, score: u64) -> (result: Result<String, String>)
    ensures
        match result {
            Ok(settled) => {
                &&& ieee::is_finite(score)
                &&& !ieee::below(score, 0)
                &&& settled@ == category_for(category@, score)
            },
            Err(e) => (!ieee::is_finite(score) || ieee::below(score, 0)) && e@
                == "invalid weighted classification score"@,
        },
{
    if !ieee::finite(score) || ieee::less(score, 0) {
        return Err("invalid weighted classification score".to_owned());
    }
    if ieee::less(score, 0x3FD8_51EB_851E_B852) {
        Ok(UNCATEGORIZED.to_owned())
    } else {
        Ok(category)
    }
}

/// The text of a screenshot that feedback learns from, if it is long enough.
pub open spec fn feedback_snippet(ocr_text: Seq<char>) -> Option<Seq<char>> {
    if text::trimmed(ocr_text).len() >= 20 {
        Some(snippet_of(cleaned_ocr(ocr_text), text::trimmed(ocr_text)))
    } else {
        None
    }
}

/// The text of a screenshot that feedback learns from, if it is long enough.
pub fn learned_snippet(ocr_text: &str) -> (result: Option<String>)
    ensures
        match result {
            Some(s) => feedback_snippet(ocr_text@) == Some(s@),
            None => feedback_snippet(ocr_text@) is None,
        },
{
    let trimmed = text::trim(ocr_text);
    if text::chars_of(&trimmed).len() >= 20 {
        Some(snippet(ocr_text, &trimmed))
    } else {
        None
    }
}

/// A category is kept from a score of 0.38 on, and below that there is none.
pub proof fn law_low_scores_name_no_category(category: Seq<char>, score: u64)
    requires
        score < 0x7FF0_0000_0000_0000,
    ensures
        score >= 0x3FD8_51EB_851E_B852 ==> category_for(category, score) == category,
        score < 0x3FD8_51EB_851E_B852 ==> category_for(category, score) == "未分类"@,
{
}

/// Cleaning never leaves a title without anything to go by: what is left has at
/// least two characters, or the title stays as it is.
pub proof fn law_titles_stay_readable(title: Seq<char>, cleaned: Seq<char>)
    ensures
        text::trimmed(cleaned).len() >= 2 ==> cleaned_or_whole(title, cleaned) == text::trimmed(
            cleaned,
        ),
        text::trimmed(cleaned).len() < 2 ==> cleaned_or_whole(title, cleaned) == title,
        cleaned_or_whole(title, cleaned).len() >= 2 || cleaned_or_whole(title, cleaned) == title,
{
}

/// Only titles of the known browsers are cleaned; those of other programs, and
/// those that do not name the browser, stay as they are.
pub proof fn law_only_browser_titles_are_cleaned(title: Seq<char>, process: Seq<char>)
    ensures
        ({
            let name = text::lowercase_of(text::trimmed(process));
            name != "msedge.exe"@ && name != "chrome.exe"@ && name != "firefox.exe"@ && name
                != "brave.exe"@ && name != "opera.exe"@ && name != "vivaldi.exe"@ ==> stripped(
                title,
                process,
            ) == title
        }),
        ({
            let name = text::lowercase_of(text::trimmed(process));
            let pattern = PATTERN_HEAD@ + "Brave"@ + PATTERN_TAIL@;
            name == "brave.exe"@ ==> match without_match(pattern, title) {
                None => stripped(title, process) == title,
                Some(cleaned) => text::trimmed(cleaned).len() >= 2 ==> stripped(title, process)
                    == text::trimmed(cleaned),
            }
        }),
{
    reveal_strlit("brave.exe");
    reveal_strlit("chrome.exe");
    reveal_strlit("firefox.exe");
    reveal_strlit("msedge.exe");
    assert("brave.exe"@.len() == 9 && "chrome.exe"@.len() == 10 && "msedge.exe"@.len() == 10
        && "firefox.exe"@.len() == 11);
}

/// At most two dozen words are picked. Each is one of the text that has more
/// than one character and is no number; and as long as there is room, each such
/// word is picked.
pub proof fn law_telling_words_are_picked(words: Seq<Seq<char>>, numeric: Seq<bool>)
    requires
        words.len() == numeric.len(),
    ensures
        picked(words, numeric).len() <= 24,
        forall|k: int|
            0 <= k < picked(words, numeric).len() ==> (#[trigger] picked(words, numeric)[k]).len()
                > 1 && exists|i: int|
                0 <= i < words.len() && #[trigger] words[i] == picked(words, numeric)[k]
                    && !numeric[i],
        picked(words, numeric).len() < 24 ==> forall|i: int|
            0 <= i < words.len() && (#[trigger] words[i]).len() > 1 && !numeric[i] ==> picked(
                words,
                numeric,
            ).contains(words[i]),
    decreases words.len(),
{
    if words.len() > 0 {
        let head = words.drop_last();
        let flags = numeric.drop_last();
        let before = picked(head, flags);
        let all = picked(words, numeric);
        law_telling_words_are_picked(head, flags);
        assert forall|k: int| 0 <= k < all.len() implies (#[trigger] all[k]).len() > 1 && exists|
            i: int,
        | 0 <= i < words.len() && #[trigger] words[i] == all[k] && !numeric[i] by {
            if k < before.len() {
                assert(all[k] == before[k]);
                let i = choose|i: int|
                    0 <= i < head.len() && #[trigger] head[i] == before[k] && !flags[i];
                assert(words[i] == all[k] && !numeric[i]);
            } else {
                assert(words[words.len() - 1] == all[k]);
            }
        }
        if all.len() < 24 {
            assert forall|i: int|
                0 <= i < words.len() && (#[trigger] words[i]).len() > 1 && !numeric[i] implies all.contains(
            words[i]) by {
                if i < head.len() {
                    assert(head[i] == words[i] && flags[i] == numeric[i]);
                    assert(before.contains(head[i]));
                    let k = choose|k: int| 0 <= k < before.len() && before[k] == head[i];
                    assert(all[k] == words[i]);
                } else {
                    assert(all[all.len() - 1] == words[i]);
                }
            }
        }
    }
}

/// What is compared of a text is never longer than two hundred characters, and
/// there is something unless the text is empty.
pub proof fn law_snippets_are_short(ocr_text: Seq<char>, whole: Seq<char>)
    ensures
        cleaned_ocr(ocr_text).len() <= 200,
        snippet_of(cleaned_ocr(ocr_text), whole).len() <= 200,
        whole.len() > 0 ==> snippet_of(cleaned_ocr(ocr_text), whole).len() > 0,
        cleaned_ocr(ocr_text).len() > 0 ==> snippet_of(cleaned_ocr(ocr_text), whole)
            == cleaned_ocr(ocr_text),
        text::trimmed(ocr_text).len() < 20 ==> feedback_snippet(ocr_text) is None,
        text::trimmed(ocr_text).len() >= 20 ==> feedback_snippet(ocr_text) is Some
            && 0 < feedback_snippet(ocr_text)->0.len() <= 200,
{
}

/// Letters and digits are counted one by one.
pub proof fn law_letters_are_counted(a: Seq<char>, b: Seq<char>, c: char)
    ensures
        letters_and_digits(a + b) == letters_and_digits(a) + letters_and_digits(b),
        letters_and_digits(seq![c]) == if letter_or_digit(c) {
            1nat
        } else {
            0
        },
        letters_and_digits(a) <= a.len(),
    decreases b.len(), a.len(),
{
    assert(seq![c].drop_last() =~= Seq::<char>::empty());
    assert(letters_and_digits(Seq::<char>::empty()) == 0);
    if a.len() > 0 {
        law_letters_are_counted(a.drop_last(), Seq::empty(), c);
    }
    if b.len() == 0 {
        assert(a + b =~= a);
    } else {
        law_letters_are_counted(a, b.drop_last(), c);
        assert((a + b).drop_last() =~= a + b.drop_last());
        assert((a + b).last() == b.last());
    }
}

/// A text that is short, has hardly any letters, or repeats the same few
/// characters says too little; a longer one with four different letters says
/// enough.
pub proof fn law_little_is_not_enough(
    s: Seq<char>,
    x: char,
    y: char,
    z: char,
    a: int,
    b: int,
    c: int,
    d: int,
)
    ensures
        ({
            let line = text::spaced(text::words(s));
            &&& line.len() < 8 ==> !says_enough(s)
            &&& letters_and_digits(line) < 4 ==> !says_enough(s)
            &&& (forall|i: int|
                0 <= i < line.len() ==> #[trigger] line[i] == x || line[i] == y || line[i] == z)
                ==> !says_enough(s)
            &&& line.len() >= 8 && letters_and_digits(line) >= 4 && 0 <= a < line.len() && 0 <= b
                < line.len() && 0 <= c < line.len() && 0 <= d < line.len() && line[a] != line[b]
                && line[a] != line[c] && line[a] != line[d] && line[b] != line[c] && line[b]
                != line[d] && line[c] != line[d] ==> says_enough(s)
        }),
{
    let line = text::spaced(text::words(s));
    vstd::seq_lib::seq_to_set_is_finite(line);
    if forall|i: int|
        0 <= i < line.len() ==> #[trigger] line[i] == x || line[i] == y || line[i] == z {
        let few = set![x, y, z];
        assert(line.to_set().subset_of(few)) by {
            assert forall|e: char| line.to_set().contains(e) implies few.contains(e) by {
                let i = choose|i: int| 0 <= i < line.len() && line[i] == e;
                assert(line[i] == e);
            }
        }
        vstd::set_lib::lemma_len_subset(line.to_set(), few);
        assert(few.len() <= 3);
    }
    if 0 <= a < line.len() && 0 <= b < line.len() && 0 <= c < line.len() && 0 <= d < line.len()
        && line[a] != line[b] && line[a] != line[c] && line[a] != line[d] && line[b] != line[c]
        && line[b] != line[d] && line[c] != line[d] {
        let four = set![line[a], line[b], line[c], line[d]];
        assert(four.subset_of(line.to_set())) by {
            assert(line.to_set().contains(line[a]) && line.to_set().contains(line[b])
                && line.to_set().contains(line[c]) && line.to_set().contains(line[d]));
        }
        vstd::set_lib::lemma_len_subset(four, line.to_set());
        assert(four.len() == 4);
    }
}

/// Vectors are sound only if there are as many as asked for, all of one width
/// that is not nought and that is the expected one, and all of finite numbers.
pub proof fn law_sound_vectors_are_alike(
    vectors: Seq<Vec<u32>>,
    count: nat,
    expected: Option<usize>,
    i: int,
    j: int,
    k: int,
)
    requires
        sound_vectors(vectors, count, expected),
        0 <= i < vectors.len(),
        0 <= j < vectors.len(),
        0 <= k < vectors[i]@.len(),
    ensures
        vectors.len() == count,
        vectors[i]@.len() == vectors[j]@.len(),
        vectors[i]@.len() > 0,
        expected matches Some(n) ==> vectors[i]@.len() == n,
        ieee::is_finite32(vectors[i]@[k]),
{
    assert(vectors[j]@.len() == width_of(vectors, expected));
    assert(ieee::is_finite32(vectors[i]@[k]));
}

/// The more programs speak for a category, the more it gains, up to one half;
/// without any it gains nothing.
pub proof fn law_more_programs_gain_more(a: nat, b: nat)
    requires
        a <= b,
    ensures
        boost_of(a) <= boost_of(b) <= 0x3FE0_0000_0000_0000,
        boost_of(0) == 0,
        a > 0 ==> boost_of(a) >= 0x3FC3_3333_3333_3333,
        1 < a ==> boost_of(1) < boost_of(a),
        3 < b ==> boost_of(3) < boost_of(b) && boost_of(b) == 0x3FE0_0000_0000_0000,
{
}

/// Ranking changes the order only: each category comes as often as before, with
/// its score.
pub proof fn law_ranking_keeps_every_score(list: Seq<(Seq<char>, u64)>)
    ensures
        best_first(list).to_multiset() == list.to_multiset(),
    decreases list.len(),
{
    broadcast use vstd::seq_lib::group_to_multiset_ensures;

    if list.len() == 0 {
        assert(best_first(list) =~= list);
    } else {
        law_ranking_keeps_every_score(list.drop_last());
        lemma_with_entry_counts(best_first(list.drop_last()), list.last());
        assert(list =~= list.drop_last().push(list.last()));
    }
}

proof fn lemma_with_entry_counts(list: Seq<(Seq<char>, u64)>, entry: (Seq<char>, u64))
    ensures
        with_entry(list, entry).to_multiset() == list.to_multiset().insert(entry),
    decreases list.len(),
{
    broadcast use vstd::seq_lib::group_to_multiset_ensures;

    if list.len() == 0 || ieee::total_position(list.last().1) >= ieee::total_position(entry.1) {
    } else {
        lemma_with_entry_counts(list.drop_last(), entry);
        assert(list =~= list.drop_last().push(list.last()));
        assert(list.to_multiset().insert(entry) =~= list.drop_last().to_multiset().insert(
            entry,
        ).insert(list.last()));
    }
}

/// A screenshot with a title is asked about by its title, one without by how its
/// text begins.
pub proof fn law_titles_are_asked_about(title: Seq<char>, ocr: Seq<char>)
    ensures
        text::trimmed(title).len() > 0 ==> query_title(title, ocr) == title,
        text::trimmed(title).len() == 0 ==> query_title(title, ocr).len() <= 200 && (ocr.len()
            <= 200 ==> query_title(title, ocr) == ocr),
        looked_at(title, false) == title,
        looked_at(title, true) == text::trimmed(title),
{
}

/// A program's own anchors settle a title only if they are sure, and only of the
/// category that all anchors together name.
pub proof fn law_own_anchors_settle_what_all_name(
    scores: Seq<(Seq<char>, u64)>,
    local: Seq<(Seq<char>, u64)>,
)
    ensures
        vetoes(scores, local) ==> best_of(local).0 == best_of(scores).0,
        best_of(local).1 < 0x3FE0_0000_0000_0000 ==> !vetoes(scores, local),
        best_of(local).1 < 0x7FF0_0000_0000_0000 && best_of(local).1 >= 0x3FE0_0000_0000_0000
            && best_of(local).0 == best_of(scores).0 ==> vetoes(scores, local),
{
}

/// What is told of a program is what its first entry says; a program without an
/// entry has none.
pub proof fn law_the_first_entry_speaks(priors: Seq<(String, String)>, process: Seq<char>, i: int)
    requires
        0 <= i <= priors.len(),
        forall|j: int| 0 <= j < i ==> (#[trigger] priors[j]).0@ != process,
    ensures
        i == priors.len() ==> prior_of(priors, process) is None,
        i < priors.len() && priors[i].0@ == process ==> prior_of(priors, process) == Some(
            priors[i].1@,
        ),
    decreases i,
{
    if i > 0 {
        let rest = priors.drop_first();
        assert(priors[0].0@ != process);
        assert forall|j: int| 0 <= j < i - 1 implies (#[trigger] rest[j]).0@ != process by {
            assert(rest[j] == priors[j + 1]);
        }
        if i < priors.len() {
            assert(rest[i - 1] == priors[i]);
        }
        law_the_first_entry_speaks(rest, process, i - 1);
    }
}

/// The text of a screenshot is compared besides its title exactly if the title
/// alone says too little, there is a text, and the program's own anchors have
/// not settled it.
pub proof fn law_texts_help_unsure_titles(
    scores: &Scores,
    local: &Scores,
    input: &Input,
    debug: bool,
    result: TitleVerdict,
)
    requires
        title_judged(scores, local, input, debug, result),
        best_of(scored(*scores)).1 < 0x7FF0_0000_0000_0000,
        !debug,
    ensures
        result.snippet is Some <==> best_of(scored(*scores)).1 < 0x3FE1_9999_9999_999A
            && text::trimmed(input.ocr_text@).len() > 0 && !vetoes(
            scored(*scores),
            scored(*local),
        ),
        result.snippet matches Some(s) ==> 0 < s@.len() <= 200,
        result.veto == vetoes(scored(*scores), scored(*local)),
{
    text::law_trimming_cuts_white_space_only(input.ocr_text@);
    law_snippets_are_short(input.ocr_text@, input.ocr_text@);
}

/// A query compares nothing only where there is nothing to compare with, or
/// neither a title nor a text.
pub proof fn law_queries_compare_what_there_is(
    input: &Input,
    indexed: usize,
    debug: bool,
    result: QueryStart,
)
    requires
        query_begun(input, indexed, debug, result),
        !debug,
    ensures
        result is Texts <==> indexed > 0 && (text::trimmed(input.title@).len() > 0 || text::trimmed(
            input.ocr_text@,
        ).len() > 0),
        result matches QueryStart::Texts { texts } ==> (text::trimmed(input.title@).len() > 0
            ==> texts.title@ == input.title@),
{
}

} // verus!
