//! Text helpers with exact contracts over `Seq<char>`.
use vstd::prelude::*;
use vstd::string::*;
use vstd::utf8::*;

verus! {

/// `String::push` appends one character at the end of the string.
pub assume_specification[ String::push ](s: &mut String, c: char)
    ensures
        final(s)@ == old(s)@.push(c),
;

/// `std::str::from_utf8` accepts exactly the valid UTF-8 byte sequences, and
/// the string that it gives for one has those bytes.
#[verifier::external_body]
pub(crate) fn utf8_str(bytes: &[u8]) -> (result: Option<&str>)
    ensures
        match result {
            Some(s) => valid_utf8(bytes@) && s@ == decode_utf8(bytes@),
            None => !valid_utf8(bytes@),
        },
{
    std::str::from_utf8(bytes).ok()
}

/// The characters of a string, in order.
pub fn chars_of(s: &str) -> (result: Vec<char>)
    ensures
        result@ == s@,
{
    let mut result: Vec<char> = Vec::new();
    for c in it: s.chars()
        invariant
            result@ =~= it.seq().take(it.index()),
            it.seq() == s@,
    {
        result.push(c);
    }
    result
}

/// The string made of the given characters, in order.
pub fn string_of(chars: &[char]) -> (result: String)
    ensures
        result@ == chars@,
{
    let mut result = String::new();
    let mut i: usize = 0;
    while i < chars.len()
        invariant
            i <= chars@.len(),
            result@ =~= chars@.take(i as int),
        decreases chars@.len() - i,
    {
        result.push(chars[i]);
        i = i + 1;
    }
    result
}

/// Whether two strings hold the same characters.
pub fn same(a: &str, b: &str) -> (result: bool)
    ensures
        result == (a@ == b@),
{
    let x = a.as_bytes();
    let y = b.as_bytes();
    proof {
        encode_utf8_decode_utf8(a@);
        encode_utf8_decode_utf8(b@);
    }
    if x.len() != y.len() {
        return false;
    }
    let mut i: usize = 0;
    while i < x.len()
        invariant
            i <= x@.len(),
            x@.len() == y@.len(),
            x@ == encode_utf8(a@),
            y@ == encode_utf8(b@),
            forall|j: int| 0 <= j < i ==> x@[j] == y@[j],
        decreases x@.len() - i,
    {
        if x[i] != y[i] {
            return false;
        }
        i = i + 1;
    }
    assert(x@ =~= y@);
    true
}

/// Whether `needle` occurs in `hay` at character position `at`.
pub open spec fn occurs_at(hay: Seq<char>, needle: Seq<char>, at: int) -> bool {
    &&& 0 <= at
    &&& at + needle.len() <= hay.len()
    &&& hay.subrange(at, at + needle.len()) == needle
}

/// Whether `needle` occurs anywhere in `hay`.
pub open spec fn holds_text(hay: Seq<char>, needle: Seq<char>) -> bool {
    exists|at: int| occurs_at(hay, needle, at)
}

fn matches_at(hay: &[char], needle: &[char], at: usize) -> (result: bool)
    ensures
        result == occurs_at(hay@, needle@, at as int),
{
    if needle.len() > hay.len() || at > hay.len() - needle.len() {
        return false;
    }
    let mut i: usize = 0;
    while i < needle.len()
        invariant
            i <= needle@.len(),
            at + needle@.len() <= hay@.len() <= usize::MAX,
            forall|j: int| 0 <= j < i ==> hay@[at + j] == needle@[j],
        decreases needle@.len() - i,
    {
        if hay[at + i] != needle[i] {
            proof {
                let part = hay@.subrange(at as int, at + needle@.len());
                assert(part[i as int] != needle@[i as int]);
            }
            return false;
        }
        i = i + 1;
    }
    assert(hay@.subrange(at as int, at + needle@.len()) =~= needle@);
    true
}

/// Whether `needle` occurs in the given characters.
pub fn chars_hold(hay: &[char], needle: &str) -> (result: bool)
    ensures
        result == holds_text(hay@, needle@),
{
    let needle_chars = chars_of(needle);
    let mut at: usize = 0;
    while at < hay.len()
        invariant
            at <= hay@.len(),
            needle_chars@ == needle@,
            forall|j: int| 0 <= j < at ==> !occurs_at(hay@, needle@, j),
        decreases hay@.len() - at,
    {
        if matches_at(hay, &needle_chars, at) {
            return true;
        }
        at = at + 1;
    }
    matches_at(hay, &needle_chars, at)
}

/// Whether `needle` occurs in `hay`.
pub fn contains(hay: &str, needle: &str) -> (result: bool)
    ensures
        result == holds_text(hay@, needle@),
{
    let hay_chars = chars_of(hay);
    chars_hold(&hay_chars, needle)
}

/// Whether `s` begins with `prefix`.
pub open spec fn begins(s: Seq<char>, prefix: Seq<char>) -> bool {
    occurs_at(s, prefix, 0)
}

/// Whether `s` begins with `prefix`.
pub fn starts_with(s: &str, prefix: &str) -> (result: bool)
    ensures
        result == begins(s@, prefix@),
{
    let s_chars = chars_of(s);
    let prefix_chars = chars_of(prefix);
    matches_at(&s_chars, &prefix_chars, 0)
}

/// The lower-case form of an ASCII letter; any other character is kept.
pub open spec fn lower_char(c: char) -> char {
    if 'A' <= c <= 'Z' {
        ((c as u8) + 32) as char
    } else {
        c
    }
}

/// A text with its ASCII letters in lower case.
pub open spec fn lower_ascii(s: Seq<char>) -> Seq<char> {
    s.map_values(|c: char| lower_char(c))
}

fn lower_one(c: char) -> (result: char)
    ensures
        result == lower_char(c),
{
    if 'A' <= c && c <= 'Z' {
        let code: u8 = c as u8;
        (code + 32) as char
    } else {
        c
    }
}

/// The characters of `s` with its ASCII letters in lower case.
pub fn lower_ascii_chars(s: &str) -> (result: Vec<char>)
    ensures
        result@ == lower_ascii(s@),
{
    let chars = chars_of(s);
    let mut result: Vec<char> = Vec::new();
    let mut i: usize = 0;
    while i < chars.len()
        invariant
            i <= chars@.len(),
            chars@ == s@,
            result@ =~= lower_ascii(s@).take(i as int),
        decreases chars@.len() - i,
    {
        result.push(lower_one(chars[i]));
        i = i + 1;
    }
    assert(result@ =~= lower_ascii(s@));
    result
}

/// The string `s` with its ASCII letters in lower case.
pub fn to_lower_ascii(s: &str) -> (result: String)
    ensures
        result@ == lower_ascii(s@),
{
    let chars = lower_ascii_chars(s);
    string_of(&chars)
}

/// The decimal digits of a number, most significant first.
pub open spec fn decimal(n: nat) -> Seq<char>
    decreases n,
{
    if n < 10 {
        seq![(n + '0' as nat) as char]
    } else {
        decimal(n / 10).push((n % 10 + '0' as nat) as char)
    }
}

fn digit(n: u64) -> (result: char)
    requires
        n < 10,
    ensures
        result == (n as nat + '0' as nat) as char,
{
    let code: u8 = n as u8;
    (code + 48) as char
}

fn push_decimal(out: &mut String, n: u64)
    ensures
        final(out)@ == old(out)@ + decimal(n as nat),
    decreases n,
{
    if n < 10 {
        out.push(digit(n));
        assert(out@ =~= old(out)@ + decimal(n as nat));
    } else {
        push_decimal(out, n / 10);
        out.push(digit(n % 10));
        assert(out@ =~= old(out)@ + decimal(n as nat));
    }
}

/// The decimal form of a number.
pub fn decimal_string(n: u64) -> (result: String)
    ensures
        result@ == decimal(n as nat),
{
    let mut result = String::new();
    push_decimal(&mut result, n);
    assert(result@ =~= decimal(n as nat));
    result
}

/// The first `n` characters of a text, or all of it where it is shorter.
pub open spec fn take_chars(s: Seq<char>, n: nat) -> Seq<char> {
    if s.len() <= n {
        s
    } else {
        s.take(n as int)
    }
}

/// The first `n` characters of `s`.
pub fn prefix(s: &str, n: usize) -> (result: String)
    ensures
        result@ == take_chars(s@, n as nat),
{
    let chars = chars_of(s);
    let mut result = String::new();
    let mut i: usize = 0;
    while i < n && i < chars.len()
        invariant
            i <= n,
            i <= chars@.len(),
            result@ =~= chars@.take(i as int),
        decreases chars@.len() - i,
    {
        result.push(chars[i]);
        i = i + 1;
    }
    result
}

/// The two texts one after the other.
pub fn join2(a: &str, b: &str) -> (result: String)
    ensures
        result@ == a@ + b@,
{
    let mut result = String::new();
    result.append(a);
    result.append(b);
    assert(result@ =~= a@ + b@);
    result
}

/// The three texts one after the other.
pub fn join3(a: &str, b: &str, c: &str) -> (result: String)
    ensures
        result@ == a@ + b@ + c@,
{
    let mut result = join2(a, b);
    result.append(c);
    result
}

/// The character counts as white space.
pub open spec fn is_white(c: char) -> bool {
    let n = c as int;
    ||| 9 <= n <= 13
    ||| n == 32
    ||| n == 0x85
    ||| n == 0xA0
    ||| n == 0x1680
    ||| 0x2000 <= n <= 0x200A
    ||| n == 0x2028
    ||| n == 0x2029
    ||| n == 0x202F
    ||| n == 0x205F
    ||| n == 0x3000
}

/// The character counts as white space.
pub fn white(c: char) -> (result: bool)
    ensures
        result == is_white(c),
{
    ('\u{9}' <= c && c <= '\u{D}') || c == ' ' || c == '\u{85}' || c == '\u{A0}' || c
        == '\u{1680}' || ('\u{2000}' <= c && c <= '\u{200A}') || c == '\u{2028}' || c
        == '\u{2029}' || c == '\u{202F}' || c == '\u{205F}' || c == '\u{3000}'
}

/// A text without the white space at its head.
pub open spec fn trimmed_start(s: Seq<char>) -> Seq<char>
    decreases s.len(),
{
    if s.len() > 0 && is_white(s[0]) {
        trimmed_start(s.drop_first())
    } else {
        s
    }
}

/// A text without the white space at its tail.
pub open spec fn trimmed_end(s: Seq<char>) -> Seq<char>
    decreases s.len(),
{
    if s.len() > 0 && is_white(s.last()) {
        trimmed_end(s.drop_last())
    } else {
        s
    }
}

/// A text without the white space at either end.
pub open spec fn trimmed(s: Seq<char>) -> Seq<char> {
    trimmed_end(trimmed_start(s))
}

/// The text without the white space at either end.
pub fn trim(s: &str) -> (result: String)
    ensures
        result@ == trimmed(s@),
{
    let chars = chars_of(s);
    let mut start: usize = 0;
    assert(chars@.skip(0) =~= chars@);
    while start < chars.len() && white(chars[start])
        invariant
            start <= chars@.len(),
            trimmed_start(chars@) == trimmed_start(chars@.skip(start as int)),
        decreases chars@.len() - start,
    {
        assert(chars@.skip(start as int).drop_first() =~= chars@.skip(start + 1));
        start = start + 1;
    }
    assert(trimmed_start(chars@) == chars@.skip(start as int));
    let mut end: usize = chars.len();
    assert(chars@.subrange(start as int, end as int) =~= chars@.skip(start as int));
    while start < end && white(chars[end - 1])
        invariant
            start <= end <= chars@.len(),
            trimmed_end(chars@.skip(start as int)) == trimmed_end(
                chars@.subrange(start as int, end as int),
            ),
        decreases end - start,
    {
        assert(chars@.subrange(start as int, end as int).drop_last() =~= chars@.subrange(
            start as int,
            end - 1,
        ));
        end = end - 1;
    }
    string_of(vstd::slice::slice_subrange(chars.as_slice(), start, end))
}

/// The text in bytes, with a replacement for what is no text.
pub uninterp spec fn lossy_of(bytes: Seq<u8>) -> Seq<char>;

/// `String::from_utf8_lossy`: the text in the bytes. Bytes that are valid UTF-8
/// are taken as they are; what is put in for others is left to the name.
#[verifier::external_body]
pub(crate) fn lossy_text(bytes: &[u8]) -> (result: String)
    ensures
        result@ == lossy_of(bytes@),
        valid_utf8(bytes@) ==> result@ == decode_utf8(bytes@),
{
    String::from_utf8_lossy(bytes).into_owned()
}

/// A text in lower case, by the rules of Unicode.
pub uninterp spec fn lowercase_of(s: Seq<char>) -> Seq<char>;

/// The text has no characters beyond ASCII.
pub open spec fn plain(s: Seq<char>) -> bool {
    forall|i: int| 0 <= i < s.len() ==> (#[trigger] s[i] as int) < 128
}

/// `str::to_lowercase`: the text in lower case by the rules of Unicode, which
/// are left to the name. Of a text without characters beyond ASCII only the
/// letters A to Z change.
#[verifier::external_body]
pub(crate) fn to_lowercase(s: &str) -> (result: String)
    ensures
        result@ == lowercase_of(s@),
        plain(s@) ==> result@ == lower_ascii(s@),
{
    s.to_lowercase()
}

/// The texts that these names stand for.
pub open spec fn views(names: Seq<&'static str>) -> Seq<Seq<char>> {
    names.map_values(|name: &'static str| name@)
}

/// The texts in a list.
pub open spec fn texts(list: Seq<String>) -> Seq<Seq<char>> {
    list.map_values(|s: String| s@)
}

/// The names as texts of their own.
pub fn owned(names: &Vec<&'static str>) -> (result: Vec<String>)
    ensures
        texts(result@) == views(names@),
{
    let mut list: Vec<String> = Vec::new();
    let mut i: usize = 0;
    while i < names.len()
        invariant
            i == list@.len(),
            i <= names@.len(),
            forall|j: int| 0 <= j < i ==> (#[trigger] list@[j])@ == names@[j]@,
        decreases names@.len() - i,
    {
        list.push(names[i].to_owned());
        i = i + 1;
    }
    assert(texts(list@) =~= views(names@));
    list
}

/// The text is one of these.
pub fn is_one_of(s: &str, names: &Vec<&'static str>) -> (result: bool)
    ensures
        result == views(names@).contains(s@),
{
    let mut i: usize = 0;
    while i < names.len()
        invariant
            i <= names@.len(),
            forall|j: int| 0 <= j < i ==> (#[trigger] names@[j])@ != s@,
        decreases names@.len() - i,
    {
        if same(names[i], s) {
            assert(views(names@)[i as int] == s@);
            return true;
        }
        i = i + 1;
    }
    assert forall|j: int| 0 <= j < views(names@).len() implies views(names@)[j] != s@ by {
        assert(names@[j]@ != s@);
    }
    false
}

/// Some of these occurs in the text.
pub open spec fn holds_some(s: Seq<char>, names: Seq<Seq<char>>) -> bool {
    exists|i: int| 0 <= i < names.len() && holds_text(s, #[trigger] names[i])
}

/// Some of these occurs in the text.
pub fn holds_one_of(s: &str, names: &Vec<&'static str>) -> (result: bool)
    ensures
        result == holds_some(s@, views(names@)),
{
    let mut i: usize = 0;
    while i < names.len()
        invariant
            i <= names@.len(),
            forall|j: int| 0 <= j < i ==> !holds_text(s@, (#[trigger] names@[j])@),
        decreases names@.len() - i,
    {
        if contains(s, names[i]) {
            assert(holds_text(s@, views(names@)[i as int]));
            return true;
        }
        i = i + 1;
    }
    assert forall|j: int| 0 <= j < views(names@).len() implies !holds_text(
        s@,
        #[trigger] views(names@)[j],
    ) by {
        assert(!holds_text(s@, names@[j]@));
    }
    false
}

/// The texts one after the other, with a space between any two.
pub open spec fn spaced(words: Seq<Seq<char>>) -> Seq<char>
    decreases words.len(),
{
    if words.len() == 0 {
        Seq::empty()
    } else if words.len() == 1 {
        words[0]
    } else {
        spaced(words.drop_last()) + " "@ + words.last()
    }
}

/// The texts one after the other, with a space between any two.
pub fn join_spaced(words: &[String]) -> (result: String)
    ensures
        result@ == spaced(texts(words@)),
{
    if words.len() == 0 {
        let nothing: Vec<char> = Vec::new();
        return string_of(nothing.as_slice());
    }
    let ghost all = texts(words@);
    let mut line: String = words[0].clone();
    let mut i: usize = 1;
    assert(all.take(1) =~= seq![all[0]]);
    while i < words.len()
        invariant
            1 <= i <= words@.len(),
            all == texts(words@),
            line@ == spaced(all.take(i as int)),
        decreases words@.len() - i,
    {
        assert(all.take(i + 1).drop_last() =~= all.take(i as int));
        assert(all.take(i + 1).last() == words@[i as int]@);
        line = join3(&line, " ", &words[i]);
        i = i + 1;
    }
    assert(all.take(all.len() as int) =~= all);
    line
}

/// How long the word is with which a text begins.
pub open spec fn word_len(s: Seq<char>) -> nat
    decreases s.len(),
{
    if s.len() == 0 || is_white(s[0]) {
        0
    } else {
        1 + word_len(s.drop_first())
    }
}

/// The words of a text: what white space separates.
pub open spec fn words(s: Seq<char>) -> Seq<Seq<char>>
    decreases s.len(),
{
    if s.len() == 0 {
        Seq::empty()
    } else if is_white(s[0]) {
        words(s.drop_first())
    } else {
        let n = word_len(s) as int;
        if 0 < n <= s.len() {
            seq![s.take(n)] + words(s.skip(n))
        } else {
            Seq::empty()
        }
    }
}

proof fn lemma_word_len(s: Seq<char>, n: int)
    requires
        0 <= n <= s.len(),
        forall|i: int| 0 <= i < n ==> !is_white(#[trigger] s[i]),
        n < s.len() ==> is_white(s[n]),
    ensures
        word_len(s) == n,
    decreases n,
{
    if n > 0 {
        let rest = s.drop_first();
        assert(!is_white(s[0]));
        assert forall|i: int| 0 <= i < n - 1 implies !is_white(#[trigger] rest[i]) by {
            assert(rest[i] == s[i + 1]);
        }
        if n < s.len() {
            assert(rest[n - 1] == s[n]);
        }
        lemma_word_len(rest, n - 1);
    }
}

/// The words of a text.
pub fn split_words(s: &str) -> (result: Vec<String>)
    ensures
        texts(result@) == words(s@),
{
    let chars = chars_of(s);
    let mut found: Vec<String> = Vec::new();
    let mut at: usize = 0;
    assert(chars@.skip(0) =~= chars@);
    assert(texts(found@) + words(chars@) =~= words(chars@));
    while at < chars.len()
        invariant
            at <= chars@.len(),
            texts(found@) + words(chars@.skip(at as int)) == words(chars@),
        decreases chars@.len() - at,
    {
        let ghost rest = chars@.skip(at as int);
        if white(chars[at]) {
            assert(rest.drop_first() =~= chars@.skip(at + 1));
            at = at + 1;
        } else {
            let mut end: usize = at + 1;
            while end < chars.len() && !white(chars[end])
                invariant
                    at < end <= chars@.len(),
                    forall|i: int| at <= i < end ==> !is_white(#[trigger] chars@[i]),
                decreases chars@.len() - end,
            {
                end = end + 1;
            }
            let ghost before = texts(found@);
            let word = string_of(vstd::slice::slice_subrange(chars.as_slice(), at, end));
            found.push(word);
            proof {
                let n = end - at;
                assert forall|i: int| 0 <= i < n implies !is_white(#[trigger] rest[i]) by {
                    assert(rest[i] == chars@[at + i]);
                }
                if n < rest.len() {
                    assert(rest[n] == chars@[end as int]);
                }
                lemma_word_len(rest, n as int);
                assert(word@ =~= rest.take(n as int));
                assert(rest.skip(n as int) =~= chars@.skip(end as int));
                assert(texts(found@) =~= before.push(word@));
                assert(before.push(word@) + words(rest.skip(n as int)) =~= before + (seq![word@]
                    + words(rest.skip(n as int))));
            }
            at = end;
        }
    }
    assert(chars@.skip(at as int) =~= Seq::<char>::empty());
    assert(texts(found@) + words(chars@.skip(at as int)) =~= texts(found@));
    found
}

/// A text is held wherever it stands, and a text begins with what it begins
/// with.
pub proof fn law_texts_hold_what_stands_in_them(
    before: Seq<char>,
    needle: Seq<char>,
    after: Seq<char>,
)
    ensures
        holds_text(before + needle + after, needle),
        begins(needle + after, needle),
{
    let hay = before + needle + after;
    assert(hay.subrange(before.len() as int, (before.len() + needle.len()) as int) =~= needle);
    assert(occurs_at(hay, needle, before.len() as int));
    assert((needle + after).subrange(0, needle.len() as int) =~= needle);
}

/// What a text holds stands somewhere in it, character by character.
pub proof fn law_held_texts_stand_somewhere(hay: Seq<char>, needle: Seq<char>) -> (at: int)
    requires
        holds_text(hay, needle),
    ensures
        0 <= at <= at + needle.len() <= hay.len(),
        forall|i: int| 0 <= i < needle.len() ==> #[trigger] needle[i] == hay[at + i],
{
    let at = choose|at: int| occurs_at(hay, needle, at);
    assert forall|i: int| 0 <= i < needle.len() implies #[trigger] needle[i] == hay[at + i] by {
        assert(hay.subrange(at, at + needle.len())[i] == hay[at + i]);
    }
    at
}

/// Only the letters from A to Z change in lower case, each into the letter that
/// is 32 further.
pub proof fn law_lower_case_is_of_letters(s: Seq<char>, i: int)
    requires
        0 <= i < s.len(),
    ensures
        lower_ascii(s).len() == s.len(),
        65 <= s[i] as int <= 90 ==> lower_ascii(s)[i] as int == s[i] as int + 32,
        !(65 <= s[i] as int <= 90) ==> lower_ascii(s)[i] == s[i],
{
}

/// The number that a row of decimal digits stands for.
pub open spec fn decimal_value(s: Seq<char>) -> int
    decreases s.len(),
{
    if s.len() == 0 {
        0
    } else {
        10 * decimal_value(s.drop_last()) + (s.last() as int - 48)
    }
}

/// A number in decimal is a row of digits that stands for it, and does not begin
/// with a nought unless it is nought.
pub proof fn law_decimals_tell_the_number(n: nat)
    ensures
        decimal_value(decimal(n)) == n,
        decimal(n).len() > 0,
        forall|i: int| 0 <= i < decimal(n).len() ==> 48 <= #[trigger] decimal(n)[i] as int <= 57,
        n > 0 ==> decimal(n)[0] != '0',
    decreases n,
{
    let s = decimal(n);
    if n < 10 {
        assert(s.drop_last() =~= Seq::<char>::empty());
        assert(decimal_value(s.drop_last()) == 0);
    } else {
        law_decimals_tell_the_number(n / 10);
        assert(s.drop_last() =~= decimal(n / 10));
    }
}

/// The beginning of a text has so many characters, or all of them if there are
/// fewer, and they are those of the text.
pub proof fn law_beginnings_are_of_the_text(s: Seq<char>, n: nat, i: int)
    ensures
        s.len() <= n ==> take_chars(s, n) == s,
        s.len() > n ==> take_chars(s, n).len() == n,
        0 <= i < n && i < s.len() ==> take_chars(s, n)[i] == s[i],
{
}

/// What trimming cuts off is white space, at either end; what is left begins and
/// ends with something else.
pub proof fn law_trimming_cuts_white_space_only(s: Seq<char>) -> (cut: (Seq<char>, Seq<char>))
    ensures
        s == cut.0 + trimmed(s) + cut.1,
        forall|i: int| 0 <= i < cut.0.len() ==> is_white(#[trigger] cut.0[i]),
        forall|i: int| 0 <= i < cut.1.len() ==> is_white(#[trigger] cut.1[i]),
        trimmed(s).len() > 0 ==> !is_white(trimmed(s)[0]) && !is_white(trimmed(s).last()),
{
    let head = lemma_trimmed_start(s);
    let middle = trimmed_start(s);
    let tail = lemma_trimmed_end(middle);
    assert(s =~= head + trimmed(s) + tail);
    if trimmed(s).len() > 0 {
        assert(trimmed(s)[0] == middle[0]);
    }
    (head, tail)
}

proof fn lemma_trimmed_start(s: Seq<char>) -> (cut: Seq<char>)
    ensures
        s == cut + trimmed_start(s),
        forall|i: int| 0 <= i < cut.len() ==> is_white(#[trigger] cut[i]),
        trimmed_start(s).len() > 0 ==> !is_white(trimmed_start(s)[0]),
    decreases s.len(),
{
    if s.len() > 0 && is_white(s[0]) {
        let rest = lemma_trimmed_start(s.drop_first());
        let cut = seq![s[0]] + rest;
        assert(s =~= seq![s[0]] + s.drop_first());
        assert(trimmed_start(s) == trimmed_start(s.drop_first()));
        assert(s =~= cut + trimmed_start(s));
        cut
    } else {
        assert(s =~= Seq::empty() + trimmed_start(s));
        Seq::empty()
    }
}

proof fn lemma_trimmed_end(s: Seq<char>) -> (cut: Seq<char>)
    ensures
        s == trimmed_end(s) + cut,
        forall|i: int| 0 <= i < cut.len() ==> is_white(#[trigger] cut[i]),
        trimmed_end(s).len() > 0 ==> !is_white(trimmed_end(s).last()),
    decreases s.len(),
{
    if s.len() > 0 && is_white(s.last()) {
        let rest = lemma_trimmed_end(s.drop_last());
        let cut = rest.push(s.last());
        assert(s =~= s.drop_last().push(s.last()));
        assert(trimmed_end(s) == trimmed_end(s.drop_last()));
        assert(s =~= trimmed_end(s) + cut);
        cut
    } else {
        assert(s =~= trimmed_end(s) + Seq::empty());
        Seq::empty()
    }
}

proof fn lemma_words_go_on(head: Seq<char>, word: Seq<char>)
    requires
        word.len() > 0,
        forall|i: int| 0 <= i < word.len() ==> !is_white(#[trigger] word[i]),
    ensures
        words(head + " "@ + word) == words(head).push(word),
        words(word) == seq![word],
    decreases head.len(),
{
    reveal_strlit(" ");
    let s = head + " "@ + word;
    assert(words(word) == seq![word]) by {
        assert(!is_white(word[0]));
        lemma_word_len(word, word.len() as int);
        assert(word.take(word.len() as int) =~= word);
        assert(word.skip(word.len() as int) =~= Seq::empty());
        assert(words(word.skip(word.len() as int)) =~= Seq::empty());
        assert(words(word) =~= seq![word]);
    }
    if head.len() == 0 {
        assert(s[0] == ' ');
        assert(s.drop_first() =~= word);
        assert(words(head).push(word) =~= seq![word]);
    } else if is_white(head[0]) {
        assert(s[0] == head[0]);
        assert(s.drop_first() =~= head.drop_first() + " "@ + word);
        lemma_words_go_on(head.drop_first(), word);
    } else {
        assert(s[0] == head[0]);
        let n = lemma_word_end(head);
        lemma_word_len(head, n);
        assert forall|i: int| 0 <= i < n implies !is_white(#[trigger] s[i]) by {
            assert(s[i] == head[i]);
        }
        assert(is_white(s[n])) by {
            if n < head.len() {
                assert(s[n] == head[n]);
            } else {
                assert(s[n] == ' ');
            }
        }
        lemma_word_len(s, n);
        assert(s.take(n) =~= head.take(n));
        assert(s.skip(n) =~= head.skip(n) + " "@ + word);
        lemma_words_go_on(head.skip(n), word);
        assert(words(s) == seq![s.take(n)] + words(s.skip(n)));
        assert(words(s) =~= words(head).push(word));
    }
}

proof fn lemma_word_end(s: Seq<char>) -> (n: int)
    requires
        s.len() > 0,
        !is_white(s[0]),
    ensures
        0 < n <= s.len(),
        forall|i: int| 0 <= i < n ==> !is_white(#[trigger] s[i]),
        n < s.len() ==> is_white(s[n]),
    decreases s.len(),
{
    if s.len() == 1 || is_white(s[1]) {
        1
    } else {
        let rest = s.drop_first();
        assert(rest[0] == s[1]);
        let m = lemma_word_end(rest);
        assert forall|i: int| 0 <= i < m + 1 implies !is_white(#[trigger] s[i]) by {
            if i > 0 {
                assert(rest[i - 1] == s[i]);
            }
        }
        if m + 1 < s.len() {
            assert(rest[m] == s[m + 1]);
        }
        m + 1
    }
}

/// Words that are joined with spaces are found again, in their order.
pub proof fn law_joined_words_are_found_again(list: Seq<Seq<char>>)
    requires
        forall|i: int, k: int|
            0 <= i < list.len() && 0 <= k < list[i].len() ==> !is_white(#[trigger] list[i][k]),
        forall|i: int| 0 <= i < list.len() ==> (#[trigger] list[i]).len() > 0,
    ensures
        words(spaced(list)) == list,
    decreases list.len(),
{
    if list.len() == 0 {
        assert(words(spaced(list)) =~= list);
    } else {
        let last = list.last();
        assert(last == list[list.len() - 1]);
        lemma_words_go_on(spaced(list.drop_last()), last);
        if list.len() == 1 {
            assert(list =~= seq![last]);
        } else {
            let shorter = list.drop_last();
            assert forall|i: int, k: int|
                0 <= i < shorter.len() && 0 <= k < shorter[i].len() implies !is_white(
                #[trigger] shorter[i][k],
            ) by {
                assert(shorter[i] == list[i]);
                assert(!is_white(list[i][k]));
            }
            law_joined_words_are_found_again(shorter);
            assert(list =~= shorter.push(last));
        }
    }
}

} // verus!
