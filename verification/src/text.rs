//! Text: splitting, trimming, comparing, and numbers in decimal.

use vstd::prelude::*;
use vstd::utf8::{decode_utf8, valid_utf8};

verus! {

/// `String::push` appends the character to the end of the string.
pub assume_specification[ String::push ](text: &mut String, ch: char)
    ensures
        final(text)@ == old(text)@.push(ch),
;

/// What `str::to_lowercase` returns of a text that is not all ASCII: the text
/// under Unicode's lowercase mapping.
pub uninterp spec fn lowercase(text: Seq<char>) -> Seq<char>;

/// What the error of `str::from_utf8` says of these bytes.
pub uninterp spec fn utf8_complaint(bytes: Seq<u8>) -> Seq<char>;

/// What `String::from_utf8_lossy` reads from these bytes.
pub uninterp spec fn lossy_text(bytes: Seq<u8>) -> Seq<char>;

/// Calls `str::to_lowercase`, which maps the text to Unicode lowercase: of an
/// ASCII text it makes every capital letter small and changes nothing else.
#[verifier::external_body]
pub(crate) fn to_lowercase(text: &str) -> (lower: String)
    ensures
        lower@ == if all_ascii(text@) {
            ascii_lowered(text@)
        } else {
            lowercase(text@)
        },
{
    text.to_lowercase()
}

/// Calls `std::str::from_utf8`, which succeeds exactly on valid UTF-8 and then
/// gives the text those bytes encode; otherwise its error says why.
#[verifier::external_body]
pub(crate) fn read_utf8(bytes: &[u8]) -> (text: Result<String, String>)
    ensures
        match text {
            Ok(text) => valid_utf8(bytes@) && text@ == decode_utf8(bytes@),
            Err(why) => !valid_utf8(bytes@) && why@ == utf8_complaint(bytes@),
        },
{
    match std::str::from_utf8(bytes) {
        Ok(text) => Ok(text.to_owned()),
        Err(error) => Err(error.to_string()),
    }
}

/// Calls `String::from_utf8_lossy`, which reads valid UTF-8 as it is and puts
/// a replacement character in the place of what is not.
#[verifier::external_body]
pub(crate) fn read_lossy(bytes: &[u8]) -> (text: String)
    ensures
        text@ == lossy_text(bytes@),
        valid_utf8(bytes@) ==> text@ == decode_utf8(bytes@),
{
    String::from_utf8_lossy(bytes).into_owned()
}

// ---------------------------------------------------------------------------
// Characters
// ---------------------------------------------------------------------------
/// The characters with Unicode's `White_Space` property.
pub open spec fn is_space(c: char) -> bool {
    let u = c as u32;
    ||| 0x09 <= u <= 0x0d
    ||| u == 0x20
    ||| u == 0x85
    ||| u == 0xa0
    ||| u == 0x1680
    ||| 0x2000 <= u <= 0x200a
    ||| u == 0x2028
    ||| u == 0x2029
    ||| u == 0x202f
    ||| u == 0x205f
    ||| u == 0x3000
}

pub fn is_whitespace(c: char) -> (space: bool)
    ensures
        space == is_space(c),
{
    let u: u32 = c as u32;
    (0x09 <= u && u <= 0x0d) || u == 0x20 || u == 0x85 || u == 0xa0 || u == 0x1680 || (0x2000 <= u
        && u <= 0x200a) || u == 0x2028 || u == 0x2029 || u == 0x202f || u == 0x205f || u == 0x3000
}

/// The character with an ASCII capital made small.
pub open spec fn ascii_lower(c: char) -> char {
    if 'A' <= c <= 'Z' {
        (c as u32 + 32) as char
    } else {
        c
    }
}

/// The character with a small ASCII letter made a capital.
pub open spec fn ascii_upper(c: char) -> char {
    if 'a' <= c <= 'z' {
        (c as u32 - 32) as char
    } else {
        c
    }
}

/// There are ASCII characters only.
pub open spec fn all_ascii(text: Seq<char>) -> bool {
    forall|i: int| 0 <= i < text.len() ==> (#[trigger] text[i] as u32) < 128
}

/// There is white space only.
pub open spec fn all_space(text: Seq<char>) -> bool {
    forall|i: int| 0 <= i < text.len() ==> is_space(#[trigger] text[i])
}

/// The text with its ASCII capitals made small.
pub open spec fn ascii_lowered(text: Seq<char>) -> Seq<char> {
    Seq::new(text.len(), |i: int| ascii_lower(text[i]))
}

/// The text with its small ASCII letters made capitals.
pub open spec fn ascii_uppered(text: Seq<char>) -> Seq<char> {
    Seq::new(text.len(), |i: int| ascii_upper(text[i]))
}

/// The text in lowercase.
pub open spec fn lowered(text: Seq<char>) -> Seq<char> {
    if all_ascii(text) {
        ascii_lowered(text)
    } else {
        lowercase(text)
    }
}

/// The characters of a text.
pub fn chars_of(text: &str) -> (chars: Vec<char>)
    ensures
        chars@ == text@,
{
    let mut chars: Vec<char> = Vec::new();
    for c in it: text.chars()
        invariant
            it.seq() == text@,
            chars@ == text@.take(it.index() as int),
    {
        chars.push(c);
    }
    assert(text@.take(text@.len() as int) =~= text@);
    chars
}

/// The text from `from` up to `to`.
pub fn slice_text(chars: &Vec<char>, from: usize, to: usize) -> (text: String)
    requires
        from <= to <= chars@.len(),
    ensures
        text@ == chars@.subrange(from as int, to as int),
{
    let mut text = String::new();
    let mut i: usize = from;
    while i < to
        invariant
            from <= i <= to <= chars@.len(),
            text@ == chars@.subrange(from as int, i as int),
        decreases to - i,
    {
        text.push(chars[i]);
        assert(chars@.subrange(from as int, i + 1) =~= chars@.subrange(from as int, i as int).push(
            chars@[i as int],
        ));
        i = i + 1;
    }
    text
}

/// Whether two texts are the same.
pub fn same_text(a: &str, b: &str) -> (same: bool)
    ensures
        same == (a@ == b@),
{
    same_chars(&chars_of(a), &chars_of(b))
}

fn same_chars(a: &Vec<char>, b: &Vec<char>) -> (same: bool)
    ensures
        same == (a@ == b@),
{
    if a.len() != b.len() {
        return false;
    }
    let mut i: usize = 0;
    while i < a.len()
        invariant
            a@.len() == b@.len(),
            i <= a@.len(),
            forall|k: int| 0 <= k < i ==> a@[k] == b@[k],
        decreases a.len() - i,
    {
        if a[i] != b[i] {
            return false;
        }
        i = i + 1;
    }
    assert(a@ =~= b@);
    true
}

/// Two texts are the same but for the case of ASCII letters.
pub open spec fn same_ignoring_case(a: Seq<char>, b: Seq<char>) -> bool {
    &&& a.len() == b.len()
    &&& forall|i: int| 0 <= i < a.len() ==> ascii_lower(#[trigger] a[i]) == ascii_lower(b[i])
}

fn lower_code(c: char) -> (code: u32)
    ensures
        code == ascii_lower(c) as u32,
{
    let u: u32 = c as u32;
    if 0x41 <= u && u <= 0x5a {
        u + 32
    } else {
        u
    }
}

/// Whether two texts are the same but for the case of ASCII letters.
pub fn eq_ignore_ascii_case(a: &str, b: &str) -> (same: bool)
    ensures
        same == same_ignoring_case(a@, b@),
{
    let (left, right) = (chars_of(a), chars_of(b));
    if left.len() != right.len() {
        return false;
    }
    let mut i: usize = 0;
    while i < left.len()
        invariant
            left@ == a@,
            right@ == b@,
            a@.len() == b@.len(),
            i <= a@.len(),
            forall|k: int| 0 <= k < i ==> ascii_lower(#[trigger] a@[k]) == ascii_lower(b@[k]),
        decreases left.len() - i,
    {
        if lower_code(left[i]) != lower_code(right[i]) {
            assert(ascii_lower(a@[i as int]) != ascii_lower(b@[i as int]));
            return false;
        }
        i = i + 1;
    }
    true
}

/// `part` occurs in `text` at `at`.
pub open spec fn occurs_at(text: Seq<char>, part: Seq<char>, at: int) -> bool {
    0 <= at && at + part.len() <= text.len() && text.subrange(at, at + part.len()) == part
}

/// `part` occurs somewhere in `text`.
pub open spec fn has_part(text: Seq<char>, part: Seq<char>) -> bool {
    exists|at: int| occurs_at(text, part, at)
}

fn chars_occur_at(text: &Vec<char>, part: &Vec<char>, at: usize) -> (occurs: bool)
    requires
        at <= text@.len(),
    ensures
        occurs == occurs_at(text@, part@, at as int),
{
    let length: usize = text.len();
    if length - at < part.len() {
        return false;
    }
    let ghost here = text@.subrange(at as int, at + part@.len());
    let mut i: usize = 0;
    while i < part.len()
        invariant
            length == text@.len(),
            at + part@.len() <= text@.len(),
            here == text@.subrange(at as int, at + part@.len()),
            i <= part@.len(),
            forall|k: int| 0 <= k < i ==> here[k] == part@[k],
        decreases part.len() - i,
    {
        if text[at + i] != part[i] {
            assert(here[i as int] != part@[i as int]);
            return false;
        }
        i = i + 1;
    }
    assert(here =~= part@);
    true
}

/// Whether `part` occurs in `text`.
pub fn contains_text(text: &str, part: &str) -> (found: bool)
    ensures
        found == has_part(text@, part@),
{
    let (whole, piece) = (chars_of(text), chars_of(part));
    let mut at: usize = 0;
    loop
        invariant
            whole@ == text@,
            piece@ == part@,
            at <= whole@.len(),
            forall|k: int| 0 <= k < at ==> !#[trigger] occurs_at(text@, part@, k),
        decreases whole.len() - at,
    {
        if chars_occur_at(&whole, &piece, at) {
            return true;
        }
        if at == whole.len() {
            assert forall|k: int| !#[trigger] occurs_at(text@, part@, k) by {
                if 0 <= k < at {
                } else if k == at {
                }
            }
            return false;
        }
        at = at + 1;
    }
}

/// Whether `text` begins with `part`.
pub fn starts_with_text(text: &str, part: &str) -> (found: bool)
    ensures
        found == occurs_at(text@, part@, 0),
{
    chars_occur_at(&chars_of(text), &chars_of(part), 0)
}

// ---------------------------------------------------------------------------
// Trimming and splitting
// ---------------------------------------------------------------------------
/// The first position from `from` on that holds no white space, or the end.
pub open spec fn first_solid(text: Seq<char>, from: int) -> int
    decreases text.len() - from,
{
    if from < 0 || from >= text.len() || !is_space(text[from]) {
        from
    } else {
        first_solid(text, from + 1)
    }
}

/// The end of the text once trailing white space is cut, no further than
/// `from`.
pub open spec fn last_solid(text: Seq<char>, from: int, end: int) -> int
    decreases end - from,
{
    if end <= from || !is_space(text[end - 1]) {
        end
    } else {
        last_solid(text, from, end - 1)
    }
}

/// The text without leading and trailing white space.
pub open spec fn trimmed(text: Seq<char>) -> Seq<char> {
    let from = first_solid(text, 0);
    text.subrange(from, last_solid(text, from, text.len() as int))
}

/// The text without leading and trailing white space.
pub fn trim(text: &str) -> (core: String)
    ensures
        core@ == trimmed(text@),
{
    let chars = chars_of(text);
    let mut from: usize = 0;
    while from < chars.len() && is_whitespace(chars[from])
        invariant
            from <= chars@.len(),
            first_solid(chars@, 0) == first_solid(chars@, from as int),
        decreases chars.len() - from,
    {
        from = from + 1;
    }
    let mut end: usize = chars.len();
    while end > from && is_whitespace(chars[end - 1])
        invariant
            from <= end <= chars@.len(),
            last_solid(chars@, from as int, chars@.len() as int) == last_solid(
                chars@,
                from as int,
                end as int,
            ),
        decreases end - from,
    {
        end = end - 1;
    }
    slice_text(&chars, from, end)
}

/// White space around a text is trimmed away with the text's own.
pub proof fn lemma_trimmed_of_padded(before: Seq<char>, text: Seq<char>, after: Seq<char>)
    requires
        all_space(before),
        all_space(after),
    ensures
        trimmed(before + text + after) == trimmed(text),
{
    let all = before + text + after;
    let (b, n) = (before.len() as int, text.len() as int);
    assert forall|i: int| 0 <= i < b implies is_space(#[trigger] all[i]) by {
        assert(all[i] == before[i]);
    }
    assert forall|i: int| b + n <= i < all.len() implies is_space(#[trigger] all[i]) by {
        assert(all[i] == after[i - b - n]);
    }
    assert forall|i: int| 0 <= i < n implies all[b + i] == text[i] by {}
    lemma_first_solid_passes(all, 0, b);
    lemma_first_solid_moves(all, text, b, 0);
    let from = first_solid(text, 0);
    lemma_first_solid_bounds(text, 0);
    if from < n {
        lemma_last_solid_passes(all, b + from, b + n, all.len() as int);
        lemma_last_solid_moves(all, text, b, from, n);
        lemma_last_solid_bounds(text, from, n);
        assert(trimmed(all) =~= trimmed(text));
    } else {
        lemma_first_solid_passes(all, b + n, all.len() as int);
        assert(trimmed(all) =~= trimmed(text));
    }
}

proof fn lemma_first_solid_bounds(text: Seq<char>, from: int)
    requires
        0 <= from <= text.len(),
    ensures
        from <= first_solid(text, from) <= text.len(),
    decreases text.len() - from,
{
    if from < text.len() && is_space(text[from]) {
        lemma_first_solid_bounds(text, from + 1);
    }
}

proof fn lemma_last_solid_bounds(text: Seq<char>, from: int, end: int)
    requires
        0 <= from <= end <= text.len(),
    ensures
        from <= last_solid(text, from, end) <= end,
    decreases end - from,
{
    if end > from && is_space(text[end - 1]) {
        lemma_last_solid_bounds(text, from, end - 1);
    }
}

proof fn lemma_first_solid_passes(text: Seq<char>, from: int, to: int)
    requires
        0 <= from <= to <= text.len(),
        forall|i: int| from <= i < to ==> is_space(#[trigger] text[i]),
    ensures
        first_solid(text, from) == first_solid(text, to),
    decreases to - from,
{
    if from < to {
        lemma_first_solid_passes(text, from + 1, to);
    }
}

proof fn lemma_first_solid_moves(all: Seq<char>, text: Seq<char>, by: int, from: int)
    requires
        0 <= by,
        0 <= from <= text.len(),
        by + text.len() <= all.len(),
        forall|i: int| 0 <= i < text.len() ==> all[by + i] == #[trigger] text[i],
    ensures
        first_solid(text, from) < text.len() ==> first_solid(all, by + from) == by + first_solid(
            text,
            from,
        ),
        first_solid(text, from) >= text.len() ==> first_solid(all, by + from) == first_solid(
            all,
            by + text.len(),
        ),
    decreases text.len() - from,
{
    if from < text.len() {
        assert(all[by + from] == text[from]);
        if is_space(text[from]) {
            lemma_first_solid_moves(all, text, by, from + 1);
        }
    }
}

proof fn lemma_last_solid_passes(text: Seq<char>, from: int, to: int, end: int)
    requires
        0 <= from <= to <= end <= text.len(),
        forall|i: int| to <= i < end ==> is_space(#[trigger] text[i]),
    ensures
        last_solid(text, from, end) == last_solid(text, from, to),
    decreases end - to,
{
    if to < end {
        assert(is_space(text[end - 1]));
        lemma_last_solid_passes(text, from, to, end - 1);
    }
}

proof fn lemma_last_solid_moves(all: Seq<char>, text: Seq<char>, by: int, from: int, end: int)
    requires
        0 <= by,
        0 <= from <= end <= text.len(),
        by + text.len() <= all.len(),
        forall|i: int| 0 <= i < text.len() ==> all[by + i] == #[trigger] text[i],
    ensures
        last_solid(all, by + from, by + end) == by + last_solid(text, from, end),
    decreases end - from,
{
    if end > from {
        assert(all[by + (end - 1)] == text[end - 1]);
        if is_space(text[end - 1]) {
            lemma_last_solid_moves(all, text, by, from, end - 1);
        }
    }
}

/// Two ASCII texts that are the same but for their case are so when trimmed,
/// and they are the same in lowercase.
pub proof fn lemma_case_of_trimmed(a: Seq<char>, b: Seq<char>)
    requires
        all_ascii(a),
        same_ignoring_case(a, b),
    ensures
        same_ignoring_case(trimmed(a), trimmed(b)),
        lowered(trimmed(a)) == lowered(trimmed(b)),
{
    assert forall|i: int| 0 <= i < a.len() implies (#[trigger] b[i] as u32) < 128 && is_space(b[i])
        == is_space(a[i]) by {
        assert((a[i] as u32) < 128);
        assert(ascii_lower(a[i]) == ascii_lower(b[i]));
    }
    lemma_same_first_solid(a, b, 0);
    let from = first_solid(a, 0);
    lemma_first_solid_bounds(a, 0);
    lemma_same_last_solid(a, b, from, a.len() as int);
    lemma_last_solid_bounds(a, from, a.len() as int);
    let end = last_solid(a, from, a.len() as int);
    let (x, y) = (trimmed(a), trimmed(b));
    assert forall|i: int| 0 <= i < x.len() implies ascii_lower(#[trigger] x[i]) == ascii_lower(
        y[i],
    ) && (x[i] as u32) < 128 && (y[i] as u32) < 128 by {
        assert(x[i] == a[from + i] && y[i] == b[from + i]);
    }
    assert(all_ascii(x));
    assert forall|i: int| 0 <= i < y.len() implies (#[trigger] y[i] as u32) < 128 by {
        assert((x[i] as u32) < 128);
    }
    assert(ascii_lowered(x) =~= ascii_lowered(y));
}

proof fn lemma_same_first_solid(a: Seq<char>, b: Seq<char>, from: int)
    requires
        a.len() == b.len(),
        forall|i: int| 0 <= i < a.len() ==> is_space(#[trigger] b[i]) == is_space(a[i]),
        0 <= from <= a.len(),
    ensures
        first_solid(a, from) == first_solid(b, from),
    decreases a.len() - from,
{
    if from < a.len() {
        assert(is_space(b[from]) == is_space(a[from]));
        lemma_same_first_solid(a, b, from + 1);
    }
}

proof fn lemma_same_last_solid(a: Seq<char>, b: Seq<char>, from: int, end: int)
    requires
        a.len() == b.len(),
        forall|i: int| 0 <= i < a.len() ==> is_space(#[trigger] b[i]) == is_space(a[i]),
        0 <= from,
        end <= a.len(),
    ensures
        last_solid(a, from, end) == last_solid(b, from, end),
    decreases end - from,
{
    if from < end {
        assert(is_space(b[end - 1]) == is_space(a[end - 1]));
        lemma_same_last_solid(a, b, from, end - 1);
    }
}

/// The end of the word that goes on at `from`.
pub open spec fn word_end(text: Seq<char>, from: int) -> int
    decreases text.len() - from,
{
    if from < 0 || from >= text.len() || is_space(text[from]) {
        from
    } else {
        word_end(text, from + 1)
    }
}

pub proof fn lemma_word_end(text: Seq<char>, from: int)
    requires
        0 <= from <= text.len(),
    ensures
        from <= word_end(text, from) <= text.len(),
        from < text.len() && !is_space(text[from]) ==> from < word_end(text, from),
    decreases text.len() - from,
{
    if from < text.len() && !is_space(text[from]) {
        lemma_word_end(text, from + 1);
    }
}

/// The words, separated by white space, from `from` on.
pub open spec fn words_from(text: Seq<char>, from: int) -> Seq<Seq<char>>
    decreases text.len() - from,
{
    if from < 0 || from >= text.len() {
        Seq::empty()
    } else if is_space(text[from]) {
        words_from(text, from + 1)
    } else {
        proof {
            lemma_word_end(text, from);
        }
        seq![text.subrange(from, word_end(text, from))] + words_from(text, word_end(text, from))
    }
}

/// The words of a text.
pub open spec fn words(text: Seq<char>) -> Seq<Seq<char>> {
    words_from(text, 0)
}

/// The texts behind a list of strings.
pub open spec fn texts(list: Seq<String>) -> Seq<Seq<char>> {
    Seq::new(list.len(), |i: int| list[i]@)
}

/// The words of a text, separated by white space.
pub fn split_whitespace(text: &str) -> (list: Vec<String>)
    ensures
        texts(list@) == words(text@),
{
    let chars = chars_of(text);
    let mut list: Vec<String> = Vec::new();
    let mut at: usize = 0;
    assert(texts(list@) + words_from(chars@, 0) =~= words(text@));
    while at < chars.len()
        invariant
            chars@ == text@,
            at <= chars@.len(),
            texts(list@) + words_from(chars@, at as int) == words(text@),
        decreases chars.len() - at,
    {
        if is_whitespace(chars[at]) {
            at = at + 1;
        } else {
            let from: usize = at;
            while at < chars.len() && !is_whitespace(chars[at])
                invariant
                    from <= at <= chars@.len(),
                    word_end(chars@, from as int) == word_end(chars@, at as int),
                decreases chars.len() - at,
            {
                at = at + 1;
            }
            proof {
                lemma_word_end(chars@, from as int);
            }
            let ghost held = list@;
            let word = slice_text(&chars, from, at);
            list.push(word);
            proof {
                assert(texts(list@) =~= texts(held).push(word@));
                assert(texts(list@) + words_from(chars@, at as int) =~= texts(held) + (seq![word@]
                    + words_from(chars@, at as int)));
            }
        }
    }
    assert(texts(list@) + Seq::<Seq<char>>::empty() =~= texts(list@));
    list
}

/// Where the line that goes on at `from` ends.
pub open spec fn line_end(text: Seq<char>, from: int) -> int
    decreases text.len() - from,
{
    if from < 0 || from >= text.len() || text[from] == '\n' {
        from
    } else {
        line_end(text, from + 1)
    }
}

pub proof fn lemma_line_end(text: Seq<char>, from: int)
    requires
        0 <= from <= text.len(),
    ensures
        from <= line_end(text, from) <= text.len(),
    decreases text.len() - from,
{
    if from < text.len() && text[from] != '\n' {
        lemma_line_end(text, from + 1);
    }
}

/// A line without the carriage return that a line break may begin with.
pub open spec fn without_return(text: Seq<char>, from: int, end: int) -> Seq<char> {
    if end < text.len() && end > from && text[end - 1] == '\r' {
        text.subrange(from, end - 1)
    } else {
        text.subrange(from, end)
    }
}

/// The lines from `from` on, without their line breaks.  A line break at the
/// end of the text begins no line.
pub open spec fn lines_from(text: Seq<char>, from: int) -> Seq<Seq<char>>
    decreases text.len() - from,
{
    if from < 0 || from >= text.len() {
        Seq::empty()
    } else {
        proof {
            lemma_line_end(text, from);
        }
        let end = line_end(text, from);
        if end >= text.len() {
            seq![without_return(text, from, end)]
        } else {
            seq![without_return(text, from, end)] + lines_from(text, end + 1)
        }
    }
}

/// The lines of a text.
pub open spec fn lines(text: Seq<char>) -> Seq<Seq<char>> {
    lines_from(text, 0)
}

/// The lines of a text, without their line breaks.
pub fn split_lines(text: &str) -> (list: Vec<String>)
    ensures
        texts(list@) == lines(text@),
{
    let chars = chars_of(text);
    let mut list: Vec<String> = Vec::new();
    let mut at: usize = 0;
    assert(texts(list@) + lines_from(chars@, 0) =~= lines(text@));
    while at < chars.len()
        invariant
            chars@ == text@,
            at <= chars@.len(),
            texts(list@) + lines_from(chars@, at as int) == lines(text@),
        decreases chars.len() - at,
    {
        let from: usize = at;
        let mut end: usize = at;
        while end < chars.len() && chars[end] != '\n'
            invariant
                from <= end <= chars@.len(),
                line_end(chars@, from as int) == line_end(chars@, end as int),
            decreases chars.len() - end,
        {
            end = end + 1;
        }
        let ghost held = list@;
        let line = if end < chars.len() && end > from && chars[end - 1] == '\r' {
            slice_text(&chars, from, end - 1)
        } else {
            slice_text(&chars, from, end)
        };
        list.push(line);
        proof {
            assert(line@ == without_return(chars@, from as int, end as int));
            assert(texts(list@) =~= texts(held).push(line@));
            if end < chars@.len() {
                assert(texts(list@) + lines_from(chars@, end + 1) =~= texts(held) + (seq![line@]
                    + lines_from(chars@, end + 1)));
            } else {
                assert(texts(list@) + lines_from(chars@, end as int) =~= texts(held) + seq![line@]);
            }
        }
        if end < chars.len() {
            at = end + 1;
        } else {
            at = end;
        }
    }
    assert(texts(list@) + Seq::<Seq<char>>::empty() =~= texts(list@));
    list
}

/// The first position from `from` on that holds the character, or the end.
pub open spec fn find_char(text: Seq<char>, wanted: char, from: int) -> int
    decreases text.len() - from,
{
    if from < 0 || from >= text.len() || text[from] == wanted {
        from
    } else {
        find_char(text, wanted, from + 1)
    }
}

pub proof fn lemma_find_char(text: Seq<char>, wanted: char, from: int)
    requires
        0 <= from <= text.len(),
    ensures
        from <= find_char(text, wanted, from) <= text.len(),
        find_char(text, wanted, from) < text.len() ==> text[find_char(text, wanted, from)]
            == wanted,
    decreases text.len() - from,
{
    if from < text.len() && text[from] != wanted {
        lemma_find_char(text, wanted, from + 1);
    }
}

/// The first position from `from` on that holds the character, or the end.
pub fn position_of(chars: &Vec<char>, wanted: char, from: usize) -> (at: usize)
    requires
        from <= chars@.len(),
    ensures
        at == find_char(chars@, wanted, from as int),
        from <= at <= chars@.len(),
        at < chars@.len() ==> chars@[at as int] == wanted,
{
    let mut at: usize = from;
    while at < chars.len() && chars[at] != wanted
        invariant
            from <= at <= chars@.len(),
            find_char(chars@, wanted, from as int) == find_char(chars@, wanted, at as int),
        decreases chars.len() - at,
    {
        at = at + 1;
    }
    at
}

/// The two sides of the first separator.
pub open spec fn cut_once(text: Seq<char>, separator: char) -> Option<(Seq<char>, Seq<char>)> {
    let at = find_char(text, separator, 0);
    if at < text.len() {
        Some((text.subrange(0, at), text.subrange(at + 1, text.len() as int)))
    } else {
        None
    }
}

/// Cuts a text at the first separator.
pub fn split_once(text: &str, separator: char) -> (sides: Option<(String, String)>)
    ensures
        match sides {
            Some((before, after)) => cut_once(text@, separator) == Some((before@, after@)),
            None => cut_once(text@, separator) is None,
        },
{
    let chars = chars_of(text);
    let at: usize = position_of(&chars, separator, 0);
    if at < chars.len() {
        Some((slice_text(&chars, 0, at), slice_text(&chars, at + 1, chars.len())))
    } else {
        None
    }
}

/// The pieces between the separators, from `from` on.
pub open spec fn pieces_from(text: Seq<char>, separator: char, from: int) -> Seq<Seq<char>>
    decreases text.len() - from,
{
    let end = find_char(text, separator, from);
    if from < 0 || from > text.len() || end >= text.len() {
        seq![text.subrange(from, text.len() as int)]
    } else {
        proof {
            lemma_find_char(text, separator, from);
        }
        seq![text.subrange(from, end)] + pieces_from(text, separator, end + 1)
    }
}

/// The pieces of a text between the separators.
pub open spec fn pieces(text: Seq<char>, separator: char) -> Seq<Seq<char>> {
    pieces_from(text, separator, 0)
}

/// Cuts a text at every separator.
pub fn split_char(text: &str, separator: char) -> (list: Vec<String>)
    ensures
        texts(list@) == pieces(text@, separator),
{
    let chars = chars_of(text);
    let mut list: Vec<String> = Vec::new();
    let mut from: usize = 0;
    assert(texts(list@) + pieces_from(chars@, separator, 0) =~= pieces(text@, separator));
    loop
        invariant
            chars@ == text@,
            from <= chars@.len(),
            texts(list@) + pieces_from(chars@, separator, from as int) == pieces(text@, separator),
        decreases chars.len() - from,
    {
        let end: usize = position_of(&chars, separator, from);
        let piece = slice_text(&chars, from, end);
        let ghost held = list@;
        list.push(piece);
        assert(texts(list@) =~= texts(held).push(piece@));
        if end >= chars.len() {
            assert(texts(list@) =~= texts(held) + seq![piece@]);
            return list;
        }
        proof {
            assert(texts(list@) + pieces_from(chars@, separator, end + 1) =~= texts(held) + (
            seq![piece@] + pieces_from(chars@, separator, end + 1)));
        }
        from = end + 1;
    }
}

// ---------------------------------------------------------------------------
// Numbers
// ---------------------------------------------------------------------------
pub open spec fn is_digit(c: char) -> bool {
    0x30 <= c as u32 <= 0x39
}

pub open spec fn digit_value(c: char) -> int {
    c as u32 - 0x30
}

/// Every character from `from` on is a decimal digit, and there is one.
pub open spec fn all_digits(text: Seq<char>, from: int) -> bool {
    from < text.len() && forall|i: int| from <= i < text.len() ==> is_digit(#[trigger] text[i])
}

/// The number the digits in `from..end` write.
pub open spec fn digits_value(text: Seq<char>, from: int, end: int) -> int
    decreases end - from,
{
    if end <= from {
        0
    } else {
        10 * digits_value(text, from, end - 1) + digit_value(text[end - 1])
    }
}

/// The number a text writes in decimal: digits, behind at most one sign.  A
/// minus sign is for numbers that may be negative only.
pub open spec fn decimal_value(text: Seq<char>, signed: bool) -> Option<int> {
    if text.len() > 0 && text[0] == '-' {
        if signed && all_digits(text, 1) {
            Some(-digits_value(text, 1, text.len() as int))
        } else {
            None
        }
    } else if text.len() > 0 && text[0] == '+' {
        if all_digits(text, 1) {
            Some(digits_value(text, 1, text.len() as int))
        } else {
            None
        }
    } else if all_digits(text, 0) {
        Some(digits_value(text, 0, text.len() as int))
    } else {
        None
    }
}

/// The number, if it lies between the bounds.
pub open spec fn within_bounds(value: Option<int>, low: int, high: int) -> Option<int> {
    match value {
        Some(n) => if low <= n <= high {
            Some(n)
        } else {
            None
        },
        None => None,
    }
}

proof fn lemma_digits_nonnegative(text: Seq<char>, from: int, end: int)
    requires
        0 <= from,
        end <= text.len(),
        forall|i: int| from <= i < end ==> is_digit(#[trigger] text[i]),
    ensures
        digits_value(text, from, end) >= 0,
    decreases end - from,
{
    if end > from {
        lemma_digits_nonnegative(text, from, end - 1);
    }
}

/// Digits only make a number larger.
proof fn lemma_digits_grow(text: Seq<char>, from: int, middle: int, end: int)
    requires
        0 <= from <= middle <= end <= text.len(),
        forall|i: int| from <= i < end ==> is_digit(#[trigger] text[i]),
    ensures
        digits_value(text, from, end) >= digits_value(text, from, middle),
    decreases end - middle,
{
    if end > middle {
        lemma_digits_grow(text, from, middle, end - 1);
        lemma_digits_nonnegative(text, from, end - 1);
    }
}

/// The number the digits from `from` on write, capped: `None` for anything
/// else than digits, and the limit for what exceeds it.
fn read_digits(chars: &Vec<char>, from: usize, limit: u128) -> (value: Option<u128>)
    requires
        limit <= 0x1_0000_0000_0000_0000,
    ensures
        value is Some <==> all_digits(chars@, from as int),
        value matches Some(n) ==> n == if digits_value(
            chars@,
            from as int,
            chars@.len() as int,
        ) <= limit {
            digits_value(chars@, from as int, chars@.len() as int)
        } else {
            limit + 1
        },
{
    if from >= chars.len() {
        return None;
    }
    let mut value: u128 = 0;
    let mut i: usize = from;
    while i < chars.len()
        invariant
            limit <= 0x1_0000_0000_0000_0000,
            from <= i <= chars@.len(),
            forall|k: int| from <= k < i ==> is_digit(#[trigger] chars@[k]),
            value == if digits_value(chars@, from as int, i as int) <= limit {
                digits_value(chars@, from as int, i as int)
            } else {
                limit + 1
            },
        decreases chars.len() - i,
    {
        let u: u32 = chars[i] as u32;
        if u < 0x30 || u > 0x39 {
            assert(!is_digit(chars@[i as int]));
            return None;
        }
        proof {
            assert(is_digit(chars@[i as int]));
            lemma_digits_nonnegative(chars@, from as int, i as int);
        }
        let next: u128 = value * 10 + (u - 0x30) as u128;
        if next > limit {
            value = limit + 1;
        } else {
            value = next;
        }
        i = i + 1;
    }
    Some(value)
}

/// Reads a decimal integer between the bounds, as `str::parse` does for a
/// signed (or unsigned) integer type with this range.
fn parse_decimal(text: &str, signed: bool, low: i128, high: i128) -> (value: Option<i128>)
    requires
        -0x1_0000_0000_0000_0000 <= low <= 0,
        0 <= high <= 0x1_0000_0000_0000_0000,
        signed || low == 0,
    ensures
        match value {
            Some(n) => within_bounds(decimal_value(text@, signed), low as int, high as int)
                == Some(n as int),
            None => within_bounds(decimal_value(text@, signed), low as int, high as int) is None,
        },
{
    let chars = chars_of(text);
    if chars.len() > 0 && chars[0] == '-' {
        if !signed {
            return None;
        }
        return match read_digits(&chars, 1, 0x1_0000_0000_0000_0000) {
            Some(n) => if n as i128 <= -low {
                Some(-(n as i128))
            } else {
                None
            },
            None => None,
        };
    }
    let from: usize = if chars.len() > 0 && chars[0] == '+' {
        1
    } else {
        0
    };
    match read_digits(&chars, from, high as u128) {
        Some(n) => {
            proof {
                if all_digits(chars@, from as int) {
                    lemma_digits_nonnegative(chars@, from as int, chars@.len() as int);
                }
            }
            if n <= high as u128 {
                Some(n as i128)
            } else {
                None
            }
        },
        None => None,
    }
}

/// Reads an `i32` in decimal, as `str::parse` does.
pub fn parse_i32(text: &str) -> (value: Option<i32>)
    ensures
        match value {
            Some(n) => within_bounds(decimal_value(text@, true), i32::MIN as int, i32::MAX as int)
                == Some(n as int),
            None => within_bounds(decimal_value(text@, true), i32::MIN as int, i32::MAX as int)
                is None,
        },
{
    match parse_decimal(text, true, i32::MIN as i128, i32::MAX as i128) {
        Some(n) => Some(n as i32),
        None => None,
    }
}

/// Reads a `u32` in decimal, as `str::parse` does.
pub fn parse_u32(text: &str) -> (value: Option<u32>)
    ensures
        match value {
            Some(n) => within_bounds(decimal_value(text@, false), 0, u32::MAX as int) == Some(
                n as int,
            ),
            None => within_bounds(decimal_value(text@, false), 0, u32::MAX as int) is None,
        },
{
    match parse_decimal(text, false, 0, u32::MAX as i128) {
        Some(n) => Some(n as u32),
        None => None,
    }
}

/// Reads an `i64` in decimal, as `str::parse` does.
pub fn parse_i64(text: &str) -> (value: Option<i64>)
    ensures
        match value {
            Some(n) => within_bounds(decimal_value(text@, true), i64::MIN as int, i64::MAX as int)
                == Some(n as int),
            None => within_bounds(decimal_value(text@, true), i64::MIN as int, i64::MAX as int)
                is None,
        },
{
    match parse_decimal(text, true, i64::MIN as i128, i64::MAX as i128) {
        Some(n) => Some(n as i64),
        None => None,
    }
}

/// The decimal digits of a natural number.
pub open spec fn natural_text(n: nat) -> Seq<char>
    decreases n,
{
    let last = ('0' as int + n % 10) as char;
    if n < 10 {
        seq![last]
    } else {
        natural_text(n / 10).push(last)
    }
}

/// A number in decimal.
pub open spec fn decimal_text(n: int) -> Seq<char> {
    if n < 0 {
        seq!['-'] + natural_text((-n) as nat)
    } else {
        natural_text(n as nat)
    }
}

fn digit_char(d: u64) -> (c: char)
    requires
        d < 10,
    ensures
        c == ('0' as int + d) as char,
{
    (0x30u8 + d as u8) as char
}

/// A natural number in decimal.
pub fn format_u64(n: u64) -> (text: String)
    ensures
        text@ == decimal_text(n as int),
    decreases n,
{
    if n < 10 {
        let mut text = String::new();
        text.push(digit_char(n));
        assert(text@ =~= natural_text(n as nat));
        text
    } else {
        let mut text = format_u64(n / 10);
        text.push(digit_char(n % 10));
        text
    }
}

/// An integer in decimal.
pub fn format_i64(n: i64) -> (text: String)
    ensures
        text@ == decimal_text(n as int),
{
    if n >= 0 {
        format_u64(n as u64)
    } else {
        let mut text = String::new();
        text.push('-');
        let magnitude: u64 = if n == i64::MIN {
            0x8000_0000_0000_0000
        } else {
            (-n) as u64
        };
        let digits = format_u64(magnitude);
        text.append(digits.as_str());
        assert(text@ =~= decimal_text(n as int));
        text
    }
}

/// The hexadecimal digit of a value below sixteen.
pub open spec fn hex_digit(d: int) -> char {
    if d < 10 {
        ('0' as int + d) as char
    } else {
        ('a' as int + (d - 10)) as char
    }
}

/// A number in lower-case hexadecimal, with at least `width` digits.
pub open spec fn hex_text(n: nat, width: nat) -> Seq<char>
    decreases n, width,
{
    if n < 16 && width <= 1 {
        seq![hex_digit(n as int)]
    } else {
        hex_text(
            n / 16,
            if width > 0 {
                (width - 1) as nat
            } else {
                0
            },
        ).push(hex_digit((n % 16) as int))
    }
}

/// A number in lower-case hexadecimal, with at least `width` digits.
pub fn format_hex(n: u64, width: u32) -> (text: String)
    ensures
        text@ == hex_text(n as nat, width as nat),
    decreases n, width,
{
    let last: u8 = (n % 16) as u8;
    let digit: char = if last < 10 {
        (0x30u8 + last) as char
    } else {
        (0x61u8 + (last - 10)) as char
    };
    assert(digit == hex_digit(last as int));
    let mut text = if n < 16 && width <= 1 {
        String::new()
    } else {
        format_hex(
            n / 16,
            if width > 0 {
                width - 1
            } else {
                0
            },
        )
    };
    let ghost before = text@;
    text.push(digit);
    assert(n < 16 && width <= 1 ==> text@ =~= seq![digit]);
    text
}

// ---------------------------------------------------------------------------
// Putting text together
// ---------------------------------------------------------------------------
/// The two texts behind one another.
pub fn concat2(a: &str, b: &str) -> (text: String)
    ensures
        text@ == a@ + b@,
{
    let mut text = a.to_owned();
    text.append(b);
    text
}

/// The three texts behind one another.
pub fn concat3(a: &str, b: &str, c: &str) -> (text: String)
    ensures
        text@ == a@ + b@ + c@,
{
    let mut text = a.to_owned();
    text.append(b);
    text.append(c);
    text
}

/// The first `n` texts with the separator between them.
pub open spec fn joined(parts: Seq<Seq<char>>, separator: Seq<char>, n: int) -> Seq<char>
    decreases n,
{
    if n <= 0 {
        Seq::empty()
    } else if n == 1 {
        parts[0]
    } else {
        joined(parts, separator, n - 1) + separator + parts[n - 1]
    }
}

/// The texts with the separator between them.
pub fn join(parts: &Vec<String>, separator: &str) -> (text: String)
    ensures
        text@ == joined(texts(parts@), separator@, parts@.len() as int),
{
    let mut text = String::new();
    let mut i: usize = 0;
    while i < parts.len()
        invariant
            i <= parts@.len(),
            text@ == joined(texts(parts@), separator@, i as int),
        decreases parts.len() - i,
    {
        if i > 0 {
            text.append(separator);
        }
        let ghost held = text@;
        text.append(parts[i].as_str());
        proof {
            assert(parts@[i as int]@ == texts(parts@)[i as int]);
            if i == 0 {
                assert(text@ =~= parts@[0]@);
            }
        }
        i = i + 1;
    }
    text
}

// ---------------------------------------------------------------------------
// Laws
// ---------------------------------------------------------------------------
/// Trimming takes white space off both ends, all of it and nothing else: what
/// is left is the text from `from` up to `end`, with white space only before
/// and after it, and neither begins nor ends with any.
pub proof fn law_trimming_takes_the_white_space_at_the_ends(text: Seq<char>) -> (ends: (int, int))
    ensures
        0 <= ends.0 <= ends.1 <= text.len(),
        trimmed(text) == text.subrange(ends.0, ends.1),
        all_space(text.subrange(0, ends.0)),
        all_space(text.subrange(ends.1, text.len() as int)),
        trimmed(text).len() > 0 ==> !is_space(trimmed(text)[0]) && !is_space(trimmed(text).last()),
        trimmed(text).len() == 0 <==> all_space(text),
{
    let from = first_solid(text, 0);
    lemma_first_solid_stops(text, 0);
    let end = last_solid(text, from, text.len() as int);
    lemma_last_solid_stops(text, from, text.len() as int);
    if trimmed(text).len() == 0 {
        assert(from == end);
        assert forall|i: int| 0 <= i < text.len() implies is_space(#[trigger] text[i]) by {}
    } else {
        assert(trimmed(text)[0] == text[from]);
        assert(trimmed(text).last() == text[end - 1]);
        assert(!is_space(text[from]));
    }
    (from, end)
}

proof fn lemma_first_solid_stops(text: Seq<char>, from: int)
    requires
        0 <= from <= text.len(),
    ensures
        from <= first_solid(text, from) <= text.len(),
        forall|i: int| from <= i < first_solid(text, from) ==> is_space(#[trigger] text[i]),
        first_solid(text, from) < text.len() ==> !is_space(text[first_solid(text, from)]),
    decreases text.len() - from,
{
    if from < text.len() && is_space(text[from]) {
        lemma_first_solid_stops(text, from + 1);
    }
}

proof fn lemma_last_solid_stops(text: Seq<char>, from: int, end: int)
    requires
        0 <= from <= end <= text.len(),
    ensures
        from <= last_solid(text, from, end) <= end,
        forall|i: int| last_solid(text, from, end) <= i < end ==> is_space(#[trigger] text[i]),
        last_solid(text, from, end) > from ==> !is_space(text[last_solid(text, from, end) - 1]),
    decreases end - from,
{
    if end > from && is_space(text[end - 1]) {
        lemma_last_solid_stops(text, from, end - 1);
    }
}

/// A text is cut at the first separator: the two sides and the separator make
/// the text again, and the first side holds no separator.  A text is not cut
/// exactly when it holds none.
pub proof fn law_a_cut_is_at_the_first_separator(text: Seq<char>, separator: char)
    ensures
        match cut_once(text, separator) {
            Some((before, after)) => text == before.push(separator) + after && !before.contains(
                separator,
            ),
            None => !text.contains(separator),
        },
{
    lemma_find_first(text, separator, 0);
    lemma_find_char(text, separator, 0);
    let at = find_char(text, separator, 0);
    if at < text.len() {
        let (before, after) = (text.subrange(0, at), text.subrange(at + 1, text.len() as int));
        assert(text =~= before.push(separator) + after);
    }
}

proof fn lemma_find_first(text: Seq<char>, wanted: char, from: int)
    requires
        0 <= from <= text.len(),
    ensures
        from <= find_char(text, wanted, from) <= text.len(),
        forall|i: int| from <= i < find_char(text, wanted, from) ==> #[trigger] text[i] != wanted,
        find_char(text, wanted, from) < text.len() ==> text[find_char(text, wanted, from)] == wanted,
    decreases text.len() - from,
{
    if from < text.len() && text[from] != wanted {
        lemma_find_first(text, wanted, from + 1);
    }
}

/// Two sides with a separator between them are cut into those sides again, as
/// long as the first holds no separator.
pub proof fn law_what_is_joined_is_cut_again(before: Seq<char>, separator: char, after: Seq<char>)
    requires
        !before.contains(separator),
    ensures
        cut_once(before.push(separator) + after, separator) == Some((before, after)),
{
    let text = before.push(separator) + after;
    lemma_find_first(text, separator, 0);
    let at = find_char(text, separator, 0);
    assert(text[before.len() as int] == separator);
    if at < before.len() {
        assert(before[at] == text[at]);
    }
    assert(at == before.len());
    assert(text.subrange(0, at) =~= before);
    assert(text.subrange(at + 1, text.len() as int) =~= after);
}

/// The pieces of a text are what stands between its separators: put together
/// again with the separator they make the text, and no piece holds one.
pub proof fn law_the_pieces_make_the_text_again(text: Seq<char>, separator: char)
    ensures
        pieces(text, separator).len() >= 1,
        joined(pieces(text, separator), seq![separator], pieces(text, separator).len() as int)
            == text,
        forall|i: int|
            0 <= i < pieces(text, separator).len() ==> !(#[trigger] pieces(text, separator)[i]).contains(
                separator,
            ),
{
    lemma_pieces_rejoin(text, separator, 0);
    assert(text.subrange(0, text.len() as int) =~= text);
}

proof fn lemma_pieces_rejoin(text: Seq<char>, separator: char, from: int)
    requires
        0 <= from <= text.len(),
    ensures
        ({
            let parts = pieces_from(text, separator, from);
            &&& parts.len() >= 1
            &&& joined(parts, seq![separator], parts.len() as int) == text.subrange(
                from,
                text.len() as int,
            )
            &&& forall|i: int| 0 <= i < parts.len() ==> !(#[trigger] parts[i]).contains(separator)
        }),
    decreases text.len() - from,
{
    lemma_find_first(text, separator, from);
    let end = find_char(text, separator, from);
    if end < text.len() {
        lemma_pieces_rejoin(text, separator, end + 1);
        let rest = pieces_from(text, separator, end + 1);
        let parts = pieces_from(text, separator, from);
        assert(parts =~= seq![text.subrange(from, end)] + rest);
        lemma_joined_with_first(text.subrange(from, end), rest, seq![separator], rest.len() as int);
        assert(text.subrange(from, text.len() as int) =~= text.subrange(from, end) + seq![separator]
            + text.subrange(end + 1, text.len() as int));
        assert forall|i: int| 0 <= i < parts.len() implies !(#[trigger] parts[i]).contains(
            separator,
        ) by {
            if i > 0 {
                assert(parts[i] == rest[i - 1]);
            }
        }
    }
}

proof fn lemma_joined_with_first(
    first: Seq<char>,
    rest: Seq<Seq<char>>,
    separator: Seq<char>,
    n: int,
)
    requires
        1 <= n <= rest.len(),
    ensures
        joined(seq![first] + rest, separator, n + 1) == first + separator + joined(
            rest,
            separator,
            n,
        ),
    decreases n,
{
    let all = seq![first] + rest;
    assert(all[n] == rest[n - 1]);
    if n == 1 {
        assert(joined(all, separator, 1) == first);
    } else {
        lemma_joined_with_first(first, rest, separator, n - 1);
        assert(joined(all, separator, n + 1) =~= first + separator + joined(rest, separator, n));
    }
}

/// Two words with one white space character between them are those two words.
pub proof fn law_two_words_are_told_apart(first: Seq<char>, space: char, second: Seq<char>)
    requires
        is_space(space),
        first.len() > 0,
        second.len() > 0,
        forall|i: int| 0 <= i < first.len() ==> !is_space(#[trigger] first[i]),
        forall|i: int| 0 <= i < second.len() ==> !is_space(#[trigger] second[i]),
    ensures
        words(first.push(space) + second) == seq![first, second],
{
    let text = first.push(space) + second;
    let cut = first.len() as int;
    assert forall|i: int| 0 <= i < cut implies !is_space(#[trigger] text[i]) by {
        assert(text[i] == first[i]);
    }
    assert forall|i: int| cut < i < text.len() implies !is_space(#[trigger] text[i]) by {
        assert(text[i] == second[i - cut - 1]);
    }
    assert(text[cut] == space);
    lemma_word_end_at(text, 0, cut);
    lemma_word_end_at(text, cut + 1, text.len() as int);
    assert(text.subrange(0, cut) =~= first);
    assert(text.subrange(cut + 1, text.len() as int) =~= second);
    assert(!is_space(text[0]));
    assert(!is_space(text[cut + 1]));
    assert(words_from(text, text.len() as int) =~= Seq::empty());
    assert(words_from(text, cut + 1) =~= seq![second]);
    assert(words_from(text, cut) == words_from(text, cut + 1));
    assert(words_from(text, 0) =~= seq![first, second]);
}

/// A word and a white space character in front of a text are one more word.
pub proof fn lemma_words_of_word_and_rest(word: Seq<char>, space: char, rest: Seq<char>)
    requires
        is_space(space),
        word.len() > 0,
        forall|i: int| 0 <= i < word.len() ==> !is_space(#[trigger] word[i]),
    ensures
        words(word.push(space) + rest) == seq![word] + words(rest),
        words(word) == seq![word],
{
    let text = word.push(space) + rest;
    let cut = word.len() as int;
    assert forall|i: int| 0 <= i < cut implies !is_space(#[trigger] text[i]) by {
        assert(text[i] == word[i]);
    }
    assert(text[cut] == space);
    lemma_word_end_at(text, 0, cut);
    assert(text.subrange(0, cut) =~= word);
    assert(!is_space(text[0]));
    assert(words_from(text, cut) == words_from(text, cut + 1));
    lemma_words_moved(text, rest, cut + 1, 0);
    lemma_word_end_at(word, 0, cut);
    assert(word.subrange(0, cut) =~= word);
    assert(words_from(word, cut) =~= Seq::empty());
    assert(words(word) =~= seq![word]);
}

proof fn lemma_words_moved(all: Seq<char>, text: Seq<char>, by: int, from: int)
    requires
        0 <= by,
        0 <= from <= text.len(),
        all.len() == by + text.len(),
        forall|i: int| 0 <= i < text.len() ==> all[by + i] == #[trigger] text[i],
    ensures
        words_from(all, by + from) == words_from(text, from),
    decreases text.len() - from,
{
    if from < text.len() {
        assert(all[by + from] == text[from]);
        if is_space(text[from]) {
            lemma_words_moved(all, text, by, from + 1);
        } else {
            lemma_word_end_stops(text, from);
            let end = word_end(text, from);
            assert forall|i: int| by + from <= i < by + end implies !is_space(
                #[trigger] all[i],
            ) by {
                assert(all[by + (i - by)] == text[i - by]);
            }
            if end < text.len() {
                assert(all[by + end] == text[end]);
            }
            lemma_word_end_at(all, by + from, by + end);
            let (there, here) = (all.subrange(by + from, by + end), text.subrange(from, end));
            assert forall|i: int| 0 <= i < there.len() implies #[trigger] there[i] == here[i] by {
                assert(all[by + (from + i)] == text[from + i]);
            }
            assert(there =~= here);
            lemma_words_moved(all, text, by, end);
        }
    }
}

proof fn lemma_word_end_at(text: Seq<char>, from: int, end: int)
    requires
        0 <= from <= end <= text.len(),
        forall|i: int| from <= i < end ==> !is_space(#[trigger] text[i]),
        end < text.len() ==> is_space(text[end]),
    ensures
        word_end(text, from) == end,
    decreases end - from,
{
    if from < end {
        assert(!is_space(text[from]));
        lemma_word_end_at(text, from + 1, end);
    }
}

/// Every word is solid: it holds something, and no white space.
pub proof fn law_a_word_holds_no_white_space(text: Seq<char>, at: int)
    requires
        0 <= at < words(text).len(),
    ensures
        words(text)[at].len() > 0,
        forall|i: int| 0 <= i < words(text)[at].len() ==> !is_space(#[trigger] words(text)[at][i]),
{
    lemma_word_is_solid(text, 0, at);
}

proof fn lemma_word_is_solid(text: Seq<char>, from: int, at: int)
    requires
        0 <= from <= text.len(),
        0 <= at < words_from(text, from).len(),
    ensures
        words_from(text, from)[at].len() > 0,
        forall|i: int|
            0 <= i < words_from(text, from)[at].len() ==> !is_space(
                #[trigger] words_from(text, from)[at][i],
            ),
    decreases text.len() - from,
{
    if from < text.len() {
        if is_space(text[from]) {
            lemma_word_is_solid(text, from + 1, at);
        } else {
            lemma_word_end_stops(text, from);
            let end = word_end(text, from);
            if at > 0 {
                lemma_word_is_solid(text, end, at - 1);
                assert(words_from(text, from)[at] == words_from(text, end)[at - 1]);
            } else {
                assert(words_from(text, from)[0] == text.subrange(from, end));
            }
        }
    }
}

proof fn lemma_word_end_stops(text: Seq<char>, from: int)
    requires
        0 <= from < text.len(),
        !is_space(text[from]),
    ensures
        from < word_end(text, from) <= text.len(),
        forall|i: int| from <= i < word_end(text, from) ==> !is_space(#[trigger] text[i]),
        word_end(text, from) < text.len() ==> is_space(text[word_end(text, from)]),
    decreases text.len() - from,
{
    if from + 1 < text.len() && !is_space(text[from + 1]) {
        lemma_word_end_stops(text, from + 1);
    } else {
        assert(word_end(text, from + 1) == from + 1);
    }
}

/// A number that is written in decimal is read back as that number; one that is
/// not negative also where no sign is allowed.
pub proof fn law_a_written_number_is_read_back(n: int)
    ensures
        decimal_value(decimal_text(n), true) == Some(n),
        n >= 0 ==> decimal_value(decimal_text(n), false) == Some(n),
        n >= 0 ==> decimal_value(seq!['+'] + decimal_text(n), false) == Some(n),
        n < 0 ==> decimal_value(decimal_text(n), false) is None,
{
    if n >= 0 {
        let digits = natural_text(n as nat);
        lemma_natural_text(n as nat);
        assert(is_digit(digits[0]));
        let signed = seq!['+'] + digits;
        assert forall|i: int| 1 <= i < signed.len() implies is_digit(#[trigger] signed[i]) by {
            assert(signed[i] == digits[i - 1]);
        }
        lemma_digits_moved(signed, digits, 1, digits.len() as int);
    } else {
        let digits = natural_text((-n) as nat);
        lemma_natural_text((-n) as nat);
        let signed = seq!['-'] + digits;
        assert forall|i: int| 1 <= i < signed.len() implies is_digit(#[trigger] signed[i]) by {
            assert(signed[i] == digits[i - 1]);
        }
        lemma_digits_moved(signed, digits, 1, digits.len() as int);
    }
}

/// A number in decimal is digits behind at most one sign, and holds no white
/// space.
pub proof fn lemma_decimal_text_is_solid(n: int)
    ensures
        decimal_text(n).len() > 0,
        forall|i: int|
            0 <= i < decimal_text(n).len() ==> is_digit(#[trigger] decimal_text(n)[i])
                || decimal_text(n)[i] == '-',
        forall|i: int| 0 <= i < decimal_text(n).len() ==> !is_space(#[trigger] decimal_text(n)[i]),
{
    lemma_natural_text((if n < 0 {
        -n
    } else {
        n
    }) as nat);
    let text = decimal_text(n);
    assert forall|i: int| 0 <= i < text.len() implies is_digit(#[trigger] text[i]) || text[i]
        == '-' by {
        if n < 0 && i > 0 {
            assert(text[i] == natural_text((-n) as nat)[i - 1]);
        }
    }
}

proof fn lemma_natural_text(n: nat)
    ensures
        natural_text(n).len() > 0,
        all_digits(natural_text(n), 0),
        digits_value(natural_text(n), 0, natural_text(n).len() as int) == n,
    decreases n,
{
    let text = natural_text(n);
    let last = ('0' as int + n % 10) as char;
    assert(is_digit(last) && digit_value(last) == n % 10);
    if n < 10 {
        assert(text =~= seq![last]);
        assert(digits_value(text, 0, 0) == 0);
    } else {
        let before = natural_text(n / 10);
        lemma_natural_text(n / 10);
        assert(text =~= before.push(last));
        assert forall|i: int| 0 <= i < text.len() implies is_digit(#[trigger] text[i]) by {
            if i < before.len() {
                assert(text[i] == before[i]);
            }
        }
        lemma_digits_moved(text, before, 0, before.len() as int);
    }
}

proof fn lemma_digits_moved(all: Seq<char>, text: Seq<char>, by: int, end: int)
    requires
        0 <= by,
        0 <= end <= text.len(),
        by + end <= all.len(),
        forall|i: int| 0 <= i < end ==> all[by + i] == #[trigger] text[i],
    ensures
        digits_value(all, by, by + end) == digits_value(text, 0, end),
    decreases end,
{
    if end > 0 {
        assert(all[by + (end - 1)] == text[end - 1]);
        lemma_digits_moved(all, text, by, end - 1);
    }
}

/// The lines of a text hold no line break, and a text without one is one line.
pub proof fn law_a_line_holds_no_line_break(text: Seq<char>)
    ensures
        forall|i: int| 0 <= i < lines(text).len() ==> !(#[trigger] lines(text)[i]).contains('\n'),
        text.len() > 0 && !text.contains('\n') ==> lines(text) == seq![text],
        text.len() == 0 <==> lines(text).len() == 0,
{
    lemma_lines_hold_no_break(text, 0);
    if text.len() > 0 && !text.contains('\n') {
        lemma_line_end_stops(text, 0);
        assert(line_end(text, 0) == text.len());
        assert(text.subrange(0, text.len() as int) =~= text);
    }
}

proof fn lemma_line_end_stops(text: Seq<char>, from: int)
    requires
        0 <= from <= text.len(),
    ensures
        from <= line_end(text, from) <= text.len(),
        forall|i: int| from <= i < line_end(text, from) ==> #[trigger] text[i] != '\n',
        line_end(text, from) < text.len() ==> text[line_end(text, from)] == '\n',
    decreases text.len() - from,
{
    if from < text.len() && text[from] != '\n' {
        lemma_line_end_stops(text, from + 1);
    }
}

proof fn lemma_lines_hold_no_break(text: Seq<char>, from: int)
    requires
        0 <= from <= text.len(),
    ensures
        forall|i: int|
            0 <= i < lines_from(text, from).len() ==> !(#[trigger] lines_from(text, from)[i]).contains(
                '\n',
            ),
    decreases text.len() - from,
{
    if from < text.len() {
        lemma_line_end_stops(text, from);
        let end = line_end(text, from);
        let list = lines_from(text, from);
        assert(!list[0].contains('\n'));
        if end < text.len() {
            lemma_lines_hold_no_break(text, end + 1);
            assert forall|i: int| 0 <= i < list.len() implies !(#[trigger] list[i]).contains(
                '\n',
            ) by {
                if i > 0 {
                    assert(list[i] == lines_from(text, end + 1)[i - 1]);
                }
            }
        }
    }
}

/// The pieces of two texts with a separator between them are the pieces of the
/// one and then those of the other.
pub proof fn lemma_pieces_of_joined(before: Seq<char>, separator: char, after: Seq<char>)
    ensures
        pieces(before.push(separator) + after, separator) == pieces(before, separator) + pieces(
            after,
            separator,
        ),
        !before.contains(separator) ==> pieces(before, separator) == seq![before],
{
    lemma_pieces_split(before, separator, after, 0);
    lemma_find_first(before, separator, 0);
    assert(before.subrange(0, before.len() as int) =~= before);
}

proof fn lemma_pieces_split(before: Seq<char>, separator: char, after: Seq<char>, from: int)
    requires
        0 <= from <= before.len(),
    ensures
        pieces_from(before.push(separator) + after, separator, from) == pieces_from(
            before,
            separator,
            from,
        ) + pieces(after, separator),
    decreases before.len() - from,
{
    let text = before.push(separator) + after;
    let cut = before.len() as int;
    assert(text[cut] == separator);
    assert forall|i: int| 0 <= i < cut implies #[trigger] text[i] == before[i] by {}
    lemma_find_first(before, separator, from);
    lemma_find_first(text, separator, from);
    let end = find_char(before, separator, from);
    if end < cut {
        if find_char(text, separator, from) < end {
            assert(before[find_char(text, separator, from)] == separator);
        }
        assert(text[end] == before[end]);
        assert(find_char(text, separator, from) == end);
        lemma_pieces_split(before, separator, after, end + 1);
        assert(text.subrange(from, end) =~= before.subrange(from, end));
        assert(pieces_from(text, separator, from) =~= pieces_from(before, separator, from) + pieces(
            after,
            separator,
        ));
    } else {
        if find_char(text, separator, from) < cut {
            assert(before[find_char(text, separator, from)] == separator);
        }
        assert(find_char(text, separator, from) == cut);
        assert(text.subrange(from, cut) =~= before.subrange(from, cut));
        lemma_pieces_moved(text, after, separator, cut + 1, 0);
        assert(pieces_from(text, separator, from) =~= pieces_from(before, separator, from) + pieces(
            after,
            separator,
        ));
    }
}

proof fn lemma_pieces_moved(all: Seq<char>, text: Seq<char>, separator: char, by: int, from: int)
    requires
        0 <= by,
        0 <= from <= text.len(),
        all.len() == by + text.len(),
        forall|i: int| 0 <= i < text.len() ==> all[by + i] == #[trigger] text[i],
    ensures
        pieces_from(all, separator, by + from) == pieces_from(text, separator, from),
    decreases text.len() - from,
{
    lemma_find_first(text, separator, from);
    lemma_find_first(all, separator, by + from);
    let end = find_char(text, separator, from);
    let there = find_char(all, separator, by + from);
    if there < by + end {
        assert(all[by + (there - by)] == text[there - by]);
    }
    if end < text.len() {
        assert(all[by + end] == text[end]);
    }
    assert(there == by + end);
    let (a, b) = (all.subrange(by + from, by + end), text.subrange(from, end));
    assert forall|i: int| 0 <= i < a.len() implies #[trigger] a[i] == b[i] by {
        assert(all[by + (from + i)] == text[from + i]);
    }
    assert(a =~= b);
    if end < text.len() {
        lemma_pieces_moved(all, text, separator, by, end + 1);
    }
}

/// A text without white space is left as it is, whatever white space stands
/// around it.
pub proof fn lemma_trimmed_of_solid(before: Seq<char>, text: Seq<char>, after: Seq<char>)
    requires
        all_space(before),
        all_space(after),
        forall|i: int| 0 <= i < text.len() ==> !is_space(#[trigger] text[i]),
    ensures
        trimmed(before + text + after) == text,
        trimmed(text) == text,
{
    lemma_trimmed_of_padded(before, text, after);
    let ends = law_trimming_takes_the_white_space_at_the_ends(text);
    if text.len() > 0 {
        if ends.0 > 0 {
            assert(text.subrange(0, ends.0)[0] == text[0]);
        }
        if ends.1 < text.len() {
            let tail = text.subrange(ends.1, text.len() as int);
            assert(tail[tail.len() - 1] == text[text.len() - 1]);
        }
    }
    assert(trimmed(text) =~= text);
}

/// A pair of numbers that is written with a comma and a space between them, and
/// white space around it, is cut into the two.
pub proof fn lemma_written_pair(before: Seq<char>, x: int, y: int, after: Seq<char>)
    requires
        all_space(before),
        all_space(after),
    ensures
        cut_once(
            trimmed(before + (decimal_text(x).push(',') + decimal_text(y).insert(0, ' ')) + after),
            ',',
        ) == Some((decimal_text(x), decimal_text(y).insert(0, ' '))),
        trimmed(decimal_text(x)) == decimal_text(x),
        trimmed(decimal_text(y).insert(0, ' ')) == decimal_text(y),
{
    let (a, b) = (decimal_text(x), decimal_text(y));
    let spaced = b.insert(0, ' ');
    let core = a.push(',') + spaced;
    lemma_decimal_text_is_solid(x);
    lemma_decimal_text_is_solid(y);
    lemma_trimmed_of_solid(Seq::empty(), a, Seq::empty());
    lemma_trimmed_of_solid(seq![' '], b, Seq::empty());
    assert(seq![' '] + b + Seq::<char>::empty() =~= spaced);
    lemma_trimmed_of_padded(before, core, after);
    let ends = law_trimming_takes_the_white_space_at_the_ends(core);
    assert(core[0] == a[0]);
    assert(core[core.len() - 1] == b[b.len() - 1]);
    if ends.0 > 0 {
        assert(core.subrange(0, ends.0)[0] == core[0]);
    }
    if ends.1 < core.len() {
        let tail = core.subrange(ends.1, core.len() as int);
        assert(tail[tail.len() - 1] == core[core.len() - 1]);
    }
    assert(trimmed(core) =~= core);
    assert(!a.contains(','));
    law_what_is_joined_is_cut_again(a, ',', spaced);
}

/// A part occurs in a text exactly if the text is that part with something
/// before it and something behind it.
pub proof fn law_a_part_has_something_around_it(text: Seq<char>, part: Seq<char>)
    ensures
        has_part(text, part) <==> exists|before: Seq<char>, behind: Seq<char>|
            text == #[trigger] (before + part + behind),
{
    if has_part(text, part) {
        let at = choose|at: int| occurs_at(text, part, at);
        let before = text.subrange(0, at);
        let behind = text.subrange(at + part.len(), text.len() as int);
        assert(text.subrange(at, at + part.len()) == part);
        assert(text =~= before + part + behind) by {
            assert forall|i: int| 0 <= i < text.len() implies text[i] == (before + part
                + behind)[i] by {
                if at <= i < at + part.len() {
                    assert(part[i - at] == text.subrange(at, at + part.len())[i - at]);
                }
            }
        }
    }
    if exists|before: Seq<char>, behind: Seq<char>| text == #[trigger] (before + part + behind) {
        let (before, behind) = choose|before: Seq<char>, behind: Seq<char>|
            text == #[trigger] (before + part + behind);
        assert(text.subrange(before.len() as int, (before.len() + part.len()) as int) =~= part);
        assert(occurs_at(text, part, before.len() as int));
    }
}

/// Making letters small or capital leaves a text the same but for its case, and
/// a text without ASCII letters is the same only as itself.
pub proof fn law_the_case_of_letters(a: Seq<char>, b: Seq<char>)
    ensures
        same_ignoring_case(a, ascii_lowered(a)),
        same_ignoring_case(a, ascii_uppered(a)),
        same_ignoring_case(a, b) ==> ascii_lowered(a) == ascii_lowered(b),
        same_ignoring_case(a, b) && (forall|i: int|
            0 <= i < a.len() ==> !('a' <= #[trigger] a[i] <= 'z' || 'A' <= a[i] <= 'Z')) ==> a == b,
        forall|i: int|
            0 <= i < a.len() ==> !('A' <= #[trigger] ascii_lowered(a)[i] <= 'Z') && !('a'
                <= ascii_uppered(a)[i] <= 'z'),
{
    if same_ignoring_case(a, b) {
        assert(ascii_lowered(a) =~= ascii_lowered(b));
        if forall|i: int|
            0 <= i < a.len() ==> !('a' <= #[trigger] a[i] <= 'z' || 'A' <= a[i] <= 'Z') {
            assert forall|i: int| 0 <= i < a.len() implies a[i] == b[i] by {
                assert(ascii_lower(a[i]) == ascii_lower(b[i]));
            }
            assert(a =~= b);
        }
    }
}

/// The value a hexadecimal digit stands for.
pub open spec fn hex_digit_value(c: char) -> int {
    if '0' <= c <= '9' {
        c as int - '0' as int
    } else {
        c as int - 'a' as int + 10
    }
}

/// The number that hexadecimal digits write.
pub open spec fn hex_value(text: Seq<char>) -> int
    decreases text.len(),
{
    if text.len() == 0 {
        0
    } else {
        16 * hex_value(text.drop_last()) + hex_digit_value(text.last())
    }
}

/// A number that is written in hexadecimal is read back, and takes at least as
/// many digits as were asked for; more only where it has to.
pub proof fn law_a_hexadecimal_number_is_read_back(n: nat, width: nat)
    ensures
        hex_value(hex_text(n, width)) == n,
        hex_text(n, width).len() >= width,
        hex_text(n, width).len() >= 1,
        hex_text(n, width).len() == 1 ==> n < 16,
        hex_text(n, width).len() > width && hex_text(n, width).len() > 1 ==> hex_text(n, width)[0]
            != '0',
    decreases n, width,
{
    let text = hex_text(n, width);
    if n < 16 && width <= 1 {
        assert(text.drop_last() =~= Seq::empty());
        assert(hex_value(text.drop_last()) == 0);
    } else {
        let less = if width > 0 {
            (width - 1) as nat
        } else {
            0
        };
        law_a_hexadecimal_number_is_read_back(n / 16, less);
        let rest = hex_text(n / 16, less);
        assert(text.drop_last() =~= rest);
        assert(hex_digit_value(hex_digit((n % 16) as int)) == n % 16);
        assert(text[0] == rest[0]);
        if text.len() > width && text.len() > 1 && rest.len() == 1 {
            assert(rest == seq![hex_digit((n / 16) as int)]);
            assert(n >= 16);
        }
    }
}

/// Only digits write a number, behind at most one sign; without a digit there
/// is none, and a minus sign writes one only where it may be negative.
pub proof fn law_only_digits_write_a_number(text: Seq<char>, signed: bool, at: int)
    ensures
        text.len() == 0 ==> decimal_value(text, signed) is None,
        0 < at < text.len() && !(0x30 <= text[at] as u32 <= 0x39) ==> decimal_value(text, signed) is None,
        text.len() > 0 && !(0x30 <= text[0] as u32 <= 0x39) && text[0] != '+' && text[0] != '-'
            ==> decimal_value(text, signed) is None,
        text.len() > 0 && text[0] == '-' && !signed ==> decimal_value(text, signed) is None,
        text.len() == 1 && !(0x30 <= text[0] as u32 <= 0x39) ==> decimal_value(text, signed) is None,
        decimal_value(text, signed) matches Some(n) ==> n >= 0 || text[0] == '-',
{
    if 0 < at < text.len() && !(0x30 <= text[at] as u32 <= 0x39) {
        assert(!is_digit(text[at]));
    }
    if text.len() > 0 && !(0x30 <= text[0] as u32 <= 0x39) {
        assert(!is_digit(text[0]));
    }
    if decimal_value(text, signed) is Some {
        let from: int = if text[0] == '+' || text[0] == '-' {
            1
        } else {
            0
        };
        lemma_digits_not_negative(text, from, text.len() as int);
    }
}

proof fn lemma_digits_not_negative(text: Seq<char>, from: int, end: int)
    requires
        0 <= from <= end <= text.len(),
        all_digits(text, from),
    ensures
        digits_value(text, from, end) >= 0,
    decreases end - from,
{
    if from < end {
        lemma_digits_not_negative(text, from, end - 1);
        assert(is_digit(text[end - 1]));
    }
}

} // verus!
