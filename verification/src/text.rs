//! Text helpers: the pieces of string handling that the rest of the crate is built from, each
//! stated over the characters of the text.
use vstd::prelude::*;
use vstd::utf8;

verus! {

/// The characters of each string of a list.
pub open spec fn texts(items: Seq<String>) -> Seq<Seq<char>> {
    items.map_values(|item: String| item@)
}

/// The characters of an optional string.
pub open spec fn optional_text(item: Option<String>) -> Option<Seq<char>> {
    match item {
        Some(text) => Some(text@),
        None => None,
    }
}

/// `String::push` appends one character.
pub assume_specification[ String::push ](s: &mut String, ch: char)
    ensures
        final(s)@ == old(s)@.push(ch),
;

/// Two texts with the same encoding are the same text.
pub proof fn lemma_encoding_is_injective(a: Seq<char>, b: Seq<char>)
    ensures
        utf8::encode_utf8(a) == utf8::encode_utf8(b) ==> a == b,
{
    utf8::encode_utf8_decode_utf8(a);
    utf8::encode_utf8_decode_utf8(b);
}

/// Whether two texts are equal.
pub fn same_text(a: &str, b: &str) -> (same: bool)
    ensures
        same == (a@ == b@),
{
    let left = a.as_bytes();
    let right = b.as_bytes();
    proof {
        lemma_encoding_is_injective(a@, b@);
    }
    if left.len() != right.len() {
        return false;
    }
    let mut i: usize = 0;
    while i < left.len()
        invariant
            i <= left@.len(),
            left@.len() == right@.len(),
            left@ == utf8::encode_utf8(a@),
            right@ == utf8::encode_utf8(b@),
            forall|j: int| 0 <= j < i ==> left@[j] == right@[j],
        decreases left@.len() - i,
    {
        if left[i] != right[i] {
            return false;
        }
        i += 1;
    }
    assert(left@ =~= right@);
    true
}

/// Whether an optional string holds exactly the given text.
pub fn holds_text(item: &Option<String>, text: &str) -> (same: bool)
    ensures
        same == (optional_text(*item) == Some(text@)),
{
    match item {
        Some(value) => same_text(value.as_str(), text),
        None => false,
    }
}

/// Whether a list of strings holds the given text.
pub fn list_contains(items: &Vec<String>, text: &str) -> (found: bool)
    ensures
        found == texts(items@).contains(text@),
{
    let mut i: usize = 0;
    while i < items.len()
        invariant
            i <= items@.len(),
            forall|j: int| 0 <= j < i ==> texts(items@)[j] != text@,
        decreases items@.len() - i,
    {
        if same_text(items[i].as_str(), text) {
            assert(texts(items@)[i as int] == text@);
            return true;
        }
        i += 1;
    }
    false
}

/// Whether two optional strings hold the same text, or neither holds one.
pub fn same_optional(a: &Option<String>, b: &Option<String>) -> (same: bool)
    ensures
        same == (optional_text(*a) == optional_text(*b)),
{
    match (a, b) {
        (Some(left), Some(right)) => same_text(left.as_str(), right.as_str()),
        (None, None) => true,
        _ => false,
    }
}

/// Whether two lists hold the same texts in the same order.
pub fn same_list(a: &Vec<String>, b: &Vec<String>) -> (same: bool)
    ensures
        same == (texts(a@) == texts(b@)),
{
    if a.len() != b.len() {
        assert(texts(a@).len() != texts(b@).len());
        return false;
    }
    let mut i: usize = 0;
    while i < a.len()
        invariant
            i <= a@.len(),
            a@.len() == b@.len(),
            forall|j: int| 0 <= j < i ==> a@[j]@ == b@[j]@,
        decreases a@.len() - i,
    {
        if !same_text(a[i].as_str(), b[i].as_str()) {
            assert(texts(a@)[i as int] != texts(b@)[i as int]);
            return false;
        }
        i += 1;
    }
    assert(texts(a@) =~= texts(b@));
    true
}

/// A copy of a list of strings.
pub fn copy_list(items: &Vec<String>) -> (copy: Vec<String>)
    ensures
        texts(copy@) == texts(items@),
{
    let mut copy: Vec<String> = Vec::new();
    let mut i: usize = 0;
    while i < items.len()
        invariant
            i <= items@.len(),
            copy@.len() == i,
            forall|j: int| 0 <= j < i ==> copy@[j]@ == items@[j]@,
        decreases items@.len() - i,
    {
        copy.push(items[i].clone());
        i += 1;
    }
    assert(texts(copy@) =~= texts(items@));
    copy
}

/// The characters of a text, one by one.
pub fn characters(text: &str) -> (chars: Vec<char>)
    ensures
        chars@ == text@,
{
    let mut chars: Vec<char> = Vec::new();
    for ch in it: text.chars()
        invariant
            it.seq() == text@,
            chars@ == text@.take(it.index()),
    {
        assert(text@.take(it.index() + 1) == text@.take(it.index()).push(ch));
        chars.push(ch);
    }
    assert(text@.take(text@.len() as int) == text@);
    chars
}

/// The text made of the characters from `from` up to `to`.
pub fn text_between(chars: &Vec<char>, from: usize, to: usize) -> (text: String)
    requires
        from <= to <= chars@.len(),
    ensures
        text@ == chars@.subrange(from as int, to as int),
{
    let mut text = String::new();
    let mut i: usize = from;
    while i < to
        invariant
            from <= i <= to <= chars@.len(),
            text@ == chars@.subrange(from as int, i as int),
        decreases to - i,
    {
        text.push(chars[i]);
        i += 1;
        assert(chars@.subrange(from as int, i as int) == chars@.subrange(
            from as int,
            i - 1,
        ).push(chars@[i - 1]));
    }
    text
}

/// The characters that Unicode gives the property White_Space.
pub open spec fn is_white_space(ch: char) -> bool {
    ||| '\u{9}' <= ch <= '\u{d}'
    ||| ch == '\u{20}'
    ||| ch == '\u{85}'
    ||| ch == '\u{a0}'
    ||| ch == '\u{1680}'
    ||| '\u{2000}' <= ch <= '\u{200a}'
    ||| ch == '\u{2028}'
    ||| ch == '\u{2029}'
    ||| ch == '\u{202f}'
    ||| ch == '\u{205f}'
    ||| ch == '\u{3000}'
}

/// A text with nothing in it but white space; the empty text is blank.
pub open spec fn is_blank(text: Seq<char>) -> bool {
    forall|i: int| 0 <= i < text.len() ==> is_white_space(#[trigger] text[i])
}

/// Whether a character is white space.
pub fn white_space(ch: char) -> (white: bool)
    ensures
        white == is_white_space(ch),
{
    ('\u{9}' <= ch && ch <= '\u{d}') || ch == '\u{20}' || ch == '\u{85}' || ch == '\u{a0}' || ch
        == '\u{1680}' || ('\u{2000}' <= ch && ch <= '\u{200a}') || ch == '\u{2028}' || ch
        == '\u{2029}' || ch == '\u{202f}' || ch == '\u{205f}' || ch == '\u{3000}'
}

/// Whether nothing is left of a text once white space is trimmed off it.
pub fn blank(text: &str) -> (result: bool)
    ensures
        result == is_blank(text@),
{
    for ch in it: text.chars()
        invariant
            it.seq() == text@,
            forall|i: int| 0 <= i < it.index() ==> is_white_space(#[trigger] text@[i]),
    {
        if !white_space(ch) {
            assert(!is_white_space(text@[it.index()]));
            return false;
        }
    }
    true
}

/// `std::str::from_utf8`: the text that the bytes encode, and nothing where they are not UTF-8.
#[verifier::external_body]
pub(crate) fn decoded(bytes: &[u8]) -> (result: Option<&str>)
    ensures
        result is Some <==> utf8::valid_utf8(bytes@),
        result matches Some(content) ==> content@ == utf8::decode_utf8(bytes@),
{
    std::str::from_utf8(bytes).ok()
}

/// Where the first line ends: at its newline, or at the end where it has none.
pub open spec fn line_end<T>(s: Seq<T>, newline: T) -> int
    decreases s.len(),
{
    if s.len() == 0 || s[0] == newline {
        0
    } else {
        1 + line_end(s.drop_first(), newline)
    }
}

/// The lines of a text without their newlines. A newline at the very end starts no further line.
pub open spec fn split_lines<T>(s: Seq<T>, newline: T) -> Seq<Seq<T>>
    decreases s.len(),
{
    let end = line_end(s, newline);
    if s.len() == 0 {
        Seq::empty()
    } else if 0 <= end < s.len() {
        seq![s.take(end)] + split_lines(s.skip(end + 1), newline)
    } else {
        seq![s]
    }
}

/// A line without the carriage return that it ends in, if it does.
pub open spec fn strip_return<T>(line: Seq<T>, carriage_return: T) -> Seq<T> {
    if line.len() > 0 && line.last() == carriage_return {
        line.drop_last()
    } else {
        line
    }
}

/// The lines of a text that end in a newline, or in a carriage return and a newline.
pub open spec fn split_crlf_lines<T>(s: Seq<T>, newline: T, carriage_return: T) -> Seq<Seq<T>>
    decreases s.len(),
{
    let end = line_end(s, newline);
    if s.len() == 0 {
        Seq::empty()
    } else if 0 <= end < s.len() {
        seq![strip_return(s.take(end), carriage_return)] + split_crlf_lines(
            s.skip(end + 1),
            newline,
            carriage_return,
        )
    } else {
        seq![s]
    }
}

/// The first newline, or the end, is where the first line ends.
pub proof fn lemma_line_end<T>(s: Seq<T>, newline: T, end: int)
    requires
        0 <= end <= s.len(),
        forall|i: int| 0 <= i < end ==> s[i] != newline,
        end < s.len() ==> s[end] == newline,
    ensures
        line_end(s, newline) == end,
    decreases s.len(),
{
    if end > 0 {
        let rest = s.drop_first();
        assert forall|i: int| 0 <= i < end - 1 implies rest[i] != newline by {
            assert(rest[i] == s[i + 1]);
        }
        lemma_line_end(rest, newline, end - 1);
    }
}

/// The index of the first byte `newline` from `start` on, or the length where there is none.
pub fn find_byte(bytes: &[u8], start: usize, newline: u8) -> (end: usize)
    requires
        start <= bytes@.len(),
    ensures
        start <= end <= bytes@.len(),
        end - start == line_end(bytes@.skip(start as int), newline),
        end < bytes@.len() ==> bytes@[end as int] == newline,
{
    let mut end: usize = start;
    while end < bytes.len() && bytes[end] != newline
        invariant
            start <= end <= bytes@.len(),
            forall|i: int| start <= i < end ==> bytes@[i] != newline,
        decreases bytes@.len() - end,
    {
        end += 1;
    }
    proof {
        lemma_line_end(bytes@.skip(start as int), newline, end - start);
    }
    end
}

/// The index of the first `newline` from `start` on, or the length where there is none.
fn find_char(chars: &Vec<char>, start: usize, newline: char) -> (end: usize)
    requires
        start <= chars@.len(),
    ensures
        start <= end <= chars@.len(),
        end - start == line_end(chars@.skip(start as int), newline),
        end < chars@.len() ==> chars@[end as int] == newline,
{
    let mut end: usize = start;
    while end < chars.len() && chars[end] != newline
        invariant
            start <= end <= chars@.len(),
            forall|i: int| start <= i < end ==> chars@[i] != newline,
        decreases chars@.len() - end,
    {
        end += 1;
    }
    proof {
        lemma_line_end(chars@.skip(start as int), newline, end - start);
    }
    end
}

/// The lines of a text: each ends in a newline, or in a carriage return and a newline, which are
/// left out; the last one need not.
pub open spec fn lines_of(text: Seq<char>) -> Seq<Seq<char>> {
    split_crlf_lines(text, '\n', '\r')
}

/// The lines of a text.
pub fn lines(text: &str) -> (result: Vec<String>)
    ensures
        texts(result@) == lines_of(text@),
{
    let chars = characters(text);
    let mut result: Vec<String> = Vec::new();
    let mut position: usize = 0;
    assert(chars@.skip(0) =~= chars@);
    assert(texts(result@) + lines_of(chars@) =~= lines_of(chars@));
    while position < chars.len()
        invariant
            position <= chars@.len(),
            texts(result@) + lines_of(chars@.skip(position as int)) == lines_of(chars@),
        decreases chars@.len() - position,
    {
        let ghost rest = chars@.skip(position as int);
        let ghost before = texts(result@);
        let end: usize = find_char(&chars, position, '\n');
        if end < chars.len() {
            let stop: usize = if end > position && chars[end - 1] == '\r' {
                end - 1
            } else {
                end
            };
            result.push(text_between(&chars, position, stop));
            proof {
                let line = strip_return(rest.take(end - position), '\r');
                assert(line =~= chars@.subrange(position as int, stop as int));
                assert(rest.skip(end - position + 1) =~= chars@.skip(end + 1));
                assert(texts(result@) =~= before.push(line));
                assert(before + lines_of(rest) =~= texts(result@) + lines_of(chars@.skip(end + 1)));
            }
            position = end + 1;
        } else {
            result.push(text_between(&chars, position, end));
            proof {
                assert(rest =~= chars@.subrange(position as int, end as int));
                assert(texts(result@) =~= before.push(rest));
                assert(lines_of(chars@.skip(end as int)) =~= Seq::empty());
                assert(before + lines_of(rest) =~= texts(result@) + lines_of(
                    chars@.skip(end as int),
                ));
            }
            position = end;
        }
    }
    assert(lines_of(chars@.skip(position as int)) =~= Seq::empty());
    assert(texts(result@) + Seq::<Seq<char>>::empty() =~= texts(result@));
    result
}

/// A text occurs somewhere in another.
pub open spec fn occurs_in(needle: Seq<char>, haystack: Seq<char>) -> bool {
    exists|i: int| occurs_at(needle, haystack, i)
}

/// A text occurs at a place of another.
pub open spec fn occurs_at(needle: Seq<char>, haystack: Seq<char>, place: int) -> bool {
    0 <= place <= haystack.len() - needle.len() && haystack.subrange(place, place + needle.len())
        == needle
}

/// Whether the characters of `needle` stand at a place of `haystack`.
fn stands_at(needle: &Vec<char>, haystack: &Vec<char>, place: usize) -> (result: bool)
    requires
        place + needle@.len() <= haystack@.len(),
    ensures
        result == occurs_at(needle@, haystack@, place as int),
{
    let total: usize = haystack.len();
    let mut i: usize = 0;
    while i < needle.len()
        invariant
            i <= needle@.len(),
            place + needle@.len() <= haystack@.len(),
            total == haystack@.len(),
            forall|j: int| 0 <= j < i ==> needle@[j] == haystack@[place + j],
        decreases needle@.len() - i,
    {
        if needle[i] != haystack[place + i] {
            assert(haystack@.subrange(place as int, place + needle@.len())[i as int]
                != needle@[i as int]);
            return false;
        }
        i += 1;
    }
    assert(haystack@.subrange(place as int, place + needle@.len()) =~= needle@);
    true
}

/// Whether a text occurs somewhere in another.
pub fn contains(haystack: &str, needle: &str) -> (found: bool)
    ensures
        found == occurs_in(needle@, haystack@),
{
    let wanted = characters(needle);
    let chars = characters(haystack);
    if wanted.len() > chars.len() {
        return false;
    }
    let last: usize = chars.len() - wanted.len();
    let mut place: usize = 0;
    loop
        invariant
            place <= last,
            last + wanted@.len() == chars@.len(),
            wanted@ == needle@,
            chars@ == haystack@,
            forall|i: int| 0 <= i < place ==> !occurs_at(needle@, haystack@, i),
        decreases last - place,
    {
        if stands_at(&wanted, &chars, place) {
            return true;
        }
        if place == last {
            return false;
        }
        place += 1;
    }
}

/// Texts one after the other, with a separator between each two.
pub open spec fn joined_texts(items: Seq<Seq<char>>, separator: Seq<char>) -> Seq<char>
    decreases items.len(),
{
    if items.len() == 0 {
        Seq::empty()
    } else if items.len() == 1 {
        items[0]
    } else {
        joined_texts(items.drop_last(), separator) + separator + items.last()
    }
}

/// Strings one after the other, with a separator between each two.
pub fn join_texts(items: &Vec<String>, separator: &str) -> (result: String)
    ensures
        result@ == joined_texts(texts(items@), separator@),
{
    let ghost all = texts(items@);
    let mut result = String::new();
    let mut i: usize = 0;
    assert(all.take(0) =~= Seq::empty());
    assert(result@ =~= Seq::empty());
    while i < items.len()
        invariant
            i <= items@.len(),
            all == texts(items@),
            result@ == joined_texts(all.take(i as int), separator@),
        decreases items@.len() - i,
    {
        proof {
            assert(all.take(i + 1).drop_last() =~= all.take(i as int));
            assert(all.take(i + 1).last() == items@[i as int]@);
        }
        if i == 0 {
            result = items[i].clone();
            assert(all.take(1)[0] == items@[0]@);
        } else {
            result = result.concat(separator).concat(items[i].as_str());
        }
        i += 1;
    }
    assert(all.take(i as int) =~= all);
    result
}

/// The decimal digit of a number below ten.
pub open spec fn digit_of(value: int) -> char {
    ('0' as int + value) as char
}

/// A number in decimal.
pub open spec fn decimal_of(value: nat) -> Seq<char>
    decreases value,
{
    if value < 10 {
        seq![digit_of(value as int)]
    } else {
        decimal_of(value / 10).push(digit_of((value % 10) as int))
    }
}

/// The decimal digit of a number below ten.
fn digit(value: u64) -> (result: char)
    requires
        value < 10,
    ensures
        result == digit_of(value as int),
{
    (48u8 + value as u8) as char
}

/// A number in decimal.
pub fn decimal(value: u64) -> (result: String)
    ensures
        result@ == decimal_of(value as nat),
    decreases value,
{
    let mut result = String::new();
    if value >= 10 {
        result = decimal(value / 10);
    }
    result.push(digit(value % 10));
    assert(value < 10 ==> result@ =~= seq![digit_of(value as int)]);
    result
}

} // verus!
