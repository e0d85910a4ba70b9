//! What lines, lists and numbers become as text, stated on the characters themselves.
use vstd::prelude::*;

use crate::text;

verus! {

/// Lines one after the other, each with a newline behind it.
pub open spec fn with_newlines<T>(lines: Seq<Seq<T>>, newline: T) -> Seq<T>
    decreases lines.len(),
{
    if lines.len() == 0 {
        Seq::empty()
    } else {
        lines[0] + seq![newline] + with_newlines(lines.drop_first(), newline)
    }
}

/// Where the first line ends: no newline is before that place, and one is there unless it is the
/// end.
proof fn lemma_end_of_first_line<T>(s: Seq<T>, newline: T)
    ensures
        0 <= text::line_end(s, newline) <= s.len(),
        forall|i: int| 0 <= i < text::line_end(s, newline) ==> s[i] != newline,
        text::line_end(s, newline) < s.len() ==> s[text::line_end(s, newline)] == newline,
    decreases s.len(),
{
    if s.len() > 0 && s[0] != newline {
        let rest = s.drop_first();
        lemma_end_of_first_line(rest, newline);
        assert forall|i: int| 0 <= i < text::line_end(s, newline) implies s[i] != newline by {
            if i > 0 {
                assert(rest[i - 1] == s[i]);
            }
        }
    }
}

/// The lines of a text hold no newline, and with a newline behind each of them they are the text,
/// but for the newline that its last line may lack. So no line and no character is lost, however
/// many there are.
pub proof fn law_lines_are_the_text<T>(s: Seq<T>, newline: T)
    ensures
        forall|i: int|
            0 <= i < text::split_lines(s, newline).len() ==> !(#[trigger] text::split_lines(
                s,
                newline,
            )[i]).contains(newline),
        with_newlines(text::split_lines(s, newline), newline) == if s.len() == 0
            || s[s.len() - 1] == newline {
            s
        } else {
            s.push(newline)
        },
    decreases s.len(),
{
    let lines = text::split_lines(s, newline);
    lemma_end_of_first_line(s, newline);
    let end = text::line_end(s, newline);
    if s.len() == 0 {
        assert(with_newlines(lines, newline) =~= s);
    } else if end < s.len() {
        let rest = s.skip(end + 1);
        let later = text::split_lines(rest, newline);
        law_lines_are_the_text(rest, newline);
        assert(lines.drop_first() =~= later);
        assert(lines[0] == s.take(end));
        assert(s.take(end) + seq![newline] + rest =~= s);
        if rest.len() > 0 {
            assert(rest[rest.len() - 1] == s[s.len() - 1]);
            assert(s.take(end) + seq![newline] + rest.push(newline) =~= s.push(newline));
        }
        assert forall|i: int| 0 <= i < lines.len() implies !(#[trigger] lines[i]).contains(
            newline,
        ) by {
            if i > 0 {
                assert(lines[i] == later[i - 1]);
            }
        }
    } else {
        assert(lines.drop_first() =~= Seq::<Seq<T>>::empty());
        assert(with_newlines(lines.drop_first(), newline) =~= Seq::<T>::empty());
        assert(lines[0] + seq![newline] + Seq::<T>::empty() =~= s.push(newline));
        assert(s[s.len() - 1] != newline);
    }
}

/// Leaving out the carriage return before a newline changes no other part of a line: there are the
/// same lines, each without the carriage return that it ends in where a newline follows it.
pub proof fn law_returns_are_left_out<T>(s: Seq<T>, newline: T, carriage_return: T)
    ensures
        ({
            let plain = text::split_lines(s, newline);
            let lines = text::split_crlf_lines(s, newline, carriage_return);
            &&& lines.len() == plain.len()
            &&& forall|i: int|
                #![trigger lines[i]]
                0 <= i < plain.len() ==> if plain[i].len() > 0 && plain[i][plain[i].len() - 1]
                    == carriage_return && (i + 1 < plain.len() || s[s.len() - 1] == newline) {
                    lines[i] == plain[i].take(plain[i].len() - 1)
                } else {
                    lines[i] == plain[i]
                }
        }),
    decreases s.len(),
{
    let plain = text::split_lines(s, newline);
    let lines = text::split_crlf_lines(s, newline, carriage_return);
    lemma_end_of_first_line(s, newline);
    let end = text::line_end(s, newline);
    if s.len() > 0 && end < s.len() {
        let rest = s.skip(end + 1);
        law_returns_are_left_out(rest, newline, carriage_return);
        let later = text::split_crlf_lines(rest, newline, carriage_return);
        let plain_later = text::split_lines(rest, newline);
        assert(plain[0] == s.take(end));
        if rest.len() > 0 {
            assert(rest[rest.len() - 1] == s[s.len() - 1]);
            assert(plain_later.len() > 0);
        }
        assert forall|i: int|
            #![trigger lines[i]]
            0 <= i < plain.len() implies if plain[i].len() > 0 && plain[i][plain[i].len() - 1]
            == carriage_return && (i + 1 < plain.len() || s[s.len() - 1] == newline) {
            lines[i] == plain[i].take(plain[i].len() - 1)
        } else {
            lines[i] == plain[i]
        } by {
            if i > 0 {
                assert(lines[i] == later[i - 1]);
                assert(plain[i] == plain_later[i - 1]);
                assert(rest.len() > 0);
            } else {
                assert(plain[0].drop_last() =~= plain[0].take(plain[0].len() - 1));
            }
        }
    }
}

/// The lines of a text end in `\n`, or in `\r` and `\n`.
pub proof fn law_lines_of_text(s: Seq<char>)
    ensures
        text::lines_of(s) == text::split_crlf_lines(s, '\u{a}', '\u{d}'),
{
}

/// Joining texts puts the separator between each two of them, and nothing before the first or behind
/// the last.
pub proof fn law_joined_texts(items: Seq<Seq<char>>, item: Seq<char>, separator: Seq<char>)
    ensures
        text::joined_texts(Seq::empty(), separator) == Seq::<char>::empty(),
        text::joined_texts(seq![item], separator) == item,
        items.len() > 0 ==> text::joined_texts(items.push(item), separator) == text::joined_texts(
            items,
            separator,
        ) + separator + item,
{
    assert(items.push(item).drop_last() =~= items);
}

/// The number that a text of decimal digits stands for.
pub open spec fn number_of(digits: Seq<char>) -> int
    decreases digits.len(),
{
    if digits.len() == 0 {
        0
    } else {
        10 * number_of(digits.drop_last()) + (digits.last() as int - '0' as int)
    }
}

/// A number in decimal is made of digits that stand for the number, the first of which is no zero
/// unless it is the only one.
pub proof fn law_decimal(value: nat)
    ensures
        number_of(text::decimal_of(value)) == value,
        text::decimal_of(value).len() > 0,
        text::decimal_of(value).len() > 1 ==> text::decimal_of(value)[0] != '0',
        forall|i: int|
            0 <= i < text::decimal_of(value).len() ==> '0' <= #[trigger] text::decimal_of(value)[i]
                <= '9',
    decreases value,
{
    let digits = text::decimal_of(value);
    if value < 10 {
        assert(digits.drop_last() =~= Seq::<char>::empty());
        assert(number_of(digits.drop_last()) == 0);
    } else {
        law_decimal(value / 10);
        let before = text::decimal_of(value / 10);
        assert(digits.drop_last() =~= before);
        assert(digits[0] == before[0]);
        if before.len() == 1 {
            assert(before.drop_last() =~= Seq::<char>::empty());
            assert(number_of(before.drop_last()) == 0);
            assert(number_of(before) == before[0] as int - '0' as int);
        }
        assert forall|i: int| 0 <= i < digits.len() implies '0' <= #[trigger] digits[i] <= '9' by {
            if i < before.len() {
                assert(digits[i] == before[i]);
            }
        }
    }
}

/// A text occurs in every text that is made of it with something before and behind it, and in no
/// others.
pub proof fn law_occurs_in(before: Seq<char>, needle: Seq<char>, behind: Seq<char>)
    ensures
        text::occurs_in(needle, before + needle + behind),
{
    let haystack = before + needle + behind;
    let place = before.len() as int;
    assert(haystack.subrange(place, place + needle.len()) =~= needle);
    assert(text::occurs_at(needle, haystack, place));
}

/// A text that occurs in another one leaves something before and behind it.
pub proof fn law_occurrence_splits(needle: Seq<char>, haystack: Seq<char>) -> (parts: (
    Seq<char>,
    Seq<char>,
))
    requires
        text::occurs_in(needle, haystack),
    ensures
        haystack == parts.0 + needle + parts.1,
{
    let place = choose|i: int| text::occurs_at(needle, haystack, i);
    let parts = (haystack.take(place), haystack.skip(place + needle.len()));
    assert(haystack =~= parts.0 + haystack.subrange(place, place + needle.len()) + parts.1);
    parts
}

/// Twenty-five characters are white space, and no others: those that Unicode gives that property.
pub proof fn law_white_space(ch: char)
    ensures
        text::is_white_space(ch) <==> {
            let code = ch as u32;
            ||| 0x09 <= code <= 0x0d
            ||| code == 0x20
            ||| code == 0x85
            ||| code == 0xa0
            ||| code == 0x1680
            ||| 0x2000 <= code <= 0x200a
            ||| code == 0x2028 || code == 0x2029
            ||| code == 0x202f
            ||| code == 0x205f
            ||| code == 0x3000
        },
{
}

/// A text is blank exactly if each of its characters is white space; so two texts together are blank
/// exactly if both are.
pub proof fn law_blank_texts(a: Seq<char>, b: Seq<char>, ch: char)
    ensures
        text::is_blank(Seq::empty()),
        text::is_blank(seq![ch]) <==> text::is_white_space(ch),
        text::is_blank(a + b) <==> text::is_blank(a) && text::is_blank(b),
{
    assert(seq![ch][0] == ch);
    let both = a + b;
    assert forall|i: int| 0 <= i < a.len() implies a[i] == #[trigger] both[i] by {}
    if text::is_blank(both) {
        assert forall|i: int| 0 <= i < a.len() implies text::is_white_space(#[trigger] a[i]) by {
            assert(both[i] == a[i]);
        }
        assert forall|i: int| 0 <= i < b.len() implies text::is_white_space(#[trigger] b[i]) by {
            assert(both[a.len() + i] == b[i]);
        }
    }
}

} // verus!
