//! What holds of notifications as a whole.
use vstd::prelude::*;

use crate::notification_log;
use crate::notifier;
use crate::text;

verus! {

/// How a script reads a string literal: from behind its opening quote up to the first quote that no
/// backslash stands before. Gives what the literal says and what follows it.
pub open spec fn read_literal(source: Seq<char>) -> (Seq<char>, Seq<char>)
    decreases source.len(),
{
    if source.len() == 0 {
        (Seq::empty(), Seq::empty())
    } else if source[0] == '"' {
        (Seq::empty(), source.skip(1))
    } else if source[0] == '\\' && source.len() > 1 {
        let (content, rest) = read_literal(source.skip(2));
        (seq![source[1]] + content, rest)
    } else {
        let (content, rest) = read_literal(source.skip(1));
        (seq![source[0]] + content, rest)
    }
}

/// Escaping goes character by character.
proof fn lemma_escaped_start(value: Seq<char>)
    requires
        value.len() > 0,
    ensures
        notifier::escaped(value) == notifier::escaped_char(value[0]) + notifier::escaped(
            value.drop_first(),
        ),
    decreases value.len(),
{
    if value.len() == 1 {
        assert(value.drop_last() =~= Seq::empty());
        assert(value.drop_first() =~= Seq::empty());
        assert(notifier::escaped(value) =~= notifier::escaped_char(value[0]) + notifier::escaped(
            value.drop_first(),
        ));
    } else {
        let middle = value.drop_first().drop_last();
        lemma_escaped_start(value.drop_last());
        assert(value.drop_last().drop_first() =~= middle);
        assert(notifier::escaped(value) =~= notifier::escaped_char(value[0]) + notifier::escaped(
            value.drop_first(),
        ));
    }
}

/// A text that is escaped and put in quotes is read back as that text, and what follows the
/// closing quote is left: no text ends its literal early or reaches beyond it.
pub proof fn law_escaped_text_is_read_back(value: Seq<char>, following: Seq<char>)
    ensures
        read_literal(notifier::escaped(value) + seq!['"'] + following) == (value, following),
    decreases value.len(),
{
    let source = notifier::escaped(value) + seq!['"'] + following;
    if value.len() == 0 {
        assert(notifier::escaped(value) =~= Seq::empty());
        assert(source[0] == '"');
        assert(source.skip(1) =~= following);
        assert(value =~= Seq::empty());
    } else {
        let rest = value.drop_first();
        let later = notifier::escaped(rest) + seq!['"'] + following;
        lemma_escaped_start(value);
        law_escaped_text_is_read_back(rest, following);
        let first = notifier::escaped_char(value[0]);
        assert(source =~= first + later);
        assert(source.skip(first.len() as int) =~= later);
        assert(seq![value[0]] + rest =~= value);
        if value[0] == '\\' || value[0] == '"' {
            assert(source[0] == '\\' && source[1] == value[0]);
        } else {
            assert(source[0] == value[0]);
        }
    }
}

/// A text in quotes at the start of a script is read back as that text.
proof fn lemma_quoted_is_read_back(value: Seq<char>, following: Seq<char>)
    ensures
        (notifier::quoted(value) + following)[0] == '"',
        read_literal((notifier::quoted(value) + following).skip(1)) == (value, following),
{
    law_escaped_text_is_read_back(value, following);
    assert((notifier::quoted(value) + following).skip(1) =~= notifier::escaped(value) + seq!['"']
        + following);
}

/// A script goes on with some words and a string literal, which says `value`, and then with `rest`.
pub open spec fn reads(
    script: Seq<char>,
    words: Seq<char>,
    value: Seq<char>,
    rest: Seq<char>,
) -> bool {
    &&& (words + seq!['"']).is_prefix_of(script)
    &&& read_literal(script.skip(words.len() as int + 1)) == (value, rest)
}

/// Words and a text in quotes are read back.
proof fn lemma_reads(script: Seq<char>, words: Seq<char>, value: Seq<char>, rest: Seq<char>)
    requires
        script == words + notifier::quoted(value) + rest,
    ensures
        reads(script, words, value, rest),
{
    lemma_quoted_is_read_back(value, rest);
    let opening = words + seq!['"'];
    assert(script.take(opening.len() as int) =~= opening);
    assert(script.skip(words.len() as int + 1) =~= (notifier::quoted(value) + rest).skip(1));
}

/// The script of a notification shows message, title, subtitle and sound as they are, whatever
/// characters they hold, in this order and with nothing behind them. A blank subtitle or sound is
/// left out.
pub proof fn law_script_carries_its_texts(
    title: Seq<char>,
    subtitle: Seq<char>,
    body: Seq<char>,
    sound: Seq<char>,
)
    ensures
        ({
            let script = notifier::notification_script(title, subtitle, body, sound);
            let after_message = read_literal(script.skip("display notification "@.len() as int + 1)).1;
            let after_title = read_literal(after_message.skip(" with title "@.len() as int + 1)).1;
            let after_subtitle = if text::is_blank(subtitle) {
                after_title
            } else {
                read_literal(after_title.skip(" subtitle "@.len() as int + 1)).1
            };
            &&& reads(script, "display notification "@, body, after_message)
            &&& reads(after_message, " with title "@, title, after_title)
            &&& !text::is_blank(subtitle) ==> reads(
                after_title,
                " subtitle "@,
                subtitle,
                after_subtitle,
            )
            &&& if text::is_blank(sound) {
                after_subtitle.len() == 0
            } else {
                reads(after_subtitle, " sound name "@, sound, Seq::empty())
            }
        }),
{
    let script = notifier::notification_script(title, subtitle, body, sound);
    let sound_part = if text::is_blank(sound) {
        Seq::empty()
    } else {
        " sound name "@ + notifier::quoted(sound)
    };
    let subtitle_part = if text::is_blank(subtitle) {
        Seq::empty()
    } else {
        " subtitle "@ + notifier::quoted(subtitle)
    };
    let third = subtitle_part + sound_part;
    let second = " with title "@ + notifier::quoted(title) + third;
    assert(script =~= "display notification "@ + notifier::quoted(body) + second);
    lemma_reads(script, "display notification "@, body, second);
    lemma_reads(second, " with title "@, title, third);
    if text::is_blank(subtitle) {
        assert(third =~= sound_part);
    } else {
        lemma_reads(third, " subtitle "@, subtitle, sound_part);
    }
    if !text::is_blank(sound) {
        assert(sound_part =~= " sound name "@ + notifier::quoted(sound) + Seq::<char>::empty());
        lemma_reads(sound_part, " sound name "@, sound, Seq::empty());
    }
}

/// A line with a marker is found exactly if there is one, and it holds the marker.
proof fn lemma_first_line_with(lines: Seq<Seq<char>>, marker: Seq<char>)
    ensures
        notification_log::first_line_with(lines, marker) is Some <==> exists|i: int|
            0 <= i < lines.len() && text::occurs_in(marker, #[trigger] lines[i]),
        notification_log::first_line_with(lines, marker) matches Some(line) ==> lines.contains(line)
            && text::occurs_in(marker, line),
    decreases lines.len(),
{
    if lines.len() > 0 {
        let rest = lines.drop_last();
        lemma_first_line_with(rest, marker);
        assert(lines[lines.len() - 1] == lines.last());
        assert forall|i: int| 0 <= i < rest.len() implies #[trigger] rest[i] == lines[i] by {}
        if notification_log::first_line_with(rest, marker) is Some {
            let i = choose|i: int|
                0 <= i < rest.len() && text::occurs_in(marker, #[trigger] rest[i]);
            assert(text::occurs_in(marker, lines[i]));
            let line = notification_log::first_line_with(rest, marker)->0;
            let j = choose|j: int| 0 <= j < rest.len() && rest[j] == line;
            assert(lines[j] == line);
        } else if exists|i: int|
            0 <= i < lines.len() && text::occurs_in(marker, #[trigger] lines[i]) {
            let i = choose|i: int|
                0 <= i < lines.len() && text::occurs_in(marker, #[trigger] lines[i]);
            if i < rest.len() {
                assert(text::occurs_in(marker, rest[i]));
            }
        }
    }
}

/// Each marker is either missing or has its line.
proof fn lemma_markers_are_sorted_out(lines: Seq<Seq<char>>, markers: Seq<Seq<char>>)
    ensures
        notification_log::matched_lines(lines, markers).len() + notification_log::missing_markers(
            lines,
            markers,
        ).len() == markers.len(),
        notification_log::missing_markers(lines, markers).len() == 0 <==> forall|m: int|
            0 <= m < markers.len() ==> notification_log::first_line_with(
                lines,
                #[trigger] markers[m],
            ) is Some,
    decreases markers.len(),
{
    if markers.len() > 0 {
        let rest = markers.drop_last();
        lemma_markers_are_sorted_out(lines, rest);
        assert(markers[markers.len() - 1] == markers.last());
        assert forall|m: int| 0 <= m < rest.len() implies #[trigger] markers[m] == rest[m] by {}
        if notification_log::missing_markers(lines, markers).len() == 0 {
            assert forall|m: int| 0 <= m < markers.len() implies notification_log::first_line_with(
                lines,
                #[trigger] markers[m],
            ) is Some by {
                if m < rest.len() {
                    assert(notification_log::first_line_with(lines, rest[m]) is Some);
                }
            }
        } else if notification_log::missing_markers(lines, rest).len() > 0 {
            let m = choose|m: int|
                0 <= m < rest.len() && notification_log::first_line_with(
                    lines,
                    #[trigger] rest[m],
                ) is None;
            assert(notification_log::first_line_with(lines, markers[m]) is None);
        }
    }
}

/// A delivery is verified exactly if the log could be read and each required marker occurs in one
/// of its lines; and each required marker is either reported missing or shown with a line.
pub proof fn law_markers_decide(
    predicate: Seq<char>,
    command_success: bool,
    stdout: Seq<char>,
    stderr: Seq<char>,
)
    ensures
        ({
            let report = notification_log::log_analysis(predicate, command_success, stdout, stderr);
            let lines = text::lines_of(stdout);
            let markers = notification_log::required_markers();
            &&& report.success <==> command_success && forall|m: int|
                0 <= m < markers.len() ==> exists|i: int|
                    0 <= i < lines.len() && text::occurs_in(
                        #[trigger] markers[m],
                        #[trigger] lines[i],
                    )
            &&& report.success <==> report.error is None
            &&& report.matched_lines.len() + report.missing_markers.len() == markers.len()
        }),
{
    let lines = text::lines_of(stdout);
    let markers = notification_log::required_markers();
    lemma_markers_are_sorted_out(lines, markers);
    assert forall|m: int| 0 <= m < markers.len() implies (notification_log::first_line_with(
        lines,
        #[trigger] markers[m],
    ) is Some <==> exists|i: int|
        0 <= i < lines.len() && text::occurs_in(markers[m], #[trigger] lines[i])) by {
        lemma_first_line_with(lines, markers[m]);
    }
}

} // verus!
