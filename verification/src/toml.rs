//! Text as the basic strings of a TOML file.

use vstd::prelude::*;

verus! {

/// Whether a character is a control character: below the space, or the
/// delete character.
pub open spec fn is_control(c: char) -> bool {
    (c as u32) < 0x20 || c as u32 == 0x7f
}

/// The hexadecimal digit for a number below 16, in upper case.
pub open spec fn hex_digit_of(n: int) -> char {
    if n == 0 {
        '0'
    } else if n == 1 {
        '1'
    } else if n == 2 {
        '2'
    } else if n == 3 {
        '3'
    } else if n == 4 {
        '4'
    } else if n == 5 {
        '5'
    } else if n == 6 {
        '6'
    } else if n == 7 {
        '7'
    } else if n == 8 {
        '8'
    } else if n == 9 {
        '9'
    } else if n == 10 {
        'A'
    } else if n == 11 {
        'B'
    } else if n == 12 {
        'C'
    } else if n == 13 {
        'D'
    } else if n == 14 {
        'E'
    } else {
        'F'
    }
}

/// How one character stands inside a basic string. A double quote and a
/// backslash get a backslash in front; backspace, tab, line feed, form feed and
/// carriage return are written `\b`, `\t`, `\n`, `\f`, `\r`; any other control
/// character is written `\u00` and its two hexadecimal digits; every other
/// character stands for itself.
pub open spec fn escaped_char(c: char) -> Seq<char> {
    if c == '"' {
        seq!['\\', '"']
    } else if c == '\\' {
        seq!['\\', '\\']
    } else if c == '\u{8}' {
        seq!['\\', 'b']
    } else if c == '\t' {
        seq!['\\', 't']
    } else if c == '\n' {
        seq!['\\', 'n']
    } else if c == '\u{c}' {
        seq!['\\', 'f']
    } else if c == '\r' {
        seq!['\\', 'r']
    } else if is_control(c) {
        seq![
            '\\',
            'u',
            '0',
            '0',
            hex_digit_of((c as u32 / 16) as int),
            hex_digit_of((c as u32 % 16) as int),
        ]
    } else {
        seq![c]
    }
}

/// How a text stands inside a basic string: character by character.
pub open spec fn escaped(text: Seq<char>) -> Seq<char>
    decreases text.len(),
{
    if text.len() == 0 {
        Seq::empty()
    } else {
        escaped(text.drop_last()) + escaped_char(text.last())
    }
}

/// A text as a basic string: escaped, between double quotes.
pub open spec fn basic_string_of(text: Seq<char>) -> Seq<char> {
    seq!['"'] + escaped(text) + seq!['"']
}

/// Whether a character stands for itself inside a basic string.
pub open spec fn is_plain(c: char) -> bool {
    c != '"' && c != '\\' && !is_control(c)
}

/// A text of plain characters stands inside a basic string as it is.
pub proof fn lemma_plain_text_unchanged(text: Seq<char>)
    requires
        forall|i: int| 0 <= i < text.len() ==> is_plain(#[trigger] text[i]),
    ensures
        escaped(text) == text,
    decreases text.len(),
{
    if text.len() > 0 {
        let front = text.drop_last();
        assert forall|i: int| 0 <= i < front.len() implies is_plain(#[trigger] front[i]) by {
            assert(front[i] == text[i]);
        }
        lemma_plain_text_unchanged(front);
        assert(is_plain(text[text.len() - 1]));
        assert(escaped(text) =~= text);
    } else {
        assert(escaped(text) =~= text);
    }
}

/// Escaping goes through a text piece by piece.
pub proof fn lemma_escaped_concat(head: Seq<char>, tail: Seq<char>)
    ensures
        escaped(head + tail) == escaped(head) + escaped(tail),
    decreases tail.len(),
{
    if tail.len() == 0 {
        assert(head + tail =~= head);
        assert(escaped(head) + escaped(tail) =~= escaped(head));
    } else {
        lemma_escaped_concat(head, tail.drop_last());
        assert((head + tail).drop_last() =~= head + tail.drop_last());
        assert(escaped(head + tail) =~= escaped(head) + escaped(tail));
    }
}

/// The character that stands behind a backslash for another, if it does.
pub open spec fn escape_letter(c: char) -> Option<char> {
    if c == '"' {
        Some('"')
    } else if c == '\\' {
        Some('\\')
    } else if c == 'b' {
        Some('\u{8}')
    } else if c == 't' {
        Some('\t')
    } else if c == 'n' {
        Some('\n')
    } else if c == 'f' {
        Some('\u{c}')
    } else if c == 'r' {
        Some('\r')
    } else {
        None
    }
}

/// The number that a hexadecimal digit stands for, if it is one.
pub open spec fn hex_value_of(c: char) -> Option<int> {
    if '0' <= c <= '9' {
        Some(c as int - '0' as int)
    } else if 'A' <= c <= 'F' {
        Some(c as int - 'A' as int + 10)
    } else if 'a' <= c <= 'f' {
        Some(c as int - 'a' as int + 10)
    } else {
        None
    }
}

/// The number that the four hexadecimal digits behind `\u` stand for.
pub open spec fn code_at(text: Seq<char>) -> Option<int> {
    if text.len() >= 6 && hex_value_of(text[2]) is Some && hex_value_of(text[3]) is Some
        && hex_value_of(text[4]) is Some && hex_value_of(text[5]) is Some {
        Some(
            hex_value_of(text[2])->0 * 4096 + hex_value_of(text[3])->0 * 256 + hex_value_of(
                text[4],
            )->0 * 16 + hex_value_of(text[5])->0,
        )
    } else {
        None
    }
}

/// What a reader takes the inside of a basic string to be: the text up to the
/// first double quote without a backslash in front, each escape read as the
/// character that it stands for. The reading stops at what is no escape.
pub open spec fn unescaped(text: Seq<char>) -> Seq<char>
    decreases text.len(),
{
    if text.len() == 0 || text[0] == '"' {
        Seq::empty()
    } else if text[0] != '\\' {
        seq![text[0]] + unescaped(text.skip(1))
    } else if text.len() >= 2 && escape_letter(text[1]) is Some {
        seq![escape_letter(text[1])->0] + unescaped(text.skip(2))
    } else if text.len() >= 6 && text[1] == 'u' && code_at(text) is Some {
        seq![(code_at(text)->0 as u32) as char] + unescaped(text.skip(6))
    } else {
        Seq::empty()
    }
}

/// A reader that meets an escaped character reads the character.
pub proof fn lemma_unescaped_char(c: char, rest: Seq<char>)
    ensures
        unescaped(escaped_char(c) + rest) == seq![c] + unescaped(rest),
{
    let text = escaped_char(c) + rest;
    if c == '"' || c == '\\' || c == '\u{8}' || c == '\t' || c == '\n' || c == '\u{c}' || c
        == '\r' {
        assert(text[0] == '\\');
        assert(escape_letter(text[1]) == Some(c));
        assert(text.skip(2) =~= rest);
    } else if is_control(c) {
        let code = c as u32;
        assert(text[0] == '\\' && text[1] == 'u' && text[2] == '0' && text[3] == '0');
        assert(text[4] == hex_digit_of((code / 16) as int));
        assert(text[5] == hex_digit_of((code % 16) as int));
        assert(hex_value_of(text[4]) == Some((code / 16) as int));
        assert(hex_value_of(text[5]) == Some((code % 16) as int));
        assert(code_at(text) == Some(code as int));
        assert(text.skip(6) =~= rest);
        vstd::utf8::char_u32_cast(c, code);
    } else {
        assert(text[0] == c);
        assert(text.skip(1) =~= rest);
    }
}

/// What was written as a basic string is read back as it was, whatever
/// follows the closing quote.
pub proof fn lemma_basic_string_reads_back(text: Seq<char>, rest: Seq<char>)
    ensures
        unescaped(escaped(text) + seq!['"'] + rest) == text,
    decreases text.len(),
{
    let end = seq!['"'] + rest;
    if text.len() == 0 {
        assert(escaped(text) + seq!['"'] + rest =~= end);
        assert(unescaped(end) =~= text);
    } else {
        let tail = text.skip(1);
        assert(seq![text[0]] + tail =~= text);
        assert(escaped(seq![text[0]]) =~= escaped_char(text[0])) by {
            let one = seq![text[0]];
            assert(one.drop_last() =~= Seq::<char>::empty());
            assert(escaped(one.drop_last()) =~= Seq::<char>::empty());
            assert(one.last() == text[0]);
        }
        lemma_escaped_concat(seq![text[0]], tail);
        assert(escaped(text) + seq!['"'] + rest =~= escaped_char(text[0]) + (escaped(tail)
            + seq!['"'] + rest));
        lemma_unescaped_char(text[0], escaped(tail) + seq!['"'] + rest);
        lemma_basic_string_reads_back(tail, rest);
    }
}

/// The hexadecimal digit for a number below 16, as text.
fn hex_digit(n: u32) -> (digit: &'static str)
    requires
        n < 16,
    ensures
        digit@ == seq![hex_digit_of(n as int)],
{
    proof {
        reveal_strlit("0");
        reveal_strlit("1");
        reveal_strlit("2");
        reveal_strlit("3");
        reveal_strlit("4");
        reveal_strlit("5");
        reveal_strlit("6");
        reveal_strlit("7");
        reveal_strlit("8");
        reveal_strlit("9");
        reveal_strlit("A");
        reveal_strlit("B");
        reveal_strlit("C");
        reveal_strlit("D");
        reveal_strlit("E");
        reveal_strlit("F");
    }
    let digit: &'static str = if n == 0 {
        "0"
    } else if n == 1 {
        "1"
    } else if n == 2 {
        "2"
    } else if n == 3 {
        "3"
    } else if n == 4 {
        "4"
    } else if n == 5 {
        "5"
    } else if n == 6 {
        "6"
    } else if n == 7 {
        "7"
    } else if n == 8 {
        "8"
    } else if n == 9 {
        "9"
    } else if n == 10 {
        "A"
    } else if n == 11 {
        "B"
    } else if n == 12 {
        "C"
    } else if n == 13 {
        "D"
    } else if n == 14 {
        "E"
    } else {
        "F"
    };
    assert(digit@ =~= seq![hex_digit_of(n as int)]);
    digit
}

/// Appends the `i`-th character of `text`, which has `len` characters, as it
/// stands inside a basic string.
fn push_escaped(out: &mut String, text: &str, len: usize, i: usize, c: char)
    requires
        len == text@.len(),
        i < len,
        text@[i as int] == c,
    ensures
        final(out)@ == old(out)@ + escaped_char(c),
{
    proof {
        reveal_strlit("\\\"");
        reveal_strlit("\\\\");
        reveal_strlit("\\b");
        reveal_strlit("\\t");
        reveal_strlit("\\n");
        reveal_strlit("\\f");
        reveal_strlit("\\r");
        reveal_strlit("\\u00");
    }
    let code: u32 = c as u32;
    if c == '"' {
        out.append("\\\"");
    } else if c == '\\' {
        out.append("\\\\");
    } else if c == '\u{8}' {
        out.append("\\b");
    } else if c == '\t' {
        out.append("\\t");
    } else if c == '\n' {
        out.append("\\n");
    } else if c == '\u{c}' {
        out.append("\\f");
    } else if c == '\r' {
        out.append("\\r");
    } else if code < 0x20 || code == 0x7f {
        out.append("\\u00");
        out.append(hex_digit(code / 16));
        out.append(hex_digit(code % 16));
    } else {
        out.append(text.substring_char(i, i + 1));
    }
    assert(out@ =~= old(out)@ + escaped_char(c));
}

/// A text as it stands inside a basic string.
pub fn escape(text: &str) -> (out: String)
    ensures
        out@ == escaped(text@),
{
    let mut out = String::new();
    let mut i: usize = 0;
    let count: usize = text.unicode_len();
    for c in it: text.chars()
        invariant
            i == it.index(),
            it.seq() == text@,
            count == text@.len(),
            i <= count,
            out@ == escaped(text@.take(i as int)),
    {
        assert(text@.take(i + 1).drop_last() == text@.take(i as int));
        push_escaped(&mut out, text, count, i, c);
        i = i + 1;
    }
    assert(text@.take(i as int) == text@);
    out
}

/// A text as a basic string.
pub fn basic_string(text: &str) -> (out: String)
    ensures
        out@ == basic_string_of(text@),
{
    proof {
        reveal_strlit("\"");
    }
    let mut out = String::from_str("\"");
    let inner = escape(text);
    out.append(inner.as_str());
    out.append("\"");
    assert(out@ =~= basic_string_of(text@));
    out
}

} // verus!
