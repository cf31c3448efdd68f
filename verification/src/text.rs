//! Splitting the text of a procfs file into lines, words and numbers.
//!
//! The specification functions describe text as a sequence of characters; the
//! executable functions work on slices of characters.
use vstd::prelude::*;
use vstd::slice::slice_subrange;

verus! {

/// The Unicode `White_Space` property.
pub open spec fn is_white_space(c: char) -> bool {
    ||| '\u{9}' <= c <= '\u{d}'
    ||| c == ' '
    ||| c == '\u{85}'
    ||| c == '\u{a0}'
    ||| c == '\u{1680}'
    ||| '\u{2000}' <= c <= '\u{200a}'
    ||| c == '\u{2028}'
    ||| c == '\u{2029}'
    ||| c == '\u{202f}'
    ||| c == '\u{205f}'
    ||| c == '\u{3000}'
}

/// The kinds of character at which text is cut.
#[derive(Clone, Copy, Debug, PartialEq, Eq, Structural)]
pub enum CharClass {
    /// `\n`.
    LineFeed,
    /// `-`.
    Hyphen,
    /// White space.
    Blank,
    /// Anything but white space.
    Visible,
}

impl CharClass {
    /// Whether `c` is of this class.
    pub open spec fn spec_contains(self, c: char) -> bool {
        match self {
            CharClass::LineFeed => c == '\n',
            CharClass::Hyphen => c == '-',
            CharClass::Blank => is_white_space(c),
            CharClass::Visible => !is_white_space(c),
        }
    }

    /// Whether `c` is of this class.
    #[verifier::when_used_as_spec(spec_contains)]
    pub fn contains(self, c: char) -> (yes: bool)
        ensures
            yes == self.spec_contains(c),
    {
        match self {
            CharClass::LineFeed => c == '\n',
            CharClass::Hyphen => c == '-',
            CharClass::Blank => white_space(c),
            CharClass::Visible => !white_space(c),
        }
    }
}

/// Whether `c` has the Unicode `White_Space` property.
fn white_space(c: char) -> (yes: bool)
    ensures
        yes == is_white_space(c),
{
    match c {
        '\u{9}'..='\u{d}' | ' ' | '\u{85}' | '\u{a0}' | '\u{1680}' => true,
        '\u{2000}'..='\u{200a}' | '\u{2028}' | '\u{2029}' | '\u{202f}' => true,
        '\u{205f}' | '\u{3000}' => true,
        _ => false,
    }
}

/// The index of the first character of `class` at or after `from`, or the
/// length of the text if there is none.
pub open spec fn find_from(text: Seq<char>, from: nat, class: CharClass) -> nat
    decreases text.len() - from,
{
    if from >= text.len() {
        text.len()
    } else if class.spec_contains(text[from as int]) {
        from
    } else {
        find_from(text, from + 1, class)
    }
}

/// `find_from` stops at the first character of the class: nothing of the class
/// stands between `from` and the index, and the index is that of such a
/// character unless it is the end of the text.
pub proof fn find_from_is_first(text: Seq<char>, from: nat, class: CharClass)
    requires
        from <= text.len(),
    ensures
        from <= find_from(text, from, class) <= text.len(),
        forall|i: int|
            from <= i < find_from(text, from, class) ==> !class.spec_contains(#[trigger] text[i]),
        find_from(text, from, class) < text.len() ==> class.spec_contains(
            text[find_from(text, from, class) as int],
        ),
    decreases text.len() - from,
{
    if from < text.len() && !class.spec_contains(text[from as int]) {
        find_from_is_first(text, from + 1, class);
    }
}

/// Finds the first character of `class` at or after `from`.
pub fn find(text: &[char], from: usize, class: CharClass) -> (index: usize)
    requires
        from <= text@.len(),
    ensures
        index == find_from(text@, from as nat, class),
        from <= index <= text@.len(),
{
    let mut index: usize = from;
    while index < text.len() && !class.contains(text[index])
        invariant
            from <= index <= text@.len(),
            find_from(text@, from as nat, class) == find_from(text@, index as nat, class),
        decreases text@.len() - index,
    {
        index = index + 1;
    }
    index
}

/// A line without the carriage return that belongs to its line ending.
pub open spec fn without_carriage_return(line: Seq<char>) -> Seq<char> {
    if line.len() > 0 && line.last() == '\r' {
        line.drop_last()
    } else {
        line
    }
}

/// The lines of a text, without their endings. A line ends in `\n` or `\r\n`;
/// the last line need not have an ending, and a carriage return that no `\n`
/// follows is part of its line.
pub open spec fn lines_of(text: Seq<char>) -> Seq<Seq<char>>
    decreases text.len(),
{
    let end = find_from(text, 0, CharClass::LineFeed);
    if text.len() == 0 {
        Seq::empty()
    } else if end >= text.len() {
        seq![text]
    } else {
        seq![without_carriage_return(text.take(end as int))] + lines_of(text.skip(end as int + 1))
    }
}

/// The words of a line: its longest runs of characters that are not white
/// space, from left to right.
pub open spec fn words_of(line: Seq<char>) -> Seq<Seq<char>>
    decreases line.len(),
{
    let start = find_from(line, 0, CharClass::Visible);
    let end = find_from(line, start, CharClass::Blank);
    if start >= line.len() {
        Seq::empty()
    } else {
        proof {
            find_from_is_first(line, 0, CharClass::Visible);
            find_from_is_first(line, start, CharClass::Blank);
        }
        seq![line.subrange(start as int, end as int)] + words_of(line.skip(end as int))
    }
}

/// The texts that a vector of slices holds.
pub open spec fn views(slices: Seq<&[char]>) -> Seq<Seq<char>> {
    Seq::new(slices.len(), |i: int| slices[i]@)
}

/// Copies the characters of a string.
pub fn chars_of(text: &str) -> (chars: Vec<char>)
    ensures
        chars@ == text@,
{
    let mut chars: Vec<char> = Vec::new();
    for c in it: text.chars()
        invariant
            chars@ == it.seq().take(it.index() as int),
            it.seq() == text@,
    {
        chars.push(c);
    }
    chars
}

/// Splits a text into its lines.
pub fn split_lines<'a>(text: &'a [char]) -> (lines: Vec<&'a [char]>)
    ensures
        views(lines@) == lines_of(text@),
{
    let mut lines: Vec<&'a [char]> = Vec::new();
    let mut done: usize = 0;
    assert(text@.skip(0) == text@);
    while done < text.len()
        invariant
            done <= text@.len(),
            lines_of(text@) == views(lines@) + lines_of(text@.skip(done as int)),
        decreases text@.len() - done,
    {
        let ghost before = views(lines@);
        let rest = slice_subrange(text, done, text.len());
        assert(rest@ == text@.skip(done as int));
        let end: usize = find(rest, 0, CharClass::LineFeed);
        if end == rest.len() {
            lines.push(rest);
            assert(views(lines@) == before.push(rest@));
            done = text.len();
        } else {
            let stop: usize = if end > 0 && rest[end - 1] == '\r' {
                end - 1
            } else {
                end
            };
            let line = slice_subrange(rest, 0, stop);
            assert(line@ == without_carriage_return(rest@.take(end as int)));
            lines.push(line);
            assert(views(lines@) == before.push(line@));
            assert(rest@.skip(end + 1) == text@.skip(done + end + 1));
            done = done + end + 1;
        }
    }
    lines
}

/// Splits a line into its words.
pub fn split_words<'a>(line: &'a [char]) -> (words: Vec<&'a [char]>)
    ensures
        views(words@) == words_of(line@),
{
    let mut words: Vec<&'a [char]> = Vec::new();
    let mut rest = line;
    loop
        invariant
            words_of(line@) == views(words@) + words_of(rest@),
        ensures
            words_of(rest@) == Seq::<Seq<char>>::empty(),
        decreases rest@.len(),
    {
        let ghost before = views(words@);
        let start: usize = find(rest, 0, CharClass::Visible);
        if start == rest.len() {
            break;
        }
        let end: usize = find(rest, start, CharClass::Blank);
        proof {
            find_from_is_first(rest@, 0, CharClass::Visible);
            find_from_is_first(rest@, start as nat, CharClass::Blank);
        }
        let word = slice_subrange(rest, start, end);
        words.push(word);
        assert(views(words@) == before.push(word@));
        rest = slice_subrange(rest, end, rest.len());
    }
    words
}

/// The value of an ASCII digit or letter as a digit in `radix`, letters of
/// either case standing for ten and up.
pub open spec fn digit_value(c: char, radix: nat) -> Option<nat> {
    let value = if '0' <= c <= '9' {
        (c as int - '0' as int) as nat
    } else if 'a' <= c <= 'z' {
        (c as int - 'a' as int + 10) as nat
    } else if 'A' <= c <= 'Z' {
        (c as int - 'A' as int + 10) as nat
    } else {
        radix
    };
    if value < radix {
        Some(value)
    } else {
        None
    }
}

/// The number that a row of digits denotes in `radix`, most significant digit
/// first; `None` if one of the characters is no digit.
pub open spec fn numeral_value(digits: Seq<char>, radix: nat) -> Option<nat>
    decreases digits.len(),
{
    if digits.len() == 0 {
        Some(0)
    } else {
        match (numeral_value(digits.drop_last(), radix), digit_value(digits.last(), radix)) {
            (Some(high), Some(low)) => Some(high * radix + low),
            _ => None,
        }
    }
}

/// The digits of an unsigned number, which one `+` may precede.
pub open spec fn digits_of(text: Seq<char>) -> Seq<char> {
    if text.len() > 0 && text[0] == '+' {
        text.skip(1)
    } else {
        text
    }
}

/// The unsigned number that `text` spells in `radix`: an optional `+`, then at
/// least one digit and nothing else, with a value that fits in a `usize`.
pub open spec fn unsigned_value(text: Seq<char>, radix: nat) -> Option<usize> {
    let digits = digits_of(text);
    match numeral_value(digits, radix) {
        Some(value) if digits.len() > 0 && value <= usize::MAX => Some(value as usize),
        _ => None,
    }
}

/// A number is at least as large as any of its leading parts.
proof fn lemma_numeral_prefix(digits: Seq<char>, count: int, radix: nat)
    requires
        0 <= count <= digits.len(),
        radix >= 1,
        numeral_value(digits, radix) is Some,
    ensures
        numeral_value(digits.take(count), radix) is Some,
        numeral_value(digits.take(count), radix)->0 <= numeral_value(digits, radix)->0,
    decreases digits.len(),
{
    if count == digits.len() {
        assert(digits.take(count) == digits);
    } else {
        lemma_numeral_prefix(digits.drop_last(), count, radix);
        assert(digits.drop_last().take(count) == digits.take(count));
        let high = numeral_value(digits.drop_last(), radix)->0;
        assert(high <= high * radix) by (nonlinear_arith)
            requires
                radix >= 1,
        ;
    }
}

/// Reads one digit.
fn read_digit(c: char, radix: u32) -> (value: Option<u32>)
    requires
        radix <= 36,
    ensures
        match value {
            Some(v) => digit_value(c, radix as nat) == Some(v as nat),
            None => digit_value(c, radix as nat) is None,
        },
{
    let value: u32 = if '0' <= c && c <= '9' {
        c as u32 - '0' as u32
    } else if 'a' <= c && c <= 'z' {
        c as u32 - 'a' as u32 + 10
    } else if 'A' <= c && c <= 'Z' {
        c as u32 - 'A' as u32 + 10
    } else {
        radix
    };
    if value < radix {
        Some(value)
    } else {
        None
    }
}

/// Reads an unsigned number in `radix`.
pub fn read_unsigned(text: &[char], radix: u32) -> (value: Option<usize>)
    requires
        2 <= radix <= 36,
    ensures
        value == unsigned_value(text@, radix as nat),
{
    let digits = if text.len() > 0 && text[0] == '+' {
        slice_subrange(text, 1, text.len())
    } else {
        text
    };
    assert(digits@ == digits_of(text@));
    if digits.len() == 0 {
        return None;
    }
    let mut value: usize = 0;
    let mut count: usize = 0;
    assert(numeral_value(digits@.take(0), radix as nat) == Some(0nat));
    while count < digits.len()
        invariant
            2 <= radix <= 36,
            digits@ == digits_of(text@),
            digits@.len() > 0,
            count <= digits@.len(),
            numeral_value(digits@.take(count as int), radix as nat) == Some(value as nat),
        decreases digits@.len() - count,
    {
        let ghost next = digits@.take(count + 1);
        assert(next.drop_last() == digits@.take(count as int));
        assert(next.last() == digits@[count as int]);
        proof {
            if numeral_value(digits@, radix as nat) is Some {
                lemma_numeral_prefix(digits@, count + 1, radix as nat);
            }
        }
        let digit: usize = match read_digit(digits[count], radix) {
            Some(digit) => digit as usize,
            None => {
                return None;
            },
        };
        let shifted: usize = match value.checked_mul(radix as usize) {
            Some(shifted) => shifted,
            None => {
                return None;
            },
        };
        value = match shifted.checked_add(digit) {
            Some(sum) => sum,
            None => {
                return None;
            },
        };
        count = count + 1;
    }
    assert(digits@.take(count as int) == digits@);
    Some(value)
}

/// Whether a text begins with `prefix`.
pub fn begins_with(text: &[char], prefix: &str) -> (yes: bool)
    ensures
        yes == prefix@.is_prefix_of(text@),
{
    let wanted = chars_of(prefix);
    if wanted.len() > text.len() {
        return false;
    }
    let mut count: usize = 0;
    while count < wanted.len()
        invariant
            wanted@ == prefix@,
            count <= wanted@.len() <= text@.len(),
            forall|i: int| 0 <= i < count ==> wanted@[i] == text@[i],
        decreases wanted@.len() - count,
    {
        if wanted[count] != text[count] {
            assert(text@.subrange(0, prefix@.len() as int)[count as int] == text@[count as int]);
            return false;
        }
        count = count + 1;
    }
    true
}

/// Whether a text is the same as `word`.
pub fn is_word(text: &[char], word: &str) -> (yes: bool)
    ensures
        yes == (text@ == word@),
{
    let wanted = chars_of(word);
    assert(text@.subrange(0, text@.len() as int) == text@);
    wanted.len() == text.len() && begins_with(text, word)
}

/// White space, by code point: the controls from tab to carriage return, the
/// space, the next line and no-break space, the Ogham space mark, the spaces
/// from U+2000 to U+200A, the line and paragraph separators, the narrow
/// no-break and medium mathematical space, and the ideographic space.
pub proof fn white_space_by_code_point(c: char)
    ensures
        is_white_space(c) <==> {
            let code = c as int;
            ||| 9 <= code <= 13
            ||| code == 32 || code == 133 || code == 160 || code == 5760
            ||| 8192 <= code <= 8202
            ||| code == 8232 || code == 8233 || code == 8239 || code == 8287 || code == 12288
        },
{
}

/// Which characters each class has.
pub proof fn classes_by_character(c: char)
    ensures
        CharClass::LineFeed.spec_contains(c) <==> c as int == 10,
        CharClass::Hyphen.spec_contains(c) <==> c as int == 45,
        CharClass::Blank.spec_contains(c) <==> is_white_space(c),
        CharClass::Visible.spec_contains(c) <==> !is_white_space(c),
{
}

/// `views` shows each slice, in order.
pub proof fn views_are_the_slices(slices: Seq<&[char]>)
    ensures
        views(slices).len() == slices.len(),
        forall|i: int| 0 <= i < slices.len() ==> #[trigger] views(slices)[i] == slices[i]@,
{
}

/// Where `find_from` stops: at `index`, if nothing of the class stands before
/// it and the text ends or has such a character there.
proof fn lemma_find_from_stops(text: Seq<char>, from: nat, class: CharClass, index: nat)
    requires
        from <= index <= text.len(),
        forall|i: int| from <= i < index ==> !class.spec_contains(#[trigger] text[i]),
        index < text.len() ==> class.spec_contains(text[index as int]),
    ensures
        find_from(text, from, class) == index,
    decreases index - from,
{
    if from < index {
        lemma_find_from_stops(text, from + 1, class, index);
    }
}

/// A text without a line feed is one line, with any carriage return in it, or
/// none if it is empty.
pub proof fn text_without_line_feed_is_one_line(text: Seq<char>)
    requires
        !text.contains('\n'),
    ensures
        text.len() == 0 ==> lines_of(text).len() == 0,
        text.len() > 0 ==> lines_of(text) == seq![text],
{
    lemma_find_from_stops(text, 0, CharClass::LineFeed, text.len());
}

/// A line feed ends the line before it, together with one carriage return
/// directly before it, whatever follows.
pub proof fn line_feed_ends_a_line(line: Seq<char>, rest: Seq<char>)
    requires
        !line.contains('\n'),
    ensures
        lines_of(line + seq!['\n'] + rest) == seq![
            if line.len() > 0 && line.last() == '\r' {
                line.drop_last()
            } else {
                line
            },
        ] + lines_of(rest),
{
    let text = line + seq!['\n'] + rest;
    assert forall|i: int| 0 <= i < line.len() implies !CharClass::LineFeed.spec_contains(
        #[trigger] text[i],
    ) by {
        assert(text[i] == line[i]);
    }
    assert(text[line.len() as int] == '\n');
    lemma_find_from_stops(text, 0, CharClass::LineFeed, line.len());
    assert(text.take(line.len() as int) == line);
    assert(text.skip(line.len() as int + 1) == rest);
}

/// Cuts a text that has a line feed at the first one.
proof fn lemma_cut_at_line_feed(text: Seq<char>) -> (parts: (Seq<char>, Seq<char>))
    requires
        text.contains('\n'),
    ensures
        text == parts.0 + seq!['\n'] + parts.1,
        !parts.0.contains('\n'),
        parts.1.len() < text.len(),
{
    let at = find_from(text, 0, CharClass::LineFeed) as int;
    find_from_is_first(text, 0, CharClass::LineFeed);
    if at >= text.len() {
        let i = text.index_of('\n');
        assert(!CharClass::LineFeed.spec_contains(text[i]));
    }
    let line = text.take(at);
    assert forall|i: int| 0 <= i < line.len() implies line[i] != '\n' by {
        assert(!CharClass::LineFeed.spec_contains(text[i]));
    }
    assert(text =~= line + seq!['\n'] + text.skip(at + 1));
    (line, text.skip(at + 1))
}

/// Lines do not depend on what other lines stand before or after them: where a
/// text is cut behind a line feed, its lines are those of the two parts.
pub proof fn lines_of_parts(first: Seq<char>, rest: Seq<char>)
    requires
        first.len() > 0 ==> first.last() == '\n',
    ensures
        lines_of(first + rest) == lines_of(first) + lines_of(rest),
    decreases first.len(),
{
    if first.len() == 0 {
        assert(first + rest == rest);
        text_without_line_feed_is_one_line(first);
        assert(lines_of(first) + lines_of(rest) == lines_of(rest));
    } else {
        assert(first.contains(first[first.len() - 1]));
        let (line, more) = lemma_cut_at_line_feed(first);
        if more.len() > 0 {
            assert(more.last() == first.last());
        }
        lines_of_parts(more, rest);
        line_feed_ends_a_line(line, more);
        line_feed_ends_a_line(line, more + rest);
        assert(first + rest == line + seq!['\n'] + (more + rest));
        assert(lines_of(first + rest) == lines_of(first) + lines_of(rest));
    }
}

/// Each line with its ending put back.
pub open spec fn with_endings(lines: Seq<Seq<char>>, endings: Seq<Seq<char>>) -> Seq<Seq<char>> {
    Seq::new(lines.len(), |i: int| lines[i] + endings[i])
}

/// Splitting into lines loses nothing. The lines with the returned endings put
/// back make up the whole text; no line has a line feed in it; an ending is
/// `\r\n`, or `\n` behind a line that does not end in a carriage return, or
/// nothing behind a last line that has characters.
pub proof fn splitting_into_lines_loses_nothing(text: Seq<char>) -> (endings: Seq<Seq<char>>)
    ensures
        endings.len() == lines_of(text).len(),
        with_endings(lines_of(text), endings).flatten() == text,
        forall|i: int|
            0 <= i < lines_of(text).len() ==> !(#[trigger] lines_of(text)[i]).contains('\n'),
        forall|i: int|
            0 <= i < endings.len() ==> {
                let line = lines_of(text)[i];
                ||| #[trigger] endings[i] == seq!['\r', '\n']
                ||| endings[i] == seq!['\n'] && !(line.len() > 0 && line.last() == '\r')
                ||| endings[i].len() == 0 && line.len() > 0 && i == endings.len() - 1
            },
    decreases text.len(),
{
    let lines = lines_of(text);
    if !text.contains('\n') {
        text_without_line_feed_is_one_line(text);
        if text.len() == 0 {
            let endings = Seq::<Seq<char>>::empty();
            assert(with_endings(lines, endings) =~= Seq::<Seq<char>>::empty());
            assert(with_endings(lines, endings).flatten() =~= text);
            endings
        } else {
            let endings = seq![Seq::<char>::empty()];
            assert(with_endings(lines, endings) =~= seq![text]);
            seq![text].lemma_flatten_one_element();
            endings
        }
    } else {
        let (line, rest) = lemma_cut_at_line_feed(text);
        line_feed_ends_a_line(line, rest);
        let more = splitting_into_lines_loses_nothing(rest);
        let returned = line.len() > 0 && line.last() == '\r';
        let ending = if returned {
            seq!['\r', '\n']
        } else {
            seq!['\n']
        };
        let endings = seq![ending] + more;
        let whole = with_endings(lines, endings);
        assert(lines[0] + ending =~= line + seq!['\n']);
        assert(whole.drop_first() =~= with_endings(lines_of(rest), more));
        assert(whole.first() == line + seq!['\n']);
        assert(whole.flatten() == whole.first() + whole.drop_first().flatten());
        assert forall|i: int| 0 <= i < lines.len() implies !(#[trigger] lines[i]).contains(
            '\n',
        ) by {
            if i == 0 {
                assert forall|j: int| 0 <= j < lines[0].len() implies lines[0][j] != '\n' by {
                    assert(line.contains(line[j]));
                }
            } else {
                assert(lines[i] == lines_of(rest)[i - 1]);
            }
        }
        assert forall|i: int| 0 <= i < endings.len() implies {
            let line = lines[i];
            ||| #[trigger] endings[i] == seq!['\r', '\n']
            ||| endings[i] == seq!['\n'] && !(line.len() > 0 && line.last() == '\r')
            ||| endings[i].len() == 0 && line.len() > 0 && i == endings.len() - 1
        } by {
            if i > 0 {
                assert(endings[i] == more[i - 1]);
                assert(lines[i] == lines_of(rest)[i - 1]);
            }
        }
        endings
    }
}

/// There are as many lines as line feeds, and one more if characters follow
/// the last line feed.
pub proof fn one_line_per_line_feed(text: Seq<char>)
    ensures
        lines_of(text).len() == text.to_multiset().count('\n') + (if text.len() > 0
            && text.last() != '\n' {
            1int
        } else {
            0
        }),
    decreases text.len(),
{
    broadcast use vstd::seq_lib::group_to_multiset_ensures;

    if !text.contains('\n') {
        text_without_line_feed_is_one_line(text);
        if text.len() > 0 {
            assert(text.contains(text.last()));
        }
    } else {
        let (line, rest) = lemma_cut_at_line_feed(text);
        line_feed_ends_a_line(line, rest);
        one_line_per_line_feed(rest);
        let ended = line + seq!['\n'];
        assert(ended == line.push('\n'));
        vstd::seq_lib::lemma_multiset_commutative(ended, rest);
        assert(!line.contains('\n'));
        assert(text.to_multiset().count('\n') == 1 + rest.to_multiset().count('\n'));
        if rest.len() > 0 {
            assert(text.last() == rest.last());
        } else {
            assert(text.last() == '\n');
        }
    }
}

/// White space alone has no words.
pub proof fn blanks_are_no_words(gap: Seq<char>)
    requires
        forall|i: int| 0 <= i < gap.len() ==> is_white_space(#[trigger] gap[i]),
    ensures
        words_of(gap).len() == 0,
{
    assert forall|i: int| 0 <= i < gap.len() implies !CharClass::Visible.spec_contains(
        #[trigger] gap[i],
    ) by {}
    lemma_find_from_stops(gap, 0, CharClass::Visible, gap.len());
}

/// Behind any white space, characters that are not white space are a word as
/// far as the next white space or the end of the line, and the other words are
/// those of what follows.
pub proof fn a_word_ends_at_a_blank(gap: Seq<char>, word: Seq<char>, rest: Seq<char>)
    requires
        forall|i: int| 0 <= i < gap.len() ==> is_white_space(#[trigger] gap[i]),
        word.len() > 0,
        forall|i: int| 0 <= i < word.len() ==> !is_white_space(#[trigger] word[i]),
        rest.len() > 0 ==> is_white_space(rest[0]),
    ensures
        words_of(gap + word + rest) == seq![word] + words_of(rest),
{
    let line = gap + word + rest;
    let start = gap.len();
    let end = gap.len() + word.len();
    assert forall|i: int| 0 <= i < start implies !CharClass::Visible.spec_contains(
        #[trigger] line[i],
    ) by {
        assert(line[i] == gap[i]);
    }
    assert(line[start as int] == word[0]);
    lemma_find_from_stops(line, 0, CharClass::Visible, start);
    assert forall|i: int| start <= i < end implies !CharClass::Blank.spec_contains(
        #[trigger] line[i],
    ) by {
        assert(line[i] == word[i - start]);
    }
    if rest.len() > 0 {
        assert(line[end as int] == rest[0]);
    }
    lemma_find_from_stops(line, start, CharClass::Blank, end);
    assert(line.subrange(start as int, end as int) == word);
    assert(line.skip(end as int) == rest);
}

/// Cuts a line into leading white space, a word and what follows it; the word
/// is empty only if nothing follows.
pub(crate) proof fn lemma_cut_at_word(line: Seq<char>) -> (parts: (
    Seq<char>,
    Seq<char>,
    Seq<char>,
))
    ensures
        line == parts.0 + parts.1 + parts.2,
        forall|i: int| 0 <= i < parts.0.len() ==> is_white_space(#[trigger] parts.0[i]),
        forall|i: int| 0 <= i < parts.1.len() ==> !is_white_space(#[trigger] parts.1[i]),
        parts.2.len() > 0 ==> is_white_space(parts.2[0]) && parts.1.len() > 0,
{
    let start = find_from(line, 0, CharClass::Visible);
    find_from_is_first(line, 0, CharClass::Visible);
    let end = find_from(line, start, CharClass::Blank);
    find_from_is_first(line, start, CharClass::Blank);
    let gap = line.take(start as int);
    let word = line.subrange(start as int, end as int);
    let rest = line.skip(end as int);
    assert forall|i: int| 0 <= i < gap.len() implies is_white_space(#[trigger] gap[i]) by {
        assert(!CharClass::Visible.spec_contains(line[i]));
    }
    assert forall|i: int| 0 <= i < word.len() implies !is_white_space(#[trigger] word[i]) by {
        assert(!CharClass::Blank.spec_contains(line[start + i]));
    }
    assert(line =~= gap + word + rest);
    (gap, word, rest)
}

/// Each word with the white space behind it.
pub open spec fn with_gaps(words: Seq<Seq<char>>, gaps: Seq<Seq<char>>) -> Seq<Seq<char>> {
    Seq::new(words.len(), |i: int| words[i] + gaps[i + 1])
}

/// Splitting into words loses nothing but white space. The words with the
/// returned gaps put back, one before each word and one behind the last, make
/// up the whole line; gaps are white space, and words have none; no word is
/// empty, and no gap between two words is.
pub proof fn splitting_into_words_loses_only_blanks(line: Seq<char>) -> (gaps: Seq<Seq<char>>)
    ensures
        gaps.len() == words_of(line).len() + 1,
        gaps[0] + with_gaps(words_of(line), gaps).flatten() == line,
        forall|i: int, j: int|
            0 <= i < words_of(line).len() && 0 <= j < words_of(line)[i].len() ==> !is_white_space(
                #[trigger] words_of(line)[i][j],
            ),
        forall|i: int, j: int|
            0 <= i < gaps.len() && 0 <= j < gaps[i].len() ==> is_white_space(
                #[trigger] gaps[i][j],
            ),
        forall|i: int| 0 <= i < words_of(line).len() ==> (#[trigger] words_of(line)[i]).len() > 0,
        forall|i: int| 0 < i < words_of(line).len() ==> (#[trigger] gaps[i]).len() > 0,
    decreases line.len(),
{
    let words = words_of(line);
    let (gap, word, rest) = lemma_cut_at_word(line);
    if word.len() == 0 {
        assert(line =~= gap);
        blanks_are_no_words(gap);
        let gaps = seq![gap];
        assert(with_gaps(words, gaps) =~= Seq::<Seq<char>>::empty());
        assert(gaps[0] + with_gaps(words, gaps).flatten() =~= line);
        gaps
    } else {
        a_word_ends_at_a_blank(gap, word, rest);
        let more = splitting_into_words_loses_only_blanks(rest);
        let gaps = seq![gap] + more;
        let whole = with_gaps(words, gaps);
        let tail = with_gaps(words_of(rest), more);
        assert(whole.drop_first() =~= tail) by {
            assert forall|i: int| 0 <= i < tail.len() implies whole.drop_first()[i] == tail[i] by {
                assert(words[i + 1] == words_of(rest)[i]);
                assert(gaps[i + 2] == more[i + 1]);
            }
        }
        assert(whole.first() == word + more[0]);
        assert(gaps[0] + whole.flatten() =~= gap + (word + (more[0] + tail.flatten())));
        assert(gaps[0] + whole.flatten() =~= line);
        assert forall|i: int, j: int|
            0 <= i < words.len() && 0 <= j < words[i].len() implies !is_white_space(
            #[trigger] words[i][j],
        ) by {
            if i > 0 {
                assert(words[i] == words_of(rest)[i - 1]);
                assert(!is_white_space(words_of(rest)[i - 1][j]));
            }
        }
        assert forall|i: int, j: int|
            0 <= i < gaps.len() && 0 <= j < gaps[i].len() implies is_white_space(
            #[trigger] gaps[i][j],
        ) by {
            if i > 0 {
                assert(is_white_space(more[i - 1][j]));
            }
        }
        assert forall|i: int| 0 <= i < words.len() implies (#[trigger] words[i]).len() > 0 by {
            if i > 0 {
                assert(words[i] == words_of(rest)[i - 1]);
            }
        }
        assert forall|i: int| 0 < i < words.len() implies (#[trigger] gaps[i]).len() > 0 by {
            assert(gaps[i] == more[i - 1]);
            if i == 1 {
                if rest.len() == 0 {
                    blanks_are_no_words(rest);
                }
                if more[0].len() == 0 {
                    assert(words_of(rest)[0].len() > 0);
                    assert(tail.flatten() == rest);
                    assert(tail.first() == words_of(rest)[0] + more[1]);
                    assert(rest[0] == words_of(rest)[0][0]);
                }
            }
        }
        gaps
    }
}

/// Digits by code point: `0` to `9`, then letters of either case from ten up.
pub proof fn digits_by_code_point(c: char, radix: nat, value: nat)
    requires
        radix <= 36,
    ensures
        digit_value(c, radix) == Some(value) <==> value < radix && {
            ||| value < 10 && c as int == 48 + value
            ||| value >= 10 && (c as int == 87 + value || c as int == 55 + value)
        },
{
}

/// What the shortest texts spell: nothing and a bare `+` are no number, and a
/// digit is its value, with or without a `+`.
pub proof fn one_digit_spells_its_value(c: char, radix: nat)
    requires
        2 <= radix <= 36,
    ensures
        unsigned_value(Seq::empty(), radix) is None,
        unsigned_value(seq!['+'], radix) is None,
        match digit_value(c, radix) {
            Some(value) => {
                &&& unsigned_value(seq![c], radix) == Some(value as usize)
                &&& unsigned_value(seq!['+', c], radix) == Some(value as usize)
            },
            None => {
                &&& unsigned_value(seq![c], radix) is None
                &&& unsigned_value(seq!['+', c], radix) is None
            },
        },
{
    reveal_with_fuel(numeral_value, 2);
    let none = Seq::<char>::empty();
    assert(seq!['+'].skip(1) == none);
    assert(seq![c].drop_last() == none);
    assert(seq!['+', c].skip(1) == seq![c]);
    assert(digit_value('+', radix) is None);
    assert(numeral_value(none, radix) == Some(0nat));
    assert(0 * radix == 0) by (nonlinear_arith);
}

/// One more digit makes a number `radix` times as large and adds its value, as
/// long as that fits in a `usize`; from there on, and behind anything that is
/// no digit, there is no number. This holds behind any text but an empty one
/// and a bare `+`.
pub proof fn one_more_digit_shifts_the_number(text: Seq<char>, c: char, radix: nat)
    requires
        2 <= radix <= 36,
        text.len() > 0,
        text != seq!['+'],
    ensures
        unsigned_value(text.push(c), radix) == (match (
            unsigned_value(text, radix),
            digit_value(c, radix),
        ) {
            (Some(value), Some(digit)) => if value * radix + digit <= usize::MAX {
                Some((value * radix + digit) as usize)
            } else {
                None
            },
            _ => None,
        }),
{
    let digits = digits_of(text);
    assert(digits_of(text.push(c)) =~= digits.push(c));
    assert(digits.push(c).drop_last() =~= digits);
    if digits.len() == 0 {
        assert(text =~= seq!['+']);
    }
    if numeral_value(digits, radix) is Some {
        let high = numeral_value(digits, radix)->0;
        assert(high <= high * radix) by (nonlinear_arith)
            requires
                radix >= 1,
        ;
    }
}

} // verus!
