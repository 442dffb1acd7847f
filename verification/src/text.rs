//! Text as sequences of characters: splitting, trimming and decimal numerals.

use vstd::prelude::*;
use vstd::string::StringExecFns;

verus! {

/// Whether a character has the Unicode `White_Space` property.
pub open spec fn is_white(c: char) -> bool {
    let code = c as u32;
    ||| 0x9 <= code <= 0xd
    ||| code == 0x20
    ||| code == 0x85
    ||| code == 0xa0
    ||| code == 0x1680
    ||| 0x2000 <= code <= 0x200a
    ||| 0x2028 <= code <= 0x2029
    ||| code == 0x202f
    ||| code == 0x205f
    ||| code == 0x3000
}

/// `char::is_whitespace`: whether the character has the Unicode `White_Space` property, which
/// is a fixed list of code points.
pub assume_specification[ char::is_whitespace ](c: char) -> (white: bool)
    ensures
        white == is_white(c),
;

/// `String::push`: appends one character.
pub assume_specification[ String::push ](text: &mut String, c: char)
    ensures
        final(text)@ == old(text)@.push(c),
;

/// The Unicode uppercase equivalent of a text.
pub uninterp spec fn uppercase(text: Seq<char>) -> Seq<char>;

/// The ASCII capital of an ASCII small letter; any other character itself.
pub open spec fn ascii_capital(c: char) -> char {
    if 'a' <= c <= 'z' {
        ((c as u8 - 32) as u8) as char
    } else {
        c
    }
}

/// `str::to_uppercase`: the uppercase equivalent of the text. On ASCII text it is the text
/// with each small letter replaced by its capital.
#[verifier::external_body]
pub(crate) fn to_uppercase(text: &String) -> (upper: String)
    ensures
        upper@ == uppercase(text@),
        (forall|i: int| 0 <= i < text@.len() ==> (#[trigger] text@[i]) as u32 <= 127) ==> upper@
            == text@.map_values(|c: char| ascii_capital(c)),
{
    text.to_uppercase()
}

/// The characters of a text.
pub fn chars_of(text: &str) -> (chars: Vec<char>)
    ensures
        chars@ == text@,
{
    let n: usize = text.unicode_len();
    let mut chars: Vec<char> = Vec::new();
    let mut i: usize = 0;
    while i < n
        invariant
            n == text@.len(),
            i <= n,
            chars@ == text@.take(i as int),
        decreases n - i,
    {
        chars.push(text.get_char(i));
        assert(text@.take(i + 1) =~= text@.take(i as int).push(text@[i as int]));
        i += 1;
    }
    assert(text@.take(n as int) =~= text@);
    chars
}

/// The text made of the given characters.
pub fn string_of(chars: &Vec<char>) -> (text: String)
    ensures
        text@ == chars@,
{
    let mut text = String::new();
    let mut i: usize = 0;
    while i < chars.len()
        invariant
            i <= chars.len(),
            text@ == chars@.take(i as int),
        decreases chars.len() - i,
    {
        text.push(chars[i]);
        assert(chars@.take(i + 1) =~= chars@.take(i as int).push(chars@[i as int]));
        i += 1;
    }
    assert(chars@.take(i as int) =~= chars@);
    text
}

/// Each vector by its contents.
pub open spec fn views(parts: Seq<Vec<char>>) -> Seq<Seq<char>> {
    parts.map_values(|part: Vec<char>| part@)
}

/// The stretches of `text` between occurrences of `sep`; one more than there are separators.
pub open spec fn pieces(text: Seq<char>, sep: char) -> Seq<Seq<char>>
    decreases text.len(),
{
    if text.len() == 0 {
        seq![Seq::empty()]
    } else {
        let before = pieces(text.drop_last(), sep);
        if text.last() == sep {
            before.push(Seq::empty())
        } else {
            before.drop_last().push(before.last().push(text.last()))
        }
    }
}

pub(crate) proof fn pieces_nonempty(text: Seq<char>, sep: char)
    ensures
        pieces(text, sep).len() >= 1,
    decreases text.len(),
{
    if text.len() > 0 {
        pieces_nonempty(text.drop_last(), sep);
    }
}

/// Splits on a separator character, keeping empty stretches.
pub fn split_on(text: &Vec<char>, sep: char) -> (parts: Vec<Vec<char>>)
    ensures
        views(parts@) == pieces(text@, sep),
{
    let mut parts: Vec<Vec<char>> = Vec::new();
    let mut current: Vec<char> = Vec::new();
    let mut i: usize = 0;
    assert(text@.take(0) =~= Seq::empty());
    assert(views(parts@).push(current@) =~= pieces(text@.take(0), sep));
    while i < text.len()
        invariant
            i <= text.len(),
            views(parts@).push(current@) == pieces(text@.take(i as int), sep),
        decreases text.len() - i,
    {
        let c: char = text[i];
        let ghost next = text@.take(i + 1);
        let ghost before = views(parts@).push(current@);
        assert(next.drop_last() =~= text@.take(i as int));
        assert(next.last() == c);
        assert(before.drop_last() =~= views(parts@));
        if c == sep {
            let ghost done = views(parts@);
            let ghost last = current@;
            parts.push(current);
            current = Vec::new();
            assert(views(parts@) =~= done.push(last));
            assert(views(parts@).push(current@) =~= pieces(next, sep));
        } else {
            current.push(c);
            assert(views(parts@).push(current@) =~= pieces(next, sep));
        }
        i += 1;
    }
    let ghost done = views(parts@);
    let ghost last = current@;
    parts.push(current);
    assert(views(parts@) =~= done.push(last));
    assert(text@.take(i as int) =~= text@);
    parts
}

/// The finished words of a text and the word still open at its end.
pub open spec fn word_state(text: Seq<char>) -> (Seq<Seq<char>>, Seq<char>)
    decreases text.len(),
{
    if text.len() == 0 {
        (Seq::empty(), Seq::empty())
    } else {
        let (done, open) = word_state(text.drop_last());
        if !is_white(text.last()) {
            (done, open.push(text.last()))
        } else if open.len() > 0 {
            (done.push(open), Seq::empty())
        } else {
            (done, open)
        }
    }
}

/// The maximal runs of non-blank characters.
pub open spec fn words_of(text: Seq<char>) -> Seq<Seq<char>> {
    let (done, open) = word_state(text);
    if open.len() > 0 {
        done.push(open)
    } else {
        done
    }
}

/// Splits on white space, keeping no empty word.
pub fn words(text: &Vec<char>) -> (parts: Vec<Vec<char>>)
    ensures
        views(parts@) == words_of(text@),
{
    let mut parts: Vec<Vec<char>> = Vec::new();
    let mut current: Vec<char> = Vec::new();
    let mut i: usize = 0;
    assert(text@.take(0) =~= Seq::empty());
    assert(views(parts@) =~= Seq::empty());
    assert(current@ =~= Seq::empty());
    while i < text.len()
        invariant
            i <= text.len(),
            (views(parts@), current@) == word_state(text@.take(i as int)),
        decreases text.len() - i,
    {
        let c: char = text[i];
        let ghost next = text@.take(i + 1);
        assert(next.drop_last() =~= text@.take(i as int));
        assert(next.last() == c);
        if !c.is_whitespace() {
            current.push(c);
        } else if current.len() > 0 {
            let ghost done = views(parts@);
            let ghost last = current@;
            parts.push(current);
            current = Vec::new();
            assert(views(parts@) =~= done.push(last));
            assert(current@ =~= Seq::empty());
        }
        i += 1;
    }
    assert(text@.take(i as int) =~= text@);
    if current.len() > 0 {
        let ghost done = views(parts@);
        let ghost last = current@;
        parts.push(current);
        assert(views(parts@) =~= done.push(last));
    }
    parts
}

/// A text without its leading white space.
pub open spec fn trimmed_start(text: Seq<char>) -> Seq<char>
    decreases text.len(),
{
    if text.len() > 0 && is_white(text[0]) {
        trimmed_start(text.drop_first())
    } else {
        text
    }
}

/// A text without its trailing white space.
pub open spec fn trimmed_end(text: Seq<char>) -> Seq<char>
    decreases text.len(),
{
    if text.len() > 0 && is_white(text.last()) {
        trimmed_end(text.drop_last())
    } else {
        text
    }
}

/// A text without its leading and trailing white space.
pub open spec fn trimmed(text: Seq<char>) -> Seq<char> {
    trimmed_end(trimmed_start(text))
}

/// Removes leading and trailing white space.
pub fn trim(text: &Vec<char>) -> (inner: Vec<char>)
    ensures
        inner@ == trimmed(text@),
{
    let mut start: usize = 0;
    assert(text@.skip(0) =~= text@);
    while start < text.len() && text[start].is_whitespace()
        invariant
            start <= text.len(),
            trimmed_start(text@.skip(start as int)) == trimmed_start(text@),
        decreases text.len() - start,
    {
        assert(text@.skip(start as int).drop_first() =~= text@.skip(start + 1));
        start += 1;
    }
    assert(trimmed_start(text@) == text@.skip(start as int));
    let mut end: usize = text.len();
    assert(text@.subrange(start as int, end as int) =~= text@.skip(start as int));
    while end > start && text[end - 1].is_whitespace()
        invariant
            start <= end <= text.len(),
            trimmed_end(text@.subrange(start as int, end as int)) == trimmed_end(
                text@.skip(start as int),
            ),
        decreases end,
    {
        assert(text@.subrange(start as int, end as int).drop_last() =~= text@.subrange(
            start as int,
            end - 1,
        ));
        end -= 1;
    }
    let mut inner: Vec<char> = Vec::new();
    let mut i: usize = start;
    while i < end
        invariant
            start <= i <= end <= text.len(),
            inner@ == text@.subrange(start as int, i as int),
        decreases end - i,
    {
        inner.push(text[i]);
        assert(text@.subrange(start as int, i + 1) =~= text@.subrange(start as int, i as int).push(
            text@[i as int],
        ));
        i += 1;
    }
    inner
}

/// The character of a decimal digit.
pub open spec fn digit_char(d: nat) -> char
    recommends
        d < 10,
{
    seq!['0', '1', '2', '3', '4', '5', '6', '7', '8', '9'][d as int]
}

/// The decimal numeral of `n`, without leading zeros.
pub open spec fn numeral(n: nat) -> Seq<char>
    decreases n,
{
    if n < 10 {
        seq![digit_char(n)]
    } else {
        numeral(n / 10).push(digit_char(n % 10))
    }
}

/// Writes a number in decimal.
pub fn decimal(n: u64) -> (text: String)
    ensures
        text@ == numeral(n as nat),
    decreases n,
{
    let mut text = if n < 10 {
        String::new()
    } else {
        decimal(n / 10)
    };
    let digit: u64 = n % 10;
    let c: char = match digit {
        0 => '0',
        1 => '1',
        2 => '2',
        3 => '3',
        4 => '4',
        5 => '5',
        6 => '6',
        7 => '7',
        8 => '8',
        _ => '9',
    };
    text.push(c);
    assert(n < 10 ==> text@ =~= numeral(n as nat));
    text
}

proof fn numeral_value(n: nat)
    ensures
        numeral(n).len() >= 1,
    decreases n,
{
    if n >= 10 {
        numeral_value(n / 10);
    }
}

/// Different numbers have different numerals.
pub proof fn numeral_is_injective(a: nat, b: nat)
    requires
        numeral(a) == numeral(b),
    ensures
        a == b,
    decreases a,
{
    numeral_value(a / 10);
    numeral_value(b / 10);
    if a < 10 && b < 10 {
        assert(numeral(a)[0] == digit_char(a));
        assert(numeral(b)[0] == digit_char(b));
    } else if a < 10 {
        assert(numeral(b).len() >= 2);
    } else if b < 10 {
        assert(numeral(a).len() >= 2);
    } else {
        assert(numeral(a).last() == digit_char(a % 10));
        assert(numeral(b).last() == digit_char(b % 10));
        assert(numeral(a).drop_last() =~= numeral(a / 10));
        assert(numeral(b).drop_last() =~= numeral(b / 10));
        numeral_is_injective(a / 10, b / 10);
    }
}

// ---------------------------------------------------------------------------
// What splitting, trimming and writing numbers keep
// ---------------------------------------------------------------------------

/// Texts with a separator between each two.
pub open spec fn joined(parts: Seq<Seq<char>>, sep: char) -> Seq<char>
    decreases parts.len(),
{
    if parts.len() == 0 {
        Seq::empty()
    } else if parts.len() == 1 {
        parts[0]
    } else {
        joined(parts.drop_last(), sep).push(sep) + parts.last()
    }
}

/// Splitting loses nothing and finds every separator: the pieces, joined by it, are the text, and
/// none of them holds it.
pub proof fn pieces_join_to_the_text(text: Seq<char>, sep: char)
    ensures
        joined(pieces(text, sep), sep) == text,
        forall|i: int|
            0 <= i < pieces(text, sep).len() ==> !(#[trigger] pieces(text, sep)[i]).contains(sep),
    decreases text.len(),
{
    pieces_nonempty(text, sep);
    if text.len() == 0 {
        assert(joined(pieces(text, sep), sep) =~= text);
    } else {
        let rest = text.drop_last();
        let c = text.last();
        let before = pieces(rest, sep);
        let after = pieces(text, sep);
        pieces_join_to_the_text(rest, sep);
        pieces_nonempty(rest, sep);
        assert(rest.push(c) =~= text);
        if c == sep {
            assert(after.drop_last() =~= before);
            assert(joined(after, sep) =~= text);
            assert forall|i: int| 0 <= i < after.len() implies !(#[trigger] after[i]).contains(
                sep,
            ) by {
                if i < before.len() {
                    assert(after[i] == before[i]);
                }
            }
        } else {
            assert(after.drop_last() =~= before.drop_last());
            assert(joined(after, sep) =~= text);
            assert forall|i: int| 0 <= i < after.len() implies !(#[trigger] after[i]).contains(
                sep,
            ) by {
                if i < before.len() - 1 {
                    assert(after[i] == before[i]);
                } else {
                    let last = before[before.len() - 1];
                    assert(!last.contains(sep));
                    if after[i].contains(sep) {
                        let j = choose|j: int| 0 <= j < after[i].len() && after[i][j] == sep;
                        assert(j < last.len());
                        assert(last[j] == sep);
                    }
                }
            }
        }
    }
}

/// A text that does not hold the separator is one piece.
pub proof fn a_text_without_separators_is_one_piece(text: Seq<char>, sep: char)
    requires
        !text.contains(sep),
    ensures
        pieces(text, sep) == seq![text],
    decreases text.len(),
{
    if text.len() == 0 {
        assert(text =~= Seq::empty());
    } else {
        assert(text[text.len() - 1] != sep);
        assert(!text.drop_last().contains(sep)) by {
            if text.drop_last().contains(sep) {
                let j = choose|j: int| 0 <= j < text.len() - 1 && text.drop_last()[j] == sep;
                assert(text[j] == sep);
            }
        }
        a_text_without_separators_is_one_piece(text.drop_last(), sep);
        assert(text.drop_last().push(text.last()) =~= text);
        assert(pieces(text, sep) =~= seq![text]);
    }
}

/// What follows a separator does not change the pieces before it: the pieces of two texts with a
/// separator between them are those of the one and then those of the other.
pub proof fn pieces_of_parted_texts(left: Seq<char>, sep: char, right: Seq<char>)
    ensures
        pieces(left.push(sep) + right, sep) == pieces(left, sep) + pieces(right, sep),
    decreases right.len(),
{
    let whole = left.push(sep) + right;
    pieces_nonempty(right, sep);
    if right.len() == 0 {
        assert(whole =~= left.push(sep));
        assert(whole.drop_last() =~= left);
        assert(pieces(whole, sep) =~= pieces(left, sep) + pieces(right, sep));
    } else {
        pieces_of_parted_texts(left, sep, right.drop_last());
        pieces_nonempty(right.drop_last(), sep);
        assert(whole.drop_last() =~= left.push(sep) + right.drop_last());
        assert(whole.last() == right.last());
        assert(pieces(whole, sep) =~= pieces(left, sep) + pieces(right, sep));
    }
}

/// No character of the text is white space.
pub open spec fn all_dark(text: Seq<char>) -> bool {
    forall|i: int| 0 <= i < text.len() ==> !is_white(#[trigger] text[i])
}

proof fn dark_text_stays_open(text: Seq<char>)
    requires
        all_dark(text),
    ensures
        word_state(text) == (Seq::<Seq<char>>::empty(), text),
    decreases text.len(),
{
    if text.len() > 0 {
        assert forall|i: int| 0 <= i < text.len() - 1 implies !is_white(
            #[trigger] text.drop_last()[i],
        ) by {
            assert(text.drop_last()[i] == text[i]);
        }
        dark_text_stays_open(text.drop_last());
        assert(!is_white(text[text.len() - 1]));
        assert(text.drop_last().push(text.last()) =~= text);
    } else {
        assert(text =~= Seq::empty());
    }
}

proof fn state_of_parted_texts(left: Seq<char>, white: char, right: Seq<char>)
    requires
        is_white(white),
    ensures
        word_state(left.push(white) + right) == (
            words_of(left) + word_state(right).0,
            word_state(right).1,
        ),
    decreases right.len(),
{
    let whole = left.push(white) + right;
    if right.len() == 0 {
        assert(whole =~= left.push(white));
        assert(whole.drop_last() =~= left);
        assert(words_of(left) + Seq::<Seq<char>>::empty() =~= words_of(left));
    } else {
        state_of_parted_texts(left, white, right.drop_last());
        assert(whole.drop_last() =~= left.push(white) + right.drop_last());
        assert(whole.last() == right.last());
        let (done, open) = word_state(right.drop_last());
        assert((words_of(left) + done).push(open) =~= words_of(left) + done.push(open));
    }
}

/// White space parts words and does nothing else: a text without any is one word, an empty text is
/// none, and the words of two texts with white space between them are those of the one and then
/// those of the other.
pub proof fn words_are_parted_by_white_space(left: Seq<char>, white: char, right: Seq<char>)
    requires
        is_white(white),
    ensures
        words_of(left.push(white) + right) == words_of(left) + words_of(right),
        all_dark(left) && left.len() > 0 ==> words_of(left) == seq![left],
        left.len() == 0 ==> words_of(left).len() == 0,
{
    state_of_parted_texts(left, white, right);
    let (done, open) = word_state(right);
    assert((words_of(left) + done).push(open) =~= words_of(left) + done.push(open));
    if all_dark(left) {
        dark_text_stays_open(left);
        if left.len() > 0 {
            assert(words_of(left) =~= seq![left]);
        }
    }
}

proof fn start_is_cut_at(text: Seq<char>) -> (n: int)
    ensures
        0 <= n <= text.len(),
        trimmed_start(text) == text.skip(n),
        forall|i: int| 0 <= i < n ==> is_white(#[trigger] text[i]),
        n < text.len() ==> !is_white(text[n]),
    decreases text.len(),
{
    if text.len() > 0 && is_white(text[0]) {
        let rest = text.drop_first();
        let m = start_is_cut_at(rest);
        assert(rest.skip(m) =~= text.skip(m + 1));
        assert forall|i: int| 0 <= i < m + 1 implies is_white(#[trigger] text[i]) by {
            if i > 0 {
                assert(rest[i - 1] == text[i]);
            }
        }
        if m < rest.len() {
            assert(rest[m] == text[m + 1]);
        }
        m + 1
    } else {
        assert(text.skip(0) =~= text);
        0
    }
}

proof fn end_is_cut_at(text: Seq<char>) -> (n: int)
    ensures
        0 <= n <= text.len(),
        trimmed_end(text) == text.take(n),
        forall|i: int| n <= i < text.len() ==> is_white(#[trigger] text[i]),
        n > 0 ==> !is_white(text[n - 1]),
    decreases text.len(),
{
    if text.len() > 0 && is_white(text.last()) {
        let rest = text.drop_last();
        let m = end_is_cut_at(rest);
        assert(rest.take(m) =~= text.take(m));
        assert forall|i: int| m <= i < text.len() implies is_white(#[trigger] text[i]) by {
            if i < rest.len() {
                assert(rest[i] == text[i]);
            }
        }
        if m > 0 {
            assert(rest[m - 1] == text[m - 1]);
        }
        m
    } else {
        assert(text.take(text.len() as int) =~= text);
        text.len() as int
    }
}

/// Trimming takes white space off both ends, all of it and nothing else: what is left is a stretch
/// of the text with only white space around it, and starts and ends with something else.
pub proof fn trimming_takes_only_white_space(text: Seq<char>) -> (ends: (int, int))
    ensures
        0 <= ends.0 <= ends.1 <= text.len(),
        trimmed(text) == text.subrange(ends.0, ends.1),
        forall|i: int|
            0 <= i < ends.0 || ends.1 <= i < text.len() ==> is_white(#[trigger] text[i]),
        trimmed(text).len() > 0 ==> !is_white(trimmed(text)[0]) && !is_white(trimmed(text).last()),
{
    let a = start_is_cut_at(text);
    let rest = text.skip(a);
    let b = end_is_cut_at(rest);
    assert(rest.take(b) =~= text.subrange(a, a + b));
    assert forall|i: int|
        0 <= i < a || a + b <= i < text.len() implies is_white(#[trigger] text[i]) by {
        if i >= a {
            assert(rest[i - a] == text[i]);
        }
    }
    if b > 0 {
        assert(trimmed(text)[0] == text[a]);
        assert(trimmed(text).last() == rest[b - 1]);
    }
    (a, a + b)
}

/// The number a text of decimal digits stands for.
pub open spec fn value_of(digits: Seq<char>) -> int
    decreases digits.len(),
{
    if digits.len() == 0 {
        0
    } else {
        10 * value_of(digits.drop_last()) + (digits.last() as u32 - '0' as u32)
    }
}

proof fn digits_follow_zero(d: nat)
    requires
        d < 10,
    ensures
        digit_char(d) as u32 - '0' as u32 == d,
        '0' <= digit_char(d) <= '9',
{
    if d == 0 {
    } else if d == 1 {
    } else if d == 2 {
    } else if d == 3 {
    } else if d == 4 {
    } else if d == 5 {
    } else if d == 6 {
    } else if d == 7 {
    } else if d == 8 {
    } else {
        assert(d == 9);
    }
}

/// A numeral reads back as its number, holds decimal digits only, and starts with a zero only if
/// it is nothing else.
pub proof fn numerals_read_back(n: nat)
    ensures
        value_of(numeral(n)) == n,
        numeral(n).len() >= 1,
        forall|i: int| 0 <= i < numeral(n).len() ==> '0' <= (#[trigger] numeral(n)[i]) <= '9',
        numeral(n)[0] == '0' ==> n == 0,
    decreases n,
{
    if n >= 10 {
        numerals_read_back(n / 10);
        let before = numeral(n / 10);
        assert(numeral(n).drop_last() =~= before);
        digits_follow_zero(n % 10);
        assert(numeral(n)[0] == before[0]);
        assert forall|i: int| 0 <= i < numeral(n).len() implies '0' <= (#[trigger] numeral(n)[i])
            <= '9' by {
            if i < before.len() {
                assert(numeral(n)[i] == before[i]);
            }
        }
    } else {
        digits_follow_zero(n);
        assert(numeral(n).drop_last() =~= Seq::empty());
        assert(value_of(numeral(n).drop_last()) == 0);
    }
}

} // verus!
