//! Words and numbers in text.
use vstd::prelude::*;
use vstd::string::{StrSliceExecFns, StringExecFns};

verus! {

/// Whether a character has the Unicode property `White_Space`.
pub open spec fn is_white_space(c: char) -> bool {
    ||| '\u{9}' <= c <= '\u{d}'
    ||| c == ' '
    ||| c == '\u{85}'
    ||| c == '\u{a0}'
    ||| c == '\u{1680}'
    ||| '\u{2000}' <= c <= '\u{200a}'
    ||| c == '\u{2028}'
    ||| c == '\u{2029}'
    ||| c == '\u{202f}'
    ||| c == '\u{205f}'
    ||| c == '\u{3000}'
}

/// Whether one text stands somewhere in another.
pub open spec fn stands_in(part: Seq<char>, whole: Seq<char>) -> bool {
    exists|i: int| stands_at(part, whole, i)
}

/// Whether one text stands in another at the given place.
pub open spec fn stands_at(part: Seq<char>, whole: Seq<char>, i: int) -> bool {
    0 <= i <= whole.len() - part.len() && whole.subrange(i, i + part.len()) == part
}

/// A text without the white space at its end.
pub open spec fn trimmed(text: Seq<char>) -> Seq<char>
    decreases text.len(),
{
    if text.len() > 0 && is_white_space(text.last()) {
        trimmed(text.drop_last())
    } else {
        text
    }
}

/// What stands behind the last white space of a text.
pub open spec fn ending(text: Seq<char>) -> Seq<char>
    decreases text.len(),
{
    if text.len() == 0 || is_white_space(text.last()) {
        Seq::empty()
    } else {
        ending(text.drop_last()).push(text.last())
    }
}

/// The last word of a text; none where there is only white space.
pub open spec fn last_word(text: Seq<char>) -> Option<Seq<char>> {
    let words = trimmed(text);
    if words.len() == 0 {
        None
    } else {
        Some(ending(words))
    }
}

/// Whether a text is made of decimal digits alone.
pub open spec fn all_digits(text: Seq<char>) -> bool {
    forall|i: int| 0 <= i < text.len() ==> '0' <= #[trigger] text[i] <= '9'
}

/// The number that a text of decimal digits stands for.
pub open spec fn digits_value(text: Seq<char>) -> nat
    decreases text.len(),
{
    if text.len() == 0 {
        0
    } else {
        (digits_value(text.drop_last()) * 10 + (text.last() as int - '0' as int)) as nat
    }
}

/// The 64-bit number that a text is written as: digits, at least one, with or without a plus sign.
pub open spec fn parsed_u64(text: Seq<char>) -> Option<u64> {
    let digits = if text.len() > 0 && text[0] == '+' {
        text.skip(1)
    } else {
        text
    };
    if digits.len() > 0 && all_digits(digits) && digits_value(digits) <= u64::MAX {
        Some(digits_value(digits) as u64)
    } else {
        None
    }
}

/// A decimal digit as a character.
pub open spec fn digit_char(digit: nat) -> char {
    ('0' as int + digit) as char
}

/// A number in decimal, without leading zeros.
pub open spec fn decimal(n: nat) -> Seq<char>
    decreases n,
{
    if n < 10 {
        seq![digit_char(n)]
    } else {
        decimal(n / 10).push(digit_char(n % 10))
    }
}

/// Digits before others make a number no smaller.
proof fn lemma_digits_value_grows(text: Seq<char>, len: int)
    requires
        all_digits(text),
        0 <= len <= text.len(),
    ensures
        digits_value(text.take(len)) <= digits_value(text),
    decreases text.len(),
{
    if len < text.len() {
        assert(text.drop_last().take(len) =~= text.take(len));
        assert('0' <= text[text.len() - 1] <= '9');
        assert(all_digits(text.drop_last())) by {
            assert forall|i: int| 0 <= i < text.len() - 1 implies '0'
                <= #[trigger] text.drop_last()[i] <= '9' by {
                assert(text.drop_last()[i] == text[i]);
            }
        }
        lemma_digits_value_grows(text.drop_last(), len);
    } else {
        assert(text.take(len) =~= text);
    }
}

/// A number in decimal is digits that stand for the number.
proof fn lemma_decimal(n: nat)
    ensures
        decimal(n).len() > 0,
        all_digits(decimal(n)),
        digits_value(decimal(n)) == n,
    decreases n,
{
    reveal_with_fuel(digits_value, 2);
    if n < 10 {
        assert(decimal(n).drop_last() =~= Seq::<char>::empty());
    } else {
        lemma_decimal(n / 10);
        let head = decimal(n / 10);
        assert(decimal(n).drop_last() =~= head);
        assert forall|i: int| 0 <= i < decimal(n).len() implies '0' <= #[trigger] decimal(n)[i]
            <= '9' by {
            if i < head.len() {
                assert(decimal(n)[i] == head[i]);
            }
        }
    }
}

/// Reading a number that was written in decimal gives it back.
pub proof fn law_decimal_round_trip(n: u64)
    ensures
        parsed_u64(decimal(n as nat)) == Some(n),
{
    lemma_decimal(n as nat);
    assert('0' <= decimal(n as nat)[0] <= '9');
}

/// Whether a character has the Unicode property `White_Space`.
pub fn char_is_white_space(c: char) -> (white: bool)
    ensures
        white == is_white_space(c),
{
    (c >= '\u{9}' && c <= '\u{d}') || c == ' ' || c == '\u{85}' || c == '\u{a0}' || c == '\u{1680}'
        || (c >= '\u{2000}' && c <= '\u{200a}') || c == '\u{2028}' || c == '\u{2029}' || c
        == '\u{202f}' || c == '\u{205f}' || c == '\u{3000}'
}

/// Whether one text stands somewhere in another.
pub fn contains_text(whole: &str, part: &str) -> (found: bool)
    ensures
        found == stands_in(part@, whole@),
{
    let len: usize = whole.unicode_len();
    let part_len: usize = part.unicode_len();
    if part_len > len {
        return false;
    }
    let mut i: usize = 0;
    while i <= len - part_len
        invariant
            len == whole@.len(),
            part_len == part@.len(),
            part_len <= len,
            i <= len - part_len + 1,
            forall|k: int| 0 <= k < i ==> !stands_at(part@, whole@, k),
        decreases len - part_len + 1 - i,
    {
        let mut k: usize = 0;
        while k < part_len && whole.get_char(i + k) == part.get_char(k)
            invariant
                len == whole@.len(),
                part_len == part@.len(),
                i <= len - part_len,
                part_len <= len,
                k <= part_len,
                forall|m: int| 0 <= m < k ==> whole@[i + m] == part@[m],
            decreases part_len - k,
        {
            k = k + 1;
        }
        if k == part_len {
            assert(whole@.subrange(i as int, i + part_len) =~= part@);
            assert(stands_at(part@, whole@, i as int));
            return true;
        }
        proof {
            if stands_at(part@, whole@, i as int) {
                assert(whole@.subrange(i as int, i + part_len)[k as int] == part@[k as int]);
            }
        }
        i = i + 1;
    }
    false
}

/// The last word of a text; none where there is only white space.
pub fn find_last_word(text: &str) -> (word: Option<&str>)
    ensures
        match word {
            Some(found) => last_word(text@) == Some(found@),
            None => last_word(text@) is None,
        },
{
    let mut end: usize = text.unicode_len();
    assert(text@.take(end as int) =~= text@);
    while end > 0 && char_is_white_space(text.get_char(end - 1))
        invariant
            end <= text@.len(),
            trimmed(text@) == trimmed(text@.take(end as int)),
        decreases end,
    {
        assert(text@.take(end as int).drop_last() =~= text@.take(end - 1));
        end = end - 1;
    }
    if end == 0 {
        return None;
    }
    let ghost words = text@.take(end as int);
    let mut start: usize = end;
    assert(text@.subrange(start as int, end as int) =~= Seq::<char>::empty());
    assert(ending(words) =~= ending(words.take(start as int)) + text@.subrange(
        start as int,
        end as int,
    )) by {
        assert(words.take(start as int) =~= words);
    }
    while start > 0 && !char_is_white_space(text.get_char(start - 1))
        invariant
            start <= end <= text@.len(),
            words == text@.take(end as int),
            ending(words) == ending(words.take(start as int)) + text@.subrange(
                start as int,
                end as int,
            ),
        decreases start,
    {
        proof {
            let before = words.take(start as int);
            assert(before.drop_last() =~= words.take(start - 1));
            assert(before.last() == text@[start - 1]);
            assert(ending(before) + text@.subrange(start as int, end as int) =~= ending(
                words.take(start - 1),
            ) + text@.subrange(start - 1, end as int));
        }
        start = start - 1;
    }
    proof {
        let before = words.take(start as int);
        assert(start > 0 ==> before.last() == text@[start - 1]);
        assert(ending(words) =~= text@.subrange(start as int, end as int));
        assert(words.len() > 0 && !is_white_space(words.last()));
    }
    Some(text.substring_char(start, end))
}

/// The 64-bit number that a text is written as.
pub fn parse_u64(text: &str) -> (number: Option<u64>)
    ensures
        number == parsed_u64(text@),
{
    let len: usize = text.unicode_len();
    let start: usize = if len > 0 && text.get_char(0) == '+' {
        1
    } else {
        0
    };
    let ghost digits = text@.skip(start as int);
    assert(start == 0 ==> digits =~= text@);
    if start == len {
        return None;
    }
    let mut value: u64 = 0;
    let mut i: usize = start;
    assert(digits.take(0) =~= Seq::<char>::empty());
    while i < len
        invariant
            start <= i <= len == text@.len(),
            digits == text@.skip(start as int),
            parsed_u64(text@) == (if digits.len() > 0 && all_digits(digits) && digits_value(digits)
                <= u64::MAX {
                Some(digits_value(digits) as u64)
            } else {
                None::<u64>
            }),
            all_digits(digits.take(i - start)),
            value == digits_value(digits.take(i - start)),
        decreases len - i,
    {
        let c: char = text.get_char(i);
        let ghost next = digits.take(i + 1 - start);
        proof {
            assert(next.drop_last() =~= digits.take(i - start));
            assert(next.last() == c && digits[i - start] == c);
        }
        if c < '0' || c > '9' {
            return None;
        }
        let digit: u64 = c as u64 - 48;
        assert(all_digits(next)) by {
            assert forall|k: int| 0 <= k < next.len() implies '0' <= #[trigger] next[k] <= '9' by {
                if k < i - start {
                    assert(next[k] == digits.take(i - start)[k]);
                }
            }
        }
        assert(digits_value(next) == value * 10 + digit);
        let grown: Option<u64> = match value.checked_mul(10) {
            Some(tenfold) => tenfold.checked_add(digit),
            None => None,
        };
        match grown {
            Some(sum) => {
                value = sum;
            },
            None => {
                proof {
                    if all_digits(digits) {
                        lemma_digits_value_grows(digits, i + 1 - start);
                    }
                }
                return None;
            },
        }
        i = i + 1;
    }
    assert(digits.take(len - start) =~= digits);
    Some(value)
}

/// A decimal digit as text.
fn digit_text(digit: u64) -> (text: &'static str)
    requires
        digit < 10,
    ensures
        text@ == seq![digit_char(digit as nat)],
{
    proof {
        reveal_strlit("0");
        reveal_strlit("1");
        reveal_strlit("2");
        reveal_strlit("3");
        reveal_strlit("4");
        reveal_strlit("5");
        reveal_strlit("6");
        reveal_strlit("7");
        reveal_strlit("8");
        reveal_strlit("9");
    }
    match digit {
        0 => "0",
        1 => "1",
        2 => "2",
        3 => "3",
        4 => "4",
        5 => "5",
        6 => "6",
        7 => "7",
        8 => "8",
        _ => "9",
    }
}

/// A number in decimal, without leading zeros.
pub fn decimal_text(n: u64) -> (text: String)
    ensures
        text@ == decimal(n as nat),
    decreases n,
{
    if n < 10 {
        digit_text(n).to_owned()
    } else {
        let head: String = decimal_text(n / 10);
        let ghost before = head@;
        let text: String = head.concat(digit_text(n % 10));
        assert(text@ =~= before.push(digit_char((n % 10) as nat)));
        text
    }
}

/// The first `count` characters of a text, or all of a shorter one.
pub fn first_chars(text: &str, count: usize) -> (start: String)
    ensures
        start@ == if text@.len() <= count {
            text@
        } else {
            text@.take(count as int)
        },
{
    if text.unicode_len() <= count {
        text.to_owned()
    } else {
        text.substring_char(0, count).to_owned()
    }
}

/// The white space characters, by their numbers.
pub proof fn law_white_space(c: char)
    ensures
        is_white_space(c) == ({
            let n = c as int;
            9 <= n <= 13 || n == 32 || n == 0x85 || n == 0xA0 || n == 0x1680 || 0x2000 <= n
                <= 0x200A || n == 0x2028 || n == 0x2029 || n == 0x202F || n == 0x205F || n == 0x3000
        }),
{
}

/// A text stands in whatever has it between two texts, and nowhere else.
pub proof fn law_standing(before: Seq<char>, part: Seq<char>, after: Seq<char>, whole: Seq<char>)
    ensures
        stands_in(part, before + part + after),
        stands_in(part, whole) ==> exists|i: int|
            0 <= i <= whole.len() - part.len() && #[trigger] whole.subrange(i, i + part.len())
                == part,
{
    let joined = before + part + after;
    let i = before.len() as int;
    assert(joined.subrange(i, i + part.len()) =~= part);
    assert(stands_at(part, joined, i));
    if stands_in(part, whole) {
        let i = choose|i: int| stands_at(part, whole, i);
        assert(whole.subrange(i, i + part.len()) == part);
    }
}

/// The last word of a text, wherever it stands: white space may follow it, and white space or nothing
/// stands before it.
pub proof fn law_last_word(head: Seq<char>, word: Seq<char>, tail: Seq<char>)
    requires
        head.len() > 0 ==> is_white_space(head.last()),
        word.len() > 0,
        forall|i: int| 0 <= i < word.len() ==> !is_white_space(#[trigger] word[i]),
        forall|i: int| 0 <= i < tail.len() ==> is_white_space(#[trigger] tail[i]),
    ensures
        last_word(head + word + tail) == Some(word),
{
    let words = head + word;
    lemma_trimmed(words, tail);
    assert(words.last() == word[word.len() - 1]);
    assert(trimmed(words) == words);
    assert(head + word + tail =~= words + tail);
    lemma_ending(head, word);
}

/// A text of white space alone has no last word.
pub proof fn law_no_last_word(text: Seq<char>)
    requires
        forall|i: int| 0 <= i < text.len() ==> is_white_space(#[trigger] text[i]),
    ensures
        last_word(text) is None,
{
    lemma_trimmed(Seq::empty(), text);
    assert(Seq::<char>::empty() + text =~= text);
}

/// White space at the end is trimmed off.
proof fn lemma_trimmed(words: Seq<char>, tail: Seq<char>)
    requires
        forall|i: int| 0 <= i < tail.len() ==> is_white_space(#[trigger] tail[i]),
    ensures
        trimmed(words + tail) == trimmed(words),
    decreases tail.len(),
{
    if tail.len() > 0 {
        let whole = words + tail;
        assert(whole.last() == tail[tail.len() - 1]);
        assert(whole.drop_last() =~= words + tail.drop_last());
        assert forall|i: int| 0 <= i < tail.len() - 1 implies is_white_space(
            #[trigger] tail.drop_last()[i],
        ) by {
            assert(tail.drop_last()[i] == tail[i]);
        }
        lemma_trimmed(words, tail.drop_last());
    } else {
        assert(words + tail =~= words);
    }
}

/// A word behind white space, or behind nothing, is the ending.
proof fn lemma_ending(head: Seq<char>, word: Seq<char>)
    requires
        head.len() > 0 ==> is_white_space(head.last()),
        forall|i: int| 0 <= i < word.len() ==> !is_white_space(#[trigger] word[i]),
    ensures
        ending(head + word) == word,
    decreases word.len(),
{
    let whole = head + word;
    if word.len() > 0 {
        assert(whole.last() == word[word.len() - 1]);
        assert(whole.drop_last() =~= head + word.drop_last());
        assert forall|i: int| 0 <= i < word.len() - 1 implies !is_white_space(
            #[trigger] word.drop_last()[i],
        ) by {
            assert(word.drop_last()[i] == word[i]);
        }
        lemma_ending(head, word.drop_last());
        assert(word.drop_last().push(word.last()) =~= word);
    } else {
        assert(whole =~= head);
        assert(ending(whole) =~= word);
    }
}

/// Each further digit multiplies by ten what was there and is added to it.
pub proof fn law_digits(digits: Seq<char>, digit: char)
    requires
        '0' <= digit <= '9',
    ensures
        digits_value(Seq::empty()) == 0,
        digits_value(digits.push(digit)) == 10 * digits_value(digits) + (digit as int - 48),
{
    assert(digits.push(digit).drop_last() =~= digits);
}

/// Digits are read as their number where it fits 64 bits, with a plus sign before them or without.
pub proof fn law_reading_numbers(digits: Seq<char>)
    requires
        digits.len() > 0,
        forall|i: int| 0 <= i < digits.len() ==> '0' <= #[trigger] digits[i] <= '9',
    ensures
        digits_value(digits) <= u64::MAX ==> parsed_u64(digits) == Some(digits_value(digits) as u64)
            && parsed_u64(seq!['+'] + digits) == Some(digits_value(digits) as u64),
        digits_value(digits) > u64::MAX ==> parsed_u64(digits) is None && parsed_u64(
            seq!['+'] + digits,
        ) is None,
{
    let signed = seq!['+'] + digits;
    assert(signed.skip(1) =~= digits);
    assert('0' <= digits[0] <= '9');
}

/// A text with anything else in it, or with no digit, is no number.
pub proof fn law_other_texts_are_no_numbers(text: Seq<char>, i: int)
    requires
        text.len() == 0 || 0 <= i < text.len() && !('0' <= text[i] <= '9') && (i > 0 || text[0]
            != '+' || text.len() == 1),
    ensures
        parsed_u64(text) is None,
{
    if text.len() > 0 {
        if text[0] == '+' {
            if i > 0 {
                assert(text.skip(1)[i - 1] == text[i]);
            }
        }
    }
}

/// A number is written in decimal digits that stand for it, and starts with a zero only if it is one
/// digit long.
pub proof fn law_decimal(n: nat)
    ensures
        decimal(n).len() > 0,
        forall|i: int| 0 <= i < decimal(n).len() ==> '0' <= #[trigger] decimal(n)[i] <= '9',
        digits_value(decimal(n)) == n,
        n >= 10 ==> decimal(n)[0] != '0',
    decreases n,
{
    lemma_decimal(n);
    if n >= 10 {
        law_decimal(n / 10);
        lemma_decimal(n / 10);
        if n / 10 < 10 {
            assert(decimal(n / 10) =~= seq![digit_char(n / 10)]);
        }
        assert(decimal(n)[0] == decimal(n / 10)[0]);
    }
}

} // verus!
