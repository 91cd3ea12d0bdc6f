//! ASCII case folding of names, as the standard library defines it.

use vstd::prelude::*;
use vstd::string::{StrSliceExecFns, StringExecFns};

verus! {

/// `c` with the ASCII letters `A..=Z` mapped to `a..=z`; every other character is unchanged.
pub open spec fn ascii_lower_char(c: char) -> char {
    if 'A' <= c && c <= 'Z' {
        ((c as u32) + 32) as char
    } else {
        c
    }
}

/// `s` with every ASCII upper-case letter mapped to its lower-case form.
pub open spec fn ascii_lower(s: Seq<char>) -> Seq<char> {
    s.map_values(|c: char| ascii_lower_char(c))
}

/// Whether two names are equal once ASCII letters are case-folded.
pub open spec fn same_ascii_name(a: Seq<char>, b: Seq<char>) -> bool {
    ascii_lower(a) == ascii_lower(b)
}

/// `c` with an ASCII upper-case letter mapped to its lower-case form.
fn lower_ascii_char(c: char) -> (lower: char)
    ensures
        lower == ascii_lower_char(c),
{
    if 'A' <= c && c <= 'Z' {
        ((c as u8) + 32) as char
    } else {
        c
    }
}

/// Whether two names are equal once ASCII letters are case-folded, as
/// `str::eq_ignore_ascii_case` decides it.
pub(crate) fn eq_ignore_ascii_case(a: &str, b: &str) -> (equal: bool)
    ensures
        equal == same_ascii_name(a@, b@),
{
    let length = a.unicode_len();
    if length != b.unicode_len() {
        assert(ascii_lower(a@).len() != ascii_lower(b@).len());
        return false;
    }
    let mut index: usize = 0;
    while index < length
        invariant
            length == a@.len(),
            length == b@.len(),
            index <= length,
            forall|i: int| 0 <= i < index ==> ascii_lower_char(#[trigger] a@[i]) == ascii_lower_char(b@[i]),
        decreases length - index,
    {
        if lower_ascii_char(a.get_char(index)) != lower_ascii_char(b.get_char(index)) {
            assert(ascii_lower(a@)[index as int] != ascii_lower(b@)[index as int]);
            return false;
        }
        index += 1;
    }
    assert(ascii_lower(a@) =~= ascii_lower(b@));
    true
}

/// The lower-case form of an ASCII upper-case letter, as text.
fn lower_letter(c: char) -> (text: &'static str)
    requires
        'A' <= c && c <= 'Z',
    ensures
        text@ == seq![ascii_lower_char(c)],
{
    proof {
        reveal_strlit("a");
        reveal_strlit("b");
        reveal_strlit("c");
        reveal_strlit("d");
        reveal_strlit("e");
        reveal_strlit("f");
        reveal_strlit("g");
        reveal_strlit("h");
        reveal_strlit("i");
        reveal_strlit("j");
        reveal_strlit("k");
        reveal_strlit("l");
        reveal_strlit("m");
        reveal_strlit("n");
        reveal_strlit("o");
        reveal_strlit("p");
        reveal_strlit("q");
        reveal_strlit("r");
        reveal_strlit("s");
        reveal_strlit("t");
        reveal_strlit("u");
        reveal_strlit("v");
        reveal_strlit("w");
        reveal_strlit("x");
        reveal_strlit("y");
        reveal_strlit("z");
    }
    if c == 'A' {
        "a"
    } else if c == 'B' {
        "b"
    } else if c == 'C' {
        "c"
    } else if c == 'D' {
        "d"
    } else if c == 'E' {
        "e"
    } else if c == 'F' {
        "f"
    } else if c == 'G' {
        "g"
    } else if c == 'H' {
        "h"
    } else if c == 'I' {
        "i"
    } else if c == 'J' {
        "j"
    } else if c == 'K' {
        "k"
    } else if c == 'L' {
        "l"
    } else if c == 'M' {
        "m"
    } else if c == 'N' {
        "n"
    } else if c == 'O' {
        "o"
    } else if c == 'P' {
        "p"
    } else if c == 'Q' {
        "q"
    } else if c == 'R' {
        "r"
    } else if c == 'S' {
        "s"
    } else if c == 'T' {
        "t"
    } else if c == 'U' {
        "u"
    } else if c == 'V' {
        "v"
    } else if c == 'W' {
        "w"
    } else if c == 'X' {
        "x"
    } else if c == 'Y' {
        "y"
    } else {
        "z"
    }
}

/// `s` with every ASCII upper-case letter mapped to its lower-case form, as
/// `str::to_ascii_lowercase` gives it.
#[verifier::loop_isolation(false)]
pub(crate) fn to_ascii_lowercase(s: &str) -> (lower: String)
    ensures
        lower@ == ascii_lower(s@),
{
    let length = s.unicode_len();
    let mut lower = String::new();
    let mut run_start: usize = 0;
    let mut index: usize = 0;
    while index < length
        invariant
            length == s@.len(),
            run_start <= index <= length,
            lower@ == ascii_lower(s@.subrange(0, run_start as int)),
            forall|k: int| run_start <= k < index ==> !('A' <= #[trigger] s@[k] && s@[k] <= 'Z'),
        decreases length - index,
    {
        let c = s.get_char(index);
        if 'A' <= c && c <= 'Z' {
            let ghost before = lower@;
            lower.append(s.substring_char(run_start, index));
            lower.append(lower_letter(c));
            proof {
                let run = s@.subrange(run_start as int, index as int);
                assert(ascii_lower(run) =~= run);
                assert(s@.subrange(0, index + 1) =~= s@.subrange(0, run_start as int) + run + seq![c]);
                assert(ascii_lower(s@.subrange(0, run_start as int) + run + seq![c]) =~= ascii_lower(
                    s@.subrange(0, run_start as int),
                ) + ascii_lower(run) + seq![ascii_lower_char(c)]);
            }
            run_start = index + 1;
        }
        index += 1;
    }
    lower.append(s.substring_char(run_start, length));
    proof {
        let run = s@.subrange(run_start as int, length as int);
        assert(ascii_lower(run) =~= run);
        assert(s@ =~= s@.subrange(0, run_start as int) + run);
        assert(ascii_lower(s@.subrange(0, run_start as int) + run) =~= ascii_lower(
            s@.subrange(0, run_start as int),
        ) + ascii_lower(run));
    }
    lower
}

/// Whether `b` is an ASCII letter.
pub open spec fn is_ascii_letter(b: u8) -> bool {
    (0x41 <= b && b <= 0x5A) || (0x61 <= b && b <= 0x7A)
}

/// Whether `c` has Unicode's White_Space property.
pub open spec fn is_white_space(c: char) -> bool {
    let v = c as u32;
    (0x9 <= v && v <= 0xD) || v == 0x20 || v == 0x85 || v == 0xA0 || v == 0x1680 || (0x2000 <= v && v
        <= 0x200A) || v == 0x2028 || v == 0x2029 || v == 0x202F || v == 0x205F || v == 0x3000
}

/// Whether `c` is white space, as `char::is_whitespace` decides it.
pub(crate) fn char_is_whitespace(c: char) -> (white: bool)
    ensures
        white == is_white_space(c),
{
    let v = c as u32;
    (0x9 <= v && v <= 0xD) || v == 0x20 || v == 0x85 || v == 0xA0 || v == 0x1680 || (0x2000 <= v && v
        <= 0x200A) || v == 0x2028 || v == 0x2029 || v == 0x202F || v == 0x205F || v == 0x3000
}

/// The number of white-space characters that `s` starts with.
pub open spec fn leading_space(s: Seq<char>) -> nat
    decreases s.len(),
{
    if s.len() > 0 && is_white_space(s[0]) {
        1 + leading_space(s.drop_first())
    } else {
        0
    }
}

/// The number of white-space characters that `s` ends with.
pub open spec fn trailing_space(s: Seq<char>) -> nat
    decreases s.len(),
{
    if s.len() > 0 && is_white_space(s.last()) {
        1 + trailing_space(s.drop_last())
    } else {
        0
    }
}

/// `s` without its leading and trailing white space.
pub open spec fn trim_space(s: Seq<char>) -> Seq<char> {
    if leading_space(s) == s.len() {
        Seq::empty()
    } else {
        s.subrange(leading_space(s) as int, s.len() - trailing_space(s))
    }
}

/// The number of characters before the first white space of `s`.
pub open spec fn word_len(s: Seq<char>) -> nat
    decreases s.len(),
{
    if s.len() > 0 && !is_white_space(s[0]) {
        1 + word_len(s.drop_first())
    } else {
        0
    }
}

/// The maximal runs of non-white-space characters of `s`, in order.
pub open spec fn split_words(s: Seq<char>) -> Seq<Seq<char>>
    decreases s.len(),
{
    if s.len() == 0 {
        Seq::empty()
    } else if is_white_space(s[0]) {
        split_words(s.drop_first())
    } else {
        proof {
            lemma_word_len_bound(s);
        }
        seq![s.take(word_len(s) as int)] + split_words(s.skip(word_len(s) as int))
    }
}

pub proof fn lemma_word_len_bound(s: Seq<char>)
    ensures
        word_len(s) <= s.len(),
        s.len() > 0 && !is_white_space(s[0]) ==> word_len(s) >= 1,
    decreases s.len(),
{
    if s.len() > 0 && !is_white_space(s[0]) {
        lemma_word_len_bound(s.drop_first());
    }
}

proof fn lemma_leading_space_bound(s: Seq<char>)
    ensures
        leading_space(s) <= s.len(),
        forall|i: int| 0 <= i < leading_space(s) ==> is_white_space(#[trigger] s[i]),
        leading_space(s) < s.len() ==> !is_white_space(s[leading_space(s) as int]),
    decreases s.len(),
{
    if s.len() > 0 && is_white_space(s[0]) {
        lemma_leading_space_bound(s.drop_first());
        assert forall|i: int| 0 <= i < leading_space(s) implies is_white_space(#[trigger] s[i]) by {
            if i > 0 {
                assert(s[i] == s.drop_first()[i - 1]);
            }
        }
    }
}

proof fn lemma_leading_space_at(s: Seq<char>, k: int)
    requires
        0 <= k <= s.len(),
        forall|i: int| 0 <= i < k ==> is_white_space(#[trigger] s[i]),
        k < s.len() ==> !is_white_space(s[k]),
    ensures
        leading_space(s) == k,
    decreases k,
{
    if k > 0 {
        assert forall|i: int| 0 <= i < k - 1 implies is_white_space(#[trigger] s.drop_first()[i]) by {
            assert(s.drop_first()[i] == s[i + 1]);
        }
        lemma_leading_space_at(s.drop_first(), k - 1);
    }
}

proof fn lemma_trailing_space_at(s: Seq<char>, k: int)
    requires
        0 <= k <= s.len(),
        forall|i: int| s.len() - k <= i < s.len() ==> is_white_space(#[trigger] s[i]),
        k < s.len() ==> !is_white_space(s[s.len() - k - 1]),
    ensures
        trailing_space(s) == k,
    decreases k,
{
    if k > 0 {
        assert forall|i: int| s.drop_last().len() - (k - 1) <= i < s.drop_last().len() implies is_white_space(
            #[trigger] s.drop_last()[i],
        ) by {
            assert(s.drop_last()[i] == s[i]);
        }
        lemma_trailing_space_at(s.drop_last(), k - 1);
    }
}

/// `text` without its leading and trailing white space.
pub fn trim_text(text: &str) -> (trimmed: String)
    ensures
        trimmed@ == trim_space(text@),
{
    let length = text.unicode_len();
    let mut start: usize = 0;
    while start < length && char_is_whitespace(text.get_char(start))
        invariant
            length == text@.len(),
            start <= length,
            forall|i: int| 0 <= i < start ==> is_white_space(#[trigger] text@[i]),
        decreases length - start,
    {
        start += 1;
    }
    proof {
        lemma_leading_space_at(text@, start as int);
    }
    if start == length {
        return String::new();
    }
    let mut end: usize = length;
    while end > start && char_is_whitespace(text.get_char(end - 1))
        invariant
            length == text@.len(),
            start < length,
            !is_white_space(text@[start as int]),
            start <= end <= length,
            forall|i: int| end <= i < length ==> is_white_space(#[trigger] text@[i]),
        decreases end,
    {
        end -= 1;
    }
    proof {
        lemma_trailing_space_at(text@, length - end);
    }
    String::from_str(text.substring_char(start, end))
}

proof fn lemma_word_len_at(s: Seq<char>, k: int)
    requires
        0 <= k <= s.len(),
        forall|i: int| 0 <= i < k ==> !is_white_space(#[trigger] s[i]),
        k < s.len() ==> is_white_space(s[k]),
    ensures
        word_len(s) == k,
    decreases k,
{
    if k > 0 {
        assert forall|i: int| 0 <= i < k - 1 implies !is_white_space(#[trigger] s.drop_first()[i]) by {
            assert(s.drop_first()[i] == s[i + 1]);
        }
        lemma_word_len_at(s.drop_first(), k - 1);
    }
}

/// The words of `text`: its maximal runs of non-white-space characters, in order.
#[verifier::loop_isolation(false)]
pub fn text_words(text: &str) -> (words: Vec<String>)
    ensures
        words@.map_values(|w: String| w@) == split_words(text@),
{
    let length = text.unicode_len();
    let mut words: Vec<String> = Vec::new();
    let mut position: usize = 0;
    assert(text@.skip(0) =~= text@);
    assert(words@.map_values(|w: String| w@) + split_words(text@) =~= split_words(text@));
    while position < length
        invariant
            length == text@.len(),
            position <= length,
            words@.map_values(|w: String| w@) + split_words(text@.skip(position as int)) == split_words(text@),
        decreases length - position,
    {
        let ghost rest = text@.skip(position as int);
        if char_is_whitespace(text.get_char(position)) {
            assert(rest.drop_first() =~= text@.skip(position + 1));
            position += 1;
        } else {
            let mut end: usize = position + 1;
            while end < length && !char_is_whitespace(text.get_char(end))
                invariant
                    length == text@.len(),
                    position < end <= length,
                    forall|i: int| position <= i < end ==> !is_white_space(#[trigger] text@[i]),
                decreases length - end,
            {
                end += 1;
            }
            proof {
                assert forall|i: int| 0 <= i < end - position implies !is_white_space(#[trigger] rest[i]) by {
                    assert(rest[i] == text@[position + i]);
                }
                if end < length {
                    assert(rest[end - position] == text@[end as int]);
                }
                lemma_word_len_at(rest, end - position);
                assert(rest.take(end - position) =~= text@.subrange(position as int, end as int));
                assert(rest.skip(end - position) =~= text@.skip(end as int));
            }
            let ghost before = words@.map_values(|w: String| w@);
            words.push(String::from_str(text.substring_char(position, end)));
            proof {
                assert(words@.map_values(|w: String| w@) =~= before.push(text@.subrange(position as int, end as int)));
                assert(before.push(text@.subrange(position as int, end as int)) + split_words(text@.skip(end as int))
                    =~= before + (seq![rest.take(word_len(rest) as int)] + split_words(rest.skip(word_len(rest) as int))));
            }
            position = end;
        }
    }
    proof {
        assert(text@.skip(position as int) =~= Seq::<char>::empty());
        assert(words@.map_values(|w: String| w@) + Seq::<Seq<char>>::empty() =~= words@.map_values(|w: String| w@));
    }
    words
}

/// What `str::to_lowercase` gives for `text`: Unicode's full lower-case mapping, which for
/// most characters depends on the character alone (a word-final capital sigma becomes `ς`).
pub uninterp spec fn unicode_lowercase(text: Seq<char>) -> Seq<char>;

/// Calls `str::to_lowercase`, which applies Unicode's lower-case mapping to the text; its result
/// depends on the text alone, and is named by `unicode_lowercase`.
#[verifier::external_body]
pub(crate) fn to_lowercase(text: &str) -> (lower: String)
    ensures
        lower@ == unicode_lowercase(text@),
{
    text.to_lowercase()
}

/// Whether `needle` occurs in `haystack` as a run of consecutive characters.
pub open spec fn contains_text(haystack: Seq<char>, needle: Seq<char>) -> bool {
    exists|start: int|
        0 <= start && start + needle.len() <= haystack.len() && #[trigger] haystack.subrange(
            start,
            start + needle.len(),
        ) == needle
}

/// Whether `needle` occurs in `haystack`.
pub fn text_contains(haystack: &str, needle: &str) -> (found: bool)
    ensures
        found == contains_text(haystack@, needle@),
{
    let h = haystack.unicode_len();
    let n = needle.unicode_len();
    if n > h {
        return false;
    }
    let mut start: usize = 0;
    while start <= h - n
        invariant
            h == haystack@.len(),
            n == needle@.len(),
            n <= h,
            start <= h - n + 1,
            forall|s: int| 0 <= s < start ==> #[trigger] haystack@.subrange(s, s + n) != needle@,
        decreases h - n + 1 - start,
    {
        let mut k: usize = 0;
        while k < n && haystack.get_char(start + k) == needle.get_char(k)
            invariant
                h == haystack@.len(),
                n == needle@.len(),
                start + n <= h,
                k <= n,
                forall|j: int| 0 <= j < k ==> haystack@[start + j] == needle@[j],
            decreases n - k,
        {
            k += 1;
        }
        if k == n {
            assert(haystack@.subrange(start as int, start + n) =~= needle@);
            return true;
        }
        assert(haystack@.subrange(start as int, start + n)[k as int] != needle@[k as int]);
        start += 1;
    }
    false
}

/// The decimal digits of `n`, most significant first, without leading zeros.
pub open spec fn decimal_text(n: nat) -> Seq<char>
    decreases n,
{
    if n < 10 {
        seq![digit_char(n)]
    } else {
        decimal_text(n / 10).push(digit_char(n % 10))
    }
}

/// The ASCII digit for a value below ten.
pub open spec fn digit_char(d: nat) -> char {
    (('0' as u32) + d) as char
}

/// Whether every character of `s` is an ASCII digit.
pub open spec fn all_ascii_digits(s: Seq<char>) -> bool {
    forall|i: int| 0 <= i < s.len() ==> '0' <= #[trigger] s[i] && s[i] <= '9'
}

/// Whether every character of `text` is an ASCII digit.
pub fn is_all_ascii_digits(text: &str) -> (digits: bool)
    ensures
        digits == all_ascii_digits(text@),
{
    let length = text.unicode_len();
    let mut index: usize = 0;
    while index < length
        invariant
            length == text@.len(),
            index <= length,
            forall|i: int| 0 <= i < index ==> '0' <= #[trigger] text@[i] && text@[i] <= '9',
        decreases length - index,
    {
        let c = text.get_char(index);
        if c < '0' || c > '9' {
            return false;
        }
        index += 1;
    }
    true
}

/// Whether `text` is the decimal form of `n`.
#[verifier::loop_isolation(false)]
pub fn is_decimal_of(text: &str, n: u32) -> (equal: bool)
    ensures
        equal == (text@ == decimal_text(n as nat)),
{
    let length = text.unicode_len();
    let ghost expected = decimal_text(n as nat);
    let mut digits: Vec<char> = Vec::new();
    let mut rest: u32 = n;
    loop
        invariant
            expected == decimal_text(rest as nat) + digits@.reverse(),
        decreases rest,
    {
        let c = digit_of(rest % 10);
        proof {
            assert(digits@.push(c).reverse() =~= seq![c] + digits@.reverse());
        }
        if rest < 10 {
            digits.push(c);
            assert(expected =~= digits@.reverse());
            break;
        }
        proof {
            assert(decimal_text(rest as nat) == decimal_text(rest as nat / 10).push(c));
            assert(decimal_text(rest as nat / 10).push(c) + digits@.reverse() =~= decimal_text(
                rest as nat / 10,
            ) + (seq![c] + digits@.reverse()));
        }
        digits.push(c);
        rest = rest / 10;
    }
    if digits.len() != length {
        return false;
    }
    let mut index: usize = 0;
    while index < length
        invariant
            length == text@.len(),
            length == digits@.len(),
            expected == digits@.reverse(),
            index <= length,
            forall|i: int| 0 <= i < index ==> text@[i] == expected[i],
        decreases length - index,
    {
        if text.get_char(index) != digits[length - 1 - index] {
            return false;
        }
        index += 1;
    }
    assert(text@ =~= expected);
    true
}

fn digit_of(d: u32) -> (c: char)
    requires
        d < 10,
    ensures
        c == digit_char(d as nat),
{
    if d == 0 { '0' } else if d == 1 { '1' } else if d == 2 { '2' } else if d == 3 { '3' } else if d
        == 4 { '4' } else if d == 5 { '5' } else if d == 6 { '6' } else if d == 7 { '7' } else if d
        == 8 { '8' } else { '9' }
}


/// The ASCII digit text of a value below ten.
fn digit_text(d: u32) -> (text: &'static str)
    requires
        d < 10,
    ensures
        text@ == seq![digit_char(d as nat)],
{
    proof {
        reveal_strlit("0");
        reveal_strlit("1");
        reveal_strlit("2");
        reveal_strlit("3");
        reveal_strlit("4");
        reveal_strlit("5");
        reveal_strlit("6");
        reveal_strlit("7");
        reveal_strlit("8");
        reveal_strlit("9");
    }
    if d == 0 { "0" } else if d == 1 { "1" } else if d == 2 { "2" } else if d == 3 { "3" } else if d
        == 4 { "4" } else if d == 5 { "5" } else if d == 6 { "6" } else if d == 7 { "7" } else if d
        == 8 { "8" } else { "9" }
}

proof fn lemma_decimal_text_len(n: nat)
    ensures
        decimal_text(n).len() >= 1,
    decreases n,
{
    if n >= 10 {
        lemma_decimal_text_len(n / 10);
    }
}

/// The decimal form of `n`.
#[verifier::loop_isolation(false)]
pub fn decimal_string_u64(n: u64) -> (text: String)
    ensures
        text@ == decimal_text(n as nat),
{
    let ghost expected = decimal_text(n as nat);
    let mut digits: Vec<u64> = Vec::new();
    let mut rest: u64 = n;
    loop
        invariant
            expected == decimal_text(rest as nat) + digits@.reverse().map_values(|d: u64| digit_char(d as nat)),
            forall|i: int| 0 <= i < digits@.len() ==> #[trigger] digits@[i] < 10,
        decreases rest,
    {
        let d = rest % 10;
        let ghost c = digit_char(d as nat);
        proof {
            assert(digits@.push(d).reverse().map_values(|x: u64| digit_char(x as nat)) =~= seq![c]
                + digits@.reverse().map_values(|x: u64| digit_char(x as nat)));
        }
        if rest < 10 {
            digits.push(d);
            assert(expected =~= digits@.reverse().map_values(|x: u64| digit_char(x as nat)));
            break;
        }
        proof {
            assert(decimal_text(rest as nat) == decimal_text(rest as nat / 10).push(c));
            assert(decimal_text(rest as nat / 10).push(c) + digits@.reverse().map_values(
                |x: u64| digit_char(x as nat),
            ) =~= decimal_text(rest as nat / 10) + (seq![c] + digits@.reverse().map_values(
                |x: u64| digit_char(x as nat),
            )));
        }
        digits.push(d);
        rest = rest / 10;
    }
    let ghost shown = digits@.reverse().map_values(|x: u64| digit_char(x as nat));
    let mut text = String::new();
    let mut index: usize = digits.len();
    while index > 0
        invariant
            index <= digits@.len(),
            expected == shown,
            shown.len() == digits@.len(),
            text@ == shown.take(digits@.len() - index),
            forall|i: int| 0 <= i < digits@.len() ==> #[trigger] digits@[i] < 10,
        decreases index,
    {
        index -= 1;
        let piece = digit_text(digits[index] as u32);
        proof {
            assert(shown[digits@.len() - index - 1] == digit_char(digits@[index as int] as nat));
            assert(shown.take(digits@.len() - index) =~= shown.take(digits@.len() - index - 1).push(
                digit_char(digits@[index as int] as nat),
            ));
        }
        text.append(piece);
    }
    assert(shown.take(digits@.len() as int) =~= shown);
    text
}

/// The decimal form of `n`.
pub fn decimal_string(n: u32) -> (text: String)
    ensures
        text@ == decimal_text(n as nat),
{
    decimal_string_u64(n as u64)
}

/// The decimal form of `n`.
pub fn decimal_string_usize(n: usize) -> (text: String)
    ensures
        text@ == decimal_text(n as nat),
{
    decimal_string_u64(n as u64)
}

/// `text` preceded by zeros up to `width` characters.
pub open spec fn zero_padded(text: Seq<char>, width: nat) -> Seq<char> {
    if text.len() >= width {
        text
    } else {
        Seq::new((width - text.len()) as nat, |i: int| '0') + text
    }
}

/// The decimal form of `n`, padded with zeros to at least six digits.
pub fn decimal_string_6(n: u32) -> (text: String)
    ensures
        text@ == zero_padded(decimal_text(n as nat), 6),
{
    let digits = decimal_string(n);
    let length = digits.as_str().unicode_len();
    let mut text = String::new();
    let mut count: usize = length;
    while count < 6
        invariant
            length == digits@.len(),
            length <= count <= 6 || length > 6 && count == length,
            text@ == Seq::new((count - length) as nat, |i: int| '0'),
        decreases 6 - count,
    {
        proof {
            reveal_strlit("0");
        }
        text.append("0");
        assert(text@ =~= Seq::new((count + 1 - length) as nat, |i: int| '0'));
        count += 1;
    }
    text.append(digits.as_str());
    proof {
        if length >= 6 {
            assert(text@ =~= digits@);
        } else {
            assert(count == 6);
        }
    }
    text
}

} // verus!
