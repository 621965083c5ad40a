//! What the text operations come to, character by character.
use crate::map::order_irreflexive;
use crate::text::{
    after_last, all_digits, before_first, decimal, decimal_nat, digit_char, ends_with, find_back,
    find_from, has, is_digit, is_white, joined, last_piece, lemma_find_from, line_of, lossy_text,
    lower, lower_char, occurs_at, precedes, second_piece, trim_end, trimmed,
    without_suffix, without_trailing,
};
use vstd::prelude::*;

verus! {

// ----------------------------------------------------------------------------
// White space
// ----------------------------------------------------------------------------

/// Of the ASCII characters, the blank and those from tab to carriage return are white.
pub proof fn ascii_white_space(c: char)
    requires
        (c as u32) < 128,
    ensures
        is_white(c) <==> c == ' ' || 9 <= c as u32 <= 13,
{
    assert(' ' as u32 == 32);
    lemma_same_code(c, ' ');
}

/// Two characters with one code point are the same.
pub proof fn lemma_same_code(a: char, b: char)
    ensures
        a as u32 == b as u32 <==> a == b,
{
}

pub open spec fn all_white(s: Seq<char>) -> bool {
    forall|i: int| 0 <= i < s.len() ==> is_white(#[trigger] s[i])
}

/// Whether a text neither begins nor ends with white space.
pub open spec fn no_white_ends(s: Seq<char>) -> bool {
    s.len() > 0 ==> !is_white(s[0]) && !is_white(s.last())
}

/// Trimming takes off the white space around a text, all of it and nothing else.
pub proof fn trimming_takes_off_white_ends(before: Seq<char>, core: Seq<char>, behind: Seq<char>)
    requires
        all_white(before),
        all_white(behind),
        no_white_ends(core),
    ensures
        trimmed(before + core + behind) == core,
    decreases before.len() + behind.len(),
{
    let s = before + core + behind;
    if before.len() > 0 {
        let rest = before.drop_first();
        assert(s[0] == before[0]);
        assert(s.drop_first() =~= rest + core + behind);
        assert forall|i: int| 0 <= i < rest.len() implies is_white(#[trigger] rest[i]) by {
            assert(rest[i] == before[i + 1]);
        }
        trimming_takes_off_white_ends(rest, core, behind);
    } else if core.len() == 0 {
        if behind.len() > 0 {
            let rest = behind.drop_first();
            assert(s[0] == behind[0]);
            assert(s.drop_first() =~= before + core + rest);
            assert forall|i: int| 0 <= i < rest.len() implies is_white(#[trigger] rest[i]) by {
                assert(rest[i] == behind[i + 1]);
            }
            trimming_takes_off_white_ends(before, core, rest);
        } else {
            assert(s =~= core);
        }
    } else {
        assert(s[0] == core[0]);
        assert(s =~= core + behind);
        lemma_trim_end_of(core, behind);
    }
}

proof fn lemma_trim_end_of(core: Seq<char>, behind: Seq<char>)
    requires
        all_white(behind),
        core.len() > 0,
        !is_white(core.last()),
    ensures
        trim_end(core + behind) == core,
    decreases behind.len(),
{
    let s = core + behind;
    if behind.len() > 0 {
        let rest = behind.drop_last();
        assert(s.last() == behind.last());
        assert(s.drop_last() =~= core + rest);
        lemma_trim_end_of(core, rest);
    } else {
        assert(s =~= core);
    }
}

/// A line of output is its text without the white space around it.
pub proof fn a_line_is_its_text(
    raw: Seq<u8>,
    before: Seq<char>,
    core: Seq<char>,
    behind: Seq<char>,
)
    requires
        lossy_text(raw) == before + core + behind,
        all_white(before),
        all_white(behind),
        no_white_ends(core),
    ensures
        line_of(raw) == core,
{
    trimming_takes_off_white_ends(before, core, behind);
}

/// What stands at the end and is nothing but `c` is taken off.
pub proof fn trailing_characters_are_taken_off(core: Seq<char>, run: Seq<char>, c: char)
    requires
        core.len() > 0 ==> core.last() != c,
        forall|i: int| 0 <= i < run.len() ==> #[trigger] run[i] == c,
    ensures
        without_trailing(core + run, c) == core,
    decreases run.len(),
{
    let s = core + run;
    if run.len() > 0 {
        let rest = run.drop_last();
        assert(s.last() == run.last());
        assert(s.drop_last() =~= core + rest);
        trailing_characters_are_taken_off(core, rest, c);
    } else {
        assert(s =~= core);
    }
}

// ----------------------------------------------------------------------------
// Searching and splitting
// ----------------------------------------------------------------------------

/// Whether `pattern` stands in `s` from place `i` on.
pub open spec fn stands_at(s: Seq<char>, pattern: Seq<char>, i: int) -> bool {
    &&& 0 <= i
    &&& i + pattern.len() <= s.len()
    &&& forall|k: int| 0 <= k < pattern.len() ==> s[i + k] == #[trigger] pattern[k]
}

/// A pattern occurs where its characters stand one after the other.
pub proof fn patterns_occur_where_they_stand(s: Seq<char>, pattern: Seq<char>, i: int)
    ensures
        occurs_at(s, pattern, i) <==> stands_at(s, pattern, i),
{
    if stands_at(s, pattern, i) {
        assert(s.subrange(i, i + pattern.len()) =~= pattern);
    }
    if occurs_at(s, pattern, i) {
        let found = s.subrange(i, i + pattern.len());
        assert forall|k: int| 0 <= k < pattern.len() implies s[i + k] == #[trigger] pattern[k] by {
            assert(found[k] == s[i + k]);
        }
    }
}

/// Whether `pattern` stands nowhere in `s`.
pub open spec fn stands_nowhere(s: Seq<char>, pattern: Seq<char>) -> bool {
    forall|i: int| !#[trigger] stands_at(s, pattern, i)
}

/// Whether `pattern` stands in `s` at `i` and nowhere before.
pub open spec fn stands_first_at(s: Seq<char>, pattern: Seq<char>, i: int) -> bool {
    &&& stands_at(s, pattern, i)
    &&& forall|j: int| 0 <= j < i ==> !#[trigger] stands_at(s, pattern, j)
}

/// Whether `pattern` stands in `s` at `i` and nowhere behind.
pub open spec fn stands_last_at(s: Seq<char>, pattern: Seq<char>, i: int) -> bool {
    &&& stands_at(s, pattern, i)
    &&& forall|j: int| i < j ==> !#[trigger] stands_at(s, pattern, j)
}

/// The place found is the first one; none is found exactly where there is none.
pub proof fn the_first_place_is_found(s: Seq<char>, pattern: Seq<char>, i: int)
    ensures
        find_from(s, pattern, 0) == Some(i) <==> stands_first_at(s, pattern, i),
        find_from(s, pattern, 0) is None <==> stands_nowhere(s, pattern),
        has(s, pattern) <==> !stands_nowhere(s, pattern),
{
    lemma_find_from(s, pattern, 0);
    assert forall|j: int| #[trigger] occurs_at(s, pattern, j) <==> stands_at(s, pattern, j) by {
        patterns_occur_where_they_stand(s, pattern, j);
    }
    assert forall|j: int| #[trigger] stands_at(s, pattern, j) <==> occurs_at(s, pattern, j) by {
        patterns_occur_where_they_stand(s, pattern, j);
    }
    if stands_first_at(s, pattern, i) {
        assert(occurs_at(s, pattern, i));
        match find_from(s, pattern, 0) {
            Some(f) => {
                assert(stands_at(s, pattern, f));
                assert(f == i);
            },
            None => {},
        }
    }
    if let Some(f) = find_from(s, pattern, 0) {
        assert(stands_at(s, pattern, f));
    }
}

/// The second piece is what stands between the first mark and the next, or to the end;
/// without a mark there is none.
pub proof fn the_second_piece_lies_between_marks(s: Seq<char>, mark: Seq<char>, i: int, j: int)
    ensures
        stands_nowhere(s, mark) ==> second_piece(s, mark) is None,
        stands_first_at(s, mark, i) && stands_nowhere(s.skip(i + mark.len()), mark)
            ==> second_piece(s, mark) == Some(s.skip(i + mark.len())),
        stands_first_at(s, mark, i) && stands_first_at(s.skip(i + mark.len()), mark, j)
            ==> second_piece(s, mark) == Some(s.subrange(i + mark.len(), i + mark.len() + j)),
{
    the_first_place_is_found(s, mark, i);
    let rest = s.skip(i + mark.len());
    the_first_place_is_found(rest, mark, j);
    if stands_first_at(s, mark, i) && stands_first_at(rest, mark, j) {
        assert(rest.take(j) =~= s.subrange(i + mark.len(), i + mark.len() + j));
    }
}

/// The last piece is what stands behind the last mark; without a mark there is none.
pub proof fn the_last_piece_lies_behind_the_last_mark(s: Seq<char>, mark: Seq<char>, i: int)
    ensures
        stands_nowhere(s, mark) ==> last_piece(s, mark) is None,
        stands_last_at(s, mark, i) ==> last_piece(s, mark) == Some(s.skip(i + mark.len())),
{
    lemma_found_back(s, mark, s.len() - mark.len());
    if stands_last_at(s, mark, i) {
        match find_back(s, mark, s.len() - mark.len()) {
            Some(f) => {
                assert(stands_at(s, mark, f));
                assert(f == i);
            },
            None => {},
        }
    }
}

proof fn lemma_found_back(s: Seq<char>, pattern: Seq<char>, from: int)
    ensures
        match find_back(s, pattern, from) {
            Some(i) => 0 <= i <= from && stands_at(s, pattern, i) && forall|j: int|
                i < j <= from ==> !#[trigger] stands_at(s, pattern, j),
            None => forall|j: int| j <= from ==> !#[trigger] stands_at(s, pattern, j),
        },
    decreases from + 1,
{
    if from >= 0 {
        patterns_occur_where_they_stand(s, pattern, from);
        if !occurs_at(s, pattern, from) {
            lemma_found_back(s, pattern, from - 1);
        }
    }
}

/// A suffix is taken off where it stands at the end; otherwise the text stays.
pub proof fn a_suffix_is_taken_off(s: Seq<char>, core: Seq<char>, suffix: Seq<char>)
    ensures
        ends_with(core + suffix, suffix),
        without_suffix(core + suffix, suffix) == core,
        !stands_at(s, suffix, s.len() - suffix.len()) ==> !ends_with(s, suffix) && without_suffix(
            s,
            suffix,
        ) == s,
{
    let whole = core + suffix;
    assert(whole.subrange(core.len() as int, whole.len() as int) =~= suffix);
    assert(whole.take(core.len() as int) =~= core);
    patterns_occur_where_they_stand(s, suffix, s.len() - suffix.len());
}

/// Whether `c` is nowhere in `s`.
pub open spec fn without_any(s: Seq<char>, c: char) -> bool {
    forall|i: int| 0 <= i < s.len() ==> #[trigger] s[i] != c
}

/// The last segment is what stands behind the last `c`, or all of the text.
pub proof fn the_last_segment_lies_behind_the_last(front: Seq<char>, tail: Seq<char>, c: char)
    requires
        without_any(tail, c),
    ensures
        after_last(tail, c) == tail,
        after_last(front + seq![c] + tail, c) == tail,
    decreases tail.len(),
{
    let s = front + seq![c] + tail;
    if tail.len() > 0 {
        let rest = tail.drop_last();
        assert(s.last() == tail.last());
        assert(s.drop_last() =~= front + seq![c] + rest);
        assert forall|i: int| 0 <= i < rest.len() implies #[trigger] rest[i] != c by {
            assert(rest[i] == tail[i]);
        }
        the_last_segment_lies_behind_the_last(front, rest, c);
        assert(rest.push(tail.last()) =~= tail);
    } else {
        assert(s.last() == c);
        assert(tail =~= Seq::<char>::empty());
    }
}

/// The first segment is what stands before the first `c`, or all of the text.
pub proof fn the_first_segment_lies_before_the_first(head: Seq<char>, rest: Seq<char>, c: char)
    requires
        without_any(head, c),
    ensures
        before_first(head, c) == head,
        before_first(head + seq![c] + rest, c) == head,
    decreases head.len(),
{
    let s = head + seq![c] + rest;
    if head.len() > 0 {
        let tail = head.drop_first();
        assert(s[0] == head[0]);
        assert(s.drop_first() =~= tail + seq![c] + rest);
        assert forall|i: int| 0 <= i < tail.len() implies #[trigger] tail[i] != c by {
            assert(tail[i] == head[i + 1]);
        }
        the_first_segment_lies_before_the_first(tail, rest, c);
        assert(seq![head[0]] + tail =~= head);
    } else {
        assert(s[0] == c);
        assert(head =~= Seq::<char>::empty());
    }
}

// ----------------------------------------------------------------------------
// Letters
// ----------------------------------------------------------------------------

/// Whether `c` is the letter `d`, which is small, or its ASCII capital; a character
/// that is no ASCII letter is only itself.
pub open spec fn same_letter(c: char, d: char) -> bool {
    if 65 <= c as u32 <= 90 {
        c as u32 + 32 == d as u32
    } else {
        c as u32 == d as u32
    }
}

/// Whether `s` reads as `word`, which is in small letters, whatever its letters' case.
pub open spec fn reads_as(s: Seq<char>, word: Seq<char>) -> bool {
    &&& s.len() == word.len()
    &&& forall|i: int| 0 <= i < s.len() ==> same_letter(#[trigger] s[i], word[i])
}

proof fn lemma_lower_char(c: char, d: char)
    ensures
        lower_char(c) == d <==> same_letter(c, d),
{
    assert('A' as u32 == 65 && 'Z' as u32 == 90);
}

/// A text made small is a word exactly where it reads as the word.
pub proof fn small_letters_read_the_same(s: Seq<char>, word: Seq<char>)
    ensures
        lower(s) == word <==> reads_as(s, word),
{
    let small = lower(s);
    if reads_as(s, word) {
        assert forall|i: int| 0 <= i < s.len() implies #[trigger] small[i] == word[i] by {
            assert(same_letter(s[i], word[i]));
            lemma_lower_char(s[i], word[i]);
        }
        assert(small =~= word);
    }
    if small == word {
        assert(s.len() == word.len());
        assert forall|i: int| 0 <= i < s.len() implies same_letter(#[trigger] s[i], word[i]) by {
            assert(small[i] == word[i]);
            lemma_lower_char(s[i], word[i]);
        }
    }
}

/// Whether `s` mentions `word`, which is in small letters, whatever the letters' case.
pub open spec fn mentions(s: Seq<char>, word: Seq<char>) -> bool {
    exists|i: int|
        0 <= i <= s.len() - word.len() && reads_as(#[trigger] s.subrange(i, i + word.len()), word)
}

/// A word is found in a text made small exactly where the text mentions it.
pub proof fn mentions_are_found(s: Seq<char>, word: Seq<char>)
    ensures
        has(lower(s), word) <==> mentions(s, word),
{
    let small = lower(s);
    if has(small, word) {
        let i = choose|i: int| occurs_at(small, word, i);
        let part = s.subrange(i, i + word.len());
        assert(lower(part) =~= small.subrange(i, i + word.len()));
        small_letters_read_the_same(part, word);
    }
    if mentions(s, word) {
        let i = choose|i: int|
            0 <= i <= s.len() - word.len() && reads_as(
                #[trigger] s.subrange(i, i + word.len()),
                word,
            );
        let part = s.subrange(i, i + word.len());
        small_letters_read_the_same(part, word);
        assert(lower(part) =~= small.subrange(i, i + word.len()));
        assert(occurs_at(small, word, i));
    }
}

/// Dictionary order: what two texts begin with in common does not matter, and then the
/// end or the smaller code point comes first.
pub proof fn the_first_difference_decides(common: Seq<char>, a: Seq<char>, b: Seq<char>)
    requires
        a.len() > 0 && b.len() > 0 ==> a[0] != b[0],
    ensures
        precedes(common + a, common + b) <==> b.len() > 0 && (a.len() == 0 || (a[0] as u32) < (
        b[0] as u32)),
    decreases common.len(),
{
    let x = common + a;
    let y = common + b;
    if common.len() > 0 {
        assert(x.drop_first() =~= common.drop_first() + a);
        assert(y.drop_first() =~= common.drop_first() + b);
        the_first_difference_decides(common.drop_first(), a, b);
    } else {
        assert(x =~= a);
        assert(y =~= b);
    }
}

// ----------------------------------------------------------------------------
// Numbers and lists
// ----------------------------------------------------------------------------

/// The number that a row of decimal digits denotes.
pub open spec fn number_of(digits: Seq<char>) -> int
    decreases digits.len(),
{
    if digits.len() == 0 {
        0
    } else {
        number_of(digits.drop_last()) * 10 + (digits.last() as u32 - 48)
    }
}

/// Whether a text is a row of decimal digits.
pub open spec fn is_numeral(s: Seq<char>) -> bool {
    &&& s.len() > 0
    &&& forall|i: int| 0 <= i < s.len() ==> 48 <= (#[trigger] s[i]) as u32 <= 57
}

/// A number is written with the digits that denote it, without a needless zero in
/// front, and behind a minus sign where it is negative.
pub proof fn numbers_are_written_as_they_read(n: int)
    ensures
        n >= 0 ==> is_numeral(decimal(n)) && number_of(decimal(n)) == n && (decimal(n).len() > 1
            ==> decimal(n)[0] as u32 != 48),
        n < 0 ==> decimal(n) == seq!['-'] + decimal(-n),
{
    if n >= 0 {
        lemma_numeral(n as nat);
    }
}

proof fn lemma_numeral(n: nat)
    ensures
        is_numeral(decimal_nat(n)),
        number_of(decimal_nat(n)) == n,
        n > 0 ==> decimal_nat(n)[0] as u32 != 48,
        n < 10 ==> decimal_nat(n).len() == 1,
    decreases n,
{
    reveal_with_fuel(number_of, 2);
    let d = (n % 10) as int;
    lemma_digit_code(d);
    let s = decimal_nat(n);
    if n < 10 {
        assert(s.drop_last() =~= Seq::<char>::empty());
    } else {
        let front = decimal_nat(n / 10);
        lemma_numeral(n / 10);
        assert(s.drop_last() =~= front);
        assert forall|i: int| 0 <= i < s.len() implies 48 <= (#[trigger] s[i]) as u32 <= 57 by {
            if i < front.len() {
                assert(s[i] == front[i]);
            }
        }
        assert(s[0] == front[0]);
    }
}

proof fn lemma_digit_code(d: int)
    requires
        0 <= d < 10,
    ensures
        digit_char(d) as u32 == 48 + d,
{
    assert('0' as u32 == 48);
}

/// Digits are the characters from `0` to `9`.
pub proof fn digits_are_numerals(s: Seq<char>)
    ensures
        s.len() > 0 && all_digits(s) <==> is_numeral(s),
{
    assert('0' as u32 == 48 && '9' as u32 == 57);
    if is_numeral(s) {
        assert forall|i: int| 0 <= i < s.len() implies is_digit(#[trigger] s[i]) by {}
    }
    if s.len() > 0 && all_digits(s) {
        assert forall|i: int| 0 <= i < s.len() implies 48 <= (#[trigger] s[i]) as u32 <= 57 by {
            assert(is_digit(s[i]));
        }
    }
}

/// Parts are joined one after the other: the first as it is, each further one behind
/// the separator.
pub proof fn parts_are_joined_in_turn(
    parts: Seq<Seq<char>>,
    part: Seq<char>,
    separator: Seq<char>,
)
    ensures
        joined(Seq::<Seq<char>>::empty(), separator) == Seq::<char>::empty(),
        joined(seq![part], separator) == part,
        parts.len() > 0 ==> joined(parts.push(part), separator) == joined(parts, separator)
            + separator + part,
{
    assert(parts.push(part).drop_last() =~= parts);
}

/// No text comes before itself, and of two texts at most one comes before the other.
pub proof fn the_order_is_strict(a: Seq<char>, b: Seq<char>)
    ensures
        !precedes(a, a),
        !(precedes(a, b) && precedes(b, a)),
    decreases a.len(),
{
    order_irreflexive(a);
    if a.len() > 0 && b.len() > 0 && a[0] == b[0] {
        the_order_is_strict(a.drop_first(), b.drop_first());
    }
}

}
