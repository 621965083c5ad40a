//! Text as sequences of characters: the searching, trimming and splitting that
//! titles, links and timestamps need, each stated over `Seq<char>`.
use vstd::prelude::*;
use vstd::string::*;
use vstd::utf8::*;

verus! {

// ----------------------------------------------------------------------------
// What the operations mean
// ----------------------------------------------------------------------------

/// The characters with Unicode's White_Space property.
pub open spec fn is_white(c: char) -> bool {
    let u = c as u32;
    ||| 0x9 <= u <= 0xd
    ||| u == 0x20
    ||| u == 0x85
    ||| u == 0xa0
    ||| u == 0x1680
    ||| 0x2000 <= u <= 0x200a
    ||| u == 0x2028
    ||| u == 0x2029
    ||| u == 0x202f
    ||| u == 0x205f
    ||| u == 0x3000
}

pub open spec fn trim_start(s: Seq<char>) -> Seq<char>
    decreases s.len(),
{
    if s.len() > 0 && is_white(s[0]) {
        trim_start(s.drop_first())
    } else {
        s
    }
}

pub open spec fn trim_end(s: Seq<char>) -> Seq<char>
    decreases s.len(),
{
    if s.len() > 0 && is_white(s.last()) {
        trim_end(s.drop_last())
    } else {
        s
    }
}

/// `s` without its leading and trailing white space.
pub open spec fn trimmed(s: Seq<char>) -> Seq<char> {
    trim_end(trim_start(s))
}

/// `s` without the run of `c` that ends it.
pub open spec fn without_trailing(s: Seq<char>, c: char) -> Seq<char>
    decreases s.len(),
{
    if s.len() > 0 && s.last() == c {
        without_trailing(s.drop_last(), c)
    } else {
        s
    }
}

pub open spec fn occurs_at(s: Seq<char>, pattern: Seq<char>, i: int) -> bool {
    &&& 0 <= i
    &&& i + pattern.len() <= s.len()
    &&& s.subrange(i, i + pattern.len()) == pattern
}

/// The first position, `from` or later, at which `pattern` occurs in `s`.
pub open spec fn find_from(s: Seq<char>, pattern: Seq<char>, from: int) -> Option<int>
    decreases s.len() + 1 - from,
{
    if from < 0 || from + pattern.len() > s.len() {
        None
    } else if occurs_at(s, pattern, from) {
        Some(from)
    } else {
        find_from(s, pattern, from + 1)
    }
}

pub open spec fn has(s: Seq<char>, pattern: Seq<char>) -> bool {
    exists|i: int| occurs_at(s, pattern, i)
}

/// The text between the first and the second place where `mark` occurs in `s`
/// (the second one not overlapping the first), or up to the end of `s` when
/// there is no second one.
pub open spec fn second_piece(s: Seq<char>, mark: Seq<char>) -> Option<Seq<char>> {
    match find_from(s, mark, 0) {
        None => None,
        Some(i) => {
            let rest = s.skip(i + mark.len());
            match find_from(rest, mark, 0) {
                None => Some(rest),
                Some(j) => Some(rest.take(j)),
            }
        },
    }
}

/// The last position, `from` or earlier, at which `pattern` occurs in `s`.
pub open spec fn find_back(s: Seq<char>, pattern: Seq<char>, from: int) -> Option<int>
    decreases from + 1,
{
    if from < 0 {
        None
    } else if occurs_at(s, pattern, from) {
        Some(from)
    } else {
        find_back(s, pattern, from - 1)
    }
}

/// The text behind the last place where `mark` occurs in `s`.
pub open spec fn last_piece(s: Seq<char>, mark: Seq<char>) -> Option<Seq<char>> {
    match find_back(s, mark, s.len() - mark.len()) {
        Some(i) => Some(s.skip(i + mark.len())),
        None => None,
    }
}

pub open spec fn ends_with(s: Seq<char>, suffix: Seq<char>) -> bool {
    occurs_at(s, suffix, s.len() - suffix.len())
}

/// `s` without `suffix` where it ends with it, `s` itself otherwise.
pub open spec fn without_suffix(s: Seq<char>, suffix: Seq<char>) -> Seq<char> {
    if ends_with(s, suffix) {
        s.take(s.len() - suffix.len())
    } else {
        s
    }
}

/// The text behind the last `c` in `s`; all of `s` when there is none.
pub open spec fn after_last(s: Seq<char>, c: char) -> Seq<char>
    decreases s.len(),
{
    if s.len() == 0 || s.last() == c {
        Seq::empty()
    } else {
        after_last(s.drop_last(), c).push(s.last())
    }
}

/// The text before the first `c` in `s`; all of `s` when there is none.
pub open spec fn before_first(s: Seq<char>, c: char) -> Seq<char>
    decreases s.len(),
{
    if s.len() == 0 || s[0] == c {
        Seq::empty()
    } else {
        seq![s[0]] + before_first(s.drop_first(), c)
    }
}

pub open spec fn is_digit(c: char) -> bool {
    '0' as u32 <= c as u32 <= '9' as u32
}

pub open spec fn all_digits(s: Seq<char>) -> bool {
    forall|i: int| 0 <= i < s.len() ==> is_digit(#[trigger] s[i])
}

/// `c` with an ASCII capital letter made small.
pub open spec fn lower_char(c: char) -> char {
    if 'A' as u32 <= c as u32 <= 'Z' as u32 {
        (c as u32 + 32) as char
    } else {
        c
    }
}

pub open spec fn lower(s: Seq<char>) -> Seq<char> {
    s.map_values(|c: char| lower_char(c))
}

/// Dictionary order by code point.
pub open spec fn precedes(a: Seq<char>, b: Seq<char>) -> bool
    decreases a.len(),
{
    if b.len() == 0 {
        false
    } else if a.len() == 0 {
        true
    } else if a[0] != b[0] {
        (a[0] as u32) < (b[0] as u32)
    } else {
        precedes(a.drop_first(), b.drop_first())
    }
}

pub open spec fn digit_char(d: int) -> char {
    ('0' as u32 + d) as char
}

/// `n` in decimal notation, without leading zeros.
pub open spec fn decimal_nat(n: nat) -> Seq<char>
    decreases n,
{
    if n < 10 {
        seq![digit_char(n as int)]
    } else {
        decimal_nat(n / 10).push(digit_char((n % 10) as int))
    }
}

/// `n` in decimal notation, with a minus sign where it is negative.
pub open spec fn decimal(n: int) -> Seq<char> {
    if n < 0 {
        seq!['-'] + decimal_nat((-n) as nat)
    } else {
        decimal_nat(n as nat)
    }
}

/// `parts` one after the other, with `separator` between neighbours.
pub open spec fn joined(parts: Seq<Seq<char>>, separator: Seq<char>) -> Seq<char>
    decreases parts.len(),
{
    if parts.len() == 0 {
        Seq::empty()
    } else if parts.len() == 1 {
        parts[0]
    } else {
        joined(parts.drop_last(), separator) + separator + parts.last()
    }
}

// ----------------------------------------------------------------------------
// The operations
// ----------------------------------------------------------------------------

pub fn chars_of(s: &str) -> (chars: Vec<char>)
    ensures
        chars@ == s@,
{
    let mut out: Vec<char> = Vec::new();
    for c in it: s.chars()
        invariant
            it.seq() == s@,
            out@ == s@.take(it.index()),
    {
        out.push(c);
    }
    assert(s@.take(s@.len() as int) =~= s@);
    out
}

pub fn white(c: char) -> (b: bool)
    ensures
        b == is_white(c),
{
    let u: u32 = c as u32;
    (0x9 <= u && u <= 0xd) || u == 0x20 || u == 0x85 || u == 0xa0 || u == 0x1680 || (0x2000 <= u
        && u <= 0x200a) || u == 0x2028 || u == 0x2029 || u == 0x202f || u == 0x205f || u == 0x3000
}

/// The part of `s` between its leading and its trailing white space.
pub fn trim(s: &str) -> (r: &str)
    ensures
        r@ == trimmed(s@),
{
    let chars = chars_of(s);
    let n: usize = chars.len();
    let mut start: usize = 0;
    assert(s@.skip(0) =~= s@);
    while start < n && white(chars[start])
        invariant
            n == chars@.len(),
            start <= n,
            trim_start(chars@) == trim_start(chars@.skip(start as int)),
        decreases n - start,
    {
        assert(chars@.skip(start as int).drop_first() =~= chars@.skip(start + 1));
        start += 1;
    }
    let ghost solid = chars@.skip(start as int);
    assert(trim_start(chars@) == solid) by {
        if start < n {
            assert(solid[0] == chars@[start as int]);
        }
    }
    let mut end: usize = n;
    assert(solid.take(solid.len() as int) =~= solid);
    while start < end && white(chars[end - 1])
        invariant
            n == chars@.len(),
            start <= end <= n,
            solid == chars@.skip(start as int),
            trim_end(solid) == trim_end(solid.take(end - start)),
        decreases end - start,
    {
        let ghost shown = solid.take(end - start);
        assert(shown.last() == chars@[end - 1]);
        assert(shown.drop_last() =~= solid.take(end - 1 - start));
        end -= 1;
    }
    proof {
        let shown = solid.take(end - start);
        if start < end {
            assert(shown.last() == chars@[end - 1]);
        }
        assert(shown =~= chars@.subrange(start as int, end as int));
    }
    s.substring_char(start, end)
}

/// `s` without the run of `c` that ends it.
pub fn trim_end_char(s: &str, c: char) -> (r: &str)
    ensures
        r@ == without_trailing(s@, c),
{
    let chars = chars_of(s);
    let mut end: usize = chars.len();
    assert(chars@.take(end as int) =~= chars@);
    while 0 < end && chars[end - 1] == c
        invariant
            end <= chars@.len(),
            without_trailing(chars@, c) == without_trailing(chars@.take(end as int), c),
        decreases end,
    {
        assert(chars@.take(end as int).last() == chars@[end - 1]);
        assert(chars@.take(end as int).drop_last() =~= chars@.take(end - 1));
        end -= 1;
    }
    proof {
        if 0 < end {
            assert(chars@.take(end as int).last() == chars@[end - 1]);
        }
        assert(chars@.take(end as int) =~= chars@.subrange(0, end as int));
    }
    s.substring_char(0, end)
}

fn matches_at(s: &Vec<char>, pattern: &Vec<char>, i: usize) -> (b: bool)
    requires
        i + pattern@.len() <= s@.len(),
    ensures
        b == occurs_at(s@, pattern@, i as int),
{
    let n: usize = s.len();
    let mut k: usize = 0;
    while k < pattern.len()
        invariant
            n == s@.len(),
            k <= pattern@.len(),
            i + pattern@.len() <= n,
            forall|m: int| 0 <= m < k ==> s@[i + m] == #[trigger] pattern@[m],
        decreases pattern@.len() - k,
    {
        if s[i + k] != pattern[k] {
            assert(s@.subrange(i as int, i + pattern@.len())[k as int] != pattern@[k as int]);
            return false;
        }
        k += 1;
    }
    assert(s@.subrange(i as int, i + pattern@.len()) =~= pattern@);
    true
}

/// The first position, `from` or later, at which `pattern` occurs in `s`.
pub fn find_chars(s: &Vec<char>, pattern: &Vec<char>, from: usize) -> (r: Option<usize>)
    ensures
        match r {
            Some(i) => find_from(s@, pattern@, from as int) == Some(i as int),
            None => find_from(s@, pattern@, from as int) is None,
        },
{
    let n: usize = s.len();
    let m: usize = pattern.len();
    let mut i: usize = from;
    while i <= n && m <= n - i
        invariant
            n == s@.len(),
            m == pattern@.len(),
            find_from(s@, pattern@, from as int) == find_from(s@, pattern@, i as int),
        decreases n + 1 - i,
    {
        if matches_at(s, pattern, i) {
            return Some(i);
        }
        if i == n {
            assert(s@.subrange(i as int, i as int) =~= pattern@);
            return None;
        }
        i += 1;
    }
    None
}

pub proof fn lemma_find_from(s: Seq<char>, pattern: Seq<char>, from: int)
    requires
        0 <= from,
    ensures
        match find_from(s, pattern, from) {
            Some(i) => from <= i && occurs_at(s, pattern, i) && forall|j: int|
                from <= j < i ==> !#[trigger] occurs_at(s, pattern, j),
            None => forall|j: int| from <= j ==> !#[trigger] occurs_at(s, pattern, j),
        },
    decreases s.len() + 1 - from,
{
    if from + pattern.len() <= s.len() && !occurs_at(s, pattern, from) {
        if from == s.len() {
            assert(s.subrange(from, from) =~= pattern);
        }
        lemma_find_from(s, pattern, from + 1);
    }
}

/// Whether `pattern` occurs in `s`.
pub fn contains_chars(s: &Vec<char>, pattern: &Vec<char>) -> (b: bool)
    ensures
        b == has(s@, pattern@),
{
    let found = find_chars(s, pattern, 0);
    proof {
        lemma_find_from(s@, pattern@, 0);
    }
    found.is_some()
}

/// Whether `pattern`, in small letters, occurs in `s` with its ASCII capitals
/// made small.
pub fn contains_lowered(s: &str, pattern: &str) -> (b: bool)
    ensures
        b == has(lower(s@), pattern@),
{
    let chars = lower_chars(s);
    let wanted = chars_of(pattern);
    contains_chars(&chars, &wanted)
}

pub fn lower_chars(s: &str) -> (r: Vec<char>)
    ensures
        r@ == lower(s@),
{
    let chars = chars_of(s);
    let mut out: Vec<char> = Vec::new();
    let mut i: usize = 0;
    while i < chars.len()
        invariant
            i <= chars@.len(),
            out@ == lower(chars@.take(i as int)),
        decreases chars@.len() - i,
    {
        let c: char = chars[i];
        let u: u32 = c as u32;
        let l: char = if 'A' as u32 <= u && u <= 'Z' as u32 {
            (u as u8 + 32) as char
        } else {
            c
        };
        assert(l == lower_char(c));
        out.push(l);
        assert(chars@.take(i + 1) =~= chars@.take(i as int).push(c));
        assert(lower(chars@.take(i + 1)) =~= lower(chars@.take(i as int)).push(lower_char(c)));
        i += 1;
    }
    assert(chars@.take(chars@.len() as int) =~= chars@);
    out
}

fn same_chars(a: &Vec<char>, b: &Vec<char>) -> (r: bool)
    ensures
        r == (a@ == b@),
{
    if a.len() != b.len() {
        return false;
    }
    let mut i: usize = 0;
    while i < a.len()
        invariant
            i <= a@.len(),
            a@.len() == b@.len(),
            forall|k: int| 0 <= k < i ==> a@[k] == b@[k],
        decreases a@.len() - i,
    {
        if a[i] != b[i] {
            return false;
        }
        i += 1;
    }
    assert(a@ =~= b@);
    true
}

/// Whether two texts hold the same characters.
pub fn same_text(a: &str, b: &str) -> (r: bool)
    ensures
        r == (a@ == b@),
{
    let x = chars_of(a);
    let y = chars_of(b);
    same_chars(&x, &y)
}

/// Whether two texts hold the same characters once ASCII capitals are made small.
pub fn same_ignoring_case(a: &str, b: &str) -> (r: bool)
    ensures
        r == (lower(a@) == lower(b@)),
{
    let x = lower_chars(a);
    let y = lower_chars(b);
    same_chars(&x, &y)
}

/// The text between the first and the second `mark` in `s`.
pub fn between_marks<'a>(s: &'a str, mark: &str) -> (r: Option<&'a str>)
    ensures
        match r {
            Some(t) => second_piece(s@, mark@) == Some(t@),
            None => second_piece(s@, mark@) is None,
        },
{
    let chars = chars_of(s);
    let wanted = chars_of(mark);
    proof {
        lemma_find_from(s@, mark@, 0);
    }
    match find_chars(&chars, &wanted, 0) {
        None => None,
        Some(i) => {
            let n: usize = chars.len();
            let rest = s.substring_char(i + wanted.len(), n);
            let tail = chars_of(rest);
            assert(rest@ =~= s@.skip(i + mark@.len()));
            proof {
                lemma_find_from(rest@, mark@, 0);
            }
            match find_chars(&tail, &wanted, 0) {
                None => Some(rest),
                Some(j) => {
                    assert(rest@.subrange(0, j as int) =~= rest@.take(j as int));
                    Some(rest.substring_char(0, j))
                },
            }
        },
    }
}

/// The text behind the last `mark` in `s`.
pub fn after_mark<'a>(s: &'a str, mark: &str) -> (r: Option<&'a str>)
    ensures
        match r {
            Some(t) => last_piece(s@, mark@) == Some(t@),
            None => last_piece(s@, mark@) is None,
        },
{
    let chars = chars_of(s);
    let wanted = chars_of(mark);
    let n: usize = chars.len();
    let m: usize = wanted.len();
    if n < m {
        return None;
    }
    let mut i: usize = n - m;
    while !matches_at(&chars, &wanted, i)
        invariant
            chars@ == s@,
            wanted@ == mark@,
            n == s@.len(),
            m == mark@.len(),
            i + m <= n,
            find_back(s@, mark@, n - m) == find_back(s@, mark@, i as int),
        decreases i,
    {
        if i == 0 {
            assert(find_back(s@, mark@, -1) is None);
            return None;
        }
        i -= 1;
    }
    assert(s@.subrange(i + m, n as int) =~= s@.skip(i + m));
    Some(s.substring_char(i + m, n))
}

/// Whether `s` ends with `suffix`.
pub fn has_end(s: &str, suffix: &str) -> (b: bool)
    ensures
        b == ends_with(s@, suffix@),
{
    let chars = chars_of(s);
    let wanted = chars_of(suffix);
    wanted.len() <= chars.len() && matches_at(&chars, &wanted, chars.len() - wanted.len())
}

/// `s` without `suffix` where it ends with it, `s` itself otherwise.
pub fn strip_end<'a>(s: &'a str, suffix: &str) -> (r: &'a str)
    ensures
        r@ == without_suffix(s@, suffix@),
{
    if has_end(s, suffix) {
        assert(s@.subrange(0, s@.len() - suffix@.len()) =~= s@.take(s@.len() - suffix@.len()));
        let chars = chars_of(s);
        let wanted = chars_of(suffix);
        s.substring_char(0, chars.len() - wanted.len())
    } else {
        s
    }
}

/// The text before the first place where `mark` occurs in `s`.
pub fn before_mark<'a>(s: &'a str, mark: &str) -> (r: Option<&'a str>)
    ensures
        match r {
            Some(t) => find_from(s@, mark@, 0) matches Some(i) && t@ == s@.take(i),
            None => find_from(s@, mark@, 0) is None,
        },
{
    let chars = chars_of(s);
    let wanted = chars_of(mark);
    proof {
        lemma_find_from(s@, mark@, 0);
    }
    match find_chars(&chars, &wanted, 0) {
        None => None,
        Some(i) => {
            assert(s@.subrange(0, i as int) =~= s@.take(i as int));
            Some(s.substring_char(0, i))
        },
    }
}

/// The text behind the last `c` in `s`; all of `s` when there is none.
pub fn last_segment(s: &str, c: char) -> (r: &str)
    ensures
        r@ == after_last(s@, c),
{
    let chars = chars_of(s);
    let n: usize = chars.len();
    let mut start: usize = n;
    assert(chars@.take(n as int) =~= chars@);
    assert(chars@.skip(n as int) =~= Seq::<char>::empty());
    assert(after_last(chars@, c) + Seq::<char>::empty() =~= after_last(chars@, c));
    while 0 < start && chars[start - 1] != c
        invariant
            n == chars@.len(),
            start <= n,
            after_last(chars@, c) == after_last(chars@.take(start as int), c) + chars@.skip(start as int),
        decreases start,
    {
        let ghost head = chars@.take(start as int);
        assert(head.last() == chars@[start - 1]);
        assert(head.drop_last() =~= chars@.take(start - 1));
        assert(after_last(head, c) == after_last(head.drop_last(), c).push(head.last()));
        assert(after_last(head.drop_last(), c).push(head.last()) + chars@.skip(start as int)
            =~= after_last(head.drop_last(), c) + chars@.skip(start - 1));
        start -= 1;
    }
    proof {
        let head = chars@.take(start as int);
        if 0 < start {
            assert(head.last() == chars@[start - 1]);
        }
        assert(after_last(head, c) =~= Seq::<char>::empty());
        assert(after_last(chars@, c) =~= chars@.subrange(start as int, n as int));
    }
    s.substring_char(start, n)
}

/// The text before the first `c` in `s`; all of `s` when there is none.
pub fn first_segment(s: &str, c: char) -> (r: &str)
    ensures
        r@ == before_first(s@, c),
{
    let chars = chars_of(s);
    let n: usize = chars.len();
    let mut end: usize = 0;
    assert(chars@.skip(0) =~= chars@);
    assert(chars@.take(0) + before_first(chars@, c) =~= before_first(chars@, c));
    while end < n && chars[end] != c
        invariant
            n == chars@.len(),
            end <= n,
            before_first(chars@, c) == chars@.take(end as int) + before_first(chars@.skip(end as int), c),
        decreases n - end,
    {
        let ghost tail = chars@.skip(end as int);
        assert(tail[0] == chars@[end as int]);
        assert(tail.drop_first() =~= chars@.skip(end + 1));
        assert(chars@.take(end as int) + (seq![tail[0]] + before_first(tail.drop_first(), c))
            =~= chars@.take(end + 1) + before_first(tail.drop_first(), c));
        end += 1;
    }
    proof {
        let tail = chars@.skip(end as int);
        if end < n {
            assert(tail[0] == chars@[end as int]);
        }
        assert(before_first(tail, c) =~= Seq::<char>::empty());
        assert(before_first(chars@, c) =~= chars@.subrange(0, end as int));
    }
    s.substring_char(0, end)
}

/// Whether every character of `s` is an ASCII digit.
pub fn only_digits(s: &str) -> (b: bool)
    ensures
        b == all_digits(s@),
{
    let chars = chars_of(s);
    let mut i: usize = 0;
    while i < chars.len()
        invariant
            chars@ == s@,
            i <= chars@.len(),
            forall|k: int| 0 <= k < i ==> is_digit(#[trigger] chars@[k]),
        decreases chars@.len() - i,
    {
        let c: char = chars[i];
        if !('0' as u32 <= c as u32 && c as u32 <= '9' as u32) {
            assert(!is_digit(s@[i as int]));
            return false;
        }
        i += 1;
    }
    true
}

/// Whether `a` comes before `b` in dictionary order.
pub fn less(a: &str, b: &str) -> (r: bool)
    ensures
        r == precedes(a@, b@),
{
    let x = chars_of(a);
    let y = chars_of(b);
    let mut i: usize = 0;
    assert(x@.skip(0) =~= x@);
    assert(y@.skip(0) =~= y@);
    while i < x.len() && i < y.len()
        invariant
            x@ == a@,
            y@ == b@,
            i <= x@.len(),
            i <= y@.len(),
            precedes(x@, y@) == precedes(x@.skip(i as int), y@.skip(i as int)),
        decreases x@.len() - i,
    {
        let ghost p = x@.skip(i as int);
        let ghost q = y@.skip(i as int);
        assert(p[0] == x@[i as int] && q[0] == y@[i as int]);
        if x[i] != y[i] {
            return (x[i] as u32) < (y[i] as u32);
        }
        assert(p.drop_first() =~= x@.skip(i + 1));
        assert(q.drop_first() =~= y@.skip(i + 1));
        i += 1;
    }
    i < y.len()
}

fn push_digit(s: &mut String, d: u64)
    requires
        d < 10,
    ensures
        final(s)@ == old(s)@.push(digit_char(d as int)),
{
    let digits = "0123456789";
    proof {
        reveal_strlit("0123456789");
    }
    let start: usize = d as usize;
    let one = digits.substring_char(start, start + 1);
    assert(one@ =~= seq![digit_char(d as int)]);
    s.append(one);
    assert(s@ =~= old(s)@.push(digit_char(d as int)));
}

fn decimal_u64(n: u64) -> (s: String)
    ensures
        s@ == decimal_nat(n as nat),
    decreases n,
{
    let mut s: String = if n < 10 {
        String::new()
    } else {
        decimal_u64(n / 10)
    };
    push_digit(&mut s, n % 10);
    proof {
        if n < 10 {
            assert(s@ =~= seq![digit_char(n as int)]);
        }
    }
    s
}

/// `n` in decimal notation.
pub fn decimal_text(n: i64) -> (s: String)
    ensures
        s@ == decimal(n as int),
{
    if n < 0 {
        let magnitude: u64 = (-(n + 1)) as u64 + 1;
        let mut s: String = "-".to_owned();
        let digits = decimal_u64(magnitude);
        s.append(digits.as_str());
        proof {
            reveal_strlit("-");
            assert(s@ =~= seq!['-'] + decimal_nat((-n) as nat));
        }
        s
    } else {
        decimal_u64(n as u64)
    }
}

/// The words one after the other, with `separator` between neighbours.
pub fn join_words(words: &[&str], separator: &str) -> (s: String)
    ensures
        s@ == joined(words.deep_view(), separator@),
{
    let mut s: String = String::new();
    let mut i: usize = 0;
    let ghost all = words.deep_view();
    while i < words.len()
        invariant
            all == words.deep_view(),
            i <= words@.len(),
            s@ == joined(all.take(i as int), separator@),
        decreases words@.len() - i,
    {
        assert(all.take(i + 1).drop_last() =~= all.take(i as int));
        assert(all.take(i + 1).last() == words@[i as int]@);
        if 0 < i {
            s.append(separator);
        }
        s.append(words[i]);
        proof {
            if i == 0 {
                assert(s@ =~= words@[0]@);
            }
        }
        i += 1;
    }
    assert(all.take(all.len() as int) =~= all);
    s
}

/// The text that `String::from_utf8_lossy` reads from bytes.
pub uninterp spec fn lossy_text(raw: Seq<u8>) -> Seq<char>;

/// `String::from_utf8_lossy`. The text depends on the bytes alone; bytes that are
/// UTF-8 are read as the characters they encode.
#[verifier::external_body]
pub(crate) fn from_utf8_lossy(raw: &[u8]) -> (s: String)
    ensures
        s@ == lossy_text(raw@),
        valid_utf8(raw@) ==> s@ == decode_utf8(raw@),
{
    String::from_utf8_lossy(raw).into_owned()
}

/// Output that is one line of text: what the bytes say, without the white space
/// around it.
pub open spec fn line_of(raw: Seq<u8>) -> Seq<char> {
    trimmed(lossy_text(raw))
}

/// Reads output that is one line of text.
pub fn read_line(raw: &[u8]) -> (s: String)
    ensures
        s@ == line_of(raw@),
        valid_utf8(raw@) ==> s@ == trimmed(decode_utf8(raw@)),
{
    let text = from_utf8_lossy(raw);
    trim(text.as_str()).to_owned()
}

}
