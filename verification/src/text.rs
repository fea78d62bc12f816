//! Text: building it from pieces and numbers, and reading numbers and pieces back.

use vstd::arithmetic::power::{lemma_pow0, lemma_pow1, lemma_pow_adds, pow};
use vstd::prelude::*;
use vstd::string::*;

verus! {

/// `String::push`, of std: the character is added at the end.
pub assume_specification[ String::push ](s: &mut String, c: char)
    ensures
        final(s)@ == old(s)@.push(c),
;

/// The character of a decimal digit.
pub open spec fn digit_char(d: int) -> char {
    (48 + d) as char
}

/// The decimal digits of a number, without leading zeros.
pub open spec fn digits(n: nat) -> Seq<char>
    decreases n,
{
    if n < 10 {
        seq![digit_char(n as int)]
    } else {
        digits(n / 10).push(digit_char((n % 10) as int))
    }
}

/// `count` zeros.
pub open spec fn zeros(count: int) -> Seq<char> {
    Seq::new(if count > 0 { count as nat } else { 0 }, |i: int| '0')
}

/// The decimal digits of a number, filled up with zeros to at least `width` characters.
pub open spec fn padded(n: nat, width: int) -> Seq<char> {
    zeros(width - digits(n).len()) + digits(n)
}

/// The digits of a number, last one first.
fn reversed_digits(n: u64) -> (r: Vec<char>)
    ensures
        r@ == digits(n as nat).reverse(),
{
    let mut r: Vec<char> = Vec::new();
    let mut rest: u64 = n;
    while rest >= 10
        invariant
            r@ + digits(rest as nat).reverse() == digits(n as nat).reverse(),
        decreases rest,
    {
        let d: u8 = (rest % 10) as u8;
        let c: char = (48 + d) as char;
        let ghost before = r@;
        r.push(c);
        proof {
            let last = digit_char((rest % 10) as int);
            let init = digits((rest / 10) as nat);
            assert(digits(rest as nat) == init.push(last));
            assert(init.push(last).reverse() =~= seq![last] + init.reverse());
            assert(r@ + init.reverse() =~= before + (seq![last] + init.reverse()));
        }
        rest = rest / 10;
    }
    let d: u8 = rest as u8;
    let c: char = (48 + d) as char;
    let ghost before = r@;
    r.push(c);
    assert(digits(rest as nat).reverse() =~= seq![c]);
    assert(r@ =~= before + seq![c]);
    r
}

/// Adds a number, filled up with zeros to at least `width` characters.
pub fn push_padded(s: &mut String, n: u64, width: usize)
    ensures
        final(s)@ == old(s)@ + padded(n as nat, width as int),
{
    let r = reversed_digits(n);
    let ghost start = s@;
    let mut i: usize = r.len();
    while i < width
        invariant
            r@ == digits(n as nat).reverse(),
            r@.len() <= i,
            i <= width || i == r@.len(),
            s@ == start + zeros(i - r@.len()),
        decreases width - i,
    {
        s.push('0');
        i += 1;
        assert(s@ =~= start + zeros(i - r@.len()));
    }
    let ghost filled = s@;
    assert(filled =~= start + zeros(width - digits(n as nat).len()));
    let mut k: usize = r.len();
    while k > 0
        invariant
            r@ == digits(n as nat).reverse(),
            0 <= k <= r@.len(),
            s@ == filled + digits(n as nat).subrange(0, r@.len() - k),
        decreases k,
    {
        k -= 1;
        s.push(r[k]);
        assert(s@ =~= filled + digits(n as nat).subrange(0, r@.len() - k));
    }
    assert(digits(n as nat).subrange(0, r@.len() as int) =~= digits(n as nat));
    assert(s@ =~= start + padded(n as nat, width as int));
}

/// Adds a number.
pub fn push_number(s: &mut String, n: u64)
    ensures
        final(s)@ == old(s)@ + digits(n as nat),
{
    push_padded(s, n, 0);
    assert(padded(n as nat, 0) =~= digits(n as nat));
}

/// The decimal digits of a number, with a minus sign in front of a negative one.
pub open spec fn signed_digits(n: int) -> Seq<char> {
    if n < 0 {
        seq!['-'] + digits((-n) as nat)
    } else {
        digits(n as nat)
    }
}

/// Writes a number in decimal.
pub fn push_signed(s: &mut String, n: i64)
    requires
        n > i64::MIN,
    ensures
        final(s)@ == old(s)@ + signed_digits(n as int),
{
    let ghost before = s@;
    if n < 0 {
        s.push('-');
        push_number(s, (-n) as u64);
        assert(s@ =~= before + signed_digits(n as int));
    } else {
        push_number(s, n as u64);
    }
}

pub open spec fn is_digit(c: char) -> bool {
    '0' <= c <= '9'
}

pub open spec fn all_digits(s: Seq<char>) -> bool {
    forall|i: int| 0 <= i < s.len() ==> is_digit(#[trigger] s[i])
}

/// The number that decimal digits stand for.
pub open spec fn value_of(s: Seq<char>) -> nat
    decreases s.len(),
{
    if s.len() == 0 {
        0
    } else {
        value_of(s.drop_last()) * 10 + (s.last() as nat - 48) as nat
    }
}

/// The digits of a number, behind a plus sign that may be there.
pub open spec fn unsigned_digits(s: Seq<char>) -> Seq<char> {
    if s.len() > 0 && s[0] == '+' {
        s.skip(1)
    } else {
        s
    }
}

/// The number that the text stands for, if it is one that is not above `max`.
pub open spec fn parsed(s: Seq<char>, max: nat) -> Option<nat> {
    let d = unsigned_digits(s);
    if d.len() > 0 && all_digits(d) && value_of(d) <= max {
        Some(value_of(d))
    } else {
        None
    }
}

/// The digits of a number have the value of the number.
pub proof fn digits_have_the_value(n: nat)
    ensures
        digits(n).len() > 0,
        all_digits(digits(n)),
        value_of(digits(n)) == n,
    decreases n,
{
    if n < 10 {
        let s = seq![digit_char(n as int)];
        assert(s.drop_last() =~= Seq::<char>::empty());
        assert(value_of(s.drop_last()) == 0);
        assert(s.last() == digit_char(n as int));
    } else {
        digits_have_the_value(n / 10);
        let d = digits(n / 10);
        let c = digit_char((n % 10) as int);
        assert(digits(n) == d.push(c));
        assert(d.push(c).drop_last() =~= d);
        assert(d.push(c).last() == c);
        assert forall|i: int| 0 <= i < d.push(c).len() implies is_digit(#[trigger] d.push(c)[i]) by {
            if i < d.len() {
                assert(is_digit(d[i]));
            }
        }
    }
}

/// A number that is written out is read back as the same number, with leading zeros too.
pub proof fn written_numbers_are_read_back(n: nat, width: int, max: nat)
    requires
        n <= max,
    ensures
        parsed(digits(n), max) == Some(n),
        parsed(padded(n, width), max) == Some(n),
    decreases width,
{
    digits_have_the_value(n);
    assert(is_digit(digits(n)[0]));
    let z = zeros(width - digits(n).len());
    lemma_leading_zeros(z.len() as int, digits(n));
    assert(z =~= zeros(z.len() as int));
    assert forall|i: int| 0 <= i < padded(n, width).len() implies is_digit(
        #[trigger] padded(n, width)[i],
    ) by {
        if i >= z.len() {
            assert(padded(n, width)[i] == digits(n)[i - z.len()]);
        }
    }
    assert(is_digit(padded(n, width)[0]));
}

proof fn lemma_leading_zeros(count: int, d: Seq<char>)
    ensures
        value_of(zeros(count) + d) == value_of(d),
    decreases d.len(), count,
{
    if d.len() > 0 {
        lemma_leading_zeros(count, d.drop_last());
        assert((zeros(count) + d).drop_last() =~= zeros(count) + d.drop_last());
    } else if count > 0 {
        lemma_leading_zeros(count - 1, d);
        assert((zeros(count) + d).drop_last() =~= zeros(count - 1) + d);
        assert((zeros(count) + d).last() == '0');
    } else {
        assert(zeros(count) + d =~= d);
    }
}

proof fn lemma_value_grows(s: Seq<char>, i: int)
    requires
        0 <= i <= s.len(),
        all_digits(s),
    ensures
        value_of(s.take(i)) <= value_of(s),
    decreases s.len(),
{
    if i < s.len() {
        assert(all_digits(s.drop_last()));
        lemma_value_grows(s.drop_last(), i);
        assert(s.drop_last().take(i) =~= s.take(i));
        assert(is_digit(s[s.len() - 1]));
    } else {
        assert(s.take(i) =~= s);
    }
}

/// The characters of a text.
pub fn chars_of(s: &str) -> (r: Vec<char>)
    ensures
        r@ == s@,
{
    let mut r: Vec<char> = Vec::new();
    for c in it: s.chars()
        invariant
            r@ == it.seq().take(it.index() as int),
            it.seq() == s@,
    {
        r.push(c);
    }
    r
}

/// The text of some characters.
pub fn string_of(chars: &[char]) -> (r: String)
    ensures
        r@ == chars@,
{
    let mut r = String::new();
    let mut i: usize = 0;
    while i < chars.len()
        invariant
            i <= chars@.len(),
            r@ == chars@.take(i as int),
        decreases chars@.len() - i,
    {
        r.push(chars[i]);
        i += 1;
        assert(r@ =~= chars@.take(i as int));
    }
    assert(chars@.take(i as int) =~= chars@);
    r
}

/// Reads a number that is not above `max`.
pub fn parse_chars(s: &[char], max: u64) -> (r: Option<u64>)
    ensures
        r is Some <==> parsed(s@, max as nat) is Some,
        r matches Some(n) ==> parsed(s@, max as nat) == Some(n as nat),
{
    let start: usize = if s.len() > 0 && s[0] == '+' {
        1
    } else {
        0
    };
    let ghost d = unsigned_digits(s@);
    assert(d =~= s@.skip(start as int));
    if start == s.len() {
        return None;
    }
    let mut value: u64 = 0;
    let mut i: usize = start;
    assert(d.take(0) =~= Seq::<char>::empty());
    while i < s.len()
        invariant
            start <= i <= s@.len(),
            d == s@.skip(start as int),
            d == unsigned_digits(s@),
            all_digits(d.take(i - start)),
            value == value_of(d.take(i - start)),
            value <= max,
        decreases s@.len() - i,
    {
        let c: char = s[i];
        let ghost k = i - start;
        assert(d[k] == c);
        assert(d.take(k + 1).drop_last() =~= d.take(k));
        if c < '0' || c > '9' {
            assert(!is_digit(d[k]));
            return None;
        }
        let digit: u64 = c as u64 - 48;
        assert(all_digits(d.take(k + 1))) by {
            assert forall|j: int| 0 <= j < k + 1 implies is_digit(#[trigger] d.take(k + 1)[j]) by {
                if j < k {
                    assert(is_digit(d.take(k)[j]));
                }
            }
        }
        if digit > max || value > (max - digit) / 10 {
            proof {
                if all_digits(d) {
                    lemma_value_grows(d, k + 1);
                }
            }
            return None;
        }
        value = value * 10 + digit;
        i += 1;
    }
    assert(d.take(i - start) =~= d);
    Some(value)
}

/// Reads a number that is not above `max`.
pub fn parse_number(s: &str, max: u64) -> (r: Option<u64>)
    ensures
        r is Some <==> parsed(s@, max as nat) is Some,
        r matches Some(n) ==> parsed(s@, max as nat) == Some(n as nat),
{
    let chars = chars_of(s);
    parse_chars(&chars, max)
}

/// `part` occurs in `s` at position `i`.
pub open spec fn occurs_at(s: Seq<char>, part: Seq<char>, i: int) -> bool {
    0 <= i <= s.len() - part.len() && s.subrange(i, i + part.len()) == part
}

/// `part` occurs in `s`.
pub open spec fn contains(s: Seq<char>, part: Seq<char>) -> bool {
    exists|i: int| occurs_at(s, part, i)
}

/// Tells whether `part` occurs in `s` at position `i`.
pub fn matches_at(s: &[char], part: &[char], i: usize) -> (r: bool)
    ensures
        r == occurs_at(s@, part@, i as int),
{
    if part.len() > s.len() || i > s.len() - part.len() {
        return false;
    }
    let mut k: usize = 0;
    while k < part.len()
        invariant
            k <= part@.len(),
            i + part@.len() <= s.len(),
            forall|j: int| 0 <= j < k ==> #[trigger] part@[j] == s@[i + j],
        decreases part@.len() - k,
    {
        if s[i + k] != part[k] {
            assert(s@.subrange(i as int, i + part@.len())[k as int] != part@[k as int]);
            return false;
        }
        k += 1;
    }
    assert(s@.subrange(i as int, i + part@.len()) =~= part@);
    true
}

/// Tells whether `part` occurs in `s`.
pub fn contains_text(s: &str, part: &str) -> (r: bool)
    ensures
        r == contains(s@, part@),
{
    let s_chars = chars_of(s);
    let part_chars = chars_of(part);
    let mut i: usize = 0;
    while i <= s_chars.len() && part_chars.len() <= s_chars.len() - i
        invariant
            s_chars@ == s@,
            part_chars@ == part@,
            i <= s@.len() + 1,
            forall|j: int| 0 <= j < i ==> !#[trigger] occurs_at(s@, part@, j),
        decreases s@.len() + 1 - i,
    {
        if matches_at(&s_chars, &part_chars, i) {
            return true;
        }
        if i == s_chars.len() {
            return false;
        }
        i += 1;
    }
    false
}

/// The text begins with `part`.
pub open spec fn begins_with(s: Seq<char>, part: Seq<char>) -> bool {
    occurs_at(s, part, 0)
}

/// The text ends with `part`.
pub open spec fn ends_with(s: Seq<char>, part: Seq<char>) -> bool {
    s.len() >= part.len() && occurs_at(s, part, s.len() - part.len())
}

/// Computes [`begins_with`].
pub fn has_start(s: &str, part: &str) -> (r: bool)
    ensures
        r == begins_with(s@, part@),
{
    let chars = chars_of(s);
    let part_chars = chars_of(part);
    matches_at(&chars, &part_chars, 0)
}

/// Computes [`ends_with`].
pub fn has_end(s: &str, part: &str) -> (r: bool)
    ensures
        r == ends_with(s@, part@),
{
    let chars = chars_of(s);
    let part_chars = chars_of(part);
    if chars.len() < part_chars.len() {
        false
    } else {
        matches_at(&chars, &part_chars, chars.len() - part_chars.len())
    }
}

/// The text without one slash at its end, if it has one.
pub open spec fn without_slash(s: Seq<char>) -> Seq<char> {
    if s.len() > 0 && s.last() == '/' {
        s.drop_last()
    } else {
        s
    }
}

/// Takes one slash off the end of a text.
pub fn without_trailing_slash(s: &str) -> (r: String)
    ensures
        r@ == without_slash(s@),
{
    let mut chars = chars_of(s);
    if chars.len() > 0 && chars[chars.len() - 1] == '/' {
        chars.pop();
    }
    assert(chars@ =~= without_slash(s@));
    string_of(&chars)
}

/// What stands behind the last `sep`: everything if there is none.
pub open spec fn segment_after_last(s: Seq<char>, sep: char) -> Seq<char>
    decreases s.len(),
{
    if s.len() == 0 || s.last() == sep {
        Seq::empty()
    } else {
        segment_after_last(s.drop_last(), sep).push(s.last())
    }
}

/// What stands behind the last slash.
pub fn last_segment(s: &str) -> (r: String)
    ensures
        r@ == segment_after_last(s@, '/'),
{
    let chars = chars_of(s);
    let mut start: usize = chars.len();
    assert(s@.take(start as int) =~= s@);
    assert(s@.skip(start as int) =~= Seq::<char>::empty());
    while start > 0 && chars[start - 1] != '/'
        invariant
            chars@ == s@,
            start <= s@.len(),
            segment_after_last(s@, '/') == segment_after_last(s@.take(start as int), '/') + s@.skip(
                start as int,
            ),
        decreases start,
    {
        start -= 1;
        proof {
            let before = s@.take(start + 1);
            assert(before.drop_last() =~= s@.take(start as int));
            assert(segment_after_last(before, '/') + s@.skip(start + 1) =~= segment_after_last(
                s@.take(start as int),
                '/',
            ) + s@.skip(start as int));
        }
    }
    let mut r = String::new();
    let mut i: usize = start;
    while i < chars.len()
        invariant
            chars@ == s@,
            start <= i <= s@.len(),
            r@ == s@.subrange(start as int, i as int),
        decreases s@.len() - i,
    {
        r.push(chars[i]);
        i += 1;
        assert(r@ =~= s@.subrange(start as int, i as int));
    }
    assert(segment_after_last(s@.take(start as int), '/') =~= Seq::<char>::empty());
    assert(r@ =~= segment_after_last(s@, '/'));
    r
}

/// White space as Unicode defines it.
pub open spec fn is_space(c: char) -> bool {
    let n = c as u32;
    ||| 9 <= n <= 13
    ||| n == 0x20 || n == 0x85 || n == 0xa0 || n == 0x1680
    ||| 0x2000 <= n <= 0x200a
    ||| n == 0x2028 || n == 0x2029 || n == 0x202f || n == 0x205f || n == 0x3000
}

fn is_space_char(c: char) -> (r: bool)
    ensures
        r == is_space(c),
{
    let n: u32 = c as u32;
    (9 <= n && n <= 13) || n == 0x20 || n == 0x85 || n == 0xa0 || n == 0x1680 || (0x2000 <= n && n
        <= 0x200a) || n == 0x2028 || n == 0x2029 || n == 0x202f || n == 0x205f || n == 0x3000
}

/// The text without white space at its start.
pub open spec fn trimmed_start(s: Seq<char>) -> Seq<char>
    decreases s.len(),
{
    if s.len() > 0 && is_space(s[0]) {
        trimmed_start(s.drop_first())
    } else {
        s
    }
}

/// The text without white space at its end.
pub open spec fn trimmed_end(s: Seq<char>) -> Seq<char>
    decreases s.len(),
{
    if s.len() > 0 && is_space(s.last()) {
        trimmed_end(s.drop_last())
    } else {
        s
    }
}

/// The text without white space around it.
pub open spec fn trimmed(s: Seq<char>) -> Seq<char> {
    trimmed_end(trimmed_start(s))
}

/// Takes white space off both ends.
pub fn trim_chars(s: &[char]) -> (r: Vec<char>)
    ensures
        r@ == trimmed(s@),
{
    let mut start: usize = 0;
    assert(s@.skip(0) =~= s@);
    while start < s.len() && is_space_char(s[start])
        invariant
            start <= s@.len(),
            trimmed_start(s@) == trimmed_start(s@.skip(start as int)),
        decreases s@.len() - start,
    {
        assert(s@.skip(start as int).drop_first() =~= s@.skip(start + 1));
        start += 1;
    }
    let ghost rest = s@.skip(start as int);
    assert(trimmed_start(s@) == rest);
    let mut end: usize = s.len();
    assert(s@.subrange(start as int, end as int) =~= rest);
    while end > start && is_space_char(s[end - 1])
        invariant
            start <= end <= s@.len(),
            trimmed_end(rest) == trimmed_end(s@.subrange(start as int, end as int)),
        decreases end,
    {
        assert(s@.subrange(start as int, end as int).drop_last() =~= s@.subrange(
            start as int,
            end - 1,
        ));
        end -= 1;
    }
    let mut r: Vec<char> = Vec::new();
    let mut i: usize = start;
    while i < end
        invariant
            start <= i <= end <= s@.len(),
            r@ == s@.subrange(start as int, i as int),
        decreases end - i,
    {
        r.push(s[i]);
        i += 1;
        assert(r@ =~= s@.subrange(start as int, i as int));
    }
    r
}

/// The first place from `from` on where `part` occurs.
pub open spec fn find_from(s: Seq<char>, part: Seq<char>, from: int) -> Option<int>
    decreases s.len() + 1 - from,
{
    if from > s.len() - part.len() {
        None
    } else if occurs_at(s, part, from) {
        Some(from)
    } else {
        find_from(s, part, from + 1)
    }
}

/// Computes [`find_from`].
pub fn find_chars(s: &[char], part: &[char], from: usize) -> (r: Option<usize>)
    requires
        from <= s@.len(),
    ensures
        match r {
            Some(i) => find_from(s@, part@, from as int) == Some(i as int) && from <= i
                && occurs_at(s@, part@, i as int),
            None => find_from(s@, part@, from as int) is None,
        },
{
    let mut i: usize = from;
    while i < s.len()
        invariant
            from <= i <= s@.len(),
            find_from(s@, part@, from as int) == find_from(s@, part@, i as int),
        decreases s@.len() - i,
    {
        if matches_at(s, part, i) {
            return Some(i);
        }
        i += 1;
    }
    if matches_at(s, part, i) {
        return Some(i);
    }
    assert(find_from(s@, part@, i + 1) is None);
    None
}

/// Copies some of the characters.
pub fn sub_chars(s: &[char], from: usize, to: usize) -> (r: Vec<char>)
    requires
        from <= to <= s@.len(),
    ensures
        r@ == s@.subrange(from as int, to as int),
{
    let mut r: Vec<char> = Vec::new();
    let mut i: usize = from;
    while i < to
        invariant
            from <= i <= to <= s@.len(),
            r@ == s@.subrange(from as int, i as int),
        decreases to - i,
    {
        r.push(s[i]);
        i += 1;
        assert(r@ =~= s@.subrange(from as int, i as int));
    }
    r
}

/// How many characters from `from` on belong to one word.
pub open spec fn word_len(s: Seq<char>, from: int) -> nat
    decreases s.len() - from,
{
    if from >= s.len() || is_space(s[from]) {
        0
    } else {
        1 + word_len(s, from + 1)
    }
}

/// The words from `from` on, parted by white space.
pub open spec fn words(s: Seq<char>, from: int) -> Seq<Seq<char>>
    decreases
            (if from < s.len() {
                s.len() - from
            } else {
                0
            }),
{
    if from >= s.len() {
        Seq::empty()
    } else if is_space(s[from]) {
        words(s, from + 1)
    } else {
        seq![s.subrange(from, from + word_len(s, from))] + words(s, from + word_len(s, from))
    }
}

/// The characters of several texts.
pub open spec fn texts(v: Seq<Vec<char>>) -> Seq<Seq<char>> {
    v.map_values(|w: Vec<char>| w@)
}

/// Parts a text into its words.
pub fn split_words(s: &[char]) -> (r: Vec<Vec<char>>)
    ensures
        texts(r@) == words(s@, 0),
{
    let mut r: Vec<Vec<char>> = Vec::new();
    let mut i: usize = 0;
    assert(texts(r@) + words(s@, 0) =~= words(s@, 0));
    while i < s.len()
        invariant
            i <= s@.len(),
            texts(r@) + words(s@, i as int) == words(s@, 0),
        decreases s@.len() - i,
    {
        if is_space_char(s[i]) {
            i += 1;
        } else {
            let start: usize = i;
            i += 1;
            while i < s.len() && !is_space_char(s[i])
                invariant
                    start < i <= s@.len(),
                    start + word_len(s@, start as int) == i + word_len(s@, i as int),
                decreases s@.len() - i,
            {
                i += 1;
            }
            let ghost before = texts(r@);
            let word = sub_chars(s, start, i);
            r.push(word);
            proof {
                assert(texts(r@) =~= before.push(s@.subrange(start as int, i as int)));
                assert(texts(r@) + words(s@, i as int) =~= before + words(s@, start as int));
            }
        }
    }
    assert(texts(r@) + words(s@, i as int) =~= texts(r@));
    r
}

/// The order of texts: the first characters that differ decide, and a text comes before those that
/// it begins.
pub open spec fn text_before(a: Seq<char>, b: Seq<char>) -> bool
    decreases a.len(),
{
    if b.len() == 0 {
        false
    } else if a.len() == 0 {
        true
    } else if a[0] != b[0] {
        a[0] < b[0]
    } else {
        text_before(a.drop_first(), b.drop_first())
    }
}

/// Computes [`text_before`].
pub fn is_before(a: &str, b: &str) -> (r: bool)
    ensures
        r == text_before(a@, b@),
{
    let x = chars_of(a);
    let y = chars_of(b);
    let mut i: usize = 0;
    assert(x@.skip(0) =~= x@ && y@.skip(0) =~= y@);
    while i < x.len() && i < y.len() && x[i] == y[i]
        invariant
            i <= x@.len(),
            i <= y@.len(),
            x@ == a@,
            y@ == b@,
            text_before(a@, b@) == text_before(x@.skip(i as int), y@.skip(i as int)),
        decreases x@.len() - i,
    {
        assert(x@.skip(i as int).drop_first() =~= x@.skip(i + 1));
        assert(y@.skip(i as int).drop_first() =~= y@.skip(i + 1));
        i += 1;
    }
    if i >= y.len() {
        false
    } else if i >= x.len() {
        true
    } else {
        x[i] < y[i]
    }
}

/// Of two different texts exactly one comes before the other.
pub proof fn texts_are_ordered(a: Seq<char>, b: Seq<char>)
    ensures
        !(text_before(a, b) && text_before(b, a)),
        text_before(a, b) || text_before(b, a) || a == b,
        !text_before(a, a),
    decreases a.len(),
{
    if a.len() > 0 {
        texts_are_ordered(a.drop_first(), a.drop_first());
    }
    if a.len() > 0 && b.len() > 0 && a[0] == b[0] {
        texts_are_ordered(a.drop_first(), b.drop_first());
        if a.drop_first() == b.drop_first() {
            assert(a =~= seq![a[0]] + a.drop_first());
            assert(b =~= seq![b[0]] + b.drop_first());
        }
    } else if a.len() == 0 && b.len() == 0 {
        assert(a =~= b);
    }
}

/// The order of texts goes on over a third text.
pub proof fn text_order_is_transitive(a: Seq<char>, b: Seq<char>, c: Seq<char>)
    requires
        text_before(a, b),
        text_before(b, c),
    ensures
        text_before(a, c),
    decreases a.len(),
{
    if a.len() > 0 && a[0] == b[0] && b[0] == c[0] {
        text_order_is_transitive(a.drop_first(), b.drop_first(), c.drop_first());
    }
}

/// A digit further to the left counts ten times as much: what stands in front of some digits is
/// worth its value times ten for each of them. A single digit is worth what it shows.
pub proof fn digits_are_positional(a: Seq<char>, b: Seq<char>, d: int)
    ensures
        value_of(a + b) == value_of(a) * pow(10, b.len()) + value_of(b),
        0 <= d <= 9 ==> is_digit((48 + d) as char) && value_of(seq![(48 + d) as char]) == d,
        value_of(Seq::empty()) == 0,
    decreases b.len(),
{
    if b.len() == 0 {
        assert(a + b =~= a);
        lemma_pow0(10);
    } else {
        let front = b.drop_last();
        digits_are_positional(a, front, d);
        assert((a + b).drop_last() =~= a + front);
        lemma_pow1(10);
        lemma_pow_adds(10, 1, front.len());
        let (v, p) = (value_of(a) as int, pow(10, front.len()));
        assert(v * (10 * p) == (v * p) * 10) by (nonlinear_arith);
    }
    if 0 <= d <= 9 {
        let one = seq![(48 + d) as char];
        assert(one.drop_last() =~= Seq::<char>::empty());
        assert(value_of(one.drop_last()) == 0);
    }
}

/// Digits have no zeros in front, and zeros fill them up to the width and no further.
pub proof fn digits_have_no_leading_zeros(n: nat, width: int)
    ensures
        n > 0 ==> digits(n)[0] != '0',
        n == 0 ==> digits(n) == seq!['0'],
        padded(n, width).len() == (if digits(n).len() < width { width } else { digits(n).len() as int }),
        forall|i: int|
            0 <= i < padded(n, width).len() - digits(n).len() ==> #[trigger] padded(n, width)[i] == '0',
        padded(n, width).skip(padded(n, width).len() - digits(n).len()) == digits(n),
    decreases n,
{
    if n >= 10 {
        digits_have_no_leading_zeros(n / 10, width);
        digits_have_the_value(n / 10);
        assert(digits(n)[0] == digits(n / 10)[0]);
    }
    let all = padded(n, width);
    assert(all.skip(all.len() - digits(n).len()) =~= digits(n));
}

/// A number may have a plus sign and leading zeros; it is not read if it is too large, if it is
/// empty, or if anything but digits stands in it.
pub proof fn numbers_are_digits(s: Seq<char>, n: nat, max: nat, i: int)
    ensures
        n <= max ==> parsed(seq!['+'] + digits(n), max) == Some(n),
        n > max ==> parsed(digits(n), max) is None,
        parsed(Seq::empty(), max) is None,
        0 < i < s.len() && !is_digit(s[i]) ==> parsed(s, max) is None,
        s.len() > 0 && !is_digit(s[0]) && s[0] != '+' ==> parsed(s, max) is None,
        signed_digits(n as int) == digits(n),
        n > 0 ==> signed_digits(-n) == seq!['-'] + digits(n),
{
    digits_have_the_value(n);
    let plus = seq!['+'] + digits(n);
    assert(plus.skip(1) =~= digits(n));
    assert(is_digit(digits(n)[0]));
    if 0 < i < s.len() && !is_digit(s[i]) {
        let d = unsigned_digits(s);
        if s[0] == '+' {
            assert(d[i - 1] == s[i]);
        } else {
            assert(d[i] == s[i]);
        }
    }
    if s.len() > 0 && !is_digit(s[0]) && s[0] != '+' {
        assert(unsigned_digits(s)[0] == s[0]);
    }
}

/// What is found is the first place, not before `from`, where the text occurs; nothing is found
/// only where it does not occur.
pub proof fn first_places_are_found(s: Seq<char>, part: Seq<char>, from: int, i: int)
    requires
        0 <= from <= i,
        occurs_at(s, part, i),
    ensures
        find_from(s, part, from) is Some,
        from <= find_from(s, part, from)->0 <= i,
        occurs_at(s, part, find_from(s, part, from)->0),
    decreases i - from,
{
    if !occurs_at(s, part, from) {
        first_places_are_found(s, part, from + 1, i);
    }
}

/// Nothing is found in a text in which it does not occur.
pub proof fn nothing_is_found_elsewhere(s: Seq<char>, part: Seq<char>, from: int)
    requires
        0 <= from,
        forall|i: int| from <= i ==> !#[trigger] occurs_at(s, part, i),
    ensures
        find_from(s, part, from) is None,
    decreases s.len() + 1 - from,
{
    if from <= s.len() - part.len() {
        assert(!occurs_at(s, part, from));
        nothing_is_found_elsewhere(s, part, from + 1);
    }
}

/// A text begins, and ends, with what it is put together from, and holds what stands in its middle.
pub proof fn texts_hold_their_parts(a: Seq<char>, b: Seq<char>, c: Seq<char>)
    ensures
        begins_with(a + b, a),
        ends_with(a + b, b),
        occurs_at(a + b + c, b, a.len() as int),
        contains(a + b + c, b),
        a.len() == b.len() && a != b ==> !contains(a, b),
        a.len() == b.len() && a != b ==> !begins_with(a + c, b) && !ends_with(c + a, b),
        a.len() < b.len() ==> !contains(a, b) && !begins_with(a, b) && !ends_with(a, b),
{
    assert((a + b).subrange(0, a.len() as int) =~= a);
    assert((a + b).subrange(a.len() as int, (a + b).len() as int) =~= b);
    assert((a + b + c).subrange(a.len() as int, (a.len() + b.len()) as int) =~= b);
    if a.len() == b.len() && a != b {
        assert((a + c).subrange(0, b.len() as int) =~= a);
        assert((c + a).subrange(c.len() as int, (c.len() + b.len()) as int) =~= a);
        assert forall|i: int| !occurs_at(a, b, i) by {
            if i == 0 {
                assert(a.subrange(0, b.len() as int) =~= a);
            }
        }
    }
}

/// One slash is taken off the end, and nothing else.
pub proof fn one_slash_is_taken_off(s: Seq<char>, c: char)
    ensures
        without_slash(s.push('/')) == s,
        c != '/' ==> without_slash(s.push(c)) == s.push(c),
        without_slash(Seq::empty()) == Seq::<char>::empty(),
{
    assert(s.push('/').drop_last() =~= s);
}

/// What stands behind the last separator has none in it, and a text without one is taken whole.
pub proof fn last_segments_have_no_separator(s: Seq<char>, rest: Seq<char>, sep: char)
    requires
        forall|i: int| 0 <= i < rest.len() ==> #[trigger] rest[i] != sep,
    ensures
        segment_after_last(s.push(sep) + rest, sep) == rest,
        segment_after_last(rest, sep) == rest,
    decreases rest.len(),
{
    let all = s.push(sep) + rest;
    if rest.len() == 0 {
        assert(all =~= s.push(sep));
        assert(segment_after_last(all, sep) =~= rest);
        assert(segment_after_last(rest, sep) =~= rest);
    } else {
        let front = rest.drop_last();
        assert forall|i: int| 0 <= i < front.len() implies #[trigger] front[i] != sep by {
            assert(front[i] == rest[i]);
        }
        last_segments_have_no_separator(s, front, sep);
        assert(all.drop_last() =~= s.push(sep) + front);
        assert(rest[rest.len() - 1] != sep);
        assert(front.push(rest.last()) =~= rest);
    }
}

/// Every character is white space.
pub open spec fn all_space(s: Seq<char>) -> bool {
    forall|i: int| 0 <= i < s.len() ==> is_space(#[trigger] s[i])
}

/// The character is one that is not seen, as far as ASCII goes: a blank or one of the control
/// characters that move on.
pub proof fn blanks_are_space(c: char)
    ensures
        c == ' ' || c == '\t' || c == '\n' || c == '\r' ==> is_space(c),
        '!' <= c <= '~' ==> !is_space(c),
{
}

proof fn lemma_trimmed_start(a: Seq<char>, s: Seq<char>)
    requires
        all_space(a),
        s.len() > 0 ==> !is_space(s[0]),
    ensures
        trimmed_start(a + s) == s,
    decreases a.len(),
{
    if a.len() == 0 {
        assert(a + s =~= s);
    } else {
        let rest = a.drop_first();
        assert forall|i: int| 0 <= i < rest.len() implies is_space(#[trigger] rest[i]) by {
            assert(rest[i] == a[i + 1]);
        }
        assert(is_space(a[0]));
        lemma_trimmed_start(rest, s);
        assert((a + s).drop_first() =~= rest + s);
    }
}

proof fn lemma_trimmed_end(s: Seq<char>, b: Seq<char>)
    requires
        all_space(b),
        s.len() > 0 ==> !is_space(s.last()),
    ensures
        trimmed_end(s + b) == s,
    decreases b.len(),
{
    if b.len() == 0 {
        assert(s + b =~= s);
    } else {
        let rest = b.drop_last();
        assert forall|i: int| 0 <= i < rest.len() implies is_space(#[trigger] rest[i]) by {
            assert(rest[i] == b[i]);
        }
        assert(is_space(b[b.len() - 1]));
        lemma_trimmed_end(s, rest);
        assert((s + b).drop_last() =~= s + rest);
    }
}

/// The white space around a text is taken off, and nothing of the text itself.
pub proof fn white_space_is_taken_off(a: Seq<char>, s: Seq<char>, b: Seq<char>)
    requires
        all_space(a),
        all_space(b),
        s.len() > 0 ==> !is_space(s[0]) && !is_space(s.last()),
    ensures
        trimmed(a + s + b) == s,
{
    if s.len() > 0 {
        assert(a + s + b =~= a + (s + b));
        lemma_trimmed_start(a, s + b);
        lemma_trimmed_end(s, b);
    } else {
        let all = a + s + b;
        assert forall|i: int| 0 <= i < all.len() implies is_space(#[trigger] all[i]) by {
            if i < a.len() {
                assert(all[i] == a[i]);
            } else {
                assert(all[i] == b[i - a.len()]);
            }
        }
        lemma_trimmed_start(all, s);
        assert(all + s =~= all);
        assert(trimmed_end(s) == s);
    }
}

proof fn lemma_words_behind(s: Seq<char>, from: int)
    requires
        0 <= from <= s.len(),
    ensures
        words(s, from) == words(s.skip(from), 0),
    decreases s.len() - from,
{
    lemma_words_shifted(s, from, 0);
}

proof fn lemma_word_len_shifted(s: Seq<char>, by: int, from: int)
    requires
        0 <= by,
        0 <= from,
        by + from <= s.len(),
    ensures
        word_len(s, by + from) == word_len(s.skip(by), from),
        by + from + word_len(s, by + from) <= s.len(),
    decreases s.len() - from,
{
    let t = s.skip(by);
    if from < t.len() && !is_space(t[from]) {
        assert(t[from] == s[by + from]);
        lemma_word_len_shifted(s, by, from + 1);
    }
}

proof fn lemma_words_shifted(s: Seq<char>, by: int, from: int)
    requires
        0 <= by,
        0 <= from,
        by + from <= s.len(),
    ensures
        words(s, by + from) == words(s.skip(by), from),
    decreases s.len() - from,
{
    let t = s.skip(by);
    if from < t.len() {
        assert(t[from] == s[by + from]);
        if is_space(t[from]) {
            lemma_words_shifted(s, by, from + 1);
        } else {
            lemma_word_len_shifted(s, by, from);
            let n = word_len(t, from);
            assert(n > 0);
            lemma_words_shifted(s, by, from + n);
            assert(t.subrange(from, from + n) =~= s.subrange(by + from, by + from + n));
        }
    }
}

proof fn lemma_word_len(s: Seq<char>, from: int, end: int)
    requires
        0 <= from <= end <= s.len(),
        forall|i: int| from <= i < end ==> !is_space(#[trigger] s[i]),
        end < s.len() ==> is_space(s[end]),
    ensures
        word_len(s, from) == end - from,
    decreases end - from,
{
    if from < end {
        assert(!is_space(s[from]));
        lemma_word_len(s, from + 1, end);
    }
}

/// A text is parted at its white space: the words are what stands between, in their order, and none
/// of them is empty.
pub proof fn words_are_parted_by_space(a: Seq<char>, word: Seq<char>, rest: Seq<char>)
    requires
        all_space(a),
        word.len() > 0,
        forall|i: int| 0 <= i < word.len() ==> !is_space(#[trigger] word[i]),
        rest.len() > 0 ==> is_space(rest[0]),
    ensures
        words(a, 0) == Seq::<Seq<char>>::empty(),
        words(a + word + rest, 0) == seq![word] + words(rest, 0),
    decreases a.len(),
{
    let s = a + word + rest;
    if a.len() > 0 {
        let b = a.drop_first();
        assert forall|i: int| 0 <= i < b.len() implies is_space(#[trigger] b[i]) by {
            assert(b[i] == a[i + 1]);
        }
        words_are_parted_by_space(b, word, rest);
        assert(is_space(a[0]) && s[0] == a[0]);
        lemma_words_behind(s, 1);
        lemma_words_behind(a, 1);
        assert(s.skip(1) =~= b + word + rest);
        assert(a.skip(1) =~= b);
    } else {
        let n = word.len() as int;
        assert(s =~= word + rest);
        assert forall|i: int| 0 <= i < n implies !is_space(#[trigger] s[i]) by {
            assert(s[i] == word[i]);
        }
        assert(!is_space(s[0]));
        lemma_word_len(s, 0, n);
        lemma_words_behind(s, n);
        assert(s.skip(n) =~= rest);
        assert(s.subrange(0, n) =~= word);
    }
}

/// The first characters that differ decide the order of two texts, the smaller one coming first, and
/// a text comes before those that it begins.
pub proof fn first_difference_decides(
    start: Seq<char>,
    c: char,
    d: char,
    a: Seq<char>,
    b: Seq<char>,
)
    requires
        c < d,
    ensures
        text_before(start + seq![c] + a, start + seq![d] + b),
        !text_before(start + seq![d] + b, start + seq![c] + a),
        text_before(start, start + seq![c] + a),
    decreases start.len(),
{
    let x = start + seq![c] + a;
    let y = start + seq![d] + b;
    if start.len() == 0 {
        assert(x[0] == c && y[0] == d);
    } else {
        let rest = start.drop_first();
        first_difference_decides(rest, c, d, a, b);
        assert(x.drop_first() =~= rest + seq![c] + a);
        assert(y.drop_first() =~= rest + seq![d] + b);
        assert(x[0] == start[0] && y[0] == start[0]);
    }
}

} // verus!
