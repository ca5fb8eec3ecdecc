//! Text building blocks: digits, hexadecimal and decimal rendering, and the
//! character-level helpers the codec uses on schema strings.

use vstd::prelude::*;

verus! {

/// `String::push` of the standard library appends the given character to the
/// end of the string and changes nothing else.
pub assume_specification[ String::push ](s: &mut String, c: char)
    ensures
        final(s)@ == old(s)@.push(c),
;

/// The character of a digit `0..=15`, letters in upper case.
pub open spec fn hex_digit(n: int) -> char {
    if n < 10 {
        (48 + n) as u8 as char
    } else {
        (55 + n) as u8 as char
    }
}

/// The character of a digit `0..=15`, letters in lower case.
pub open spec fn hex_digit_lower(n: int) -> char {
    if n < 10 {
        (48 + n) as u8 as char
    } else {
        (87 + n) as u8 as char
    }
}

/// One byte as two upper-case hexadecimal digits.
pub open spec fn hex_pair(b: u8) -> Seq<char> {
    seq![hex_digit(b as int / 16), hex_digit(b as int % 16)]
}

/// One byte as two lower-case hexadecimal digits.
pub open spec fn hex_pair_lower(b: u8) -> Seq<char> {
    seq![hex_digit_lower(b as int / 16), hex_digit_lower(b as int % 16)]
}

/// The bytes as upper-case hexadecimal digits, two per byte, nothing between.
pub open spec fn hex_text(bytes: Seq<u8>) -> Seq<char>
    decreases bytes.len(),
{
    if bytes.len() == 0 {
        Seq::empty()
    } else {
        hex_text(bytes.drop_last()) + hex_pair(bytes.last())
    }
}

/// The bytes as lower-case hexadecimal digits, two per byte, nothing between.
pub open spec fn hex_text_lower(bytes: Seq<u8>) -> Seq<char>
    decreases bytes.len(),
{
    if bytes.len() == 0 {
        Seq::empty()
    } else {
        hex_text_lower(bytes.drop_last()) + hex_pair_lower(bytes.last())
    }
}

/// The bytes as upper-case hexadecimal pairs joined by single spaces.
pub open spec fn hex_text_spaced(bytes: Seq<u8>) -> Seq<char>
    decreases bytes.len(),
{
    if bytes.len() == 0 {
        Seq::empty()
    } else if bytes.len() == 1 {
        hex_pair(bytes[0])
    } else {
        hex_text_spaced(bytes.drop_last()) + seq![' '] + hex_pair(bytes.last())
    }
}

/// A natural number in upper-case hexadecimal without leading zeros.
pub open spec fn hex_number(n: nat) -> Seq<char>
    decreases n,
{
    if n < 16 {
        seq![hex_digit(n as int)]
    } else {
        hex_number(n / 16).push(hex_digit((n % 16) as int))
    }
}

/// A natural number in decimal without leading zeros.
pub open spec fn decimal_text(n: nat) -> Seq<char>
    decreases n,
{
    if n < 10 {
        seq![hex_digit(n as int)]
    } else {
        decimal_text(n / 10).push(hex_digit((n % 10) as int))
    }
}

/// The lowest `width` bits of `value`, most significant first.
pub open spec fn bits_text(value: nat, width: nat) -> Seq<char>
    decreases width,
{
    if width == 0 {
        Seq::empty()
    } else {
        bits_text(value / 2, (width - 1) as nat).push(
            if value % 2 == 1 {
                '1'
            } else {
                '0'
            },
        )
    }
}

/// `count` copies of one character.
pub open spec fn repeated(c: char, count: nat) -> Seq<char> {
    Seq::new(count, |i: int| c)
}

/// `s` preceded by as many `c` as it takes to reach `width` characters.
pub open spec fn pad_left(s: Seq<char>, width: nat, c: char) -> Seq<char> {
    if s.len() >= width {
        s
    } else {
        repeated(c, (width - s.len()) as nat) + s
    }
}

/// The value of a hexadecimal digit of either case.
pub open spec fn hex_value(c: char) -> Option<int> {
    let n = c as u32;
    if 48 <= n <= 57 {
        Some(n - 48)
    } else if 65 <= n <= 70 {
        Some(n - 55)
    } else if 97 <= n <= 102 {
        Some(n - 87)
    } else {
        None
    }
}

/// The value of a decimal digit.
pub open spec fn digit_value(c: char) -> Option<int> {
    let n = c as u32;
    if 48 <= n <= 57 {
        Some(n - 48)
    } else {
        None
    }
}

/// Whether every character is a hexadecimal digit.
pub open spec fn all_hex(s: Seq<char>) -> bool {
    forall|i: int| 0 <= i < s.len() ==> (#[trigger] hex_value(s[i])) is Some
}

/// The bytes written by an even number of hexadecimal digits, two per byte.
pub open spec fn hex_bytes(s: Seq<char>) -> Seq<u8>
    recommends
        s.len() % 2 == 0,
        all_hex(s),
{
    Seq::new(
        s.len() / 2,
        |i: int| (hex_value(s[2 * i])->0 * 16 + hex_value(s[2 * i + 1])->0) as u8,
    )
}

/// The number written by decimal digits, most significant first.
pub open spec fn decimal_value(s: Seq<char>) -> nat
    decreases s.len(),
{
    if s.len() == 0 {
        0
    } else {
        (decimal_value(s.drop_last()) * 10 + match digit_value(s.last()) {
            Some(d) => d,
            None => 0,
        }) as nat
    }
}

/// Whether every character is a decimal digit.
pub open spec fn all_digits(s: Seq<char>) -> bool {
    forall|i: int| 0 <= i < s.len() ==> (#[trigger] digit_value(s[i])) is Some
}

/// Spaces and line feeds, which hexadecimal input may hold anywhere.
pub open spec fn is_blank(c: char) -> bool {
    c == ' ' || c == '\n'
}

/// `s` without its spaces and line feeds.
pub open spec fn without_blanks(s: Seq<char>) -> Seq<char>
    decreases s.len(),
{
    if s.len() == 0 {
        Seq::empty()
    } else if is_blank(s.last()) {
        without_blanks(s.drop_last())
    } else {
        without_blanks(s.drop_last()).push(s.last())
    }
}

/// An ASCII lower-case letter becomes its upper-case form; every other
/// character stays.
pub open spec fn upper_char(c: char) -> char {
    let n = c as u32;
    if 97 <= n <= 122 {
        (n - 32) as u8 as char
    } else {
        c
    }
}

/// `s` with its ASCII letters in upper case.
pub open spec fn upper_text(s: Seq<char>) -> Seq<char> {
    Seq::new(s.len(), |i: int| upper_char(s[i]))
}

/// An ASCII upper-case letter becomes its lower-case form; every other
/// character stays.
pub open spec fn lower_char(c: char) -> char {
    let n = c as u32;
    if 65 <= n <= 90 {
        (n + 32) as u8 as char
    } else {
        c
    }
}

/// Equality of two texts that takes ASCII letters of either case as equal.
pub open spec fn same_ignoring_case(a: Seq<char>, b: Seq<char>) -> bool {
    &&& a.len() == b.len()
    &&& forall|i: int| 0 <= i < a.len() ==> lower_char(#[trigger] a[i]) == lower_char(b[i])
}

/// The characters with the Unicode property `White_Space`.
pub open spec fn is_space(c: char) -> bool {
    let n = c as u32;
    ||| 9 <= n <= 13
    ||| n == 0x20
    ||| n == 0x85
    ||| n == 0xA0
    ||| n == 0x1680
    ||| 0x2000 <= n <= 0x200A
    ||| n == 0x2028
    ||| n == 0x2029
    ||| n == 0x202F
    ||| n == 0x205F
    ||| n == 0x3000
}

/// The number of white-space characters at the start of `s`.
pub open spec fn leading_spaces(s: Seq<char>) -> nat
    decreases s.len(),
{
    if s.len() == 0 || !is_space(s[0]) {
        0
    } else {
        1 + leading_spaces(s.drop_first())
    }
}

/// The number of white-space characters at the end of `s`.
pub open spec fn trailing_spaces(s: Seq<char>) -> nat
    decreases s.len(),
{
    if s.len() == 0 || !is_space(s.last()) {
        0
    } else {
        1 + trailing_spaces(s.drop_last())
    }
}

/// `s` without the white space at its two ends.
pub open spec fn trimmed(s: Seq<char>) -> Seq<char> {
    let lead = leading_spaces(s);
    if lead == s.len() {
        Seq::empty()
    } else {
        s.subrange(lead as int, s.len() - trailing_spaces(s))
    }
}

pub proof fn lemma_leading_spaces_bound(s: Seq<char>)
    ensures
        leading_spaces(s) <= s.len(),
        forall|i: int| 0 <= i < leading_spaces(s) ==> is_space(#[trigger] s[i]),
        leading_spaces(s) < s.len() ==> !is_space(s[leading_spaces(s) as int]),
    decreases s.len(),
{
    if s.len() != 0 && is_space(s[0]) {
        let t = s.drop_first();
        lemma_leading_spaces_bound(t);
        assert forall|i: int| 0 <= i < leading_spaces(s) implies is_space(#[trigger] s[i]) by {
            if i > 0 {
                assert(s[i] == t[i - 1]);
            }
        }
        if leading_spaces(s) < s.len() {
            assert(s[leading_spaces(s) as int] == t[leading_spaces(t) as int]);
        }
    }
}

pub proof fn lemma_trailing_spaces_bound(s: Seq<char>)
    ensures
        trailing_spaces(s) <= s.len(),
        forall|i: int| s.len() - trailing_spaces(s) <= i < s.len() ==> is_space(#[trigger] s[i]),
        trailing_spaces(s) < s.len() ==> !is_space(s[s.len() - trailing_spaces(s) - 1]),
        leading_spaces(s) < s.len() ==> leading_spaces(s) + trailing_spaces(s) < s.len(),
    decreases s.len(),
{
    lemma_leading_spaces_bound(s);
    if s.len() != 0 && is_space(s.last()) {
        let t = s.drop_last();
        lemma_trailing_spaces_bound(t);
        lemma_leading_spaces_bound(t);
        assert forall|i: int| s.len() - trailing_spaces(s) <= i < s.len() implies is_space(
            #[trigger] s[i],
        ) by {
            if i < s.len() - 1 {
                assert(s[i] == t[i]);
            }
        }
        if trailing_spaces(s) < s.len() {
            assert(s[s.len() - trailing_spaces(s) - 1] == t[t.len() - trailing_spaces(t) - 1]);
        }
        if leading_spaces(s) < s.len() {
            let k = leading_spaces(s) as int;
            assert(!is_space(s[k]));
            assert(k < s.len() - trailing_spaces(s));
        }
    }
}

/// The character of a digit below 16, letters in upper case.
pub(crate) fn hex_digit_char(n: u8) -> (c: char)
    requires
        n < 16,
    ensures
        c == hex_digit(n as int),
{
    if n < 10 {
        (48 + n) as char
    } else {
        (55 + n) as char
    }
}

/// The character of a digit below 16, letters in lower case.
pub(crate) fn hex_digit_lower_char(n: u8) -> (c: char)
    requires
        n < 16,
    ensures
        c == hex_digit_lower(n as int),
{
    if n < 10 {
        (48 + n) as char
    } else {
        (87 + n) as char
    }
}

/// Appends one byte as two upper-case hexadecimal digits.
pub fn push_hex_pair(out: &mut String, b: u8)
    ensures
        final(out)@ == old(out)@ + hex_pair(b),
{
    out.push(hex_digit_char(b / 16));
    out.push(hex_digit_char(b % 16));
    assert(out@ =~= old(out)@ + hex_pair(b));
}

/// Appends one byte as two lower-case hexadecimal digits.
pub fn push_hex_pair_lower(out: &mut String, b: u8)
    ensures
        final(out)@ == old(out)@ + hex_pair_lower(b),
{
    out.push(hex_digit_lower_char(b / 16));
    out.push(hex_digit_lower_char(b % 16));
    assert(out@ =~= old(out)@ + hex_pair_lower(b));
}

/// Appends the bytes as upper-case hexadecimal digits.
pub fn push_hex_text(out: &mut String, bytes: &[u8])
    ensures
        final(out)@ == old(out)@ + hex_text(bytes@),
{
    let ghost start = out@;
    let mut i: usize = 0;
    assert(out@ =~= start + hex_text(bytes@.take(0)));
    while i < bytes.len()
        invariant
            i <= bytes.len(),
            out@ == start + hex_text(bytes@.take(i as int)),
        decreases bytes.len() - i,
    {
        push_hex_pair(out, bytes[i]);
        proof {
            let next = bytes@.take(i + 1);
            assert(next.drop_last() =~= bytes@.take(i as int));
            assert(out@ =~= start + hex_text(next));
        }
        i += 1;
    }
    assert(bytes@.take(i as int) =~= bytes@);
}

/// Appends the bytes as lower-case hexadecimal digits.
pub fn push_hex_text_lower(out: &mut String, bytes: &[u8])
    ensures
        final(out)@ == old(out)@ + hex_text_lower(bytes@),
{
    let ghost start = out@;
    let mut i: usize = 0;
    assert(out@ =~= start + hex_text_lower(bytes@.take(0)));
    while i < bytes.len()
        invariant
            i <= bytes.len(),
            out@ == start + hex_text_lower(bytes@.take(i as int)),
        decreases bytes.len() - i,
    {
        push_hex_pair_lower(out, bytes[i]);
        proof {
            let next = bytes@.take(i + 1);
            assert(next.drop_last() =~= bytes@.take(i as int));
            assert(out@ =~= start + hex_text_lower(next));
        }
        i += 1;
    }
    assert(bytes@.take(i as int) =~= bytes@);
}

/// Appends the bytes as upper-case hexadecimal pairs joined by spaces.
pub fn push_hex_text_spaced(out: &mut String, bytes: &[u8])
    ensures
        final(out)@ == old(out)@ + hex_text_spaced(bytes@),
{
    let ghost start = out@;
    let mut i: usize = 0;
    assert(out@ =~= start + hex_text_spaced(bytes@.take(0)));
    while i < bytes.len()
        invariant
            i <= bytes.len(),
            out@ == start + hex_text_spaced(bytes@.take(i as int)),
        decreases bytes.len() - i,
    {
        if i > 0 {
            out.push(' ');
        }
        push_hex_pair(out, bytes[i]);
        proof {
            let next = bytes@.take(i + 1);
            assert(next.drop_last() =~= bytes@.take(i as int));
            assert(next.last() == bytes@[i as int]);
            if i == 0 {
                assert(next[0] == bytes@[0]);
            }
            assert(out@ =~= start + hex_text_spaced(next));
        }
        i += 1;
    }
    assert(bytes@.take(i as int) =~= bytes@);
}

/// Appends a number in upper-case hexadecimal without leading zeros.
pub fn push_hex_number(out: &mut String, n: u64)
    ensures
        final(out)@ == old(out)@ + hex_number(n as nat),
    decreases n,
{
    if n >= 16 {
        push_hex_number(out, n / 16);
    }
    out.push(hex_digit_char((n % 16) as u8));
    assert(out@ =~= old(out)@ + hex_number(n as nat));
}

/// Appends a number in decimal without leading zeros.
pub fn push_decimal(out: &mut String, n: u64)
    ensures
        final(out)@ == old(out)@ + decimal_text(n as nat),
    decreases n,
{
    if n >= 10 {
        push_decimal(out, n / 10);
    }
    out.push(hex_digit_char((n % 10) as u8));
    assert(out@ =~= old(out)@ + decimal_text(n as nat));
}

/// Appends `count` copies of one character.
pub fn push_repeated(out: &mut String, c: char, count: usize)
    ensures
        final(out)@ == old(out)@ + repeated(c, count as nat),
{
    let ghost start = out@;
    let mut i: usize = 0;
    assert(out@ =~= start + repeated(c, 0));
    while i < count
        invariant
            i <= count,
            out@ == start + repeated(c, i as nat),
        decreases count - i,
    {
        out.push(c);
        assert(out@ =~= start + repeated(c, (i + 1) as nat));
        i += 1;
    }
}

/// Appends every character of `chars`.
pub fn push_chars(out: &mut String, chars: &Vec<char>)
    ensures
        final(out)@ == old(out)@ + chars@,
{
    let ghost start = out@;
    let mut i: usize = 0;
    assert(out@ =~= start + chars@.take(0));
    while i < chars.len()
        invariant
            i <= chars.len(),
            out@ == start + chars@.take(i as int),
        decreases chars.len() - i,
    {
        out.push(chars[i]);
        assert(out@ =~= start + chars@.take(i + 1));
        i += 1;
    }
    assert(chars@.take(i as int) =~= chars@);
}

/// The text as a `String`.
pub fn string_of(chars: &Vec<char>) -> (out: String)
    ensures
        out@ == chars@,
{
    let mut out = String::new();
    push_chars(&mut out, chars);
    assert(out@ =~= chars@);
    out
}

/// The characters of a string, in order.
pub fn chars_of(s: &str) -> (v: Vec<char>)
    ensures
        v@ == s@,
{
    let mut v: Vec<char> = Vec::new();
    for c in it: s.chars()
        invariant
            v@ == it.seq().take(it.index() as int),
    {
        v.push(c);
    }
    v
}

/// Whether two strings hold the same characters.
pub fn same_text(a: &str, b: &str) -> (same: bool)
    ensures
        same == (a@ == b@),
{
    let x = chars_of(a);
    let y = chars_of(b);
    same_chars(&x, &y)
}

/// Whether two character vectors hold the same characters.
pub fn same_chars(x: &Vec<char>, y: &Vec<char>) -> (same: bool)
    ensures
        same == (x@ == y@),
{
    if x.len() != y.len() {
        return false;
    }
    let mut i: usize = 0;
    while i < x.len()
        invariant
            i <= x.len(),
            x.len() == y.len(),
            forall|j: int| 0 <= j < i ==> x@[j] == y@[j],
        decreases x.len() - i,
    {
        if x[i] != y[i] {
            return false;
        }
        i += 1;
    }
    assert(x@ =~= y@);
    true
}

/// The value of a hexadecimal digit of either case.
pub fn hex_value_of(c: char) -> (r: Option<u8>)
    ensures
        match r {
            Some(v) => hex_value(c) == Some(v as int),
            None => hex_value(c) is None,
        },
{
    let n: u32 = c as u32;
    if 48 <= n && n <= 57 {
        Some((n - 48) as u8)
    } else if 65 <= n && n <= 70 {
        Some((n - 55) as u8)
    } else if 97 <= n && n <= 102 {
        Some((n - 87) as u8)
    } else {
        None
    }
}

/// The upper-case form of an ASCII letter, any other character unchanged.
pub fn upper_char_of(c: char) -> (r: char)
    ensures
        r == upper_char(c),
{
    let n: u32 = c as u32;
    if 97 <= n && n <= 122 {
        ((n - 32) as u8) as char
    } else {
        c
    }
}

/// The lower-case form of an ASCII letter, any other character unchanged.
pub fn lower_char_of(c: char) -> (r: char)
    ensures
        r == lower_char(c),
{
    let n: u32 = c as u32;
    if 65 <= n && n <= 90 {
        ((n + 32) as u8) as char
    } else {
        c
    }
}

/// The characters with their ASCII letters in upper case.
pub fn upper_chars(s: &Vec<char>) -> (r: Vec<char>)
    ensures
        r@ == upper_text(s@),
{
    let mut r: Vec<char> = Vec::new();
    let mut i: usize = 0;
    while i < s.len()
        invariant
            i <= s.len(),
            r@.len() == i,
            forall|j: int| 0 <= j < i ==> r@[j] == upper_char(s@[j]),
        decreases s.len() - i,
    {
        r.push(upper_char_of(s[i]));
        i += 1;
    }
    assert(r@ =~= upper_text(s@));
    r
}

/// Whether two texts are equal once ASCII letter case is set aside.
pub fn same_chars_ignoring_case(x: &Vec<char>, y: &Vec<char>) -> (same: bool)
    ensures
        same == same_ignoring_case(x@, y@),
{
    if x.len() != y.len() {
        return false;
    }
    let mut i: usize = 0;
    while i < x.len()
        invariant
            i <= x.len(),
            x.len() == y.len(),
            forall|j: int| 0 <= j < i ==> lower_char(#[trigger] x@[j]) == lower_char(y@[j]),
        decreases x.len() - i,
    {
        if lower_char_of(x[i]) != lower_char_of(y[i]) {
            return false;
        }
        i += 1;
    }
    true
}

/// Whether the character has the Unicode property `White_Space`.
pub fn is_space_char(c: char) -> (r: bool)
    ensures
        r == is_space(c),
{
    let n: u32 = c as u32;
    (9 <= n && n <= 13) || n == 0x20 || n == 0x85 || n == 0xA0 || n == 0x1680 || (0x2000 <= n && n
        <= 0x200A) || n == 0x2028 || n == 0x2029 || n == 0x202F || n == 0x205F || n == 0x3000
}

/// The characters without the white space at the two ends.
pub fn trimmed_chars(s: &Vec<char>) -> (r: Vec<char>)
    ensures
        r@ == trimmed(s@),
{
    let mut lead: usize = 0;
    while lead < s.len() && is_space_char(s[lead])
        invariant
            lead <= s.len(),
            forall|j: int| 0 <= j < lead ==> is_space(#[trigger] s@[j]),
        decreases s.len() - lead,
    {
        lead += 1;
    }
    proof {
        lemma_leading_spaces_bound(s@);
        lemma_trailing_spaces_bound(s@);
        let k = leading_spaces(s@);
        if k < lead {
            assert(is_space(s@[k as int]));
        }
        if lead < k {
            assert(is_space(s@[lead as int]));
        }
    }
    let mut r: Vec<char> = Vec::new();
    if lead == s.len() {
        assert(r@ =~= trimmed(s@));
        return r;
    }
    let mut end: usize = s.len();
    while end > lead && is_space_char(s[end - 1])
        invariant
            lead < s.len(),
            lead <= end <= s.len(),
            !is_space(s@[lead as int]),
            forall|j: int| end <= j < s.len() ==> is_space(#[trigger] s@[j]),
        decreases end,
    {
        end -= 1;
    }
    proof {
        let t = trailing_spaces(s@);
        if s.len() - t < end {
            assert(is_space(s@[end - 1]));
        }
        if end < s.len() - t {
            assert(is_space(s@[s.len() - t - 1]));
        }
    }
    let mut i: usize = lead;
    while i < end
        invariant
            lead <= i <= end <= s.len(),
            r@ == s@.subrange(lead as int, i as int),
        decreases end - i,
    {
        r.push(s[i]);
        assert(r@ =~= s@.subrange(lead as int, i + 1));
        i += 1;
    }
    r
}

/// The characters without spaces and line feeds.
pub fn chars_without_blanks(s: &Vec<char>) -> (r: Vec<char>)
    ensures
        r@ == without_blanks(s@),
{
    let mut r: Vec<char> = Vec::new();
    let mut i: usize = 0;
    assert(s@.take(0) =~= Seq::<char>::empty());
    while i < s.len()
        invariant
            i <= s.len(),
            r@ == without_blanks(s@.take(i as int)),
        decreases s.len() - i,
    {
        let c = s[i];
        proof {
            assert(s@.take(i + 1).drop_last() =~= s@.take(i as int));
        }
        if !(c == ' ' || c == '\n') {
            r.push(c);
        }
        i += 1;
    }
    assert(s@.take(i as int) =~= s@);
    r
}

/// The number that decimal digits write, or `None` where the text is empty,
/// holds another character, or writes more than `u64` holds.
pub fn parse_decimal(s: &Vec<char>) -> (r: Option<u64>)
    ensures
        match r {
            Some(v) => s@.len() > 0 && all_digits(s@) && decimal_value(s@) == v,
            None => s@.len() == 0 || !all_digits(s@) || decimal_value(s@) > u64::MAX,
        },
{
    if s.len() == 0 {
        return None;
    }
    let mut acc: u64 = 0;
    let mut i: usize = 0;
    assert(s@.take(0) =~= Seq::<char>::empty());
    while i < s.len()
        invariant
            i <= s.len(),
            all_digits(s@.take(i as int)),
            acc == decimal_value(s@.take(i as int)),
        decreases s.len() - i,
    {
        let n: u32 = s[i] as u32;
        proof {
            assert(s@.take(i + 1).drop_last() =~= s@.take(i as int));
            assert(s@.take(i + 1).last() == s@[i as int]);
        }
        if !(48 <= n && n <= 57) {
            assert(digit_value(s@[i as int]) is None);
            return None;
        }
        let d: u64 = (n - 48) as u64;
        proof {
            assert forall|j: int| 0 <= j < i + 1 implies (#[trigger] digit_value(
                s@.take(i + 1)[j],
            )) is Some by {
                if j < i {
                    assert(s@.take(i + 1)[j] == s@.take(i as int)[j]);
                }
            }
        }
        if acc > (u64::MAX - d) / 10 {
            proof {
                lemma_decimal_value_grows(s@, i + 1);
            }
            return None;
        }
        acc = acc * 10 + d;
        i += 1;
    }
    assert(s@.take(i as int) =~= s@);
    Some(acc)
}

/// A prefix never writes a larger number than the whole text.
pub proof fn lemma_decimal_value_grows(s: Seq<char>, k: int)
    requires
        0 <= k <= s.len(),
    ensures
        decimal_value(s.take(k)) <= decimal_value(s),
    decreases s.len() - k,
{
    if k == s.len() {
        assert(s.take(k) =~= s);
    } else {
        lemma_decimal_value_grows(s, k + 1);
        assert(s.take(k + 1).drop_last() =~= s.take(k));
    }
}

/// `s` without every occurrence of the character `c`.
pub open spec fn without_char(s: Seq<char>, c: char) -> Seq<char>
    decreases s.len(),
{
    if s.len() == 0 {
        Seq::empty()
    } else if s.last() == c {
        without_char(s.drop_last(), c)
    } else {
        without_char(s.drop_last(), c).push(s.last())
    }
}

/// Whether an entry of a comma-separated list is `target`, once the white
/// space around the entry is removed and its ASCII letters are in upper case.
pub open spec fn entry_is(entry: Seq<char>, target: Seq<char>) -> bool {
    upper_text(trimmed(entry)) == target
}

/// Whether the comma-separated list `list` has an entry that is `target`,
/// looking at the entry that starts at `start` and is read up to `pos`, and
/// at those behind it.
pub open spec fn list_has_from(list: Seq<char>, target: Seq<char>, start: int, pos: int) -> bool
    decreases list.len() - pos,
{
    if pos < 0 || start < 0 || start > pos {
        false
    } else if pos >= list.len() {
        entry_is(list.subrange(start, list.len() as int), target)
    } else if list[pos] == ',' {
        entry_is(list.subrange(start, pos), target) || list_has_from(list, target, pos + 1, pos + 1)
    } else {
        list_has_from(list, target, start, pos + 1)
    }
}

/// Whether the comma-separated list has an entry that is `target`; see
/// [`entry_is`]. An empty list has one empty entry.
pub open spec fn list_has(list: Seq<char>, target: Seq<char>) -> bool {
    list_has_from(list, target, 0, 0)
}

/// Whether `needle` stands in `hay` at place `at`.
pub open spec fn occurs_at(hay: Seq<char>, needle: Seq<char>, at: int) -> bool {
    0 <= at && at + needle.len() <= hay.len() && hay.subrange(at, at + needle.len()) == needle
}

/// Whether `needle` stands somewhere in `hay`.
pub open spec fn contains_text(hay: Seq<char>, needle: Seq<char>) -> bool {
    exists|at: int| occurs_at(hay, needle, at)
}

/// The characters of `s` from `from` up to `to`.
pub(crate) fn sub_chars(s: &Vec<char>, from: usize, to: usize) -> (r: Vec<char>)
    requires
        from <= to <= s@.len(),
    ensures
        r@ == s@.subrange(from as int, to as int),
{
    let mut r: Vec<char> = Vec::new();
    let mut i: usize = from;
    while i < to
        invariant
            from <= i <= to <= s@.len(),
            r@ == s@.subrange(from as int, i as int),
        decreases to - i,
    {
        r.push(s[i]);
        assert(r@ =~= s@.subrange(from as int, i + 1));
        i += 1;
    }
    r
}

/// The characters without every occurrence of `c`.
pub fn chars_without(s: &Vec<char>, c: char) -> (r: Vec<char>)
    ensures
        r@ == without_char(s@, c),
{
    let mut r: Vec<char> = Vec::new();
    let mut i: usize = 0;
    assert(s@.take(0) =~= Seq::<char>::empty());
    while i < s.len()
        invariant
            i <= s.len(),
            r@ == without_char(s@.take(i as int), c),
        decreases s.len() - i,
    {
        proof {
            assert(s@.take(i + 1).drop_last() =~= s@.take(i as int));
        }
        if s[i] != c {
            r.push(s[i]);
        }
        i += 1;
    }
    assert(s@.take(i as int) =~= s@);
    r
}

/// Whether the entry of `list` between `from` and `to` is `target`.
pub(crate) fn entry_matches(list: &Vec<char>, from: usize, to: usize, target: &Vec<char>) -> (r: bool)
    requires
        from <= to <= list@.len(),
    ensures
        r == entry_is(list@.subrange(from as int, to as int), target@),
{
    let entry = sub_chars(list, from, to);
    let t = trimmed_chars(&entry);
    let u = upper_chars(&t);
    same_chars(&u, target)
}

/// Whether the comma-separated list has an entry that is `target`.
pub fn list_contains(list: &Vec<char>, target: &Vec<char>) -> (r: bool)
    ensures
        r == list_has(list@, target@),
{
    let n = list.len();
    let mut start: usize = 0;
    let mut pos: usize = 0;
    while pos < n
        invariant
            n == list@.len(),
            start <= pos <= n,
            list_has(list@, target@) == list_has_from(list@, target@, start as int, pos as int),
        decreases n - pos,
    {
        if list[pos] == ',' {
            if entry_matches(list, start, pos, target) {
                return true;
            }
            start = pos + 1;
        }
        pos += 1;
    }
    entry_matches(list, start, n, target)
}

/// Whether `needle` stands in `hay` at place `at`.
pub(crate) fn occurs_at_place(hay: &Vec<char>, needle: &Vec<char>, at: usize) -> (r: bool)
    requires
        at + needle@.len() <= hay@.len(),
    ensures
        r == occurs_at(hay@, needle@, at as int),
{
    let m = needle.len();
    let n = hay.len();
    let mut j: usize = 0;
    while j < m
        invariant
            m == needle@.len(),
            n == hay@.len(),
            at + m <= hay@.len(),
            j <= m,
            forall|k: int| 0 <= k < j ==> hay@[at + k] == needle@[k],
        decreases m - j,
    {
        if hay[at + j] != needle[j] {
            assert(hay@.subrange(at as int, at + m)[j as int] != needle@[j as int]);
            return false;
        }
        j += 1;
    }
    assert(hay@.subrange(at as int, at + m) =~= needle@);
    true
}

/// Whether `needle` stands somewhere in `hay`.
pub fn contains_chars(hay: &Vec<char>, needle: &Vec<char>) -> (r: bool)
    ensures
        r == contains_text(hay@, needle@),
{
    let n = hay.len();
    let m = needle.len();
    if m > n {
        assert forall|at: int| !occurs_at(hay@, needle@, at) by {}
        return false;
    }
    if m == 0 {
        assert(hay@.subrange(0, 0) =~= needle@);
        assert(occurs_at(hay@, needle@, 0));
        return true;
    }
    let last = n - m;
    let mut i: usize = 0;
    while i <= last
        invariant
            n == hay@.len(),
            m == needle@.len(),
            last == n - m,
            m > 0,
            i <= last + 1,
            forall|at: int| 0 <= at < i ==> !occurs_at(hay@, needle@, at),
        decreases last + 1 - i,
    {
        if occurs_at_place(hay, needle, i) {
            return true;
        }
        i += 1;
    }
    assert forall|at: int| !occurs_at(hay@, needle@, at) by {}
    false
}

} // verus!
