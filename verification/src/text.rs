//! Character classes and the small text operations on which the grammars rest.
//!
//! Text is modelled as `Seq<char>`. The executable scanners work on a `Vec<char>`
//! made once per line, so that every position is reached in constant time.

use vstd::prelude::*;

verus! {

/// The sets of characters that the grammars are written over.
#[derive(Clone, Copy, Debug, PartialEq, Eq, Structural)]
pub enum CharClass {
    /// `0` to `9`.
    Digit,
    /// Anything with the Unicode property `White_Space`.
    Space,
    /// Letters, digits, `_` and `-`: what a source file name is made of.
    Name,
    /// `0` to `9` and `a` to `f`.
    LowerHex,
    /// Digits and `.`: what a version number is made of.
    Version,
    /// `a` to `z` and `A` to `Z`.
    Letter,
    /// Everything but the line feed.
    NotNewline,
}

/// An ASCII decimal digit.
pub open spec fn is_digit(c: char) -> bool {
    '0' <= c && c <= '9'
}

/// An ASCII letter.
pub open spec fn is_letter(c: char) -> bool {
    ('a' <= c && c <= 'z') || ('A' <= c && c <= 'Z')
}

/// A lower-case hexadecimal digit.
pub open spec fn is_lower_hex(c: char) -> bool {
    is_digit(c) || ('a' <= c && c <= 'f')
}

/// A character with the Unicode property `White_Space`.
pub open spec fn is_space(c: char) -> bool {
    let n = c as u32;
    (0x09 <= n && n <= 0x0d) || n == 0x20 || n == 0x85 || n == 0xa0 || n == 0x1680 || (0x2000 <= n
        && n <= 0x200a) || n == 0x2028 || n == 0x2029 || n == 0x202f || n == 0x205f || n == 0x3000
}

impl CharClass {
    /// Whether `c` belongs to the class.
    pub open spec fn contains(self, c: char) -> bool {
        match self {
            CharClass::Digit => is_digit(c),
            CharClass::Space => is_space(c),
            CharClass::Name => is_digit(c) || is_letter(c) || c == '_' || c == '-',
            CharClass::LowerHex => is_lower_hex(c),
            CharClass::Version => is_digit(c) || c == '.',
            CharClass::Letter => is_letter(c),
            CharClass::NotNewline => c != '\n',
        }
    }

    /// Decides membership of `c` in the class.
    pub fn has(self, c: char) -> (b: bool)
        ensures
            b == self.contains(c),
    {
        let digit = '0' <= c && c <= '9';
        let letter = ('a' <= c && c <= 'z') || ('A' <= c && c <= 'Z');
        match self {
            CharClass::Digit => digit,
            CharClass::Space => {
                let n: u32 = c as u32;
                (0x09 <= n && n <= 0x0d) || n == 0x20 || n == 0x85 || n == 0xa0 || n == 0x1680 || (
                0x2000 <= n && n <= 0x200a) || n == 0x2028 || n == 0x2029 || n == 0x202f || n
                    == 0x205f || n == 0x3000
            },
            CharClass::Name => digit || letter || c == '_' || c == '-',
            CharClass::LowerHex => digit || ('a' <= c && c <= 'f'),
            CharClass::Version => digit || c == '.',
            CharClass::Letter => letter,
            CharClass::NotNewline => c != '\n',
        }
    }
}

/// Every character of `s` belongs to `class`.
pub open spec fn all_in(s: Seq<char>, class: CharClass) -> bool {
    forall|i: int| 0 <= i < s.len() ==> class.contains(#[trigger] s[i])
}

/// Where the longest run of `class` characters that starts at `from` ends.
pub open spec fn run_end(s: Seq<char>, from: int, class: CharClass) -> int
    decreases s.len() - from,
{
    if 0 <= from < s.len() && class.contains(s[from]) {
        run_end(s, from + 1, class)
    } else {
        from
    }
}

/// A run lies inside the text, holds only characters of its class, and stops at
/// the end of the text or before a character outside the class.
pub proof fn lemma_run_end(s: Seq<char>, from: int, class: CharClass)
    requires
        0 <= from <= s.len(),
    ensures
        from <= run_end(s, from, class) <= s.len(),
        all_in(s.subrange(from, run_end(s, from, class)), class),
        run_end(s, from, class) < s.len() ==> !class.contains(s[run_end(s, from, class)]),
    decreases s.len() - from,
{
    if from < s.len() && class.contains(s[from]) {
        lemma_run_end(s, from + 1, class);
        let end = run_end(s, from, class);
        assert forall|i: int| 0 <= i < end - from implies class.contains(
            #[trigger] s.subrange(from, end)[i],
        ) by {
            if i > 0 {
                assert(s.subrange(from, end)[i] == s.subrange(from + 1, end)[i - 1]);
            }
        }
    }
}

/// A stretch of `class` characters that is followed by the end of the text or by
/// a character outside the class is the run that starts there.
pub proof fn lemma_run_end_unique(s: Seq<char>, from: int, end: int, class: CharClass)
    requires
        0 <= from <= end <= s.len(),
        all_in(s.subrange(from, end), class),
        end < s.len() ==> !class.contains(s[end]),
    ensures
        run_end(s, from, class) == end,
    decreases end - from,
{
    if from < end {
        assert(s.subrange(from, end)[0] == s[from]);
        assert forall|i: int| 0 <= i < end - from - 1 implies class.contains(
            #[trigger] s.subrange(from + 1, end)[i],
        ) by {
            assert(s.subrange(from + 1, end)[i] == s.subrange(from, end)[i + 1]);
        }
        lemma_run_end_unique(s, from + 1, end, class);
    }
}

/// The characters of `s`, in order, with constant-time indexing.
pub fn chars_of(s: &str) -> (v: Vec<char>)
    ensures
        v@ == s@,
{
    let mut v: Vec<char> = Vec::new();
    for c in it: s.chars()
        invariant
            it.seq() == s@,
            v@ == it.seq().take(it.index()),
    {
        v.push(c);
    }
    v
}

/// Finds where the run of `class` characters that starts at `from` ends.
pub(crate) fn scan_run(v: &Vec<char>, from: usize, class: CharClass) -> (end: usize)
    requires
        from <= v.len(),
    ensures
        end as int == run_end(v@, from as int, class),
        from <= end <= v.len(),
{
    let mut i: usize = from;
    while i < v.len() && class.has(v[i])
        invariant
            from <= i <= v.len(),
            run_end(v@, from as int, class) == run_end(v@, i as int, class),
        decreases v.len() - i,
    {
        i += 1;
    }
    i
}

/// Whether the `width` characters from `from` on exist and all belong to `class`.
pub open spec fn fixed_run(s: Seq<char>, from: int, width: int, class: CharClass) -> bool {
    0 <= from && 0 <= width && from + width <= s.len() && all_in(
        s.subrange(from, from + width),
        class,
    )
}

/// Decides whether `width` characters of `class` stand at `from`.
pub(crate) fn check_run(v: &Vec<char>, from: usize, width: usize, class: CharClass) -> (b: bool)
    requires
        from <= v.len(),
    ensures
        b == fixed_run(v@, from as int, width as int, class),
{
    if v.len() - from < width {
        return false;
    }
    let mut i: usize = 0;
    while i < width
        invariant
            i <= width,
            from + width <= v.len(),
            all_in(v@.subrange(from as int, from + i), class),
        decreases width - i,
    {
        if !class.has(v[from + i]) {
            proof {
                assert(v@.subrange(from as int, from + width)[i as int] == v@[from + i]);
            }
            return false;
        }
        proof {
            let shorter = v@.subrange(from as int, from + i);
            let longer = v@.subrange(from as int, from + i + 1);
            assert forall|k: int| 0 <= k < longer.len() implies class.contains(
                #[trigger] longer[k],
            ) by {
                if k < i {
                    assert(longer[k] == shorter[k]);
                }
            }
        }
        i += 1;
    }
    true
}

/// Whether `pattern` stands in `s` at position `at`.
pub open spec fn occurs_at(s: Seq<char>, at: int, pattern: Seq<char>) -> bool {
    0 <= at && at + pattern.len() <= s.len() && s.subrange(at, at + pattern.len()) == pattern
}

/// Whether `pattern` occurs anywhere in `s`.
pub open spec fn contains_text(s: Seq<char>, pattern: Seq<char>) -> bool {
    exists|at: int| occurs_at(s, at, pattern)
}

/// Decides whether `pattern` stands in `v` at position `at`.
pub(crate) fn matches_at(v: &Vec<char>, at: usize, pattern: &Vec<char>) -> (b: bool)
    requires
        at <= v.len(),
    ensures
        b == occurs_at(v@, at as int, pattern@),
{
    if v.len() - at < pattern.len() {
        return false;
    }
    let mut i: usize = 0;
    while i < pattern.len()
        invariant
            i <= pattern.len(),
            at + pattern.len() <= v.len(),
            v@.subrange(at as int, at + i) == pattern@.take(i as int),
        decreases pattern.len() - i,
    {
        if v[at + i] != pattern[i] {
            proof {
                assert(v@.subrange(at as int, at + pattern.len())[i as int] == v@[at + i]);
            }
            return false;
        }
        proof {
            assert(v@.subrange(at as int, at + i + 1) =~= v@.subrange(at as int, at + i).push(
                v@[at + i],
            ));
            assert(pattern@.take(i + 1) =~= pattern@.take(i as int).push(pattern@[i as int]));
        }
        i += 1;
    }
    proof {
        assert(pattern@.take(pattern.len() as int) =~= pattern@);
    }
    true
}

/// Decides whether `pattern` occurs anywhere in `v`.
pub(crate) fn contains_chars(v: &Vec<char>, pattern: &Vec<char>) -> (b: bool)
    ensures
        b == contains_text(v@, pattern@),
{
    let mut at: usize = 0;
    while at < v.len()
        invariant
            at <= v.len(),
            forall|k: int| 0 <= k < at ==> !occurs_at(v@, k, pattern@),
        decreases v.len() - at,
    {
        if matches_at(v, at, pattern) {
            return true;
        }
        at += 1;
    }
    matches_at(v, at, pattern)
}

/// Whether `needle` occurs anywhere in `line`.
pub fn line_contains(line: &str, needle: &str) -> (b: bool)
    ensures
        b == contains_text(line@, needle@),
{
    let v = chars_of(line);
    let p = chars_of(needle);
    contains_chars(&v, &p)
}

/// The number that a string of decimal digits writes.
pub open spec fn decimal_value(digits: Seq<char>) -> nat
    decreases digits.len(),
{
    if digits.len() == 0 {
        0
    } else {
        (decimal_value(digits.drop_last()) * 10 + (digits.last() as int - '0' as int)) as nat
    }
}

/// A longer string of digits writes a number at least as large as any of its
/// beginnings.
pub proof fn lemma_decimal_value_grows(digits: Seq<char>, n: int)
    requires
        all_in(digits, CharClass::Digit),
        0 <= n <= digits.len(),
    ensures
        decimal_value(digits.take(n)) <= decimal_value(digits),
    decreases digits.len() - n,
{
    if n == digits.len() {
        assert(digits.take(n) =~= digits);
    } else {
        let shorter = digits.drop_last();
        assert(shorter.take(n) =~= digits.take(n));
        assert forall|i: int| 0 <= i < shorter.len() implies CharClass::Digit.contains(
            #[trigger] shorter[i],
        ) by {
            assert(shorter[i] == digits[i]);
        }
        lemma_decimal_value_grows(shorter, n);
        assert(is_digit(digits.last()));
    }
}

/// Ten to the power of `n`.
pub open spec fn pow10(n: nat) -> nat
    decreases n,
{
    if n == 0 {
        1
    } else {
        10 * pow10((n - 1) as nat)
    }
}

/// A string of digits writes a number below ten to the power of its length.
pub proof fn lemma_decimal_value_bound(digits: Seq<char>)
    requires
        all_in(digits, CharClass::Digit),
    ensures
        decimal_value(digits) < pow10(digits.len()),
    decreases digits.len(),
{
    if digits.len() > 0 {
        let shorter = digits.drop_last();
        assert forall|i: int| 0 <= i < shorter.len() implies CharClass::Digit.contains(
            #[trigger] shorter[i],
        ) by {
            assert(shorter[i] == digits[i]);
        }
        lemma_decimal_value_bound(shorter);
        assert(is_digit(digits.last()));
    }
}

/// Reads the digits of `v` between `from` and `to` as a number; `None` where it
/// does not fit in 64 bits.
pub(crate) fn read_decimal(v: &Vec<char>, from: usize, to: usize) -> (n: Option<u64>)
    requires
        from <= to <= v.len(),
        all_in(v@.subrange(from as int, to as int), CharClass::Digit),
    ensures
        match n {
            Some(n) => n as nat == decimal_value(v@.subrange(from as int, to as int)),
            None => decimal_value(v@.subrange(from as int, to as int)) > u64::MAX,
        },
{
    let ghost digits = v@.subrange(from as int, to as int);
    let mut acc: u64 = 0;
    let mut i: usize = from;
    while i < to
        invariant
            from <= i <= to <= v.len(),
            digits == v@.subrange(from as int, to as int),
            all_in(digits, CharClass::Digit),
            acc as nat == decimal_value(digits.take(i - from)),
        decreases to - i,
    {
        let c = v[i];
        proof {
            assert(digits[i - from] == c);
            assert(CharClass::Digit.contains(digits[i - from]));
            let next = digits.take(i - from + 1);
            assert(next.drop_last() =~= digits.take(i - from));
            assert(next.last() == c);
            lemma_decimal_value_grows(digits, i - from + 1);
        }
        let d: u64 = (c as u32 - '0' as u32) as u64;
        if acc > (u64::MAX - d) / 10 {
            return None;
        }
        acc = acc * 10 + d;
        i += 1;
    }
    proof {
        assert(digits.take(to - from) =~= digits);
    }
    Some(acc)
}

/// The digits of a captured field: the field without the `+` that may stand in
/// front of it.
pub open spec fn capture_digits(text: Seq<char>) -> Seq<char> {
    if text.len() > 0 && text[0] == '+' {
        text.subrange(1, text.len() as int)
    } else {
        text
    }
}

/// Whether `text` is a number written in decimal digits, after a `+` or after
/// nothing, that fits in 64 bits.
pub open spec fn is_decimal(text: Seq<char>) -> bool {
    capture_digits(text).len() > 0 && all_in(capture_digits(text), CharClass::Digit)
        && decimal_value(capture_digits(text)) <= u64::MAX
}

/// Reads a captured field as a decimal number, as the standard library reads an
/// unsigned number: a `+` may stand in front of the digits. `None` for a field
/// without digits, for one that holds anything else, and for a number beyond 64
/// bits.
pub fn parse_capture(capture: &str) -> (n: Option<u64>)
    ensures
        n.is_some() == is_decimal(capture@),
        n.is_some() ==> n.unwrap() as nat == decimal_value(capture_digits(capture@)),
{
    let v = chars_of(capture);
    let start: usize = if v.len() > 0 && v[0] == '+' {
        1
    } else {
        0
    };
    proof {
        assert(v@.subrange(0, v.len() as int) =~= v@);
    }
    if start == v.len() || !check_run(&v, start, v.len() - start, CharClass::Digit) {
        return None;
    }
    read_decimal(&v, start, v.len())
}

/// Reads a field of `width` digits, at most nine, as a number.
pub(crate) fn read_field(v: &Vec<char>, from: usize, width: usize) -> (n: u32)
    requires
        from <= v.len(),
        width <= 9,
        fixed_run(v@, from as int, width as int, CharClass::Digit),
    ensures
        n as nat == decimal_value(v@.subrange(from as int, from + width)),
        n < pow10(width as nat),
{
    let ghost digits = v@.subrange(from as int, from + width);
    let mut acc: u32 = 0;
    let mut i: usize = 0;
    proof {
        lemma_pow10_grows(0, 9);
    }
    while i < width
        invariant
            i <= width <= 9,
            from + width <= v.len(),
            digits == v@.subrange(from as int, from + width),
            all_in(digits, CharClass::Digit),
            acc as nat == decimal_value(digits.take(i as int)),
            acc < pow10(i as nat),
            pow10(i as nat) <= pow10(9) == 1_000_000_000,
        decreases width - i,
    {
        let c = v[from + i];
        proof {
            assert(digits[i as int] == c);
            assert(CharClass::Digit.contains(digits[i as int]));
            let next = digits.take(i + 1);
            assert(next.drop_last() =~= digits.take(i as int));
            assert(next.last() == c);
            lemma_pow10_grows((i + 1) as nat, 9);
        }
        let d: u32 = c as u32 - '0' as u32;
        acc = acc * 10 + d;
        i += 1;
    }
    proof {
        assert(digits.take(width as int) =~= digits);
    }
    acc
}

/// Powers of ten grow with the exponent, and the ninth is a thousand millions.
pub proof fn lemma_pow10_grows(a: nat, b: nat)
    requires
        a <= b,
    ensures
        pow10(a) <= pow10(b),
        pow10(a) >= 1,
        pow10(9) == 1_000_000_000,
        pow10(6) == 1_000_000,
        pow10(4) == 10_000,
        pow10(2) == 100,
    decreases b,
{
    reveal_with_fuel(pow10, 10);
    if a < b {
        lemma_pow10_grows(a, (b - 1) as nat);
    } else if a > 0 {
        lemma_pow10_grows((a - 1) as nat, (a - 1) as nat);
    }
}

/// The characters of `line` between two positions, as a string of their own.
pub(crate) fn slice_of(line: &str, from: usize, to: usize) -> (part: String)
    requires
        from <= to <= line@.len(),
    ensures
        part@ == line@.subrange(from as int, to as int),
{
    line.substring_char(from, to).to_owned()
}

/// The number that a lower-case hexadecimal digit stands for.
pub open spec fn hex_digit_value(c: char) -> int {
    if is_digit(c) {
        c as int - '0' as int
    } else {
        c as int - 'a' as int + 10
    }
}

/// The number that a string of lower-case hexadecimal digits writes.
pub open spec fn hex_value(digits: Seq<char>) -> nat
    decreases digits.len(),
{
    if digits.len() == 0 {
        0
    } else {
        (hex_value(digits.drop_last()) * 16 + hex_digit_value(digits.last())) as nat
    }
}

/// The character that writes the digit `d`.
pub open spec fn digit_char(d: int) -> char {
    (d + 48) as u8 as char
}

/// `n` written in `width` decimal digits, with zeros in front; where `n` needs
/// more, its last `width` digits.
pub open spec fn render_padded(n: nat, width: nat) -> Seq<char>
    decreases width,
{
    if width == 0 {
        Seq::empty()
    } else {
        render_padded(n / 10, (width - 1) as nat).push(digit_char(n as int % 10))
    }
}

/// `n` written in decimal digits, with no zero in front.
pub open spec fn render_decimal(n: nat) -> Seq<char>
    decreases n,
{
    if n < 10 {
        seq![digit_char(n as int)]
    } else {
        render_decimal(n / 10).push(digit_char(n as int % 10))
    }
}

/// A number as it is written without zeros in front: what `render_decimal`
/// gives.
pub open spec fn is_canonical_number(digits: Seq<char>) -> bool {
    digits.len() > 0 && all_in(digits, CharClass::Digit) && (digits.len() == 1 || digits[0] != '0')
}

/// Writing the value of a string of digits in as many digits gives the string
/// back.
pub proof fn lemma_render_padded_of_value(digits: Seq<char>)
    requires
        all_in(digits, CharClass::Digit),
    ensures
        render_padded(decimal_value(digits), digits.len()) == digits,
    decreases digits.len(),
{
    if digits.len() > 0 {
        let shorter = digits.drop_last();
        assert forall|i: int| 0 <= i < shorter.len() implies CharClass::Digit.contains(
            #[trigger] shorter[i],
        ) by {
            assert(shorter[i] == digits[i]);
        }
        lemma_render_padded_of_value(shorter);
        assert(is_digit(digits.last()));
        let d = digits.last() as int - '0' as int;
        assert(digit_char(d) == digits.last());
        assert(decimal_value(digits) / 10 == decimal_value(shorter));
        assert(decimal_value(digits) as int % 10 == d);
        assert(shorter.push(digits.last()) =~= digits);
    } else {
        assert(digits =~= Seq::<char>::empty());
    }
}

/// Writing the value of a number that has no zeros in front gives its digits
/// back.
pub proof fn lemma_render_decimal_of_value(digits: Seq<char>)
    requires
        is_canonical_number(digits),
    ensures
        render_decimal(decimal_value(digits)) == digits,
    decreases digits.len(),
{
    let shorter = digits.drop_last();
    assert(is_digit(digits.last()));
    let d = digits.last() as int - '0' as int;
    assert(digit_char(d) == digits.last());
    if digits.len() == 1 {
        assert(shorter =~= Seq::<char>::empty());
        assert(decimal_value(shorter) == 0);
        assert(seq![digits.last()] =~= digits);
    } else {
        assert forall|i: int| 0 <= i < shorter.len() implies CharClass::Digit.contains(
            #[trigger] shorter[i],
        ) by {
            assert(shorter[i] == digits[i]);
        }
        assert(shorter[0] == digits[0]);
        lemma_render_decimal_of_value(shorter);
        lemma_decimal_value_grows(shorter, 1);
        let first = shorter.take(1);
        assert(first.drop_last() =~= Seq::<char>::empty());
        assert(first.last() == digits[0]);
        assert(is_digit(digits[0]));
        assert(decimal_value(first.drop_last()) == 0);
        assert(decimal_value(first) >= 1);
        assert(decimal_value(digits) / 10 == decimal_value(shorter));
        assert(decimal_value(digits) as int % 10 == d);
        assert(shorter.push(digits.last()) =~= digits);
    }
}

/// A number written in `width` digits is `width` digits long, and where the
/// number needs no more digits, they write the number.
pub proof fn lemma_value_of_render_padded(n: nat, width: nat)
    ensures
        render_padded(n, width).len() == width,
        all_in(render_padded(n, width), CharClass::Digit),
        n < pow10(width) ==> decimal_value(render_padded(n, width)) == n,
    decreases width,
{
    if width > 0 {
        lemma_value_of_render_padded(n / 10, (width - 1) as nat);
        let shorter = render_padded(n / 10, (width - 1) as nat);
        let text = render_padded(n, width);
        assert(text.drop_last() =~= shorter);
        assert(text.last() == digit_char(n as int % 10));
        assert(is_digit(text.last()));
        assert forall|i: int| 0 <= i < text.len() implies CharClass::Digit.contains(
            #[trigger] text[i],
        ) by {
            if i < shorter.len() {
                assert(text[i] == shorter[i]);
            }
        }
    }
}

/// A number written in decimal digits has no zero in front, and its digits
/// write the number.
pub proof fn lemma_value_of_render_decimal(n: nat)
    ensures
        is_canonical_number(render_decimal(n)),
        decimal_value(render_decimal(n)) == n,
        n > 0 ==> render_decimal(n)[0] != '0',
    decreases n,
{
    let text = render_decimal(n);
    if n < 10 {
        assert(text.drop_last() =~= Seq::<char>::empty());
        assert(text.last() == digit_char(n as int));
        assert(decimal_value(text.drop_last()) == 0);
    } else {
        lemma_value_of_render_decimal(n / 10);
        let shorter = render_decimal(n / 10);
        assert(text.drop_last() =~= shorter);
        assert(text.last() == digit_char(n as int % 10));
        assert(is_digit(text.last()));
        assert(text[0] == shorter[0]);
        assert forall|i: int| 0 <= i < text.len() implies CharClass::Digit.contains(
            #[trigger] text[i],
        ) by {
            if i < shorter.len() {
                assert(text[i] == shorter[i]);
            }
        }
    }
}

/// What holds of a stretch of characters holds of every part of it.
pub proof fn lemma_fixed_run_part(
    s: Seq<char>,
    from: int,
    width: int,
    part: int,
    part_width: int,
    class: CharClass,
)
    requires
        fixed_run(s, from, width, class),
        from <= part,
        0 <= part_width,
        part + part_width <= from + width,
    ensures
        fixed_run(s, part, part_width, class),
{
    assert forall|i: int| 0 <= i < part_width implies class.contains(
        #[trigger] s.subrange(part, part + part_width)[i],
    ) by {
        assert(s.subrange(part, part + part_width)[i] == s.subrange(from, from + width)[i + part
            - from]);
    }
}

/// A field of `width` digits, written out again in `width` digits, is the text
/// of the field, and its value is below ten to the power of `width`.
pub proof fn lemma_field_renders_as_written(s: Seq<char>, from: int, width: int)
    requires
        fixed_run(s, from, width, CharClass::Digit),
    ensures
        render_padded(decimal_value(s.subrange(from, from + width)), width as nat) == s.subrange(
            from,
            from + width,
        ),
        decimal_value(s.subrange(from, from + width)) < pow10(width as nat),
{
    lemma_render_padded_of_value(s.subrange(from, from + width));
    lemma_decimal_value_bound(s.subrange(from, from + width));
}

/// The number that the two digits at `at` write.
pub open spec fn two_digits(s: Seq<char>, at: int) -> u8 {
    decimal_value(s.subrange(at, at + 2)) as u8
}

/// Reads the two digits at `at`.
pub(crate) fn read_two(v: &Vec<char>, at: usize) -> (n: u8)
    requires
        at <= v.len(),
        fixed_run(v@, at as int, 2, CharClass::Digit),
    ensures
        n == two_digits(v@, at as int),
        n as nat == decimal_value(v@.subrange(at as int, at + 2)),
        n < 100,
{
    proof {
        lemma_pow10_grows(2, 2);
    }
    read_field(v, at, 2) as u8
}

/// Whether `suffix` ends `s`.
pub open spec fn ends_with(s: Seq<char>, suffix: Seq<char>) -> bool {
    occurs_at(s, s.len() - suffix.len(), suffix)
}

/// `String::push` puts one character at the end of the string.
pub assume_specification[ String::push ](text: &mut String, c: char)
    ensures
        final(text)@ == old(text)@.push(c),
;

/// The character that writes the digit `d`.
fn digit_of(d: u8) -> (c: char)
    requires
        d < 10,
    ensures
        c == digit_char(d as int),
{
    (d + 48) as char
}

/// Writes `n` at the end of `text`, in `width` decimal digits, with zeros in
/// front.
pub fn write_padded(text: &mut String, n: u64, width: usize)
    ensures
        final(text)@ == old(text)@ + render_padded(n as nat, width as nat),
    decreases width,
{
    if width > 0 {
        write_padded(text, n / 10, width - 1);
        text.push(digit_of((n % 10) as u8));
        proof {
            assert(text@ =~= old(text)@ + render_padded(n as nat, width as nat));
        }
    } else {
        proof {
            assert(text@ =~= old(text)@ + render_padded(n as nat, width as nat));
        }
    }
}

/// Writes `n` at the end of `text`, in decimal digits, with no zero in front.
pub fn write_decimal(text: &mut String, n: u64)
    ensures
        final(text)@ == old(text)@ + render_decimal(n as nat),
    decreases n,
{
    if n >= 10 {
        write_decimal(text, n / 10);
    }
    text.push(digit_of((n % 10) as u8));
    proof {
        assert(text@ =~= old(text)@ + render_decimal(n as nat));
    }
}

/// `n` written in decimal digits, after a `-` where it is negative.
pub open spec fn render_signed(n: int) -> Seq<char> {
    if n < 0 {
        seq!['-'] + render_decimal((-n) as nat)
    } else {
        render_decimal(n as nat)
    }
}

/// Writes `n` at the end of `text`, in decimal digits, after a `-` where it is
/// negative.
pub fn write_signed(text: &mut String, n: i64)
    ensures
        final(text)@ == old(text)@ + render_signed(n as int),
{
    if n < 0 {
        text.push('-');
        let magnitude: u64 = if n == i64::MIN {
            9223372036854775808
        } else {
            (-n) as u64
        };
        write_decimal(text, magnitude);
        proof {
            assert(text@ =~= old(text)@ + render_signed(n as int));
        }
    } else {
        write_decimal(text, n as u64);
    }
}

/// The text of a string that may be missing.
pub open spec fn text_of(s: Option<String>) -> Option<Seq<char>> {
    match s {
        Some(s) => Some(s@),
        None => None,
    }
}

} // verus!
