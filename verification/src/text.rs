//! Strings seen as sequences of characters, their byte offsets, and numbers
//! written out in digits.

use vstd::prelude::*;
use vstd::string::*;
use vstd::utf8::*;

verus! {

/// The number of bytes that a text takes in UTF-8.
pub open spec fn byte_len(text: Seq<char>) -> nat {
    encode_utf8(text).len()
}

/// The byte offset of the character with this index.
pub open spec fn offset_of(text: Seq<char>, index: int) -> nat {
    byte_len(text.take(index))
}

/// The byte offset lies before a character or at the end.
pub open spec fn is_boundary(text: Seq<char>, offset: int) -> bool {
    exists|n: int| 0 <= n <= text.len() && #[trigger] offset_of(text, n) == offset
}

/// The index of the character at this byte offset.
pub open spec fn index_at(text: Seq<char>, offset: int) -> int {
    choose|n: int| 0 <= n <= text.len() && #[trigger] offset_of(text, n) == offset
}

/// `String::push`: the character is appended.
pub assume_specification[ String::push ](s: &mut String, ch: char)
    ensures
        final(s)@ == old(s)@.push(ch),
;

/// `String::push_str`: the text is appended.
pub assume_specification[ String::push_str ](s: &mut String, text: &str)
    ensures
        final(s)@ == old(s)@ + text@,
;

/// `String::pop`: the last character is removed and returned, if there is one.
pub assume_specification[ String::pop ](s: &mut String) -> (r: Option<char>)
    ensures
        match r {
            Some(ch) => old(s)@.len() > 0 && ch == old(s)@.last() && final(s)@
                == old(s)@.drop_last(),
            None => old(s)@.len() == 0 && final(s)@ == old(s)@,
        },
;

/// `String::insert`: the character is inserted at a byte offset, which has to lie
/// on a character boundary.
pub assume_specification[ String::insert ](s: &mut String, idx: usize, ch: char)
    requires
        is_boundary(old(s)@, idx as int),
    ensures
        forall|n: int|
            0 <= n <= old(s)@.len() && #[trigger] offset_of(old(s)@, n) == idx ==> final(s)@
                == old(s)@.insert(n, ch),
;

/// `String::remove`: the character at a byte offset, which has to lie on a
/// character boundary before the end, is removed and returned.
pub assume_specification[ String::remove ](s: &mut String, idx: usize) -> (r: char)
    requires
        is_boundary(old(s)@, idx as int),
        idx < byte_len(old(s)@),
    ensures
        forall|n: int|
            0 <= n < old(s)@.len() && #[trigger] offset_of(old(s)@, n) == idx ==> r == old(s)@[n]
                && final(s)@ == old(s)@.remove(n),
;

/// `String::clear`: nothing is left.
pub assume_specification[ String::clear ](s: &mut String)
    ensures
        final(s)@ == Seq::<char>::empty(),
;

/// `core::str::from_utf8`: bytes that are valid UTF-8 are the text that they
/// encode, other bytes are no text.
#[verifier::external_body]
pub(crate) fn utf8_text(bytes: &[u8]) -> (r: Option<&str>)
    ensures
        match r {
            Some(s) => valid_utf8(bytes@) && s@ == decode_utf8(bytes@),
            None => !valid_utf8(bytes@),
        },
{
    match core::str::from_utf8(bytes) {
        Ok(s) => Some(s),
        Err(_) => None,
    }
}

pub proof fn lemma_encode_concat(a: Seq<char>, b: Seq<char>)
    ensures
        encode_utf8(a + b) == encode_utf8(a) + encode_utf8(b),
    decreases a.len(),
{
    if a.len() == 0 {
        assert(a + b =~= b);
        assert(encode_utf8(a) + encode_utf8(b) =~= encode_utf8(b));
    } else {
        assert((a + b).drop_first() =~= a.drop_first() + b);
        lemma_encode_concat(a.drop_first(), b);
        assert(encode_utf8(a + b) =~= encode_utf8(a) + encode_utf8(b));
    }
}

pub proof fn lemma_encode_one(c: char)
    ensures
        encode_utf8(seq![c]) == encode_scalar(c as u32),
        1 <= encode_utf8(seq![c]).len() <= 4,
{
    reveal_with_fuel(encode_utf8, 2);
    assert(seq![c].drop_first() =~= Seq::<char>::empty());
    assert(encode_utf8(seq![c]) =~= encode_scalar(c as u32));
}

/// One more character takes its own bytes on top.
pub proof fn lemma_offset_step(text: Seq<char>, n: int)
    requires
        0 <= n < text.len(),
    ensures
        offset_of(text, n + 1) == offset_of(text, n) + byte_len(seq![text[n]]),
        1 <= byte_len(seq![text[n]]) <= 4,
{
    assert(text.take(n + 1) =~= text.take(n) + seq![text[n]]);
    lemma_encode_concat(text.take(n), seq![text[n]]);
    lemma_encode_one(text[n]);
}

/// Offsets grow with the index.
pub proof fn lemma_offset_mono(text: Seq<char>, a: int, b: int)
    requires
        0 <= a <= b <= text.len(),
    ensures
        offset_of(text, a) + (b - a) <= offset_of(text, b),
    decreases b - a,
{
    if a < b {
        lemma_offset_mono(text, a, b - 1);
        lemma_offset_step(text, b - 1);
    }
}

/// The offset of an index belongs to that index alone.
pub proof fn lemma_index_at(text: Seq<char>, n: int)
    requires
        0 <= n <= text.len(),
    ensures
        is_boundary(text, offset_of(text, n) as int),
        index_at(text, offset_of(text, n) as int) == n,
{
    let offset = offset_of(text, n) as int;
    assert(is_boundary(text, offset));
    let m = index_at(text, offset);
    if m < n {
        lemma_offset_mono(text, m, n);
    } else if n < m {
        lemma_offset_mono(text, n, m);
    }
}

/// Texts that begin alike have the same offsets there.
pub proof fn lemma_offset_prefix(a: Seq<char>, b: Seq<char>, n: int)
    requires
        0 <= n <= a.len(),
        a.len() <= b.len(),
        b.take(a.len() as int) =~= a,
    ensures
        offset_of(a, n) == offset_of(b, n),
{
    assert(a.take(n) =~= b.take(a.len() as int).take(n));
    assert(b.take(n) =~= b.take(a.len() as int).take(n));
}

/// A whole text ends at its byte length.
pub proof fn lemma_offset_end(text: Seq<char>)
    ensures
        offset_of(text, text.len() as int) == byte_len(text),
        offset_of(text, 0) == 0,
{
    assert(text.take(text.len() as int) =~= text);
    assert(text.take(0) =~= Seq::<char>::empty());
}

/// The number of bytes that a character takes in UTF-8.
pub fn char_width(c: char) -> (r: usize)
    ensures
        r == byte_len(seq![c]),
        1 <= r <= 4,
{
    proof {
        lemma_encode_one(c);
    }
    let code: u32 = c as u32;
    if code < 0x80 {
        1
    } else if code < 0x800 {
        2
    } else if code < 0x10000 {
        3
    } else {
        4
    }
}

/// The number of bytes that a text takes.
pub fn string_bytes(s: &String) -> (r: usize)
    ensures
        r == byte_len(s@),
{
    s.as_str().as_bytes().len()
}

/// The byte offset of the character with this index; the end of the text if there
/// is no such character.
pub fn byte_offset(s: &str, index: usize) -> (r: usize)
    ensures
        r == offset_of(s@, if index < s@.len() { index as int } else { s@.len() as int }),
        r <= byte_len(s@),
        is_boundary(s@, r as int),
{
    let total: usize = s.as_bytes().len();
    let mut offset: usize = 0;
    let mut n: usize = 0;
    proof {
        lemma_offset_end(s@);
    }
    let count: usize = s.unicode_len();
    while n < index && n < count
        invariant
            n <= count,
            n <= index,
            count == s@.len(),
            total == byte_len(s@),
            offset == offset_of(s@, n as int),
        decreases count - n,
    {
        proof {
            lemma_offset_step(s@, n as int);
            lemma_offset_mono(s@, n + 1, count as int);
            lemma_offset_end(s@);
        }
        offset = offset + char_width(s.get_char(n));
        n = n + 1;
    }
    proof {
        lemma_offset_mono(s@, n as int, count as int);
        lemma_offset_end(s@);
        lemma_index_at(s@, n as int);
    }
    offset
}

/// The index of the character at this byte offset.
pub fn char_index(s: &str, offset: usize) -> (r: usize)
    requires
        is_boundary(s@, offset as int),
    ensures
        r == index_at(s@, offset as int),
        r <= s@.len(),
        offset_of(s@, r as int) == offset,
{
    let ghost target = index_at(s@, offset as int);
    let count: usize = s.unicode_len();
    let mut at: usize = 0;
    let mut n: usize = 0;
    proof {
        lemma_offset_end(s@);
        lemma_offset_mono(s@, 0, target);
    }
    while at < offset
        invariant
            n <= target <= s@.len(),
            count == s@.len(),
            offset_of(s@, target) == offset,
            at == offset_of(s@, n as int),
            at <= offset,
        decreases offset - at,
    {
        proof {
            if n == target {
                assert(false);
            }
            lemma_offset_step(s@, n as int);
            lemma_offset_mono(s@, n + 1, target);
        }
        at = at + char_width(s.get_char(n));
        n = n + 1;
    }
    proof {
        lemma_index_at(s@, n as int);
    }
    n
}

/// The digit for a value below 10.
pub open spec fn digit(d: nat) -> char {
    (48 + d) as char
}

/// A number in decimal digits, without leading zeros.
pub open spec fn decimal(n: nat) -> Seq<char>
    decreases n,
{
    if n < 10 {
        seq![digit(n)]
    } else {
        decimal(n / 10).push(digit(n % 10))
    }
}

fn digit_char(d: u64) -> (r: char)
    requires
        d < 10,
    ensures
        r == digit(d as nat),
{
    (48 + d as u8) as char
}

/// Append a number in decimal digits.
pub fn push_decimal(s: &mut String, n: u64)
    ensures
        final(s)@ == old(s)@ + decimal(n as nat),
    decreases n,
{
    if n >= 10 {
        push_decimal(s, n / 10);
    }
    s.push(digit_char(n % 10));
    proof {
        assert(s@ =~= old(s)@ + decimal(n as nat));
    }
}

/// A number in decimal digits.
pub fn to_decimal(n: u64) -> (r: String)
    ensures
        r@ == decimal(n as nat),
{
    let mut s = String::new();
    push_decimal(&mut s, n);
    proof {
        assert(s@ =~= decimal(n as nat));
    }
    s
}

/// The hexadecimal digit for a value below 16.
pub open spec fn hex_digit(d: nat) -> char {
    if d < 10 {
        (48 + d) as char
    } else {
        (87 + d) as char
    }
}

/// A number in hexadecimal digits, without leading zeros.
pub open spec fn hexadecimal(n: nat) -> Seq<char>
    decreases n,
{
    if n < 16 {
        seq![hex_digit(n)]
    } else {
        hexadecimal(n / 16).push(hex_digit(n % 16))
    }
}

/// Append a number in hexadecimal digits.
pub fn push_hexadecimal(s: &mut String, n: u64)
    ensures
        final(s)@ == old(s)@ + hexadecimal(n as nat),
    decreases n,
{
    if n >= 16 {
        push_hexadecimal(s, n / 16);
    }
    let d: u8 = (n % 16) as u8;
    s.push(if d < 10 { (48 + d) as char } else { (87 + d) as char });
    proof {
        assert(s@ =~= old(s)@ + hexadecimal(n as nat));
    }
}

/// The character is a decimal digit.
pub open spec fn is_digit(c: char) -> bool {
    '0' <= c <= '9'
}

/// The value of a decimal digit.
pub open spec fn digit_value(c: char) -> nat {
    (c as nat - 48) as nat
}

/// The value of a row of decimal digits.
pub open spec fn number_value(digits: Seq<char>) -> nat
    decreases digits.len(),
{
    if digits.len() == 0 {
        0
    } else {
        10 * number_value(digits.drop_last()) + digit_value(digits.last())
    }
}

/// Every character is a decimal digit.
pub open spec fn all_digits(text: Seq<char>) -> bool {
    forall|i: int| 0 <= i < text.len() ==> is_digit(#[trigger] text[i])
}

/// The digits of a number, without the plus sign that may precede them.
pub open spec fn unsigned_part(text: Seq<char>) -> Seq<char> {
    if text.len() > 0 && text[0] == '+' {
        text.skip(1)
    } else {
        text
    }
}

/// The number that a text stands for: one or more decimal digits, a plus sign
/// allowed in front, of a value up to `max`.
pub open spec fn parse_number(text: Seq<char>, max: nat) -> Option<nat> {
    let digits = unsigned_part(text);
    if digits.len() > 0 && all_digits(digits) && number_value(digits) <= max {
        Some(number_value(digits))
    } else {
        None
    }
}

/// The character is Unicode white space.
pub open spec fn is_blank(c: char) -> bool {
    let code = c as int;
    ||| 0x9 <= code <= 0xd
    ||| code == 0x20
    ||| code == 0x85
    ||| code == 0xa0
    ||| code == 0x1680
    ||| 0x2000 <= code <= 0x200a
    ||| code == 0x2028
    ||| code == 0x2029
    ||| code == 0x202f
    ||| code == 0x205f
    ||| code == 0x3000
}

/// A text without the white space in front of it.
pub open spec fn trimmed_front(text: Seq<char>) -> Seq<char>
    decreases text.len(),
{
    if text.len() > 0 && is_blank(text[0]) {
        trimmed_front(text.skip(1))
    } else {
        text
    }
}

/// A text without the white space behind it.
pub open spec fn trimmed_back(text: Seq<char>) -> Seq<char>
    decreases text.len(),
{
    if text.len() > 0 && is_blank(text.last()) {
        trimmed_back(text.drop_last())
    } else {
        text
    }
}

/// A text without the white space around it.
pub open spec fn trimmed(text: Seq<char>) -> Seq<char> {
    trimmed_back(trimmed_front(text))
}

fn blank(c: char) -> (r: bool)
    ensures
        r == is_blank(c),
{
    let code: u32 = c as u32;
    (0x9 <= code && code <= 0xd) || code == 0x20 || code == 0x85 || code == 0xa0 || code == 0x1680
        || (0x2000 <= code && code <= 0x200a) || code == 0x2028 || code == 0x2029 || code == 0x202f
        || code == 0x205f || code == 0x3000
}

/// A text without the white space around it.
pub fn trim(s: &str) -> (r: &str)
    ensures
        r@ == trimmed(s@),
{
    let count: usize = s.unicode_len();
    let mut from: usize = 0;
    proof {
        assert(s@.skip(0) =~= s@);
    }
    while from < count && blank(s.get_char(from))
        invariant
            from <= count,
            count == s@.len(),
            trimmed_front(s@.skip(from as int)) == trimmed_front(s@),
        decreases count - from,
    {
        proof {
            assert(s@.skip(from as int).skip(1) =~= s@.skip(from + 1));
        }
        from = from + 1;
    }
    let ghost front = s@.skip(from as int);
    proof {
        assert(trimmed_front(front) == front);
    }
    let mut to: usize = count;
    proof {
        assert(s@.subrange(from as int, to as int) =~= front);
    }
    while from < to && blank(s.get_char(to - 1))
        invariant
            from <= to <= count,
            count == s@.len(),
            trimmed_back(s@.subrange(from as int, to as int)) == trimmed_back(front),
        decreases to - from,
    {
        proof {
            assert(s@.subrange(from as int, to as int).drop_last() =~= s@.subrange(
                from as int,
                to - 1,
            ));
        }
        to = to - 1;
    }
    s.substring_char(from, to)
}

proof fn lemma_value_mono(digits: Seq<char>, n: int)
    requires
        0 <= n <= digits.len(),
    ensures
        number_value(digits.take(n)) <= number_value(digits),
    decreases digits.len(),
{
    if n == digits.len() {
        assert(digits.take(n) =~= digits);
    } else {
        lemma_value_mono(digits.drop_last(), n);
        assert(digits.drop_last().take(n) =~= digits.take(n));
    }
}

/// The number that a text stands for.
pub fn to_number(s: &str) -> (r: Option<usize>)
    ensures
        match parse_number(s@, usize::MAX as nat) {
            Some(n) => r == Some(n as usize) && n <= usize::MAX,
            None => r is None,
        },
{
    let count: usize = s.unicode_len();
    let start: usize = if count > 0 && s.get_char(0) == '+' { 1 } else { 0 };
    let ghost digits = unsigned_part(s@);
    proof {
        assert(digits =~= s@.skip(start as int));
    }
    if start == count {
        return None;
    }
    let mut value: usize = 0;
    let mut i: usize = start;
    proof {
        assert(digits.take(0) =~= Seq::<char>::empty());
    }
    while i < count
        invariant
            start <= i <= count,
            start < count,
            count == s@.len(),
            digits == s@.skip(start as int),
            digits == unsigned_part(s@),
            all_digits(digits.take(i - start)),
            value == number_value(digits.take(i - start)),
        decreases count - i,
    {
        let c = s.get_char(i);
        let ghost n = i - start;
        proof {
            assert(digits[n] == c);
            assert(digits.take(n + 1).drop_last() =~= digits.take(n));
            lemma_value_mono(digits, n + 1);
            lemma_value_mono(digits, n);
        }
        if c < '0' || c > '9' {
            proof {
                assert(!is_digit(digits[n]));
            }
            return None;
        }
        let d: usize = (c as u32 - 48) as usize;
        if value > (usize::MAX - d) / 10 {
            proof {
                assert(10 * value + d > usize::MAX);
            }
            return None;
        }
        value = 10 * value + d;
        i = i + 1;
        proof {
            assert forall|k: int| 0 <= k < n + 1 implies is_digit(#[trigger] digits.take(n + 1)[k]) by {
                if k < n {
                    assert(digits.take(n)[k] == digits[k]);
                }
            }
        }
    }
    proof {
        assert(digits.take(count - start) =~= digits);
    }
    Some(value)
}

/// A number in decimal consists of digits, at least one.
pub proof fn lemma_decimal_digits(n: nat)
    ensures
        all_digits(decimal(n)),
        decimal(n).len() > 0,
    decreases n,
{
    if n >= 10 {
        lemma_decimal_digits(n / 10);
    }
}

/// A number comes back from its decimal digits.
pub proof fn lemma_decimal_value(n: nat)
    ensures
        number_value(decimal(n)) == n,
    decreases n,
{
    if n >= 10 {
        lemma_decimal_value(n / 10);
        assert(decimal(n).drop_last() =~= decimal(n / 10));
    } else {
        assert(decimal(n).drop_last() =~= Seq::<char>::empty());
        assert(number_value(Seq::<char>::empty()) == 0);
    }
}

/// Digits have no white space around them.
pub proof fn lemma_trimmed_digits(text: Seq<char>)
    requires
        all_digits(text),
        text.len() > 0,
    ensures
        trimmed(text) == text,
        unsigned_part(text) == text,
{
    assert(is_digit(text[0]));
    assert(is_digit(text.last()));
}

/// White space around a text that neither begins nor ends with it is taken away, and
/// nothing else.
pub proof fn law_trimmed(before: Seq<char>, text: Seq<char>, after: Seq<char>)
    requires
        text.len() > 0,
        !is_blank(text[0]),
        !is_blank(text.last()),
        forall|i: int| 0 <= i < before.len() ==> is_blank(#[trigger] before[i]),
        forall|i: int| 0 <= i < after.len() ==> is_blank(#[trigger] after[i]),
    ensures
        trimmed(before + text + after) == text,
{
    lemma_front_trimmed(before, text + after);
    assert(before + text + after =~= before + (text + after));
    lemma_back_trimmed(text, after);
}

proof fn lemma_front_trimmed(before: Seq<char>, text: Seq<char>)
    requires
        text.len() > 0,
        !is_blank(text[0]),
        forall|i: int| 0 <= i < before.len() ==> is_blank(#[trigger] before[i]),
    ensures
        trimmed_front(before + text) == text,
    decreases before.len(),
{
    if before.len() > 0 {
        assert(is_blank(before[0]));
        assert((before + text).skip(1) =~= before.skip(1) + text);
        lemma_front_trimmed(before.skip(1), text);
    } else {
        assert(before + text =~= text);
    }
}

proof fn lemma_back_trimmed(text: Seq<char>, after: Seq<char>)
    requires
        text.len() > 0,
        !is_blank(text.last()),
        forall|i: int| 0 <= i < after.len() ==> is_blank(#[trigger] after[i]),
    ensures
        trimmed_back(text + after) == text,
    decreases after.len(),
{
    if after.len() > 0 {
        assert(is_blank(after.last()));
        assert((text + after).drop_last() =~= text + after.drop_last());
        lemma_back_trimmed(text, after.drop_last());
    } else {
        assert(text + after =~= text);
    }
}

/// A number in decimal has as many digits as it needs: the last one is the number modulo
/// ten, those before it spell a tenth of it, and no zero stands in front.
pub proof fn law_decimal(n: nat)
    ensures
        decimal(n).len() > 0,
        decimal(n).last() as int == '0' as int + n % 10,
        n < 10 <==> decimal(n).len() == 1,
        n >= 10 ==> decimal(n).drop_last() == decimal(n / 10),
        n > 0 ==> decimal(n)[0] != '0',
        number_value(decimal(n)) == n,
    decreases n,
{
    lemma_decimal_value(n);
    if n >= 10 {
        law_decimal(n / 10);
        assert(decimal(n).drop_last() =~= decimal(n / 10));
    }
}

/// A number in hexadecimal: the last digit is the number modulo sixteen, `a` to `f` in
/// small letters stand for ten to fifteen, and those before it spell a sixteenth of it.
pub proof fn law_hexadecimal(n: nat)
    ensures
        hexadecimal(n).len() > 0,
        n % 16 < 10 ==> hexadecimal(n).last() as int == '0' as int + n % 16,
        n % 16 >= 10 ==> hexadecimal(n).last() as int == 'a' as int + (n % 16 - 10),
        n < 16 <==> hexadecimal(n).len() == 1,
        n >= 16 ==> hexadecimal(n).drop_last() == hexadecimal(n / 16),
        n > 0 ==> hexadecimal(n)[0] != '0',
    decreases n,
{
    if n >= 16 {
        law_hexadecimal(n / 16);
        assert(hexadecimal(n).drop_last() =~= hexadecimal(n / 16));
    }
}

/// A digit behind a number makes it ten times as large and adds the digit.
pub proof fn law_number_value(digits: Seq<char>, c: char)
    requires
        '0' <= c <= '9',
    ensures
        number_value(digits.push(c)) == 10 * number_value(digits) + (c as int - '0' as int),
        number_value(Seq::empty()) == 0,
{
    assert(digits.push(c).drop_last() =~= digits);
}

/// A number is one or more digits, with or without a plus sign in front, and not too
/// large; nothing else is a number.
pub proof fn law_parse_number(digits: Seq<char>, max: nat)
    requires
        digits.len() > 0,
        digits[0] != '+',
    ensures
        ({
            let good = forall|i: int| 0 <= i < digits.len() ==> '0' <= #[trigger] digits[i] <= '9';
            &&& good && number_value(digits) <= max ==> {
                &&& parse_number(digits, max) == Some(number_value(digits))
                &&& parse_number(seq!['+'] + digits, max) == Some(number_value(digits))
            }
            &&& !good || number_value(digits) > max ==> {
                &&& parse_number(digits, max) is None
                &&& parse_number(seq!['+'] + digits, max) is None
            }
            &&& parse_number(Seq::empty(), max) is None
            &&& parse_number(seq!['+'], max) is None
        }),
{
    assert((seq!['+'] + digits).skip(1) =~= digits);
    assert(seq!['+'].skip(1) =~= Seq::<char>::empty());
    if all_digits(digits) {
        assert forall|i: int| 0 <= i < digits.len() implies '0' <= #[trigger] digits[i] <= '9' by {
            assert(is_digit(digits[i]));
        }
    }
}

} // verus!
