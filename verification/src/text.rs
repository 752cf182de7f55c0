//! The text that names, log fields and refusals are made of.

use vstd::prelude::*;
use vstd::string::*;
use vstd::utf8::*;

use crate::seqs::{first_where, is_first, lemma_first_found, lemma_first_missing};

verus! {

/// The decimal digits, in order.
pub open spec fn digits() -> Seq<char> {
    seq!['0', '1', '2', '3', '4', '5', '6', '7', '8', '9']
}

/// `n` in decimal, without leading zeros.
pub open spec fn decimal(n: nat) -> Seq<char>
    decreases n,
{
    if n < 10 {
        seq![digits()[n as int]]
    } else {
        decimal(n / 10).push(digits()[(n % 10) as int])
    }
}

fn digit_text(d: u64) -> (s: &'static str)
    requires
        d < 10,
    ensures
        s@ == seq![digits()[d as int]],
{
    proof {
        reveal_strlit("0");
        reveal_strlit("1");
        reveal_strlit("2");
        reveal_strlit("3");
        reveal_strlit("4");
        reveal_strlit("5");
        reveal_strlit("6");
        reveal_strlit("7");
        reveal_strlit("8");
        reveal_strlit("9");
    }
    match d {
        0 => "0",
        1 => "1",
        2 => "2",
        3 => "3",
        4 => "4",
        5 => "5",
        6 => "6",
        7 => "7",
        8 => "8",
        _ => "9",
    }
}

/// Appends `n` in decimal.
pub fn push_decimal(out: &mut String, n: u64)
    ensures
        final(out)@ == old(out)@ + decimal(n as nat),
    decreases n,
{
    if n >= 10 {
        push_decimal(out, n / 10);
    }
    out.append(digit_text(n % 10));
}

/// Whether two texts are the same.
pub fn same_text(a: &str, b: &str) -> (same: bool)
    ensures
        same == (a@ == b@),
{
    let (x, y) = (a.as_bytes(), b.as_bytes());
    proof {
        encode_utf8_decode_utf8(a@);
        encode_utf8_decode_utf8(b@);
    }
    if x.len() != y.len() {
        return false;
    }
    let mut i: usize = 0;
    while i < x.len()
        invariant
            i <= x@.len(),
            x@.len() == y@.len(),
            x@ == encode_utf8(a@),
            y@ == encode_utf8(b@),
            forall|k: int| 0 <= k < i ==> x@[k] == y@[k],
        decreases x@.len() - i,
    {
        if x[i] != y[i] {
            return false;
        }
        i += 1;
    }
    assert(x@ =~= y@);
    true
}

/// The texts of a list.
pub open spec fn texts(list: Seq<String>) -> Seq<Seq<char>> {
    list.map_values(|s: String| s@)
}

/// The first position of `text` in a list, if it is there.
pub fn position_of(list: &Vec<String>, text: &str) -> (at: Option<usize>)
    ensures
        match at {
            Some(i) => {
                &&& i < list@.len()
                &&& list@[i as int]@ == text@
                &&& forall|k: int| 0 <= k < i ==> #[trigger] list@[k]@ != text@
            },
            None => !texts(list@).contains(text@),
        },
        at is Some ==> texts(list@).contains(text@),
{
    let mut i: usize = 0;
    while i < list.len()
        invariant
            i <= list@.len(),
            forall|k: int| 0 <= k < i ==> #[trigger] list@[k]@ != text@,
        decreases list@.len() - i,
    {
        if same_text(list[i].as_str(), text) {
            assert(texts(list@)[i as int] == text@);
            return Some(i);
        }
        i += 1;
    }
    proof {
        if texts(list@).contains(text@) {
            let k = choose|k: int| 0 <= k < texts(list@).len() && texts(list@)[k] == text@;
            assert(list@[k]@ == text@);
        }
    }
    None
}

/// Decimal numbers separated by `, `.
pub open spec fn listed(numbers: Seq<u32>) -> Seq<char>
    decreases numbers.len(),
{
    if numbers.len() == 0 {
        Seq::empty()
    } else if numbers.len() == 1 {
        decimal(numbers[0] as nat)
    } else {
        listed(numbers.drop_last()) + ", "@ + decimal(numbers.last() as nat)
    }
}

/// The numbers as a list in square brackets: `[1, 22]`.
pub fn bracketed(numbers: &Vec<u32>) -> (text: String)
    ensures
        text@ == "["@ + listed(numbers@) + "]"@,
{
    let mut text: String = String::new();
    text.append("[");
    let mut i: usize = 0;
    assert(numbers@.take(0) =~= Seq::<u32>::empty());
    assert(text@ =~= "["@ + listed(numbers@.take(0)));
    while i < numbers.len()
        invariant
            i <= numbers@.len(),
            text@ == "["@ + listed(numbers@.take(i as int)),
        decreases numbers@.len() - i,
    {
        if i > 0 {
            text.append(", ");
        }
        push_decimal(&mut text, numbers[i] as u64);
        proof {
            let next = numbers@.take(i + 1);
            assert(next.drop_last() =~= numbers@.take(i as int));
            assert(next.last() == numbers@[i as int]);
            assert(text@ =~= "["@ + listed(next));
        }
        i += 1;
    }
    assert(numbers@.take(i as int) =~= numbers@);
    text.append("]");
    text
}

/// Whether a character has Unicode's `White_Space` property.
pub open spec fn is_white_space(c: char) -> bool {
    let v = c as u32;
    ||| 0x09 <= v <= 0x0d
    ||| v == 0x20
    ||| v == 0x85
    ||| v == 0xa0
    ||| v == 0x1680
    ||| 0x2000 <= v <= 0x200a
    ||| v == 0x2028
    ||| v == 0x2029
    ||| v == 0x202f
    ||| v == 0x205f
    ||| v == 0x3000
}

/// Whether a character has Unicode's `White_Space` property.
pub fn white_space(c: char) -> (w: bool)
    ensures
        w == is_white_space(c),
{
    let v: u32 = c as u32;
    (0x09 <= v && v <= 0x0d) || v == 0x20 || v == 0x85 || v == 0xa0 || v == 0x1680 || (0x2000 <= v
        && v <= 0x200a) || v == 0x2028 || v == 0x2029 || v == 0x202f || v == 0x205f || v == 0x3000
}

/// The text without the white space it begins with.
pub open spec fn trim_start(s: Seq<char>) -> Seq<char>
    decreases s.len(),
{
    if s.len() > 0 && is_white_space(s[0]) {
        trim_start(s.skip(1))
    } else {
        s
    }
}

/// The text without the white space it ends with.
pub open spec fn trim_end(s: Seq<char>) -> Seq<char>
    decreases s.len(),
{
    if s.len() > 0 && is_white_space(s.last()) {
        trim_end(s.drop_last())
    } else {
        s
    }
}

/// The text without the white space at either end.
pub open spec fn trimmed(s: Seq<char>) -> Seq<char> {
    trim_end(trim_start(s))
}

/// The characters of a text.
pub fn chars_of(s: &str) -> (chars: Vec<char>)
    ensures
        chars@ == s@,
{
    let mut chars: Vec<char> = Vec::new();
    for c in iter: s.chars()
        invariant
            iter.seq() == s@,
            chars@ == s@.take(iter.index()),
    {
        chars.push(c);
    }
    assert(chars@ =~= s@);
    chars
}

/// The text without the white space at either end.
pub fn trim(s: &str) -> (t: &str)
    ensures
        t@ == trimmed(s@),
{
    let chars: Vec<char> = chars_of(s);
    let len: usize = chars.len();
    let mut from: usize = 0;
    assert(s@.skip(0) =~= s@);
    while from < len && white_space(chars[from])
        invariant
            from <= len,
            chars@ == s@,
            len == s@.len(),
            trim_start(s@) == trim_start(s@.skip(from as int)),
        ensures
            from <= len,
            trim_start(s@) == s@.skip(from as int),
        decreases len - from,
    {
        assert(s@.skip(from as int).skip(1) =~= s@.skip(from + 1));
        from += 1;
    }
    let ghost rest = s@.skip(from as int);
    let mut to: usize = len;
    assert(s@.subrange(from as int, to as int) =~= rest);
    while to > from && white_space(chars[to - 1])
        invariant
            from <= to <= len,
            chars@ == s@,
            len == s@.len(),
            trim_end(rest) == trim_end(s@.subrange(from as int, to as int)),
        ensures
            from <= to <= len,
            trim_end(rest) == s@.subrange(from as int, to as int),
        decreases to - from,
    {
        let ghost here = s@.subrange(from as int, to as int);
        assert(here.drop_last() =~= s@.subrange(from as int, to - 1));
        assert(here.last() == s@[to - 1]);
        to -= 1;
    }
    s.substring_char(from, to)
}

/// The value of a run of ASCII digits.
pub open spec fn digits_value(b: Seq<u8>) -> int
    decreases b.len(),
{
    if b.len() == 0 {
        0
    } else {
        10 * digits_value(b.drop_last()) + (b.last() - 0x30)
    }
}

/// Whether the bytes are ASCII digits, at least one.
pub open spec fn all_digits(b: Seq<u8>) -> bool {
    b.len() > 0 && forall|i: int| 0 <= i < b.len() ==> 0x30 <= #[trigger] b[i] <= 0x39
}

/// The bytes past a leading `+`.
pub open spec fn past_plus(b: Seq<u8>) -> Seq<u8> {
    if b.len() > 0 && b[0] == 0x2b {
        b.skip(1)
    } else {
        b
    }
}

/// The number a text writes: an optional `+` and decimal digits, no more than
/// fit 32 bits.
pub open spec fn number_of(s: Seq<char>) -> Option<u32> {
    let b = past_plus(encode_utf8(s));
    if all_digits(b) && digits_value(b) <= u32::MAX {
        Some(digits_value(b) as u32)
    } else {
        None
    }
}

proof fn lemma_digits_grow(b: Seq<u8>, n: int)
    requires
        all_digits(b),
        0 <= n <= b.len(),
    ensures
        0 <= digits_value(b.take(n)) <= digits_value(b),
    decreases b.len() - n,
{
    if n < b.len() {
        lemma_digits_grow(b, n + 1);
        assert(b.take(n + 1).drop_last() =~= b.take(n));
        assert(b.take(n + 1).last() == b[n]);
        lemma_digits_nonnegative(b.take(n));
    } else {
        assert(b.take(n) =~= b);
        lemma_digits_nonnegative(b);
    }
}

proof fn lemma_digits_nonnegative(b: Seq<u8>)
    requires
        forall|i: int| 0 <= i < b.len() ==> 0x30 <= #[trigger] b[i] <= 0x39,
    ensures
        digits_value(b) >= 0,
    decreases b.len(),
{
    if b.len() > 0 {
        lemma_digits_nonnegative(b.drop_last());
    }
}

/// Read a 32-bit decimal number.
pub fn parse_u32(s: &str) -> (number: Option<u32>)
    ensures
        number == number_of(s@),
{
    let raw = s.as_bytes();
    let start: usize = if raw.len() > 0 && raw[0] == 0x2b { 1 } else { 0 };
    let ghost b = past_plus(raw@);
    assert(b =~= raw@.skip(start as int));
    if raw.len() == start {
        return None;
    }
    let mut value: u64 = 0;
    let mut i: usize = start;
    assert(b.take(0) =~= Seq::<u8>::empty());
    while i < raw.len()
        invariant
            start <= i <= raw@.len(),
            b == raw@.skip(start as int),
            b == past_plus(encode_utf8(s@)),
            b.len() > 0,
            forall|k: int| 0 <= k < i - start ==> 0x30 <= #[trigger] b[k] <= 0x39,
            value == digits_value(b.take(i - start)),
            value <= u32::MAX,
        decreases raw@.len() - i,
    {
        let d: u8 = raw[i];
        assert(b[i - start] == d);
        if d < 0x30 || d > 0x39 {
            return None;
        }
        proof {
            let next = b.take(i - start + 1);
            assert(next.drop_last() =~= b.take(i - start));
            assert(next.last() == d);
        }
        value = 10 * value + (d - 0x30) as u64;
        if value > u32::MAX as u64 {
            proof {
                if all_digits(b) {
                    lemma_digits_grow(b, i - start + 1);
                }
            }
            return None;
        }
        i += 1;
    }
    assert(b.take(i - start) =~= b);
    Some(value as u32)
}

/// Whether a text begins with another.
pub fn starts_with(s: &str, prefix: &str) -> (begins: bool)
    ensures
        begins == prefix@.is_prefix_of(s@),
{
    let (chars, wanted): (Vec<char>, Vec<char>) = (chars_of(s), chars_of(prefix));
    if wanted.len() > chars.len() {
        return false;
    }
    let mut i: usize = 0;
    while i < wanted.len()
        invariant
            i <= wanted@.len() <= chars@.len(),
            chars@ == s@,
            wanted@ == prefix@,
            forall|k: int| 0 <= k < i ==> chars@[k] == wanted@[k],
        decreases wanted@.len() - i,
    {
        if chars[i] != wanted[i] {
            assert(s@.subrange(0, prefix@.len() as int)[i as int] != prefix@[i as int]);
            return false;
        }
        i += 1;
    }
    assert(prefix@ =~= s@.subrange(0, prefix@.len() as int));
    true
}

/// Bytes as text, with a replacement character for what is not UTF-8.
pub uninterp spec fn utf8_lossy(b: Seq<u8>) -> Seq<char>;

/// Calls `String::from_utf8_lossy`. The result is named; bytes that are UTF-8
/// come out as the text they encode. How many replacement characters other
/// bytes come to is left unsaid.
#[verifier::external_body]
pub(crate) fn from_utf8_lossy(b: &[u8]) -> (text: String)
    ensures
        text@ == utf8_lossy(b@),
        valid_utf8(b@) ==> text@ == decode_utf8(b@),
{
    String::from_utf8_lossy(b).into_owned()
}

/// Bytes as text: the text they encode where they are UTF-8, and otherwise with
/// replacement characters.
pub open spec fn text_of_bytes(b: Seq<u8>) -> Seq<char> {
    if valid_utf8(b) {
        decode_utf8(b)
    } else {
        utf8_lossy(b)
    }
}

/// Whether a byte is a NUL.
pub open spec fn is_nul() -> spec_fn(u8) -> bool {
    |b: u8| b == 0
}

/// The bytes before the first NUL, or all of them.
pub open spec fn until_nul(b: Seq<u8>) -> Seq<u8> {
    match first_where(b, is_nul()) {
        Some(i) => b.take(i),
        None => b,
    }
}

/// The text before the first NUL of `raw[from..to]`.
pub fn text_until_nul(raw: &[u8], from: usize, to: usize) -> (text: String)
    requires
        from <= to <= raw@.len(),
    ensures
        text@ == text_of_bytes(until_nul(raw@.subrange(from as int, to as int))),
{
    let ghost field = raw@.subrange(from as int, to as int);
    let ghost nul = is_nul();
    let mut end: usize = from;
    while end < to && raw[end] != 0
        invariant
            from <= end <= to <= raw@.len(),
            field == raw@.subrange(from as int, to as int),
            nul == is_nul(),
            forall|k: int| 0 <= k < end - from ==> !nul(#[trigger] field[k]),
        ensures
            from <= end <= to <= raw@.len(),
            end < to ==> raw@[end as int] == 0,
            forall|k: int| 0 <= k < end - from ==> !nul(#[trigger] field[k]),
        decreases to - end,
    {
        assert(field[end - from] == raw@[end as int]);
        end += 1;
    }
    proof {
        if end < to {
            assert(field[end - from] == raw@[end as int]);
            assert(is_first(field, nul, end - from));
            lemma_first_found(field, nul, end - from);
            assert(field.take(end - from) =~= raw@.subrange(from as int, end as int));
        } else {
            lemma_first_missing(field, nul);
            assert(field =~= raw@.subrange(from as int, end as int));
        }
    }
    from_utf8_lossy(vstd::slice::slice_subrange(raw, from, end))
}

/// Whether `a` comes no later than `b` byte by byte; a prefix comes first.
pub open spec fn in_order(a: Seq<u8>, b: Seq<u8>) -> bool
    decreases a.len(),
{
    if a.len() == 0 {
        true
    } else if b.len() == 0 {
        false
    } else {
        a[0] < b[0] || (a[0] == b[0] && in_order(a.skip(1), b.skip(1)))
    }
}

/// Of two byte strings one comes no later than the other.
pub proof fn lemma_order_total(a: Seq<u8>, b: Seq<u8>)
    ensures
        in_order(a, b) || in_order(b, a),
    decreases a.len(),
{
    if a.len() > 0 && b.len() > 0 && a[0] == b[0] {
        lemma_order_total(a.skip(1), b.skip(1));
    }
}

/// The order is transitive.
pub proof fn lemma_order_transitive(a: Seq<u8>, b: Seq<u8>, c: Seq<u8>)
    requires
        in_order(a, b),
        in_order(b, c),
    ensures
        in_order(a, c),
    decreases a.len(),
{
    if a.len() > 0 && a[0] == b[0] && b[0] == c[0] {
        lemma_order_transitive(a.skip(1), b.skip(1), c.skip(1));
    }
}

/// Whether `a` comes no later than `b` by the bytes of their texts.
pub fn text_in_order(a: &str, b: &str) -> (ordered: bool)
    ensures
        ordered == in_order(encode_utf8(a@), encode_utf8(b@)),
{
    let (x, y) = (a.as_bytes(), b.as_bytes());
    let mut i: usize = 0;
    assert(x@.skip(0) =~= x@);
    assert(y@.skip(0) =~= y@);
    while i < x.len() && i < y.len() && x[i] == y[i]
        invariant
            i <= x@.len(),
            i <= y@.len(),
            in_order(x@, y@) == in_order(x@.skip(i as int), y@.skip(i as int)),
        ensures
            i <= x@.len(),
            i <= y@.len(),
            i < x@.len() && i < y@.len() ==> x@[i as int] != y@[i as int],
            in_order(x@, y@) == in_order(x@.skip(i as int), y@.skip(i as int)),
        decreases x@.len() - i,
    {
        assert(x@.skip(i as int).skip(1) =~= x@.skip(i + 1));
        assert(y@.skip(i as int).skip(1) =~= y@.skip(i + 1));
        i += 1;
    }
    if i == x.len() {
        true
    } else if i == y.len() {
        false
    } else {
        x[i] < y[i]
    }
}

/// The last digit of a number is its remainder by ten, and the digits before it
/// write the rest; there is no leading zero.
pub proof fn law_decimal_writes_the_number(n: nat, d: nat)
    requires
        d < 10,
    ensures
        decimal(d) == seq![(48 + d) as char],
        n > 0 ==> decimal(10 * n + d) == decimal(n).push((48 + d) as char),
{
    assert(forall|k: int| 0 <= k < 10 ==> #[trigger] digits()[k] == (48 + k) as char);
    assert((10 * n + d) / 10 == n && (10 * n + d) % 10 == d);
}

/// A list of numbers has `, ` between any two of them and nothing else.
pub proof fn law_listed_numbers_are_separated(numbers: Seq<u32>, last: u32)
    ensures
        listed(Seq::<u32>::empty()) == Seq::<char>::empty(),
        listed(seq![last]) == decimal(last as nat),
        numbers.len() > 0 ==> listed(numbers.push(last)) == listed(numbers) + ", "@ + decimal(
            last as nat,
        ),
{
    assert(numbers.push(last).drop_last() =~= numbers);
}

/// Digits are read in base ten, the last one lowest; a number may have a plus
/// sign before it, and nothing else but digits, of which there is at least one.
pub proof fn law_a_number_is_its_digits(b: Seq<u8>, d: u8)
    ensures
        digits_value(Seq::<u8>::empty()) == 0,
        digits_value(b.push(d)) == 10 * digits_value(b) + d - 48,
        all_digits(b.push(d)) <==> (b.len() == 0 || all_digits(b)) && 48 <= d <= 57,
        !all_digits(Seq::<u8>::empty()),
        past_plus(seq![43u8] + b) == b,
        b.len() == 0 || b[0] != 43 ==> past_plus(b) == b,
{
    assert(b.push(d).drop_last() =~= b);
    assert((seq![43u8] + b).skip(1) =~= b);
    if all_digits(b.push(d)) {
        assert(b.push(d)[b.len() as int] == d);
        assert forall|i: int| 0 <= i < b.len() implies 48 <= #[trigger] b[i] <= 57 by {
            assert(b.push(d)[i] == b[i]);
        }
    }
}

/// A trimmed text is the middle of the text: what was cut off on either side is
/// white space, and it begins and ends with none.
pub proof fn law_trimming_cuts_only_white_space(s: Seq<char>)
    ensures
        exists|from: int, to: int|
            {
                &&& 0 <= from <= to <= s.len()
                &&& trimmed(s) == #[trigger] s.subrange(from, to)
                &&& forall|i: int| 0 <= i < from ==> is_white_space(#[trigger] s[i])
                &&& forall|i: int| to <= i < s.len() ==> is_white_space(#[trigger] s[i])
            },
        trimmed(s).len() > 0 ==> !is_white_space(trimmed(s)[0]) && !is_white_space(
            trimmed(s).last(),
        ),
{
    lemma_trim_start(s);
    let rest = trim_start(s);
    lemma_trim_end(rest);
    let from = s.len() - rest.len();
    let to = from + trim_end(rest).len();
    assert(trimmed(s) =~= s.subrange(from, to));
    assert forall|i: int| to <= i < s.len() implies is_white_space(#[trigger] s[i]) by {
        assert(rest[i - from] == s[i]);
    }
}

proof fn lemma_trim_start(s: Seq<char>)
    ensures
        trim_start(s).len() <= s.len(),
        trim_start(s) == s.skip(s.len() - trim_start(s).len()),
        forall|i: int| 0 <= i < s.len() - trim_start(s).len() ==> is_white_space(#[trigger] s[i]),
        trim_start(s).len() > 0 ==> !is_white_space(trim_start(s)[0]),
    decreases s.len(),
{
    if s.len() > 0 && is_white_space(s[0]) {
        let rest = s.skip(1);
        lemma_trim_start(rest);
        assert(trim_start(s) =~= s.skip(s.len() - trim_start(s).len()));
        assert forall|i: int| 0 <= i < s.len() - trim_start(s).len() implies is_white_space(
            #[trigger] s[i],
        ) by {
            if i > 0 {
                assert(rest[i - 1] == s[i]);
            }
        }
    } else {
        assert(s.skip(0) =~= s);
    }
}

proof fn lemma_trim_end(s: Seq<char>)
    ensures
        trim_end(s).len() <= s.len(),
        trim_end(s) == s.take(trim_end(s).len() as int),
        forall|i: int| trim_end(s).len() <= i < s.len() ==> is_white_space(#[trigger] s[i]),
        trim_end(s).len() > 0 ==> !is_white_space(trim_end(s).last()),
    decreases s.len(),
{
    if s.len() > 0 && is_white_space(s.last()) {
        let rest = s.drop_last();
        lemma_trim_end(rest);
        assert(trim_end(s) =~= s.take(trim_end(s).len() as int));
        assert forall|i: int| trim_end(s).len() <= i < s.len() implies is_white_space(
            #[trigger] s[i],
        ) by {
            if i < rest.len() {
                assert(rest[i] == s[i]);
            }
        }
    } else {
        assert(s.take(s.len() as int) =~= s);
    }
}

/// What comes before the first NUL holds none, and is followed by one unless it
/// is everything.
pub proof fn law_a_text_ends_at_its_first_nul(b: Seq<u8>)
    ensures
        ({
            let n = until_nul(b).len() as int;
            &&& n <= b.len()
            &&& until_nul(b) == b.take(n)
            &&& forall|i: int| 0 <= i < n ==> #[trigger] b[i] != 0
            &&& n < b.len() ==> b[n] == 0
        }),
{
    let nul = is_nul();
    match first_where(b, nul) {
        Some(i) => {
            assert(is_first(b, nul, i));
            assert forall|j: int| 0 <= j < i implies #[trigger] b[j] != 0 by {
                assert(!nul(b[j]));
            }
        },
        None => {
            crate::seqs::lemma_first_none(b, nul);
            assert(b.take(b.len() as int) =~= b);
            assert forall|j: int| 0 <= j < b.len() implies #[trigger] b[j] != 0 by {
                assert(!nul(b[j]));
            }
        },
    }
}

/// Of two byte strings the one that is a prefix comes first, and otherwise the
/// one with the lower byte where they first differ.
pub proof fn law_order_is_by_the_first_difference(a: Seq<u8>, b: Seq<u8>, k: int)
    requires
        0 <= k <= a.len(),
        k <= b.len(),
        forall|i: int| 0 <= i < k ==> #[trigger] a[i] == b[i],
    ensures
        k == a.len() ==> in_order(a, b),
        k < a.len() && k == b.len() ==> !in_order(a, b),
        k < a.len() && k < b.len() && a[k] != b[k] ==> (in_order(a, b) <==> a[k] < b[k]),
    decreases k,
{
    if k > 0 {
        let (p, q) = (a.skip(1), b.skip(1));
        assert forall|i: int| 0 <= i < k - 1 implies #[trigger] p[i] == q[i] by {
            assert(a[i + 1] == b[i + 1]);
        }
        assert(a[0] == b[0]);
        law_order_is_by_the_first_difference(p, q, k - 1);
    }
}

/// A number that is written in decimal reads as itself, with or without a plus
/// sign.
pub proof fn law_a_written_number_reads_as_itself(n: u32)
    ensures
        number_of(decimal(n as nat)) == Some(n),
        number_of("+"@ + decimal(n as nat)) == Some(n),
{
    reveal_strlit("+");
    let text = decimal(n as nat);
    lemma_decimal_is_ascii(n as nat);
    is_ascii_chars_encode_utf8(text);
    let b = encode_utf8(text);
    lemma_decimal_value(n as nat, b);
    assert(past_plus(b) == b);
    let signed = "+"@ + text;
    assert(is_ascii_chars(signed));
    is_ascii_chars_encode_utf8(signed);
    assert(encode_utf8(signed) =~= seq![43u8] + b);
    assert((seq![43u8] + b).skip(1) =~= b);
}

proof fn lemma_decimal_is_ascii(n: nat)
    ensures
        is_ascii_chars(decimal(n)),
        decimal(n).len() > 0,
        forall|i: int| 0 <= i < decimal(n).len() ==> '0' <= #[trigger] decimal(n)[i] <= '9',
    decreases n,
{
    if n >= 10 {
        lemma_decimal_is_ascii(n / 10);
    }
}

proof fn lemma_decimal_value(n: nat, b: Seq<u8>)
    requires
        b.len() == decimal(n).len(),
        forall|i: int| 0 <= i < b.len() ==> #[trigger] b[i] == decimal(n)[i] as u8,
    ensures
        all_digits(b),
        digits_value(b) == n,
    decreases n,
{
    lemma_decimal_is_ascii(n);
    assert forall|i: int| 0 <= i < b.len() implies 0x30 <= #[trigger] b[i] <= 0x39 by {
        assert('0' <= decimal(n)[i] <= '9');
    }
    let (front, last) = (b.drop_last(), b.last());
    assert(forall|k: int| 0 <= k < 10 ==> (#[trigger] digits()[k]) as u8 == 48 + k);
    if n >= 10 {
        let tens = decimal(n / 10);
        assert(decimal(n).drop_last() =~= tens);
        assert forall|i: int| 0 <= i < front.len() implies #[trigger] front[i] == tens[i] as u8 by {
            assert(b[i] == decimal(n)[i] as u8);
        }
        lemma_decimal_value(n / 10, front);
        assert(last == decimal(n)[b.len() - 1] as u8);
        assert(decimal(n).last() == digits()[(n % 10) as int]);
    } else {
        assert(b[0] == decimal(n)[0] as u8);
        assert(digits_value(front) == 0);
    }
}

/// A text is a number exactly where it is digits, after a plus sign or not, whose
/// value 32 bits hold.
pub proof fn law_a_number_fits_32_bits(s: Seq<char>)
    ensures
        ({
            let b = past_plus(encode_utf8(s));
            &&& number_of(s) is Some <==> all_digits(b) && digits_value(b) <= 4294967295
            &&& number_of(s) matches Some(n) ==> n == digits_value(b)
        }),
{
    let b = past_plus(encode_utf8(s));
    if all_digits(b) {
        lemma_digits_nonnegative(b);
    }
}

/// Bytes that encode a text come out as that text, whatever the text is.
pub proof fn law_encoded_text_is_read_back(s: Seq<char>)
    ensures
        text_of_bytes(encode_utf8(s)) == s,
{
    encode_utf8_valid_utf8(s);
    encode_utf8_decode_utf8(s);
}

} // verus!
