//! Text on plain values: characters, white space, decimal numbers.

use vstd::prelude::*;

verus! {

/// `String::push` appends one character to the end of the string and changes nothing else.
pub assume_specification[ String::push ](s: &mut String, ch: char)
    ensures
        final(s)@ == old(s)@.push(ch),
;

/// The characters of `s`, one by one.
pub fn chars_of(s: &str) -> (chars: Vec<char>)
    ensures
        chars@ == s@,
{
    let mut chars: Vec<char> = Vec::new();
    for c in it: s.chars()
        invariant
            it.seq() == s@,
            chars@ == s@.take(it.index()),
    {
        chars.push(c);
    }
    assert(s@.take(s@.len() as int) == s@);
    chars
}

/// The text made of the characters at positions `from..to`.
pub fn text_of(chars: &Vec<char>, from: usize, to: usize) -> (text: String)
    requires
        from <= to <= chars@.len(),
    ensures
        text@ == chars@.subrange(from as int, to as int),
{
    let mut text: String = String::new();
    let mut i: usize = from;
    while i < to
        invariant
            from <= i <= to <= chars@.len(),
            text@ == chars@.subrange(from as int, i as int),
        decreases to - i,
    {
        text.push(chars[i]);
        i = i + 1;
    }
    text
}

/// `s` with every `from` replaced by `to`.
pub open spec fn replaced(s: Seq<char>, from: char, to: char) -> Seq<char> {
    s.map_values(|c: char| if c == from { to } else { c })
}

/// Replaces every `from` in `s` by `to`.
pub fn replace_char(s: &str, from: char, to: char) -> (result: String)
    ensures
        result@ == replaced(s@, from, to),
{
    let mut result: String = String::new();
    for c in it: s.chars()
        invariant
            it.seq() == s@,
            result@ == replaced(s@.take(it.index()), from, to),
    {
        result.push(if c == from { to } else { c });
    }
    assert(s@.take(s@.len() as int) == s@);
    result
}

/// Whether `wanted` occurs in `s`.
pub fn contains_char(s: &str, wanted: char) -> (found: bool)
    ensures
        found == s@.contains(wanted),
{
    let chars: Vec<char> = chars_of(s);
    let mut i: usize = 0;
    while i < chars.len()
        invariant
            i <= chars@.len(),
            chars@ == s@,
            forall|j: int| 0 <= j < i ==> chars@[j] != wanted,
        decreases chars@.len() - i,
    {
        if chars[i] == wanted {
            return true;
        }
        i = i + 1;
    }
    false
}

/// The part of `s` behind the last `mark`, or all of `s` where `mark` does not occur.
pub open spec fn after_last(s: Seq<char>, mark: char) -> Seq<char>
    decreases s.len(),
{
    if s.len() == 0 || s.last() == mark {
        Seq::empty()
    } else {
        after_last(s.drop_last(), mark).push(s.last())
    }
}

/// `after_last` is the suffix of `s` without `mark` that starts right behind a `mark` or at the
/// beginning.
pub proof fn lemma_after_last(s: Seq<char>, mark: char)
    ensures
        after_last(s, mark).len() <= s.len(),
        after_last(s, mark) == s.skip(s.len() - after_last(s, mark).len()),
        !after_last(s, mark).contains(mark),
        s.contains(mark) <==> after_last(s, mark).len() < s.len(),
        after_last(s, mark).len() < s.len() ==> s[s.len() - after_last(s, mark).len() - 1] == mark,
    decreases s.len(),
{
    if s.len() != 0 && s.last() != mark {
        let init = s.drop_last();
        lemma_after_last(init, mark);
        let tail = after_last(s, mark);
        assert(tail == s.skip(s.len() - tail.len()));
        if s.contains(mark) {
            let i = s.index_of(mark);
            assert(init[i] == mark);
        }
        if init.contains(mark) {
            let i = init.index_of(mark);
            assert(s[i] == mark);
        }
        if tail.contains(mark) {
            let i = tail.index_of(mark);
            assert(after_last(init, mark)[i] == mark);
        }
    } else if s.len() != 0 {
        assert(s[s.len() - 1] == mark);
        assert(s.skip(s.len() as int) =~= Seq::<char>::empty());
    } else {
        assert(s.skip(0) =~= Seq::<char>::empty());
    }
}

/// The position behind the last `mark` among the first `to` characters, or 0 where there is none.
pub fn start_after_last(chars: &Vec<char>, to: usize, mark: char) -> (start: usize)
    requires
        to <= chars@.len(),
    ensures
        start <= to,
        chars@.subrange(start as int, to as int) == after_last(chars@.take(to as int), mark),
{
    let mut start: usize = to;
    proof {
        assert(chars@.subrange(to as int, to as int) =~= Seq::<char>::empty());
    }
    while start > 0 && chars[start - 1] != mark
        invariant
            start <= to <= chars@.len(),
            after_last(chars@.take(to as int), mark) == after_last(chars@.take(start as int), mark)
                + chars@.subrange(start as int, to as int),
        decreases start,
    {
        proof {
            let upper = chars@.take(start as int);
            assert(upper.drop_last() == chars@.take(start - 1));
            assert(after_last(upper, mark) + chars@.subrange(start as int, to as int)
                == after_last(upper.drop_last(), mark) + chars@.subrange(start - 1, to as int));
        }
        start = start - 1;
    }
    proof {
        let rest = chars@.take(start as int);
        assert(after_last(rest, mark) =~= Seq::<char>::empty());
    }
    start
}

/// The characters with Unicode's `White_Space` property.
pub open spec fn white_space(c: char) -> bool {
    let code = c as int;
    ||| 0x09 <= code <= 0x0d
    ||| code == 0x20
    ||| code == 0x85
    ||| code == 0xa0
    ||| code == 0x1680
    ||| 0x2000 <= code <= 0x200a
    ||| code == 0x2028
    ||| code == 0x2029
    ||| code == 0x202f
    ||| code == 0x205f
    ||| code == 0x3000
}

/// Whether `c` is white space.
pub fn is_white_space(c: char) -> (result: bool)
    ensures
        result == white_space(c),
{
    let code: u32 = c as u32;
    (0x09 <= code && code <= 0x0d) || code == 0x20 || code == 0x85 || code == 0xa0 || code == 0x1680
        || (0x2000 <= code && code <= 0x200a) || code == 0x2028 || code == 0x2029 || code == 0x202f
        || code == 0x205f || code == 0x3000
}

/// `s` without the white space at its beginning.
pub open spec fn trimmed_start(s: Seq<char>) -> Seq<char>
    decreases s.len(),
{
    if s.len() > 0 && white_space(s[0]) {
        trimmed_start(s.drop_first())
    } else {
        s
    }
}

/// `s` without the white space at its end.
pub open spec fn trimmed_end(s: Seq<char>) -> Seq<char>
    decreases s.len(),
{
    if s.len() > 0 && white_space(s.last()) {
        trimmed_end(s.drop_last())
    } else {
        s
    }
}

/// `s` without the white space at either end.
pub open spec fn trimmed(s: Seq<char>) -> Seq<char> {
    trimmed_end(trimmed_start(s))
}

/// Removes the white space at both ends of `s`.
pub fn trim_text(s: &str) -> (result: String)
    ensures
        result@ == trimmed(s@),
{
    let chars: Vec<char> = chars_of(s);
    let mut from: usize = 0;
    assert(chars@.skip(0) == chars@);
    while from < chars.len() && is_white_space(chars[from])
        invariant
            from <= chars@.len(),
            trimmed_start(chars@) == trimmed_start(chars@.skip(from as int)),
        decreases chars@.len() - from,
    {
        assert(chars@.skip(from as int).drop_first() == chars@.skip(from + 1));
        from = from + 1;
    }
    let mut to: usize = chars.len();
    assert(chars@.subrange(from as int, to as int) == chars@.skip(from as int));
    while to > from && is_white_space(chars[to - 1])
        invariant
            from <= to <= chars@.len(),
            trimmed(chars@) == trimmed_end(chars@.subrange(from as int, to as int)),
        decreases to,
    {
        assert(chars@.subrange(from as int, to as int).drop_last() == chars@.subrange(
            from as int,
            to - 1,
        ));
        to = to - 1;
    }
    text_of(&chars, from, to)
}

/// Whether `s` is white space but for the part from `from` to `to`.
pub open spec fn blank_around(s: Seq<char>, from: int, to: int) -> bool {
    &&& 0 <= from <= to <= s.len()
    &&& forall|i: int| 0 <= i < from || to <= i < s.len() ==> white_space(#[trigger] s[i])
}

/// Trimming removes only white space and only from the ends, and leaves none at either end.
pub proof fn lemma_trimmed(s: Seq<char>)
    ensures
        exists|from: int, to: int| #[trigger]
            blank_around(s, from, to) && trimmed(s) == s.subrange(from, to),
        trimmed(s).len() > 0 ==> !white_space(trimmed(s)[0]) && !white_space(trimmed(s).last()),
{
    let rest = trimmed_start(s);
    lemma_trimmed_start(s);
    lemma_trimmed_end(rest);
    let from = s.len() - rest.len();
    let to = from + trimmed(s).len();
    assert forall|i: int| 0 <= i < from || to <= i < s.len() implies white_space(
        #[trigger] s[i],
    ) by {
        if to <= i {
            assert(rest[i - from] == s[i]);
        }
    }
    assert(trimmed(s) =~= s.subrange(from, to));
    assert(blank_around(s, from, to));
}

proof fn lemma_trimmed_start(s: Seq<char>)
    ensures
        trimmed_start(s).len() <= s.len(),
        trimmed_start(s) == s.skip(s.len() - trimmed_start(s).len()),
        forall|i: int|
            0 <= i < s.len() - trimmed_start(s).len() ==> white_space(#[trigger] s[i]),
        trimmed_start(s).len() > 0 ==> !white_space(trimmed_start(s)[0]),
    decreases s.len(),
{
    if s.len() > 0 && white_space(s[0]) {
        let rest = s.drop_first();
        lemma_trimmed_start(rest);
        assert forall|i: int| 0 <= i < s.len() - trimmed_start(s).len() implies white_space(
            #[trigger] s[i],
        ) by {
            if i > 0 {
                assert(rest[i - 1] == s[i]);
            }
        }
    }
}

proof fn lemma_trimmed_end(s: Seq<char>)
    ensures
        trimmed_end(s).len() <= s.len(),
        trimmed_end(s) == s.take(trimmed_end(s).len() as int),
        forall|i: int| trimmed_end(s).len() <= i < s.len() ==> white_space(#[trigger] s[i]),
        trimmed_end(s).len() > 0 ==> !white_space(trimmed_end(s).last()) && trimmed_end(s)[0]
            == s[0],
    decreases s.len(),
{
    if s.len() > 0 && white_space(s.last()) {
        let rest = s.drop_last();
        lemma_trimmed_end(rest);
        assert forall|i: int| trimmed_end(s).len() <= i < s.len() implies white_space(
            #[trigger] s[i],
        ) by {
            if i < rest.len() {
                assert(rest[i] == s[i]);
            }
        }
    }
}

/// The decimal digit for `d`.
pub open spec fn digit_char(d: nat) -> char {
    (48 + d) as char
}

/// `n` in decimal, without leading zeros.
pub open spec fn decimal(n: nat) -> Seq<char>
    decreases n,
{
    if n < 10 {
        seq![digit_char(n)]
    } else {
        decimal(n / 10).push(digit_char(n % 10))
    }
}

/// Writes `n` in decimal.
pub fn decimal_text(n: u64) -> (text: String)
    ensures
        text@ == decimal(n as nat),
    decreases n,
{
    let digit: u8 = 48 + (n % 10) as u8;
    if n < 10 {
        let mut text: String = String::new();
        text.push(digit as char);
        text
    } else {
        let mut text: String = decimal_text(n / 10);
        text.push(digit as char);
        text
    }
}

/// Whether every byte is an ASCII decimal digit.
pub open spec fn all_digits(s: Seq<u8>) -> bool {
    forall|i: int| 0 <= i < s.len() ==> 48 <= #[trigger] s[i] <= 57
}

/// The number that a row of ASCII digits stands for.
pub open spec fn digits_value(s: Seq<u8>) -> nat
    decreases s.len(),
{
    if s.len() == 0 {
        0
    } else {
        digits_value(s.drop_last()) * 10 + (s.last() - 48) as nat
    }
}

/// The digits of an unsigned number: what is left behind an optional plus sign.
pub open spec fn number_body(s: Seq<u8>) -> Seq<u8> {
    if s.len() > 0 && s[0] == 43 {
        s.skip(1)
    } else {
        s
    }
}

/// The number that `s` spells: an optional plus sign and at least one digit, no larger than a
/// `u64` can hold.
pub open spec fn parsed_number(s: Seq<u8>) -> Option<u64> {
    let body = number_body(s);
    if body.len() > 0 && all_digits(body) && digits_value(body) <= u64::MAX {
        Some(digits_value(body) as u64)
    } else {
        None
    }
}

proof fn lemma_digits_value_grows(s: Seq<u8>, i: int)
    requires
        0 <= i <= s.len(),
        all_digits(s),
    ensures
        digits_value(s.take(i)) <= digits_value(s),
    decreases s.len() - i,
{
    if i < s.len() {
        assert(s.take(i + 1).drop_last() == s.take(i));
        lemma_digits_value_grows(s, i + 1);
    } else {
        assert(s.take(i) == s);
    }
}

/// Reads an unsigned decimal number.
pub fn parse_number(bytes: &[u8]) -> (number: Option<u64>)
    ensures
        number == parsed_number(bytes@),
{
    let len: usize = bytes.len();
    let from: usize = if len > 0 && bytes[0] == 43 { 1 } else { 0 };
    let ghost body = number_body(bytes@);
    assert(body == bytes@.skip(from as int));
    if from == len {
        return None;
    }
    let mut value: u64 = 0;
    let mut i: usize = from;
    assert(body.take(0) == Seq::<u8>::empty());
    while i < len
        invariant
            from <= i <= len == bytes@.len(),
            from <= 1,
            body == number_body(bytes@),
            body == bytes@.skip(from as int),
            forall|j: int| 0 <= j < i - from ==> 48 <= #[trigger] body[j] <= 57,
            value == digits_value(body.take(i - from)),
        decreases len - i,
    {
        let byte: u8 = bytes[i];
        assert(byte == body[i - from]);
        if byte < 48 || byte > 57 {
            return None;
        }
        let digit: u64 = (byte - 48) as u64;
        assert(body.take(i - from + 1).drop_last() == body.take(i - from));
        if value > (u64::MAX - digit) / 10 {
            proof {
                if all_digits(body) {
                    lemma_digits_value_grows(body, i - from + 1);
                }
            }
            return None;
        }
        value = value * 10 + digit;
        i = i + 1;
    }
    assert(body.take(len - from) == body);
    Some(value)
}

/// A number written in decimal reads back as itself.
pub proof fn law_decimal_reads_back(n: u64)
    ensures
        parsed_number(vstd::utf8::encode_utf8(decimal(n as nat))) == Some(n),
{
    let text = decimal(n as nat);
    let bytes = vstd::utf8::encode_utf8(text);
    lemma_decimal_digits(n as nat);
    vstd::utf8::is_ascii_chars_encode_utf8(text);
    assert(bytes =~= text.map_values(|c: char| c as u8));
    lemma_decimal_value(n as nat);
    assert(bytes[0] != 43) by {
        assert('0' <= text[0] <= '9');
        assert(bytes[0] == text[0] as u8);
    }
    assert(number_body(bytes) == bytes);
    assert forall|i: int| 0 <= i < bytes.len() implies 48 <= #[trigger] bytes[i] <= 57 by {
        assert('0' <= text[i] <= '9');
    }
}

proof fn lemma_decimal_digits(n: nat)
    ensures
        decimal(n).len() > 0,
        forall|i: int| 0 <= i < decimal(n).len() ==> '0' <= #[trigger] decimal(n)[i] <= '9',
    decreases n,
{
    if n >= 10 {
        lemma_decimal_digits(n / 10);
    }
}

proof fn lemma_decimal_value(n: nat)
    ensures
        digits_value(decimal(n).map_values(|c: char| c as u8)) == n,
    decreases n,
{
    let to_byte = |c: char| c as u8;
    let bytes = decimal(n).map_values(to_byte);
    if n >= 10 {
        lemma_decimal_value(n / 10);
        assert(bytes.drop_last() =~= decimal(n / 10).map_values(to_byte));
        assert(bytes.last() == 48 + n % 10);
    } else {
        assert(bytes.drop_last() =~= Seq::<u8>::empty());
        assert(digits_value(bytes.drop_last()) == 0);
        assert(bytes.last() == 48 + n);
    }
}

/// Whether two rows of bytes are equal.
pub fn same_bytes(a: &[u8], b: &[u8]) -> (same: bool)
    ensures
        same == (a@ == b@),
{
    if a.len() != b.len() {
        return false;
    }
    let mut i: usize = 0;
    while i < a.len()
        invariant
            i <= a@.len() == b@.len(),
            forall|j: int| 0 <= j < i ==> a@[j] == b@[j],
        decreases a@.len() - i,
    {
        if a[i] != b[i] {
            return false;
        }
        i = i + 1;
    }
    assert(a@ =~= b@);
    true
}

/// Texts with the same UTF-8 bytes are equal.
pub proof fn lemma_utf8_injective(a: Seq<char>, b: Seq<char>)
    requires
        vstd::utf8::encode_utf8(a) == vstd::utf8::encode_utf8(b),
    ensures
        a == b,
{
    vstd::utf8::encode_utf8_decode_utf8(a);
    vstd::utf8::encode_utf8_decode_utf8(b);
}

/// Whether two texts are equal.
pub fn same_text(a: &str, b: &str) -> (same: bool)
    ensures
        same == (a@ == b@),
{
    let same: bool = same_bytes(a.as_bytes(), b.as_bytes());
    proof {
        if same {
            lemma_utf8_injective(a@, b@);
        }
    }
    same
}

/// Replacing keeps every character but the one that is replaced, and every position.
pub proof fn law_replacing(s: Seq<char>, from: char, to: char)
    ensures
        replaced(s, from, to).len() == s.len(),
        forall|i: int|
            0 <= i < s.len() && s[i] != from ==> #[trigger] replaced(s, from, to)[i] == s[i],
        forall|i: int|
            0 <= i < s.len() && s[i] == from ==> #[trigger] replaced(s, from, to)[i] == to,
{
}

/// What is behind the last mark is what was put behind a mark, as long as no other mark is in it;
/// without a mark it is everything.
pub proof fn law_behind_the_last_mark(before: Seq<char>, mark: char, tail: Seq<char>)
    requires
        !tail.contains(mark),
    ensures
        after_last(before.push(mark) + tail, mark) == tail,
        after_last(tail, mark) == tail,
    decreases tail.len(),
{
    let s = before.push(mark) + tail;
    if tail.len() == 0 {
        assert(s =~= before.push(mark));
        assert(tail =~= Seq::<char>::empty());
    } else {
        let init = tail.drop_last();
        assert(tail.contains(tail[tail.len() - 1]));
        assert(!init.contains(mark)) by {
            if init.contains(mark) {
                assert(tail[init.index_of(mark)] == mark);
            }
        }
        law_behind_the_last_mark(before, mark, init);
        assert(s.drop_last() =~= before.push(mark) + init);
        assert(init.push(tail.last()) =~= tail);
        assert(s.last() == tail.last());
        assert(s =~= before.push(mark) + init.push(tail.last()));
    }
}

/// Whether `s` is white space throughout.
pub open spec fn blank(s: Seq<char>) -> bool {
    forall|i: int| 0 <= i < s.len() ==> white_space(#[trigger] s[i])
}

proof fn lemma_trimmed_start_skips(before: Seq<char>, rest: Seq<char>)
    requires
        blank(before),
    ensures
        trimmed_start(before + rest) == trimmed_start(rest),
    decreases before.len(),
{
    if before.len() == 0 {
        assert(before + rest =~= rest);
    } else {
        let less = before.drop_first();
        assert forall|i: int| 0 <= i < less.len() implies white_space(#[trigger] less[i]) by {
            assert(less[i] == before[i + 1]);
        }
        assert((before + rest)[0] == before[0]);
        assert((before + rest).drop_first() =~= less + rest);
        lemma_trimmed_start_skips(less, rest);
    }
}

proof fn lemma_trimmed_end_skips(rest: Seq<char>, after: Seq<char>)
    requires
        blank(after),
    ensures
        trimmed_end(rest + after) == trimmed_end(rest),
    decreases after.len(),
{
    if after.len() == 0 {
        assert(rest + after =~= rest);
    } else {
        let less = after.drop_last();
        assert forall|i: int| 0 <= i < less.len() implies white_space(#[trigger] less[i]) by {
            assert(less[i] == after[i]);
        }
        assert((rest + after).last() == after[after.len() - 1]);
        assert((rest + after).drop_last() =~= rest + less);
        lemma_trimmed_end_skips(rest, less);
    }
}

/// Trimming takes away white space that was put around a text, and nothing of the text.
pub proof fn law_trimming(before: Seq<char>, core: Seq<char>, after: Seq<char>)
    requires
        blank(before),
        blank(after),
        core.len() > 0 ==> !white_space(core[0]) && !white_space(core.last()),
    ensures
        trimmed(before + core + after) == core,
{
    assert(before + core + after =~= before + (core + after));
    lemma_trimmed_start_skips(before, core + after);
    if core.len() > 0 {
        assert((core + after)[0] == core[0]);
        lemma_trimmed_end_skips(core, after);
    } else {
        assert(core + after =~= after);
        assert(after + Seq::<char>::empty() =~= after);
        lemma_trimmed_start_skips(after, Seq::empty());
        assert(core =~= Seq::<char>::empty());
    }
}

/// The place of a digit in a number counts: in front of `n` digits a number is worth `10^n` times
/// as much.
pub proof fn law_digits_have_places(front: Seq<u8>, back: Seq<u8>)
    requires
        all_digits(front),
        all_digits(back),
    ensures
        digits_value(front + back) == digits_value(front) * vstd::arithmetic::power::pow(
            10,
            back.len(),
        ) + digits_value(back),
        front.len() == 1 ==> digits_value(front) == front[0] - 48,
    decreases back.len(),
{
    reveal(vstd::arithmetic::power::pow);
    if front.len() == 1 {
        assert(digits_value(front.drop_last()) == 0);
    }
    if back.len() == 0 {
        assert(front + back =~= front);
        assert(digits_value(front) * 1 == digits_value(front));
    } else {
        let less = back.drop_last();
        let place = vstd::arithmetic::power::pow(10, less.len());
        law_digits_have_places(front, less);
        assert((front + back).drop_last() =~= front + less);
        assert((front + back).last() == back.last());
        let worth = digits_value(front) as int;
        assert(worth * (10 * place) == (worth * place) * 10) by (nonlinear_arith);
    }
}

/// A number is read exactly out of a row of digits that a `u64` can hold, with or without a plus
/// sign in front.
pub proof fn law_numbers_are_read(s: Seq<u8>)
    ensures
        parsed_number(s) is Some ==> s.len() > 0 && (s[0] == 43 || 48 <= s[0] <= 57) && all_digits(
            s.skip(1),
        ),
        s.len() > 0 && all_digits(s) && digits_value(s) <= u64::MAX ==> parsed_number(s) == Some(
            digits_value(s) as u64,
        ) && parsed_number(seq![43u8] + s) == parsed_number(s),
        s.len() > 0 && all_digits(s) && digits_value(s) > u64::MAX ==> parsed_number(s) is None
            && parsed_number(seq![43u8] + s) is None,
        parsed_number(seq![43u8]) is None,
{
    assert((seq![43u8] + s).skip(1) =~= s);
    assert(seq![43u8].skip(1) =~= Seq::<u8>::empty());
    if parsed_number(s) is Some {
        let body = number_body(s);
        if s[0] != 43 {
            assert(48 <= body[0] <= 57);
            assert forall|i: int| 0 <= i < s.skip(1).len() implies 48 <= #[trigger] s.skip(1)[i]
                <= 57 by {
                assert(body[i + 1] == s[i + 1]);
            }
        }
    }
}

/// Whether `text` is a row of decimal digits that reads as `n`.
pub open spec fn reads_as(text: Seq<char>, n: u64) -> bool {
    &&& text.len() > 0
    &&& forall|i: int| 0 <= i < text.len() ==> '0' <= #[trigger] text[i] <= '9'
    &&& parsed_number(vstd::utf8::encode_utf8(text)) == Some(n)
}

/// A number in decimal is a row of digits that reads as the number, and starts with a zero only
/// where it is zero.
pub proof fn law_decimal(n: u64)
    ensures
        reads_as(decimal(n as nat), n),
        decimal(n as nat)[0] == '0' ==> n == 0 && decimal(n as nat).len() == 1,
{
    lemma_decimal_digits(n as nat);
    law_decimal_reads_back(n);
    lemma_decimal_start(n as nat);
}

proof fn lemma_decimal_start(n: nat)
    ensures
        decimal(n).len() > 0,
        decimal(n)[0] == '0' ==> n == 0 && decimal(n).len() == 1,
    decreases n,
{
    if n >= 10 {
        lemma_decimal_start(n / 10);
        assert(decimal(n)[0] == decimal(n / 10)[0]);
    }
}

} // verus!
