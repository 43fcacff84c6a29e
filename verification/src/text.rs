//! Text helpers shared by the codec and the resolvers: byte-wise comparison of
//! strings, prefix and substring search, and decimal numbers.

use vstd::prelude::*;
use vstd::utf8::*;
use vstd::string::*;

verus! {

/// The bytes a text occupies on the wire and in memory: its UTF-8 encoding.
pub open spec fn utf8(text: Seq<char>) -> Seq<u8> {
    encode_utf8(text)
}

/// Two texts with the same encoding are the same text.
pub proof fn lemma_utf8_injective(a: Seq<char>, b: Seq<char>)
    requires
        utf8(a) == utf8(b),
    ensures
        a == b,
{
    encode_utf8_decode_utf8(a);
    encode_utf8_decode_utf8(b);
}

/// The encoding of two texts joined is their encodings joined.
pub proof fn lemma_utf8_concat(a: Seq<char>, b: Seq<char>)
    ensures
        utf8(a + b) == utf8(a) + utf8(b),
    decreases a.len(),
{
    if a.len() == 0 {
        assert(a + b =~= b);
        assert(utf8(a) + utf8(b) =~= utf8(b));
    } else {
        lemma_utf8_concat(a.drop_first(), b);
        assert((a + b).drop_first() =~= a.drop_first() + b);
        assert(utf8(a + b) =~= utf8(a) + utf8(b));
    }
}

/// `String::from_utf8`: succeeds exactly on well-formed UTF-8, and the string
/// it gives is stored as the very bytes that were handed in.
#[verifier::external_body]
pub(crate) fn string_from_utf8(bytes: Vec<u8>) -> (text: Option<String>)
    ensures
        text is Some <==> valid_utf8(bytes@),
        text matches Some(s) ==> utf8(s@) == bytes@,
{
    String::from_utf8(bytes).ok()
}

/// The text that `String::from_utf8_lossy` makes of bytes.
pub uninterp spec fn lossy(bytes: Seq<u8>) -> Seq<char>;

/// `String::from_utf8_lossy`: the text of some bytes. Well-formed UTF-8
/// comes out as it is; anything else comes out with replacement characters
/// in the place of what is malformed.
#[verifier::external_body]
pub(crate) fn lossy_text(bytes: &[u8]) -> (text: String)
    ensures
        text@ == lossy(bytes@),
        valid_utf8(bytes@) ==> utf8(text@) == bytes@,
{
    String::from_utf8_lossy(bytes).into_owned()
}

/// The text of bytes that are all one-byte characters.
fn ascii_text(bytes: Vec<u8>) -> (text: String)
    requires
        forall|i: int| 0 <= i < bytes@.len() ==> bytes@[i] <= 0x7f,
    ensures
        utf8(text@) == bytes@,
{
    proof {
        assert forall|i: int| 0 <= i < bytes@.len() implies #[trigger] is_leading_byte_width_1(
            bytes@[i],
        ) by {}
        assert(valid_utf8(bytes@.subrange(0, 0)));
        partial_valid_utf8_extend_ascii_block(bytes@, 0, bytes@.len() as int);
        assert(bytes@.subrange(0, bytes@.len() as int) =~= bytes@);
    }
    match string_from_utf8(bytes) {
        Some(text) => text,
        None => String::new(),
    }
}

/// Whether two byte strings are equal.
pub fn bytes_equal(a: &[u8], b: &[u8]) -> (same: bool)
    ensures
        same == (a@ == b@),
{
    if a.len() != b.len() {
        return false;
    }
    let mut i: usize = 0;
    while i < a.len()
        invariant
            a@.len() == b@.len(),
            i <= a@.len(),
            a@.subrange(0, i as int) == b@.subrange(0, i as int),
        decreases a@.len() - i,
    {
        if a[i] != b[i] {
            assert(a@[i as int] != b@[i as int]);
            return false;
        }
        assert(a@.subrange(0, i + 1) =~= a@.subrange(0, i as int).push(a@[i as int]));
        assert(b@.subrange(0, i + 1) =~= b@.subrange(0, i as int).push(b@[i as int]));
        i = i + 1;
    }
    assert(a@ =~= a@.subrange(0, i as int));
    assert(b@ =~= b@.subrange(0, i as int));
    true
}

/// Whether two strings hold the same text.
pub fn same_text(a: &str, b: &str) -> (same: bool)
    ensures
        same == (a@ == b@),
{
    let same = bytes_equal(a.as_bytes(), b.as_bytes());
    proof {
        if same {
            lemma_utf8_injective(a@, b@);
        }
    }
    same
}

/// `needle` stands in `haystack` at offset `at`.
pub open spec fn occurs_at(haystack: Seq<u8>, needle: Seq<u8>, at: int) -> bool {
    0 <= at && at + needle.len() <= haystack.len() && haystack.subrange(
        at,
        at + needle.len(),
    ) == needle
}

/// `needle` stands somewhere in `haystack`.
pub open spec fn occurs(haystack: Seq<u8>, needle: Seq<u8>) -> bool {
    exists|at: int| occurs_at(haystack, needle, at)
}

/// Whether `needle` stands in `haystack` at offset `at`.
pub fn matches_at(haystack: &[u8], needle: &[u8], at: usize) -> (found: bool)
    ensures
        found == occurs_at(haystack@, needle@, at as int),
{
    if at > haystack.len() || haystack.len() - at < needle.len() {
        return false;
    }
    let mut i: usize = 0;
    while i < needle.len()
        invariant
            at + needle@.len() <= haystack@.len() <= usize::MAX,
            i <= needle@.len(),
            haystack@.subrange(at as int, at + i) == needle@.subrange(0, i as int),
        decreases needle@.len() - i,
    {
        if haystack[at + i] != needle[i] {
            assert(haystack@.subrange(at as int, at + needle@.len())[i as int] != needle@[i as int]);
            return false;
        }
        assert(haystack@.subrange(at as int, at + i + 1) =~= haystack@.subrange(
            at as int,
            at + i,
        ).push(haystack@[at + i]));
        assert(needle@.subrange(0, i + 1) =~= needle@.subrange(0, i as int).push(
            needle@[i as int],
        ));
        i = i + 1;
    }
    assert(needle@ =~= needle@.subrange(0, i as int));
    true
}

/// Whether `text` begins with `prefix`, byte for byte.
pub fn starts_with(text: &str, prefix: &str) -> (found: bool)
    ensures
        found == occurs_at(utf8(text@), utf8(prefix@), 0),
{
    matches_at(text.as_bytes(), prefix.as_bytes(), 0)
}

/// Whether `needle` stands somewhere in `text`, byte for byte.
pub fn contains(text: &str, needle: &str) -> (found: bool)
    ensures
        found == occurs(utf8(text@), utf8(needle@)),
{
    let haystack = text.as_bytes();
    let pattern = needle.as_bytes();
    if pattern.len() > haystack.len() {
        assert forall|at: int| !occurs_at(haystack@, pattern@, at) by {}
        return false;
    }
    let last: usize = haystack.len() - pattern.len();
    let mut at: usize = 0;
    loop
        invariant
            haystack@ == utf8(text@),
            pattern@ == utf8(needle@),
            last == haystack@.len() - pattern@.len(),
            at <= last,
            forall|k: int| 0 <= k < at ==> !occurs_at(haystack@, pattern@, k),
        decreases last - at,
    {
        if matches_at(haystack, pattern, at) {
            return true;
        }
        if at == last {
            assert forall|k: int| !occurs_at(haystack@, pattern@, k) by {}
            return false;
        }
        at = at + 1;
    }
}

/// An ASCII decimal digit.
pub open spec fn is_digit(byte: u8) -> bool {
    0x30 <= byte <= 0x39
}

/// Every byte is a decimal digit.
pub open spec fn all_digits(digits: Seq<u8>) -> bool {
    forall|i: int| 0 <= i < digits.len() ==> is_digit(#[trigger] digits[i])
}

/// The number that a run of decimal digits stands for, most significant
/// digit first; leading zeros count for nothing.
pub open spec fn digits_value(digits: Seq<u8>) -> nat
    decreases digits.len(),
{
    if digits.len() == 0 {
        0
    } else {
        digits_value(digits.drop_last()) * 10 + (digits.last() - 0x30) as nat
    }
}

/// The number that a decimal text stands for: an optional `+`, then one or
/// more digits and nothing else.
pub open spec fn decimal_value(text: Seq<u8>) -> Option<nat> {
    let digits = if text.len() > 0 && text[0] == 0x2b {
        text.drop_first()
    } else {
        text
    };
    if digits.len() > 0 && all_digits(digits) {
        Some(digits_value(digits))
    } else {
        None
    }
}

/// The digits of a positive number, most significant first; none for zero.
pub open spec fn significant_digits(value: nat) -> Seq<u8>
    decreases value,
{
    if value == 0 {
        seq![]
    } else {
        significant_digits(value / 10).push((0x30 + value % 10) as u8)
    }
}

/// The shortest decimal text of a number.
pub open spec fn decimal_digits(value: nat) -> Seq<u8> {
    if value == 0 {
        seq![0x30u8]
    } else {
        significant_digits(value)
    }
}

proof fn lemma_digits_value_prefix(digits: Seq<u8>, upto: int)
    requires
        0 <= upto <= digits.len(),
    ensures
        digits_value(digits.subrange(0, upto)) <= digits_value(digits),
    decreases digits.len(),
{
    if upto < digits.len() {
        lemma_digits_value_prefix(digits.drop_last(), upto);
        assert(digits.drop_last().subrange(0, upto) =~= digits.subrange(0, upto));
        assert(digits.last() >= 0);
    } else {
        assert(digits.subrange(0, upto) =~= digits);
    }
}

proof fn lemma_significant_digits(value: nat)
    ensures
        all_digits(significant_digits(value)),
        digits_value(significant_digits(value)) == value,
        value > 0 ==> significant_digits(value).len() > 0,
    decreases value,
{
    if value > 0 {
        lemma_significant_digits(value / 10);
        let digits = significant_digits(value);
        assert(digits.drop_last() =~= significant_digits(value / 10));
        assert(digits.last() == (0x30 + value % 10) as u8);
    }
}

/// Reading back the decimal text of a number gives that number.
pub proof fn lemma_decimal_round_trip(value: nat)
    ensures
        decimal_value(decimal_digits(value)) == Some(value),
{
    let text = decimal_digits(value);
    if value == 0 {
        assert(text.len() == 1 && text[0] == 0x30);
        assert(text.drop_last() =~= Seq::<u8>::empty());
        assert(digits_value(text) == 0) by {
            reveal_with_fuel(digits_value, 2);
        }
    } else {
        lemma_significant_digits(value);
        assert(is_digit(text[0]));
    }
}

/// Reads a decimal number as `str::parse::<usize>` does: an optional `+`,
/// then digits only; `None` for anything else and for a number that does not
/// fit.
pub fn parse_decimal(text: &str) -> (value: Option<usize>)
    ensures
        value == match decimal_value(utf8(text@)) {
            Some(n) => if n <= usize::MAX {
                Some(n as usize)
            } else {
                None
            },
            None => None,
        },
{
    let bytes = text.as_bytes();
    let start: usize = if bytes.len() > 0 && bytes[0] == 0x2b {
        1
    } else {
        0
    };
    let ghost digits = bytes@.subrange(start as int, bytes@.len() as int);
    assert(digits == if bytes@.len() > 0 && bytes@[0] == 0x2b {
        bytes@.drop_first()
    } else {
        bytes@
    }) by {
        assert(bytes@.subrange(0, bytes@.len() as int) =~= bytes@);
    }
    if start == bytes.len() {
        return None;
    }
    let mut total: usize = 0;
    let mut i: usize = start;
    while i < bytes.len()
        invariant
            start <= i <= bytes@.len(),
            digits == bytes@.subrange(start as int, bytes@.len() as int),
            digits.len() > 0,
            all_digits(digits.subrange(0, i - start)),
            total == digits_value(digits.subrange(0, i - start)),
            bytes@ == utf8(text@),
            digits == if bytes@.len() > 0 && bytes@[0] == 0x2b {
                bytes@.drop_first()
            } else {
                bytes@
            },
        decreases bytes@.len() - i,
    {
        let byte = bytes[i];
        let ghost seen = digits.subrange(0, i - start);
        let ghost next = digits.subrange(0, i - start + 1);
        assert(next.drop_last() =~= seen);
        assert(next.last() == byte);
        if byte < 0x30 || byte > 0x39 {
            assert(!is_digit(digits[i - start]));
            return None;
        }
        assert(all_digits(next)) by {
            assert forall|k: int| 0 <= k < next.len() implies is_digit(#[trigger] next[k]) by {
                if k < seen.len() {
                    assert(next[k] == seen[k]);
                }
            }
        }
        let digit: usize = (byte - 0x30) as usize;
        let grown = match total.checked_mul(10) {
            Some(scaled) => scaled.checked_add(digit),
            None => None,
        };
        match grown {
            Some(sum) => {
                total = sum;
            },
            None => {
                proof {
                    assert(digits_value(next) > usize::MAX);
                    lemma_digits_value_prefix(digits, i - start + 1);
                    lemma_digits_prefix(digits, i - start + 1);
                }
                return None;
            },
        }
        i = i + 1;
    }
    assert(digits.subrange(0, i - start) =~= digits);
    Some(total)
}

/// A prefix of digits is digits.
proof fn lemma_digits_prefix(digits: Seq<u8>, upto: int)
    requires
        0 <= upto <= digits.len(),
    ensures
        all_digits(digits) ==> all_digits(digits.subrange(0, upto)),
{
    if all_digits(digits) {
        assert forall|k: int| 0 <= k < upto implies is_digit(
            #[trigger] digits.subrange(0, upto)[k],
        ) by {
            assert(digits.subrange(0, upto)[k] == digits[k]);
        }
    }
}

/// The shortest decimal text of a number, as characters.
pub open spec fn decimal_chars(value: nat) -> Seq<char> {
    decode_utf8(decimal_digits(value))
}

/// The shortest decimal text of `value`, as `usize::to_string` writes it.
pub fn decimal_text(value: usize) -> (text: String)
    ensures
        utf8(text@) == decimal_digits(value as nat),
        text@ == decimal_chars(value as nat),
{
    let mut digits: Vec<u8> = Vec::new();
    if value == 0 {
        digits.push(0x30);
    } else {
        let mut rest: usize = value;
        while rest > 0
            invariant
                significant_digits(value as nat) == significant_digits(rest as nat) + digits@,
                all_digits(digits@),
            decreases rest,
        {
            let digit: u8 = (rest % 10) as u8;
            let ghost before = digits@;
            digits.insert(0, 0x30 + digit);
            assert(digits@ =~= seq![(0x30 + digit) as u8] + before);
            assert(significant_digits(rest as nat) + before =~= significant_digits(
                (rest / 10) as nat,
            ) + digits@);
            rest = rest / 10;
        }
        assert(significant_digits(0) + digits@ =~= digits@);
    }
    assert forall|i: int| 0 <= i < digits@.len() implies digits@[i] <= 0x7f by {
        assert(is_digit(digits@[i]));
    }
    let text = ascii_text(digits);
    proof {
        encode_utf8_decode_utf8(text@);
    }
    text
}

/// The lower-case hexadecimal digit of a number below 16.
pub open spec fn hex_digit(nibble: nat) -> u8 {
    if nibble < 10 {
        (0x30 + nibble) as u8
    } else {
        (0x61 + nibble - 10) as u8
    }
}

/// The shortest lower-case hexadecimal text of a number.
pub open spec fn hex_digits(value: nat) -> Seq<u8>
    decreases value,
{
    if value < 16 {
        seq![hex_digit(value)]
    } else {
        hex_digits(value / 16).push(hex_digit(value % 16))
    }
}

/// A 16-bit number in lower-case hexadecimal, at least two digits wide.
pub open spec fn hex_pair(value: u16) -> Seq<u8> {
    if value < 16 {
        seq![0x30u8] + hex_digits(value as nat)
    } else {
        hex_digits(value as nat)
    }
}

fn hex_byte(nibble: u16) -> (digit: u8)
    requires
        nibble < 16,
    ensures
        digit == hex_digit(nibble as nat),
        digit <= 0x7f,
{
    if nibble < 10 {
        0x30 + nibble as u8
    } else {
        0x61 + (nibble as u8 - 10)
    }
}

/// A 16-bit number in lower-case hexadecimal, at least two digits wide, as
/// the format `{:02x}` writes it.
pub fn hex_text(value: u16) -> (text: String)
    ensures
        utf8(text@) == hex_pair(value),
{
    let mut digits: Vec<u8> = Vec::new();
    if value >= 0x1000 {
        digits.push(hex_byte(value / 0x1000));
    }
    if value >= 0x100 {
        digits.push(hex_byte((value / 0x100) % 16));
    }
    digits.push(hex_byte((value / 0x10) % 16));
    digits.push(hex_byte(value % 16));
    proof {
        reveal_with_fuel(hex_digits, 4);
        let v = value as nat;
        assert(v / 16 / 16 == v / 0x100 && v / 16 / 16 / 16 == v / 0x1000);
        assert(v < 0x10000);
        assert(digits@ =~= hex_pair(value));
    }
    ascii_text(digits)
}

/// Where the line that starts at `from` ends: the index of the first line
/// feed at or after `from`, or the length when there is none.
pub open spec fn line_end(bytes: Seq<u8>, from: int) -> int
    decreases bytes.len() - from,
{
    if from < 0 || from >= bytes.len() {
        bytes.len() as int
    } else if bytes[from] == 0x0a {
        from
    } else {
        line_end(bytes, from + 1)
    }
}

/// Where the text of the line from `from` to the line's end at `end`
/// stops: before a carriage return that stands right before the line feed.
pub open spec fn line_stop(bytes: Seq<u8>, from: int, end: int) -> int {
    if from < end < bytes.len() && bytes[end - 1] == 0x0d {
        end - 1
    } else {
        end
    }
}

/// The lines of a text from `from` on, as `str::lines` cuts them: a line
/// ends at a line feed, or at a carriage return and a line feed, neither of
/// which belongs to it; the last line needs no ending.
pub open spec fn lines_from(bytes: Seq<u8>, from: int) -> Seq<Seq<u8>>
    decreases bytes.len() - from,
{
    if from < 0 || from >= bytes.len() {
        seq![]
    } else {
        let end = line_end(bytes, from);
        if end < from || end >= bytes.len() {
            seq![bytes.subrange(from, bytes.len() as int)]
        } else {
            seq![bytes.subrange(from, line_stop(bytes, from, end))] + lines_from(bytes, end + 1)
        }
    }
}

/// The encodings of some texts, in order.
pub open spec fn encodings(texts: Seq<String>) -> Seq<Seq<u8>> {
    Seq::new(texts.len(), |i: int| utf8(texts[i]@))
}

/// A piece of a text that starts where the text does or after a one-byte
/// character, and ends where the text does or before a one-byte character,
/// is a text.
proof fn lemma_piece_is_text(bytes: Seq<u8>, from: int, to: int)
    requires
        valid_utf8(bytes),
        0 <= from <= to <= bytes.len(),
        from == 0 || bytes[from - 1] <= 0x7f,
        to == bytes.len() || bytes[to] <= 0x7f,
    ensures
        valid_utf8(bytes.subrange(from, to)),
{
    let rest = bytes.subrange(from, bytes.len() as int);
    assert(valid_utf8(rest)) by {
        if from == 0 {
            assert(rest =~= bytes);
        } else {
            is_char_boundary_iff_not_is_continuation_byte(bytes, from - 1);
            valid_utf8_split(bytes, from - 1);
            let tail = bytes.subrange(from - 1, bytes.len() as int);
            assert(tail[0] == bytes[from - 1]);
            assert(pop_first_scalar(tail) =~= rest);
        }
    }
    assert(is_char_boundary(rest, to - from)) by {
        if to == bytes.len() {
            is_char_boundary_start_end_of_seq(rest);
        } else {
            assert(rest[to - from] == bytes[to]);
            is_char_boundary_iff_not_is_continuation_byte(rest, to - from);
        }
    }
    valid_utf8_split(rest, to - from);
    assert(rest.subrange(0, to - from) =~= bytes.subrange(from, to));
}

/// Cuts a text into its lines, as `str::lines` does.
#[verifier::rlimit(30)]
pub fn split_lines(text: &str) -> (lines: Vec<String>)
    ensures
        encodings(lines@) == lines_from(utf8(text@), 0),
{
    let bytes = text.as_bytes();
    let mut lines: Vec<String> = Vec::new();
    let mut from: usize = 0;
    proof {
        encode_utf8_valid_utf8(text@);
        assert(encodings(lines@) =~= Seq::<Seq<u8>>::empty());
    }
    while from < bytes.len()
        invariant
            bytes@ == utf8(text@),
            valid_utf8(bytes@),
            from <= bytes@.len(),
            from < bytes@.len() ==> from == 0 || bytes@[from - 1] <= 0x7f,
            lines_from(bytes@, 0) == encodings(lines@) + lines_from(bytes@, from as int),
        decreases bytes@.len() - from,
    {
        let mut end: usize = from;
        while end < bytes.len() && bytes[end] != 0x0a
            invariant
                from <= end <= bytes@.len(),
                line_end(bytes@, from as int) == line_end(bytes@, end as int),
            decreases bytes@.len() - end,
        {
            end = end + 1;
        }
        let stop: usize = if from < end && end < bytes.len() && bytes[end - 1] == 0x0d {
            end - 1
        } else {
            end
        };
        let mut piece: Vec<u8> = Vec::new();
        let mut i: usize = from;
        while i < stop
            invariant
                from <= i <= stop <= bytes@.len(),
                piece@ == bytes@.subrange(from as int, i as int),
            decreases stop - i,
        {
            piece.push(bytes[i]);
            assert(piece@ =~= bytes@.subrange(from as int, i + 1));
            i = i + 1;
        }
        proof {
            lemma_piece_is_text(bytes@, from as int, stop as int);
        }
        let ghost before = lines@;
        let ghost further = if end < bytes@.len() {
            lines_from(bytes@, end + 1)
        } else {
            Seq::<Seq<u8>>::empty()
        };
        match string_from_utf8(piece) {
            Some(line) => {
                lines.push(line);
            },
            None => {},
        }
        assert(encodings(lines@) =~= encodings(before).push(
            bytes@.subrange(from as int, stop as int),
        ));
        assert(encodings(before) + (seq![bytes@.subrange(from as int, stop as int)] + further)
            =~= encodings(lines@) + further);
        if end == bytes.len() {
            from = end;
        } else {
            from = end + 1;
        }
    }
    assert(encodings(lines@) + Seq::<Seq<u8>>::empty() =~= encodings(lines@));
    lines
}

} // verus!
