//! Byte-level building blocks shared by the discovery and transfer protocols:
//! decimal numerals, and lines of fields separated by `|`.

use vstd::prelude::*;
use vstd::string::*;
use vstd::utf8::{
    char_is_scalar, decode_utf8, encode_scalar, encode_utf8, has_width_1_encoding,
    has_width_2_encoding, has_width_3_encoding, valid_utf8,
};

verus! {

/// The byte that separates the fields of a protocol line, `|`.
pub const FIELD_SEPARATOR: u8 = 0x7C;

/// The byte that ends a line of the transfer protocol, `\n`.
pub const LINE_END: u8 = 0x0A;

/// The ASCII code of `0`.
pub const ASCII_ZERO: u8 = 0x30;

/// The ASCII code of `+`.
pub const ASCII_PLUS: u8 = 0x2B;

// ---------------------------------------------------------------------------
// Decimal numerals
// ---------------------------------------------------------------------------

/// Whether `b` is one of the ASCII digits `0` to `9`.
pub open spec fn is_digit(b: u8) -> bool {
    0x30 <= b <= 0x39
}

/// The ASCII digit that stands for `d`, for `d < 10`.
pub open spec fn digit_byte(d: nat) -> u8
    recommends
        d < 10,
{
    (0x30 + d) as u8
}

/// The shortest decimal numeral of `n`: no sign, no leading zero.
pub open spec fn decimal(n: nat) -> Seq<u8>
    decreases n,
{
    if n < 10 {
        seq![digit_byte(n)]
    } else {
        decimal(n / 10).push(digit_byte(n % 10))
    }
}

/// Whether every byte of `s` is an ASCII digit.
pub open spec fn all_digits(s: Seq<u8>) -> bool {
    forall|i: int| 0 <= i < s.len() ==> is_digit(#[trigger] s[i])
}

/// The number that a string of digits denotes, most significant digit first.
/// The empty string denotes zero.
pub open spec fn digits_value(s: Seq<u8>) -> nat
    decreases s.len(),
{
    if s.len() == 0 {
        0
    } else {
        digits_value(s.drop_last()) * 10 + (s.last() - 0x30) as nat
    }
}

/// The digits of a numeral, without the one `+` that may precede them.
pub open spec fn unsigned_part(s: Seq<u8>) -> Seq<u8> {
    if s.len() > 0 && s[0] == 0x2B {
        s.subrange(1, s.len() as int)
    } else {
        s
    }
}

/// Reads a decimal numeral that denotes a number of at most `max`.
///
/// A numeral is one or more ASCII digits, optionally preceded by a single
/// `+`. Leading zeros are allowed. Anything else, and any numeral that denotes
/// more than `max`, reads as `None`.
pub open spec fn parse_decimal(s: Seq<u8>, max: nat) -> Option<nat> {
    let digits = unsigned_part(s);
    if digits.len() > 0 && all_digits(digits) && digits_value(digits) <= max {
        Some(digits_value(digits))
    } else {
        None
    }
}

/// Every byte of `decimal(n)` is a digit, and the numeral is not empty.
pub proof fn lemma_decimal_is_digits(n: nat)
    ensures
        decimal(n).len() > 0,
        all_digits(decimal(n)),
        decimal(n)[0] != 0x2B,
        !decimal(n).contains(0x7C),
        !decimal(n).contains(0x0A),
    decreases n,
{
    if n >= 10 {
        lemma_decimal_is_digits(n / 10);
        let head = decimal(n / 10);
        assert(decimal(n)[0] == head[0]);
        assert forall|i: int| 0 <= i < decimal(n).len() implies is_digit(
            #[trigger] decimal(n)[i],
        ) by {
            if i < head.len() {
                assert(decimal(n)[i] == head[i]);
            }
        }
    }
}

/// A numeral written by `decimal` denotes the number it was written for.
pub proof fn lemma_decimal_value(n: nat)
    ensures
        digits_value(decimal(n)) == n,
    decreases n,
{
    if n < 10 {
        let s = decimal(n);
        assert(s.drop_last().len() == 0);
        assert(digits_value(s.drop_last()) == 0);
    } else {
        lemma_decimal_value(n / 10);
        let s = decimal(n);
        assert(s.drop_last() =~= decimal(n / 10));
    }
}

/// Writing a number and reading it back gives the number, whenever it is
/// within the reader's bound.
pub proof fn lemma_parse_decimal_round_trip(n: nat, max: nat)
    requires
        n <= max,
    ensures
        parse_decimal(decimal(n), max) == Some(n),
{
    lemma_decimal_is_digits(n);
    lemma_decimal_value(n);
}

/// Reading more digits never makes the number smaller.
proof fn lemma_digits_value_prefix(s: Seq<u8>, k: int)
    requires
        0 <= k <= s.len(),
        all_digits(s),
    ensures
        digits_value(s.subrange(0, k)) <= digits_value(s),
    decreases s.len() - k,
{
    if k < s.len() {
        lemma_digits_value_prefix(s, k + 1);
        let longer = s.subrange(0, k + 1);
        assert(longer.drop_last() =~= s.subrange(0, k));
        assert(is_digit(s[k]));
        assert(longer.last() == s[k]);
    } else {
        assert(s.subrange(0, k) =~= s);
    }
}

/// Appends the shortest decimal numeral of `n` to `out`.
pub fn push_decimal(out: &mut Vec<u8>, n: u64)
    ensures
        final(out)@ == old(out)@ + decimal(n as nat),
    decreases n,
{
    if n >= 10 {
        push_decimal(out, n / 10);
    }
    let digit: u8 = (n % 10) as u8;
    out.push(ASCII_ZERO + digit);
    assert(out@ =~= old(out)@ + decimal(n as nat));
}

/// Reads a decimal numeral of at most `max` from a field of a protocol line.
pub fn parse_number(field: &[u8], max: u64) -> (value: Option<u64>)
    ensures
        match parse_decimal(field@, max as nat) {
            Some(n) => value == Some(n as u64),
            None => value is None,
        },
{
    let len = field.len();
    let start: usize = if len > 0 && field[0] == ASCII_PLUS {
        1
    } else {
        0
    };
    if start == len {
        return None;
    }
    let ghost digits = unsigned_part(field@);
    assert(digits =~= field@.subrange(start as int, len as int));
    let mut acc: u64 = 0;
    let mut i: usize = start;
    while i < len
        invariant
            start <= i <= len,
            len == field@.len(),
            digits == unsigned_part(field@),
            digits == field@.subrange(start as int, len as int),
            all_digits(digits.subrange(0, i - start)),
            acc == digits_value(digits.subrange(0, i - start)),
            acc <= max,
        decreases len - i,
    {
        let b = field[i];
        let ghost seen = digits.subrange(0, i - start);
        let ghost next = digits.subrange(0, i + 1 - start);
        assert(next.drop_last() =~= seen);
        assert(next.last() == b);
        if b < 0x30 || b > 0x39 {
            assert(!is_digit(digits[i - start]));
            return None;
        }
        let d: u64 = (b - ASCII_ZERO) as u64;
        if d > max || acc > (max - d) / 10 {
            proof {
                assert(digits_value(next) > max);
                if all_digits(digits) {
                    lemma_digits_value_prefix(digits, i + 1 - start);
                }
            }
            return None;
        }
        acc = acc * 10 + d;
        i = i + 1;
        proof {
            assert forall|k: int| 0 <= k < next.len() implies is_digit(#[trigger] next[k]) by {
                if k < seen.len() {
                    assert(next[k] == seen[k]);
                }
            }
        }
    }
    assert(digits.subrange(0, i - start) =~= digits);
    Some(acc)
}

// ---------------------------------------------------------------------------
// Lines of fields
// ---------------------------------------------------------------------------

/// The fields of `line`: the stretches of bytes between one separator and the
/// next. A line without a separator is one field; an empty line is one empty
/// field.
pub open spec fn split(line: Seq<u8>, sep: u8) -> Seq<Seq<u8>>
    decreases line.len(),
{
    if line.len() == 0 {
        seq![Seq::<u8>::empty()]
    } else {
        let before = split(line.drop_last(), sep);
        if line.last() == sep {
            before.push(Seq::<u8>::empty())
        } else {
            before.drop_last().push(before.last().push(line.last()))
        }
    }
}

/// The line made of `fields` with one separator between each two neighbours.
pub open spec fn join(fields: Seq<Seq<u8>>, sep: u8) -> Seq<u8>
    decreases fields.len(),
{
    if fields.len() == 0 {
        Seq::<u8>::empty()
    } else if fields.len() == 1 {
        fields[0]
    } else {
        join(fields.drop_last(), sep).push(sep) + fields.last()
    }
}

/// The join of three and of four fields, written out: the first field, and
/// then each of the others behind one separator.
pub proof fn lemma_join_written_out(a: Seq<u8>, b: Seq<u8>, c: Seq<u8>, d: Seq<u8>, sep: u8)
    ensures
        join(seq![a, b, c], sep) == (a.push(sep) + b).push(sep) + c,
        join(seq![a, b, c, d], sep) == ((a.push(sep) + b).push(sep) + c).push(sep) + d,
{
    let four = seq![a, b, c, d];
    let three = seq![a, b, c];
    let two = seq![a, b];
    let one = seq![a];
    assert(four.drop_last() =~= three);
    assert(three.drop_last() =~= two);
    assert(two.drop_last() =~= one);
    assert(join(one, sep) == a);
    assert(join(two, sep) == join(one, sep).push(sep) + b);
    assert(join(three, sep) == join(two, sep).push(sep) + c);
    assert(join(four, sep) == join(three, sep).push(sep) + d);
}

/// Whether no field holds the separator.
pub open spec fn separator_free(fields: Seq<Seq<u8>>, sep: u8) -> bool {
    forall|i: int| 0 <= i < fields.len() ==> !(#[trigger] fields[i]).contains(sep)
}

/// The fields that a vector of byte vectors holds.
pub open spec fn fields_view(fields: Seq<Vec<u8>>) -> Seq<Seq<u8>> {
    fields.map_values(|f: Vec<u8>| f@)
}

/// A line always has at least one field, and no field holds the separator.
pub proof fn lemma_split_fields(line: Seq<u8>, sep: u8)
    ensures
        split(line, sep).len() >= 1,
        separator_free(split(line, sep), sep),
    decreases line.len(),
{
    if line.len() > 0 {
        lemma_split_fields(line.drop_last(), sep);
        let before = split(line.drop_last(), sep);
        let fields = split(line, sep);
        assert forall|i: int| 0 <= i < fields.len() implies !(#[trigger] fields[i]).contains(
            sep,
        ) by {
            if i < before.len() - 1 {
                assert(fields[i] == before[i]);
            } else if line.last() != sep {
                let grown = before.last().push(line.last());
                assert(fields[i] == grown);
                if grown.contains(sep) {
                    let k = choose|k: int| 0 <= k < grown.len() && grown[k] == sep;
                    assert(before.last()[k] == sep);
                    assert(before.last().contains(sep));
                }
            } else if i == before.len() - 1 {
                assert(fields[i] == before[i]);
            }
        }
    }
}

/// Joining the fields of a line gives the line back.
pub proof fn lemma_join_split(line: Seq<u8>, sep: u8)
    ensures
        join(split(line, sep), sep) == line,
    decreases line.len(),
{
    if line.len() == 0 {
        assert(join(split(line, sep), sep) =~= line);
    } else {
        lemma_join_split(line.drop_last(), sep);
        lemma_split_fields(line.drop_last(), sep);
        let before = split(line.drop_last(), sep);
        let fields = split(line, sep);
        if line.last() == sep {
            assert(fields.drop_last() =~= before);
            assert(join(fields, sep) =~= line.drop_last().push(sep) + Seq::<u8>::empty());
            assert(join(fields, sep) =~= line);
        } else if before.len() == 1 {
            assert(join(fields, sep) =~= line);
        } else {
            assert(fields.drop_last() =~= before.drop_last());
            assert(join(fields, sep) =~= join(before, sep).push(line.last()));
            assert(join(fields, sep) =~= line);
        }
    }
}

/// A field that holds no separator is the only field of its line.
pub proof fn lemma_split_single(field: Seq<u8>, sep: u8)
    requires
        !field.contains(sep),
    ensures
        split(field, sep) == seq![field],
    decreases field.len(),
{
    if field.len() == 0 {
        assert(field =~= Seq::<u8>::empty());
    } else {
        let shorter = field.drop_last();
        assert(!shorter.contains(sep)) by {
            if shorter.contains(sep) {
                let k = choose|k: int| 0 <= k < shorter.len() && shorter[k] == sep;
                assert(field[k] == sep);
            }
        }
        lemma_split_single(shorter, sep);
        assert(field.last() != sep) by {
            assert(field[field.len() - 1] == field.last());
        }
        assert(shorter.push(field.last()) =~= field);
        let before = split(shorter, sep);
        assert(before.last() == shorter);
        assert(before.drop_last() =~= Seq::<Seq<u8>>::empty());
        assert(split(field, sep) == before.drop_last().push(before.last().push(field.last())));
        assert(split(field, sep) =~= seq![field]);
    }
}

/// Appending a separator and a separator-free field to a line appends that
/// field to the line's fields.
pub proof fn lemma_split_append_field(line: Seq<u8>, field: Seq<u8>, sep: u8)
    requires
        !field.contains(sep),
    ensures
        split(line.push(sep) + field, sep) == split(line, sep).push(field),
    decreases field.len(),
{
    let whole = line.push(sep) + field;
    if field.len() == 0 {
        assert(field =~= Seq::<u8>::empty());
        assert(whole.drop_last() =~= line);
    } else {
        let shorter = field.drop_last();
        assert(!shorter.contains(sep)) by {
            if shorter.contains(sep) {
                let k = choose|k: int| 0 <= k < shorter.len() && shorter[k] == sep;
                assert(field[k] == sep);
            }
        }
        lemma_split_append_field(line, shorter, sep);
        assert(field.last() != sep) by {
            assert(field[field.len() - 1] == field.last());
        }
        assert(whole.drop_last() =~= line.push(sep) + shorter);
        assert(whole.last() == field.last());
        assert(shorter.push(field.last()) =~= field);
        let before = split(whole.drop_last(), sep);
        assert(before == split(line, sep).push(shorter));
        assert(before.last() == shorter);
        assert(before.drop_last() =~= split(line, sep));
        assert(split(whole, sep) == before.drop_last().push(before.last().push(whole.last())));
        assert(split(whole, sep) =~= split(line, sep).push(field));
    }
}

/// Splitting the join of separator-free fields gives the fields back: `split`
/// is the one inverse of `join` on such fields.
pub proof fn lemma_split_join(fields: Seq<Seq<u8>>, sep: u8)
    requires
        fields.len() >= 1,
        separator_free(fields, sep),
    ensures
        split(join(fields, sep), sep) == fields,
    decreases fields.len(),
{
    if fields.len() == 1 {
        lemma_split_single(fields[0], sep);
        assert(seq![fields[0]] =~= fields);
    } else {
        let before = fields.drop_last();
        assert(separator_free(before, sep)) by {
            assert forall|i: int| 0 <= i < before.len() implies !(#[trigger] before[i]).contains(
                sep,
            ) by {
                assert(before[i] == fields[i]);
            }
        }
        lemma_split_join(before, sep);
        assert(!fields.last().contains(sep)) by {
            assert(fields[fields.len() - 1] == fields.last());
        }
        lemma_split_append_field(join(before, sep), fields.last(), sep);
        assert(before.push(fields.last()) =~= fields);
    }
}

/// Splits a line into its fields.
pub fn split_fields(line: &[u8], sep: u8) -> (fields: Vec<Vec<u8>>)
    ensures
        fields_view(fields@) == split(line@, sep),
{
    let mut fields: Vec<Vec<u8>> = Vec::new();
    let mut current: Vec<u8> = Vec::new();
    let len = line.len();
    let mut i: usize = 0;
    assert(line@.subrange(0, 0) =~= Seq::<u8>::empty());
    assert(fields_view(fields@).push(current@) =~= split(line@.subrange(0, 0), sep));
    while i < len
        invariant
            i <= len,
            len == line@.len(),
            fields_view(fields@).push(current@) == split(line@.subrange(0, i as int), sep),
        decreases len - i,
    {
        let b = line[i];
        let ghost seen = line@.subrange(0, i as int);
        let ghost next = line@.subrange(0, i + 1);
        let ghost done = fields_view(fields@);
        let ghost open = current@;
        assert(next.drop_last() =~= seen);
        assert(next.last() == b);
        assert(done.push(open).drop_last() =~= done);
        if b == sep {
            fields.push(current);
            current = Vec::new();
            assert(fields_view(fields@) =~= done.push(open));
        } else {
            current.push(b);
        }
        i = i + 1;
        assert(fields_view(fields@).push(current@) =~= split(next, sep));
    }
    assert(line@.subrange(0, i as int) =~= line@);
    let ghost done = fields_view(fields@);
    fields.push(current);
    assert(fields_view(fields@) =~= done.push(current@));
    fields
}

/// Appends the bytes of `part` to `out`.
pub fn push_bytes(out: &mut Vec<u8>, part: &[u8])
    ensures
        final(out)@ == old(out)@ + part@,
{
    let len = part.len();
    let mut i: usize = 0;
    while i < len
        invariant
            i <= len,
            len == part@.len(),
            out@ == old(out)@ + part@.subrange(0, i as int),
        decreases len - i,
    {
        out.push(part[i]);
        i = i + 1;
        assert(out@ =~= old(out)@ + part@.subrange(0, i as int));
    }
    assert(part@.subrange(0, i as int) =~= part@);
}

/// Whether two byte strings are equal.
pub fn bytes_equal(a: &[u8], b: &[u8]) -> (same: bool)
    ensures
        same == (a@ == b@),
{
    if a.len() != b.len() {
        return false;
    }
    let len = a.len();
    let mut i: usize = 0;
    while i < len
        invariant
            i <= len,
            len == a@.len(),
            len == b@.len(),
            a@.subrange(0, i as int) == b@.subrange(0, i as int),
        decreases len - i,
    {
        if a[i] != b[i] {
            return false;
        }
        i = i + 1;
        assert(a@.subrange(0, i as int) =~= a@.subrange(0, i - 1).push(a@[i - 1]));
        assert(b@.subrange(0, i as int) =~= b@.subrange(0, i - 1).push(b@[i - 1]));
    }
    assert(a@.subrange(0, i as int) =~= a@);
    assert(b@.subrange(0, i as int) =~= b@);
    true
}

// ---------------------------------------------------------------------------
// Text
// ---------------------------------------------------------------------------

/// The text whose characters are the bytes of an ASCII string, one for one.
pub open spec fn ascii_text(bytes: Seq<u8>) -> Seq<char> {
    bytes.map_values(|b: u8| b as char)
}

/// The text that `String::from_utf8_lossy` makes of bytes that are not valid
/// UTF-8, with a replacement character for each malformed stretch.
pub uninterp spec fn lossy_repair(bytes: Seq<u8>) -> Seq<char>;

/// The text that a field of a protocol line stands for: its UTF-8 decoding
/// where the bytes are valid UTF-8, and a repaired reading where they are not.
pub open spec fn field_text(bytes: Seq<u8>) -> Seq<char> {
    if valid_utf8(bytes) {
        decode_utf8(bytes)
    } else {
        lossy_repair(bytes)
    }
}

/// Calls `String::from_utf8_lossy` and takes ownership of what it returns.
/// The contract claims what the function's documentation says: valid UTF-8
/// comes back as the string it encodes; other input comes back repaired, and
/// the same bytes are always repaired in the same way.
#[verifier::external_body]
pub(crate) fn decode_lossy(bytes: &[u8]) -> (text: String)
    ensures
        valid_utf8(bytes@) ==> text@ == decode_utf8(bytes@),
        !valid_utf8(bytes@) ==> text@ == lossy_repair(bytes@),
{
    String::from_utf8_lossy(bytes).into_owned()
}

/// Reads a field of a protocol line as text.
pub fn read_text(field: &[u8]) -> (text: String)
    ensures
        text@ == field_text(field@),
{
    decode_lossy(field)
}

/// An ASCII character occurs in a text exactly if its byte occurs in the
/// UTF-8 encoding of the text: the bytes of all other characters are
/// `0x80` or more.
pub proof fn lemma_ascii_in_encoding(text: Seq<char>, b: u8)
    requires
        b < 0x80,
    ensures
        encode_utf8(text).contains(b) <==> text.contains(b as char),
    decreases text.len(),
{
    if text.len() > 0 {
        let first = text[0];
        let rest = text.drop_first();
        let head = encode_scalar(first as u32);
        let tail = encode_utf8(rest);
        lemma_ascii_in_encoding(rest, b);
        lemma_ascii_in_scalar(first, b);
        assert(encode_utf8(text) == head + tail);
        if head.contains(b) {
            let k = choose|k: int| 0 <= k < head.len() && head[k] == b;
            assert((head + tail)[k] == b);
            assert(text[0] == b as char);
        }
        if tail.contains(b) {
            let k = choose|k: int| 0 <= k < tail.len() && tail[k] == b;
            assert((head + tail)[head.len() + k] == b);
            let j = choose|j: int| 0 <= j < rest.len() && rest[j] == b as char;
            assert(text[j + 1] == b as char);
        }
        if (head + tail).contains(b) {
            let k = choose|k: int| 0 <= k < (head + tail).len() && (head + tail)[k] == b;
            if k < head.len() {
                assert(head[k] == b);
            } else {
                assert(tail[k - head.len()] == b);
            }
        }
        if text.contains(b as char) {
            let j = choose|j: int| 0 <= j < text.len() && text[j] == b as char;
            if j == 0 {
                assert(head.contains(b));
            } else {
                assert(rest[j - 1] == b as char);
                assert(tail.contains(b));
            }
        }
    }
}

/// The encoding of one character holds an ASCII byte exactly if the
/// character is that ASCII character.
proof fn lemma_ascii_in_scalar(c: char, b: u8)
    requires
        b < 0x80,
    ensures
        encode_scalar(c as u32).contains(b) <==> c == b as char,
{
    let s = c as u32;
    let bytes = encode_scalar(s);
    char_is_scalar(c);
    assert((b as char) as u32 == b as u32);
    if has_width_1_encoding(s) {
        assert((s & 0x7F) as u8 == s) by (bit_vector)
            requires
                s <= 0x7F,
        ;
        assert(bytes[0] == s);
        if c == b as char {
            assert(bytes[0] == b);
        }
        if bytes.contains(b) {
            let k = choose|k: int| 0 <= k < bytes.len() && bytes[k] == b;
            assert(s == b as u32);
            assert(c == (s as char));
        }
    } else {
        assert(0xC0u8 | ((s >> 6) & 0x1F) as u8 >= 0x80) by (bit_vector);
        assert(0xE0u8 | ((s >> 12) & 0x0F) as u8 >= 0x80) by (bit_vector);
        assert(0xF0u8 | ((s >> 18) & 0x7) as u8 >= 0x80) by (bit_vector);
        assert(0x80u8 | (s & 0x3F) as u8 >= 0x80) by (bit_vector);
        assert(0x80u8 | ((s >> 6) & 0x3F) as u8 >= 0x80) by (bit_vector);
        assert(0x80u8 | ((s >> 12) & 0x3F) as u8 >= 0x80) by (bit_vector);
        if bytes.contains(b) {
            let k = choose|k: int| 0 <= k < bytes.len() && bytes[k] == b;
            if has_width_2_encoding(s) {
                assert(bytes[k] >= 0x80);
            } else if has_width_3_encoding(s) {
                assert(bytes[k] >= 0x80);
            } else {
                assert(bytes[k] >= 0x80);
            }
        }
    }
}

/// The one-character string of a decimal digit.
fn digit_str(d: u8) -> (s: &'static str)
    requires
        d < 10,
    ensures
        s@ == ascii_text(seq![digit_byte(d as nat)]),
{
    proof {
        reveal_strlit("0");
        reveal_strlit("1");
        reveal_strlit("2");
        reveal_strlit("3");
        reveal_strlit("4");
        reveal_strlit("5");
        reveal_strlit("6");
        reveal_strlit("7");
        reveal_strlit("8");
        reveal_strlit("9");
    }
    let s = match d {
        0 => "0",
        1 => "1",
        2 => "2",
        3 => "3",
        4 => "4",
        5 => "5",
        6 => "6",
        7 => "7",
        8 => "8",
        _ => "9",
    };
    assert(s@ =~= ascii_text(seq![digit_byte(d as nat)]));
    s
}

/// Appends the shortest decimal numeral of `n` to a string.
pub fn push_decimal_text(out: &mut String, n: u64)
    ensures
        final(out)@ == old(out)@ + ascii_text(decimal(n as nat)),
    decreases n,
{
    if n >= 10 {
        push_decimal_text(out, n / 10);
    }
    let digit: u8 = (n % 10) as u8;
    out.append(digit_str(digit));
    assert(out@ =~= old(out)@ + ascii_text(decimal(n as nat)));
}

} // verus!
