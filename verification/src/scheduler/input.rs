//! Reading records: lines of six integers separated by single spaces.

use vstd::prelude::*;

verus! {

/// Why an input was turned down. Lines are counted from zero.
#[derive(Copy, Clone, PartialEq, Eq, Structural, Debug)]
pub enum InputError {
    /// There is no first line.
    MissingHeader,
    /// There are more job lines than ids to tell the jobs apart.
    TooManyJobs,
    /// A field of the line is not an integer that fits in 32 bits.
    NotANumber { line: usize },
    /// The line does not have six fields.
    WrongFieldCount { line: usize },
    /// The first line gives a negative number of vehicles or of jobs.
    NegativeCount,
    /// A coordinate of the line is too far from zero.
    OutOfRange { line: usize },
}

/// Number of fields of a record.
pub const FIELDS: usize = 6;

/// Largest magnitude of a 32-bit integer.
pub const MAGNITUDE_LIMIT: i64 = 0x8000_0000;

/// The byte is a decimal digit.
pub open spec fn is_digit(b: u8) -> bool {
    0x30 <= b <= 0x39
}

/// Every byte is a decimal digit.
pub open spec fn all_digits(s: Seq<u8>) -> bool {
    forall|i: int| 0 <= i < s.len() ==> is_digit(#[trigger] s[i])
}

/// The number that a run of decimal digits stands for.
pub open spec fn digits_value(s: Seq<u8>) -> int
    decreases s.len(),
{
    if s.len() == 0 {
        0
    } else {
        digits_value(s.drop_last()) * 10 + (s.last() - 0x30)
    }
}

/// The part of a field after its sign, if it has one.
pub open spec fn unsigned_part(s: Seq<u8>) -> Seq<u8> {
    if s.len() > 0 && (s[0] == 0x2d || s[0] == 0x2b) {
        s.subrange(1, s.len() as int)
    } else {
        s
    }
}

/// The integer that a field stands for: an optional `+` or `-`, then one or
/// more decimal digits, the whole within 32 bits.
pub open spec fn field_value(s: Seq<u8>) -> Option<i32> {
    let digits = unsigned_part(s);
    if digits.len() == 0 || !all_digits(digits) {
        None
    } else {
        let magnitude = digits_value(digits);
        let value = if s[0] == 0x2d {
            -magnitude
        } else {
            magnitude
        };
        if i32::MIN <= value <= i32::MAX {
            Some(value as i32)
        } else {
            None
        }
    }
}

/// The fields of a line: the runs of bytes between its spaces. A line with
/// `n` spaces has `n + 1` fields, some of which may be empty.
pub open spec fn fields_of(line: Seq<u8>) -> Seq<Seq<u8>>
    decreases line.len(),
{
    if line.len() == 0 {
        seq![Seq::<u8>::empty()]
    } else {
        let before = fields_of(line.drop_last());
        if line.last() == 0x20 {
            before.push(Seq::<u8>::empty())
        } else {
            before.drop_last().push(before.last().push(line.last()))
        }
    }
}

/// Every field of the line stands for an integer.
pub open spec fn all_numbers(line: Seq<u8>) -> bool {
    forall|k: int| 0 <= k < fields_of(line).len() ==> field_value(#[trigger] fields_of(line)[k]) is Some
}

/// The integers of a line whose fields all stand for one.
pub open spec fn numbers_of(line: Seq<u8>) -> Seq<i32> {
    fields_of(line).map_values(|f: Seq<u8>| field_value(f).unwrap())
}

/// What is wrong with a line as a record, if anything: a field that is no
/// integer, or, failing that, a number of fields other than six.
pub open spec fn record_fault(line: Seq<u8>, line_no: usize) -> Option<InputError> {
    if !all_numbers(line) {
        Some(InputError::NotANumber { line: line_no })
    } else if fields_of(line).len() != FIELDS {
        Some(InputError::WrongFieldCount { line: line_no })
    } else {
        None
    }
}

/// The value of a run of digits is never negative and never less than that
/// of a run it begins with.
pub proof fn lemma_digits_monotone(s: Seq<u8>, n: int)
    requires
        all_digits(s),
        0 <= n <= s.len(),
    ensures
        0 <= digits_value(s.take(n)) <= digits_value(s),
    decreases s.len() - n,
{
    if n == s.len() {
        assert(s.take(n) =~= s);
        lemma_digits_nonnegative(s);
    } else {
        lemma_digits_monotone(s, n + 1);
        assert(s.take(n + 1).drop_last() =~= s.take(n));
        lemma_digits_nonnegative(s.take(n));
    }
}

/// The value of a run of digits is never negative.
pub proof fn lemma_digits_nonnegative(s: Seq<u8>)
    requires
        all_digits(s),
    ensures
        0 <= digits_value(s),
    decreases s.len(),
{
    if s.len() > 0 {
        lemma_digits_nonnegative(s.drop_last());
    }
}

/// The integer that a field stands for, if it stands for one.
pub fn parse_int(field: &[u8]) -> (value: Option<i32>)
    ensures
        value == field_value(field@),
{
    let n = field.len();
    if n == 0 {
        return None;
    }
    let negative = field[0] == 0x2d;
    let start: usize = if field[0] == 0x2d || field[0] == 0x2b {
        1
    } else {
        0
    };
    let ghost digits = unsigned_part(field@);
    if start == n {
        return None;
    }
    let mut acc: i64 = 0;
    let mut i: usize = start;
    while i < n
        invariant
            start <= i <= n,
            n == field@.len(),
            start <= 1,
            digits == unsigned_part(field@),
            digits.len() == n - start,
            forall|k: int| 0 <= k < digits.len() ==> digits[k] == field@[k + start],
            all_digits(digits.take(i - start)),
            acc == digits_value(digits.take(i - start)),
            0 <= acc <= MAGNITUDE_LIMIT,
        decreases n - i,
    {
        let b = field[i];
        if b < 0x30 || b > 0x39 {
            proof {
                assert(!is_digit(digits[i - start]));
            }
            return None;
        }
        proof {
            assert(digits.take(i + 1 - start).drop_last() =~= digits.take(i - start));
            assert forall|k: int| 0 <= k < i + 1 - start implies is_digit(
                #[trigger] digits.take(i + 1 - start)[k],
            ) by {}
        }
        acc = acc * 10 + (b - 0x30) as i64;
        if acc > MAGNITUDE_LIMIT {
            proof {
                if all_digits(digits) {
                    lemma_digits_monotone(digits, i + 1 - start);
                }
            }
            return None;
        }
        i = i + 1;
    }
    proof {
        assert(digits.take(n - start) =~= digits);
    }
    if negative {
        Some((-acc) as i32)
    } else if acc > 0x7fff_ffff {
        None
    } else {
        Some(acc as i32)
    }
}

/// The fields of a sequence of byte strings.
pub open spec fn views_of(fields: Seq<Vec<u8>>) -> Seq<Seq<u8>> {
    fields.map_values(|f: Vec<u8>| f@)
}

/// Cuts a line at its spaces.
pub fn split_fields(line: &[u8]) -> (fields: Vec<Vec<u8>>)
    ensures
        views_of(fields@) == fields_of(line@),
{
    let mut fields: Vec<Vec<u8>> = Vec::new();
    let mut current: Vec<u8> = Vec::new();
    let mut i: usize = 0;
    while i < line.len()
        invariant
            i <= line@.len(),
            views_of(fields@).push(current@) == fields_of(line@.take(i as int)),
        decreases line.len() - i,
    {
        let b = line[i];
        proof {
            assert(line@.take(i + 1).drop_last() =~= line@.take(i as int));
        }
        if b == 0x20 {
            fields.push(current);
            current = Vec::new();
        } else {
            current.push(b);
        }
        i = i + 1;
    }
    proof {
        assert(line@.take(i as int) =~= line@);
    }
    fields.push(current);
    fields
}

/// The six integers of a record, or what is wrong with the line.
pub fn parse_record(line: &[u8], line_no: usize) -> (record: Result<Vec<i32>, InputError>)
    ensures
        match record {
            Ok(numbers) => record_fault(line@, line_no) is None && numbers@ == numbers_of(line@)
                && numbers@.len() == FIELDS,
            Err(e) => record_fault(line@, line_no) == Some(e),
        },
{
    let fields = split_fields(line);
    let mut numbers: Vec<i32> = Vec::new();
    let mut k: usize = 0;
    while k < fields.len()
        invariant
            k <= fields@.len(),
            views_of(fields@) == fields_of(line@),
            numbers@.len() == k,
            forall|j: int|
                0 <= j < k ==> field_value(#[trigger] fields_of(line@)[j]) == Some(numbers@[j]),
        decreases fields.len() - k,
    {
        match parse_int(fields[k].as_slice()) {
            Some(value) => {
                numbers.push(value);
            },
            None => {
                proof {
                    assert(field_value(fields_of(line@)[k as int]) is None);
                }
                return Err(InputError::NotANumber { line: line_no });
            },
        }
        k = k + 1;
    }
    if numbers.len() != FIELDS {
        return Err(InputError::WrongFieldCount { line: line_no });
    }
    Ok(numbers)
}

} // verus!
