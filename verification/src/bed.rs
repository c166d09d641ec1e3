use vstd::prelude::*;

use crate::region::Region;
use vstd::utf8::{decode_utf8, valid_utf8};

verus! {

/// An ASCII decimal digit.
pub open spec fn is_digit(b: u8) -> bool {
    48 <= b <= 57
}

/// Every byte of the sequence is a decimal digit.
pub open spec fn all_digits(s: Seq<u8>) -> bool {
    forall|i: int| 0 <= i < s.len() ==> is_digit(s[i])
}

/// The value of a sequence of decimal digits, most significant first.
pub open spec fn dec_value(s: Seq<u8>) -> int
    decreases s.len(),
{
    if s.len() == 0 {
        0
    } else {
        dec_value(s.drop_last()) * 10 + (s.last() - 48)
    }
}

/// The digits of a numeric field, after an optional leading plus sign.
pub open spec fn number_digits(s: Seq<u8>) -> Seq<u8> {
    if s.len() > 0 && s[0] == 43 {
        s.drop_first()
    } else {
        s
    }
}

/// The field denotes a `u32`: at least one digit after the optional sign,
/// digits only, and a value that fits.
pub open spec fn is_u32_number(s: Seq<u8>) -> bool {
    let d = number_digits(s);
    d.len() > 0 && all_digits(d) && dec_value(d) <= u32::MAX
}

/// The value a numeric field denotes.
pub open spec fn number_value(s: Seq<u8>) -> int {
    dec_value(number_digits(s))
}

/// Appending a digit multiplies the value by ten and adds the digit.
pub proof fn lemma_dec_value_push(s: Seq<u8>, b: u8)
    ensures
        dec_value(s.push(b)) == dec_value(s) * 10 + (b - 48),
{
    assert(s.push(b).drop_last() =~= s);
}

/// The value of a digit sequence is never negative.
pub proof fn lemma_dec_value_nonneg(s: Seq<u8>)
    requires
        all_digits(s),
    ensures
        dec_value(s) >= 0,
    decreases s.len(),
{
    if s.len() > 0 {
        assert(all_digits(s.drop_last()));
        lemma_dec_value_nonneg(s.drop_last());
    }
}

/// A prefix of a digit sequence never denotes more than the whole.
pub proof fn lemma_dec_value_prefix(s: Seq<u8>, i: int)
    requires
        all_digits(s),
        0 <= i <= s.len(),
    ensures
        dec_value(s.take(i)) <= dec_value(s),
    decreases s.len(),
{
    if i < s.len() {
        assert(all_digits(s.drop_last()));
        assert(s.take(i) =~= s.drop_last().take(i));
        lemma_dec_value_prefix(s.drop_last(), i);
        lemma_dec_value_nonneg(s.drop_last());
    } else {
        assert(s.take(i) =~= s);
    }
}

/// Position of the first tab at or after `from`, or the length when there
/// is none.
pub open spec fn spec_find_tab(s: Seq<u8>, from: int) -> int
    decreases s.len() - from,
{
    if from >= s.len() {
        s.len() as int
    } else if s[from] == 9 {
        from
    } else {
        spec_find_tab(s, from + 1)
    }
}

/// First field of a tab-delimited line: the chromosome name.
pub open spec fn bed_field0(s: Seq<u8>) -> Seq<u8> {
    s.subrange(0, spec_find_tab(s, 0))
}

/// Second field of a tab-delimited line: the start coordinate.
pub open spec fn bed_field1(s: Seq<u8>) -> Seq<u8> {
    let t1 = spec_find_tab(s, 0);
    s.subrange(t1 + 1, spec_find_tab(s, t1 + 1))
}

/// Third field of a tab-delimited line: the stop coordinate.
pub open spec fn bed_field2(s: Seq<u8>) -> Seq<u8> {
    let t1 = spec_find_tab(s, 0);
    let t2 = spec_find_tab(s, t1 + 1);
    s.subrange(t2 + 1, spec_find_tab(s, t2 + 1))
}

/// A line parses as an interval record: it has at least three fields, the
/// chromosome name is text, and both coordinates are `u32` numbers.  Any
/// further fields are ignored.
pub open spec fn valid_bed_line(s: Seq<u8>) -> bool {
    let t1 = spec_find_tab(s, 0);
    let t2 = spec_find_tab(s, t1 + 1);
    &&& t1 < s.len()
    &&& t2 < s.len()
    &&& valid_utf8(bed_field0(s))
    &&& is_u32_number(bed_field1(s))
    &&& is_u32_number(bed_field2(s))
}

/// Relies on std's `String::from_utf8`: it succeeds exactly on valid
/// UTF-8 and decodes the bytes into the string's characters.
#[verifier::external_body]
fn string_from_utf8(bytes: Vec<u8>) -> (r: Option<String>)
    ensures
        match r {
            Some(s) => valid_utf8(bytes@) && s@ == decode_utf8(bytes@),
            None => !valid_utf8(bytes@),
        },
{
    String::from_utf8(bytes).ok()
}

/// Position of the first tab at or after `from`, or the line's length.
fn find_tab(line: &Vec<u8>, from: usize) -> (r: usize)
    requires
        from <= line@.len(),
    ensures
        r == spec_find_tab(line@, from as int),
        from <= r <= line@.len(),
{
    let n = line.len();
    let mut i = from;
    while i < n
        invariant
            from <= i <= n,
            n == line@.len(),
            spec_find_tab(line@, from as int) == spec_find_tab(line@, i as int),
        decreases n - i,
    {
        if line[i] == 9 {
            return i;
        }
        i = i + 1;
    }
    i
}

/// Parse the bytes of `line` between `from` and `to` as a `u32`, exactly
/// when they denote one.
fn parse_u32_field(line: &Vec<u8>, from: usize, to: usize) -> (r: Option<u32>)
    requires
        from <= to <= line@.len(),
    ensures
        ({
            let f = line@.subrange(from as int, to as int);
            match r {
                Some(v) => is_u32_number(f) && v == number_value(f),
                None => !is_u32_number(f),
            }
        }),
{
    let ghost f = line@.subrange(from as int, to as int);
    let mut i = from;
    if i < to && line[i] == 43 {
        i = i + 1;
    }
    let ghost start = i as int;
    proof {
        assert(number_digits(f) =~= line@.subrange(start, to as int));
    }
    if i == to {
        return None;
    }
    let mut val: u32 = 0;
    while i < to
        invariant
            0 <= start <= i as int <= to <= line@.len(),
            f == line@.subrange(from as int, to as int),
            number_digits(f) == line@.subrange(start, to as int),
            all_digits(line@.subrange(start, i as int)),
            val == dec_value(line@.subrange(start, i as int)),
        decreases to - i,
    {
        let b = line[i];
        proof {
            assert(line@.subrange(start, to as int)[i as int - start] == line@[i as int]);
            assert(number_digits(f)[i as int - start] == line@[i as int]);
        }
        if b < 48 || b > 57 {
            return None;
        }
        proof {
            assert(line@.subrange(start, i as int + 1) =~= line@.subrange(start, i as int).push(
                line@[i as int],
            ));
            lemma_dec_value_push(line@.subrange(start, i as int), line@[i as int]);
        }
        let next = val as u64 * 10 + (b - 48) as u64;
        if next > u32::MAX as u64 {
            proof {
                let d = number_digits(f);
                if all_digits(d) {
                    assert(line@.subrange(start, i as int + 1) =~= d.take(i as int + 1 - start));
                    lemma_dec_value_prefix(d, i as int + 1 - start);
                }
            }
            return None;
        }
        val = next as u32;
        i = i + 1;
    }
    proof {
        assert(line@.subrange(start, to as int) =~= number_digits(f));
    }
    Some(val)
}

/// Parse one tab-delimited interval record, exactly when the line is a
/// valid record.  The interval may still have its stop before its start;
/// callers that must not tolerate that test `wf` and abort.
pub fn try_parse_bed_line(line: &Vec<u8>) -> (r: Option<Region>)
    ensures
        r is Some <==> valid_bed_line(line@),
        match r {
            Some(reg) => {
                &&& reg.chr@ == decode_utf8(bed_field0(line@))
                &&& reg.start == number_value(bed_field1(line@))
                &&& reg.stop == number_value(bed_field2(line@))
            },
            None => true,
        },
{
    let n = line.len();
    let t1 = find_tab(line, 0);
    if t1 == n {
        return None;
    }
    let t2 = find_tab(line, t1 + 1);
    if t2 == n {
        return None;
    }
    let t3 = find_tab(line, t2 + 1);
    let start = match parse_u32_field(line, t1 + 1, t2) {
        Some(v) => v,
        None => {
            return None;
        },
    };
    let stop = match parse_u32_field(line, t2 + 1, t3) {
        Some(v) => v,
        None => {
            return None;
        },
    };
    let mut chr_bytes: Vec<u8> = Vec::new();
    let mut i: usize = 0;
    while i < t1
        invariant
            0 <= i <= t1 <= line@.len(),
            chr_bytes@ == line@.subrange(0, i as int),
        decreases t1 - i,
    {
        chr_bytes.push(line[i]);
        proof {
            assert(line@.subrange(0, i as int).push(line@[i as int]) =~= line@.subrange(
                0,
                i as int + 1,
            ));
        }
        i = i + 1;
    }
    proof {
        assert(chr_bytes@ =~= bed_field0(line@));
    }
    let chr = match string_from_utf8(chr_bytes) {
        Some(s) => s,
        None => {
            return None;
        },
    };
    Some(Region { chr, start, stop })
}

/// Parse a tab-delimited interval record that is known to be valid.
pub fn parse_bed_line(line: Vec<u8>) -> (r: Region)
    requires
        valid_bed_line(line@),
    ensures
        r.chr@ == decode_utf8(bed_field0(line@)),
        r.start == number_value(bed_field1(line@)),
        r.stop == number_value(bed_field2(line@)),
{
    match try_parse_bed_line(&line) {
        Some(reg) => reg,
        None => vstd::pervasive::unreached(),
    }
}

} // verus!
