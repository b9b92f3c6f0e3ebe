//! The record parser: turns the raw fields of one tabular row into a typed
//! record, rejecting structurally malformed rows.

use crate::errors::{Error, RowIssue};
use vstd::prelude::*;

verus! {

/// One parsed input row: a raw time string, an optional power reading in
/// watts, and an optional annotation text.
#[derive(Debug, Clone, PartialEq, Eq)]
pub struct Record {
    pub time: String,
    pub power: Option<u16>,
    pub text: Option<String>,
}

/// The mathematical image of a `Record`.
#[verifier::ext_equal]
pub struct GRecord {
    pub time: Seq<char>,
    pub power: Option<u16>,
    pub text: Option<Seq<char>>,
}

impl View for Record {
    type V = GRecord;

    open spec fn view(&self) -> GRecord {
        GRecord {
            time: self.time@,
            power: self.power,
            text: match self.text {
                Some(t) => Some(t@),
                None => None,
            },
        }
    }
}

/// The view of a whole record list.
pub open spec fn records_view(rs: Seq<Record>) -> Seq<GRecord> {
    rs.map_values(|r: Record| r@)
}

pub open spec fn is_digit(c: char) -> bool {
    '0' <= c && c <= '9'
}

pub open spec fn digit_val(c: char) -> int {
    c as int - '0' as int
}

pub open spec fn all_digits(s: Seq<char>) -> bool {
    forall|i: int| 0 <= i < s.len() ==> is_digit(#[trigger] s[i])
}

/// The non-negative integer denoted by a digit string, most significant digit
/// first.
pub open spec fn dec_val(s: Seq<char>) -> int
    decreases s.len(),
{
    if s.len() == 0 {
        0
    } else {
        dec_val(s.drop_last()) * 10 + digit_val(s.last())
    }
}

/// A blank-insensitive power field: a non-empty all-digit string whose value
/// fits in `u16`; anything else is not a power.
pub open spec fn spec_parse_u16(s: Seq<char>) -> Option<u16> {
    if s.len() >= 1 && all_digits(s) && dec_val(s) <= 65535 {
        Some(dec_val(s) as u16)
    } else {
        None
    }
}

pub proof fn lemma_dec_val_nonneg(s: Seq<char>)
    requires
        all_digits(s),
    ensures
        dec_val(s) >= 0,
    decreases s.len(),
{
    if s.len() > 0 {
        assert(all_digits(s.drop_last())) by {
            assert(forall|i: int|
                0 <= i < s.len() - 1 ==> s.drop_last()[i] == #[trigger] s[i]);
        }
        lemma_dec_val_nonneg(s.drop_last());
    }
}

/// A digit string is worth at least any of its prefixes.
pub proof fn lemma_dec_val_prefix(s: Seq<char>, j: int)
    requires
        all_digits(s),
        0 <= j <= s.len(),
    ensures
        dec_val(s.take(j)) <= dec_val(s),
    decreases s.len() - j,
{
    if j < s.len() {
        lemma_dec_val_prefix(s, j + 1);
        let t = s.take(j + 1);
        assert(t.drop_last() =~= s.take(j));
        assert(dec_val(t) == dec_val(s.take(j)) * 10 + digit_val(t.last()));
        assert(all_digits(s.take(j))) by {
            assert(forall|i: int| 0 <= i < j ==> s.take(j)[i] == #[trigger] s[i]);
        }
        lemma_dec_val_nonneg(s.take(j));
        assert(is_digit(t.last()));
    } else {
        assert(s.take(j) =~= s);
    }
}

/// Parses a power field as a decimal `u16`.
pub fn parse_u16(s: &str) -> (r: Option<u16>)
    ensures
        r == spec_parse_u16(s@),
{
    let n = s.unicode_len();
    if n == 0 {
        return None;
    }
    let mut acc: u32 = 0;
    let mut i: usize = 0;
    while i < n
        invariant
            0 <= i <= n,
            n == s@.len(),
            all_digits(s@.take(i as int)),
            acc == dec_val(s@.take(i as int)),
            acc <= 65535,
        decreases n - i,
    {
        let c = s.get_char(i);
        if c < '0' || c > '9' {
            assert(!all_digits(s@));
            return None;
        }
        let d: u32 = c as u32 - 48;
        proof {
            assert(s@.take(i + 1).drop_last() =~= s@.take(i as int));
            assert(s@.take(i + 1).last() == s@[i as int]);
        }
        acc = acc * 10 + d;
        i = i + 1;
        if acc > 65535 {
            proof {
                if all_digits(s@) {
                    lemma_dec_val_prefix(s@, i as int);
                }
            }
            return None;
        }
    }
    proof {
        assert(s@.take(n as int) =~= s@);
    }
    Some(acc as u16)
}

/// A wall-clock time of the strict form `HH:MM:SS`, as seconds since
/// midnight.
pub open spec fn spec_parse_hms(s: Seq<char>) -> Option<u32> {
    if s.len() == 8 && s[2] == ':' && s[5] == ':' && is_digit(s[0]) && is_digit(s[1]) && is_digit(
        s[3],
    ) && is_digit(s[4]) && is_digit(s[6]) && is_digit(s[7]) {
        let h = digit_val(s[0]) * 10 + digit_val(s[1]);
        let m = digit_val(s[3]) * 10 + digit_val(s[4]);
        let sec = digit_val(s[6]) * 10 + digit_val(s[7]);
        if h <= 23 && m <= 59 && sec <= 59 {
            Some((h * 3600 + m * 60 + sec) as u32)
        } else {
            None
        }
    } else {
        None
    }
}

/// Parses a time field of the strict form `HH:MM:SS`.
pub fn parse_hms(s: &str) -> (r: Option<u32>)
    ensures
        r == spec_parse_hms(s@),
{
    if s.unicode_len() != 8 {
        return None;
    }
    let c0 = s.get_char(0);
    let c1 = s.get_char(1);
    let c2 = s.get_char(2);
    let c3 = s.get_char(3);
    let c4 = s.get_char(4);
    let c5 = s.get_char(5);
    let c6 = s.get_char(6);
    let c7 = s.get_char(7);
    if c2 != ':' || c5 != ':' {
        return None;
    }
    if c0 < '0' || c0 > '9' || c1 < '0' || c1 > '9' || c3 < '0' || c3 > '9' || c4 < '0' || c4 > '9'
        || c6 < '0' || c6 > '9' || c7 < '0' || c7 > '9' {
        return None;
    }
    let h: u32 = (c0 as u32 - 48) * 10 + (c1 as u32 - 48);
    let m: u32 = (c3 as u32 - 48) * 10 + (c4 as u32 - 48);
    let sec: u32 = (c6 as u32 - 48) * 10 + (c7 as u32 - 48);
    if h > 23 || m > 59 || sec > 59 {
        return None;
    }
    Some(h * 3600 + m * 60 + sec)
}

/// What one raw row means: exactly three fields, a blank or numeric power, a
/// blank or present annotation; the time field is kept raw for the resolver.
pub open spec fn spec_parse_row(row: Seq<Seq<char>>) -> Result<GRecord, RowIssue> {
    if row.len() != 3 {
        Err(RowIssue::FieldCount)
    } else {
        let power = if row[1].len() == 0 {
            Some(None)
        } else {
            match spec_parse_u16(row[1]) {
                Some(w) => Some(Some(w)),
                None => None,
            }
        };
        match power {
            None => Err(RowIssue::BadPower),
            Some(p) => Ok(
                GRecord {
                    time: row[0],
                    power: p,
                    text: if row[2].len() == 0 {
                        None
                    } else {
                        Some(row[2])
                    },
                },
            ),
        }
    }
}

/// The record parser over a whole row list, reporting the first malformed row
/// with its 1-based line number.
pub open spec fn spec_parse_rows(rows: Seq<Seq<Seq<char>>>, line: int) -> Result<Seq<GRecord>, Error>
    decreases rows.len(),
{
    if rows.len() == 0 {
        Ok(Seq::empty())
    } else {
        match spec_parse_row(rows[0]) {
            Err(k) => Err(Error::RowParse { line: line as u64, kind: k }),
            Ok(r) => match spec_parse_rows(rows.drop_first(), line + 1) {
                Ok(rest) => Ok(seq![r] + rest),
                Err(e) => Err(e),
            },
        }
    }
}

/// Parses every raw row, or reports the first malformed one.
pub fn parse_rows(rows: &Vec<Vec<String>>) -> (r: Result<Vec<Record>, Error>)
    ensures
        match r {
            Ok(v) => spec_parse_rows(rows.deep_view(), 1) == Ok::<_, Error>(records_view(v@)),
            Err(e) => spec_parse_rows(rows.deep_view(), 1) == Err::<Seq<GRecord>, _>(e),
        },
{
    let ghost rv = rows.deep_view();
    let mut out: Vec<Record> = Vec::new();
    let mut i: usize = 0;
    proof {
        assert(rv.skip(0) =~~= rv);
        match spec_parse_rows(rv, 1) {
            Ok(rest) => {
                assert(records_view(out@) + rest =~= rest);
            },
            Err(_) => {},
        }
    }
    while i < rows.len()
        invariant
            0 <= i <= rows.len(),
            rv == rows.deep_view(),
            rv.len() == rows@.len(),
            spec_parse_rows(rv, 1) == (match spec_parse_rows(rv.skip(i as int), i + 1) {
                Ok(rest) => Ok::<_, Error>(records_view(out@) + rest),
                Err(e) => Err::<Seq<GRecord>, _>(e),
            }),
        decreases rows.len() - i,
    {
        let row = &rows[i];
        proof {
            assert(rv.skip(i as int)[0] =~~= row.deep_view());
            assert(rv.skip(i as int).drop_first() =~~= rv.skip(i + 1));
            assert(row.deep_view().len() == row@.len());
            assert(row@.len() == 3 ==> row.deep_view()[0] == row@[0]@ && row.deep_view()[1]
                == row@[1]@ && row.deep_view()[2] == row@[2]@);
        }
        if row.len() != 3 {
            return Err(Error::RowParse { line: (i + 1) as u64, kind: RowIssue::FieldCount });
        }
        let power: Option<u16> = if row[1].as_str().unicode_len() == 0 {
            None
        } else {
            match parse_u16(row[1].as_str()) {
                Some(w) => Some(w),
                None => {
                    return Err(
                        Error::RowParse { line: (i + 1) as u64, kind: RowIssue::BadPower },
                    );
                },
            }
        };
        let text: Option<String> = if row[2].as_str().unicode_len() == 0 {
            None
        } else {
            Some(row[2].clone())
        };
        let rec = Record { time: row[0].clone(), power, text };
        proof {
            assert(rec@ =~= spec_parse_row(row.deep_view()).unwrap());
        }
        let ghost prev = out@;
        out.push(rec);
        i = i + 1;
        proof {
            assert(records_view(out@) =~= records_view(prev) + seq![rec@]);
            match spec_parse_rows(rv.skip(i as int), i + 1) {
                Ok(rest) => {
                    assert(records_view(out@) + rest =~= records_view(prev) + (seq![rec@]
                        + rest));
                },
                Err(_) => {},
            }
        }
    }
    proof {
        assert(rv.skip(i as int) =~~= Seq::<Seq<Seq<char>>>::empty());
        assert(records_view(out@) + Seq::<GRecord>::empty() =~= records_view(out@));
    }
    Ok(out)
}

} // verus!
