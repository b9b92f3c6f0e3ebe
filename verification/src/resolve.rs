//! The time resolver: places every record on one monotonic timeline,
//! according to the selected time mode.

use crate::errors::Error;
use crate::record::{spec_parse_hms, GRecord, Record};
use vstd::prelude::*;

verus! {

/// The largest record count the pipeline accepts; it keeps every running
/// clock far away from the integer limits.
pub const MAX_RECORDS: usize = 0x0400_0000;

/// The two time semantics a row's time field can carry.
#[derive(Clone, Copy, Debug, PartialEq, Eq, Structural)]
pub enum TimeMode {
    /// The field is a literal wall-clock time; the sequence must be
    /// non-decreasing.
    Time,
    /// The field is a duration since the previous row, accumulated into a
    /// running clock that starts at zero.
    Duration,
}

/// A record whose time has been resolved onto the timeline, in seconds.
#[derive(Debug, Clone, PartialEq, Eq)]
pub struct Step {
    pub time: u64,
    pub watts: Option<u16>,
    pub text: Option<String>,
}

/// The mathematical image of a `Step`.
#[verifier::ext_equal]
pub struct GStep {
    pub time: int,
    pub watts: Option<u16>,
    pub text: Option<Seq<char>>,
}

impl View for Step {
    type V = GStep;

    open spec fn view(&self) -> GStep {
        GStep {
            time: self.time as int,
            watts: self.watts,
            text: match self.text {
                Some(t) => Some(t@),
                None => None,
            },
        }
    }
}

/// The view of a whole step list.
pub open spec fn steps_view(v: Seq<Step>) -> Seq<GStep> {
    v.map_values(|s: Step| s@)
}

pub open spec fn make_step(time: int, r: GRecord) -> GStep {
    GStep { time, watts: r.power, text: r.text }
}

/// Absolute-time resolution: each parsed time stands as is, and must not be
/// less than the time before it.
pub open spec fn spec_resolve_time(rs: Seq<GRecord>, line: int, last: int) -> Result<
    Seq<GStep>,
    Error,
>
    decreases rs.len(),
{
    if rs.len() == 0 {
        Ok(Seq::empty())
    } else {
        match spec_parse_hms(rs[0].time) {
            None => Err(Error::RowParse { line: line as u64, kind: crate::errors::RowIssue::BadTime }),
            Some(t) => if (t as int) < last {
                Err(Error::Ordering { line: line as u64, got: t as u64, expected: last as u64 })
            } else {
                match spec_resolve_time(rs.drop_first(), line + 1, t as int) {
                    Ok(rest) => Ok(seq![make_step(t as int, rs[0])] + rest),
                    Err(e) => Err(e),
                }
            },
        }
    }
}

/// Duration resolution: each row is stamped with the running clock as it
/// stood before the row's own duration is added.
pub open spec fn spec_resolve_duration(rs: Seq<GRecord>, line: int, clock: int) -> Result<
    Seq<GStep>,
    Error,
>
    decreases rs.len(),
{
    if rs.len() == 0 {
        Ok(Seq::empty())
    } else {
        match spec_parse_hms(rs[0].time) {
            None => Err(Error::RowParse { line: line as u64, kind: crate::errors::RowIssue::BadTime }),
            Some(d) => match spec_resolve_duration(rs.drop_first(), line + 1, clock + d) {
                Ok(rest) => Ok(seq![make_step(clock, rs[0])] + rest),
                Err(e) => Err(e),
            },
        }
    }
}

/// What resolution means for a given mode.
pub open spec fn spec_resolve(rs: Seq<GRecord>, mode: TimeMode) -> Result<Seq<GStep>, Error> {
    match mode {
        TimeMode::Time => spec_resolve_time(rs, 1, 0),
        TimeMode::Duration => spec_resolve_duration(rs, 1, 0),
    }
}

/// Resolves record times in absolute-time mode, enforcing a non-decreasing
/// timeline.
pub fn resolve_abs(records: &Vec<Record>) -> (r: Result<Vec<Step>, Error>)
    ensures
        match r {
            Ok(v) => spec_resolve_time(crate::record::records_view(records@), 1, 0) == Ok::<
                _,
                Error,
            >(steps_view(v@)),
            Err(e) => spec_resolve_time(crate::record::records_view(records@), 1, 0) == Err::<
                Seq<GStep>,
                _,
            >(e),
        },
{
    let ghost rv = crate::record::records_view(records@);
    let mut out: Vec<Step> = Vec::new();
    let mut last: u64 = 0;
    let mut i: usize = 0;
    proof {
        assert(rv.skip(0) =~= rv);
        match spec_resolve_time(rv, 1, 0) {
            Ok(rest) => {
                assert(steps_view(out@) + rest =~= rest);
            },
            Err(_) => {},
        }
    }
    while i < records.len()
        invariant
            0 <= i <= records.len(),
            rv == crate::record::records_view(records@),
            rv.len() == records@.len(),
            last < 86400,
            spec_resolve_time(rv, 1, 0) == (match spec_resolve_time(
                rv.skip(i as int),
                i + 1,
                last as int,
            ) {
                Ok(rest) => Ok::<_, Error>(steps_view(out@) + rest),
                Err(e) => Err::<Seq<GStep>, _>(e),
            }),
        decreases records.len() - i,
    {
        let rec = &records[i];
        proof {
            assert(rv.skip(i as int)[0] =~= rec@);
            assert(rv.skip(i as int).drop_first() =~= rv.skip(i + 1));
        }
        let t = match crate::record::parse_hms(rec.time.as_str()) {
            Some(t) => t,
            None => {
                return Err(
                    Error::RowParse { line: (i + 1) as u64, kind: crate::errors::RowIssue::BadTime },
                );
            },
        };
        if (t as u64) < last {
            return Err(Error::Ordering { line: (i + 1) as u64, got: t as u64, expected: last });
        }
        let step = Step { time: t as u64, watts: rec.power, text: clone_text(&rec.text) };
        proof {
            assert(step@ =~= make_step(t as int, rec@));
        }
        let ghost prev = out@;
        out.push(step);
        last = t as u64;
        i = i + 1;
        proof {
            assert(steps_view(out@) =~= steps_view(prev) + seq![step@]);
            match spec_resolve_time(rv.skip(i as int), i + 1, last as int) {
                Ok(rest) => {
                    assert(steps_view(out@) + rest =~= steps_view(prev) + (seq![step@] + rest));
                },
                Err(_) => {},
            }
        }
    }
    proof {
        assert(rv.skip(i as int) =~= Seq::<GRecord>::empty());
        assert(steps_view(out@) + Seq::<GStep>::empty() =~= steps_view(out@));
    }
    Ok(out)
}

/// Resolves record times in duration mode: each row is stamped with the
/// running clock before its own duration is added.
pub fn resolve_dur(records: &Vec<Record>) -> (r: Result<Vec<Step>, Error>)
    requires
        records@.len() <= MAX_RECORDS,
    ensures
        match r {
            Ok(v) => spec_resolve_duration(crate::record::records_view(records@), 1, 0) == Ok::<
                _,
                Error,
            >(steps_view(v@)),
            Err(e) => spec_resolve_duration(crate::record::records_view(records@), 1, 0) == Err::<
                Seq<GStep>,
                _,
            >(e),
        },
{
    let ghost rv = crate::record::records_view(records@);
    let mut out: Vec<Step> = Vec::new();
    let mut clock: u64 = 0;
    let mut i: usize = 0;
    proof {
        assert(rv.skip(0) =~= rv);
        match spec_resolve_duration(rv, 1, 0) {
            Ok(rest) => {
                assert(steps_view(out@) + rest =~= rest);
            },
            Err(_) => {},
        }
    }
    while i < records.len()
        invariant
            0 <= i <= records.len(),
            records@.len() <= MAX_RECORDS,
            rv == crate::record::records_view(records@),
            rv.len() == records@.len(),
            clock <= (i as int) * 86399,
            spec_resolve_duration(rv, 1, 0) == (match spec_resolve_duration(
                rv.skip(i as int),
                i + 1,
                clock as int,
            ) {
                Ok(rest) => Ok::<_, Error>(steps_view(out@) + rest),
                Err(e) => Err::<Seq<GStep>, _>(e),
            }),
        decreases records.len() - i,
    {
        let rec = &records[i];
        proof {
            assert(rv.skip(i as int)[0] =~= rec@);
            assert(rv.skip(i as int).drop_first() =~= rv.skip(i + 1));
            assert((i as int) * 86399 <= 0x0400_0000int * 86399) by (nonlinear_arith)
                requires
                    0 <= i <= 0x0400_0000,
            ;
        }
        let d = match crate::record::parse_hms(rec.time.as_str()) {
            Some(d) => d,
            None => {
                return Err(
                    Error::RowParse { line: (i + 1) as u64, kind: crate::errors::RowIssue::BadTime },
                );
            },
        };
        let step = Step { time: clock, watts: rec.power, text: clone_text(&rec.text) };
        proof {
            assert(step@ =~= make_step(clock as int, rec@));
            assert((i as int + 1) * 86399 == (i as int) * 86399 + 86399) by (nonlinear_arith);
        }
        let ghost prev = out@;
        out.push(step);
        clock = clock + d as u64;
        i = i + 1;
        proof {
            assert(steps_view(out@) =~= steps_view(prev) + seq![step@]);
            match spec_resolve_duration(rv.skip(i as int), i + 1, clock as int) {
                Ok(rest) => {
                    assert(steps_view(out@) + rest =~= steps_view(prev) + (seq![step@] + rest));
                },
                Err(_) => {},
            }
        }
    }
    proof {
        assert(rv.skip(i as int) =~= Seq::<GRecord>::empty());
        assert(steps_view(out@) + Seq::<GStep>::empty() =~= steps_view(out@));
    }
    Ok(out)
}

/// Resolves every record's time under the given mode.
pub fn resolve_records(records: &Vec<Record>, mode: TimeMode) -> (r: Result<Vec<Step>, Error>)
    requires
        records@.len() <= MAX_RECORDS,
    ensures
        match r {
            Ok(v) => spec_resolve(crate::record::records_view(records@), mode) == Ok::<_, Error>(
                steps_view(v@),
            ),
            Err(e) => spec_resolve(crate::record::records_view(records@), mode) == Err::<
                Seq<GStep>,
                _,
            >(e),
        },
{
    match mode {
        TimeMode::Time => resolve_abs(records),
        TimeMode::Duration => resolve_dur(records),
    }
}

/// Clones an optional annotation text.
pub(crate) fn clone_text(t: &Option<String>) -> (r: Option<String>)
    ensures
        (match r {
            Some(s) => Some(s@),
            None => None,
        }) == (match t {
            Some(s) => Some(s@),
            None => None,
        }),
{
    match t {
        Some(s) => Some(s.clone()),
        None => None,
    }
}

/// The sum of the parsed durations of all rows of `rs`.
pub open spec fn sum_durations(rs: Seq<GRecord>) -> int
    decreases rs.len(),
{
    if rs.len() == 0 {
        0
    } else {
        sum_durations(rs.drop_last()) + (match spec_parse_hms(rs.last().time) {
            Some(d) => d as int,
            None => 0,
        })
    }
}

/// A successful resolution yields one step per record.
pub proof fn lemma_resolve_len(rs: Seq<GRecord>, mode: TimeMode, steps: Seq<GStep>)
    requires
        spec_resolve(rs, mode) == Ok::<Seq<GStep>, Error>(steps),
    ensures
        steps.len() == rs.len(),
{
    match mode {
        TimeMode::Time => lemma_resolve_time_len(rs, 1, 0, steps),
        TimeMode::Duration => lemma_resolve_duration_len(rs, 1, 0, steps),
    }
}

proof fn lemma_resolve_time_len(rs: Seq<GRecord>, line: int, last: int, steps: Seq<GStep>)
    requires
        spec_resolve_time(rs, line, last) == Ok::<Seq<GStep>, Error>(steps),
    ensures
        steps.len() == rs.len(),
    decreases rs.len(),
{
    if rs.len() > 0 {
        let t = spec_parse_hms(rs[0].time).unwrap();
        match spec_resolve_time(rs.drop_first(), line + 1, t as int) {
            Ok(rest) => {
                lemma_resolve_time_len(rs.drop_first(), line + 1, t as int, rest);
            },
            Err(_) => {
                assert(false);
            },
        }
    }
}

proof fn lemma_resolve_duration_len(rs: Seq<GRecord>, line: int, clock: int, steps: Seq<GStep>)
    requires
        spec_resolve_duration(rs, line, clock) == Ok::<Seq<GStep>, Error>(steps),
    ensures
        steps.len() == rs.len(),
    decreases rs.len(),
{
    if rs.len() > 0 {
        let d = spec_parse_hms(rs[0].time).unwrap();
        match spec_resolve_duration(rs.drop_first(), line + 1, clock + d) {
            Ok(rest) => {
                lemma_resolve_duration_len(rs.drop_first(), line + 1, clock + d, rest);
            },
            Err(_) => {
                assert(false);
            },
        }
    }
}

/// Splitting the duration sum of a prefix at its first row.
proof fn lemma_sum_head(rs: Seq<GRecord>, i: int)
    requires
        1 <= i <= rs.len(),
    ensures
        sum_durations(rs.take(i)) == (match spec_parse_hms(rs[0].time) {
            Some(d) => d as int,
            None => 0,
        }) + sum_durations(rs.drop_first().take(i - 1)),
    decreases i,
{
    if i == 1 {
        assert(rs.take(1).drop_last() =~= Seq::<GRecord>::empty());
        assert(rs.drop_first().take(0) =~= Seq::<GRecord>::empty());
        assert(rs.take(1).last() == rs[0]);
    } else {
        lemma_sum_head(rs, i - 1);
        assert(rs.take(i).drop_last() =~= rs.take(i - 1));
        assert(rs.drop_first().take(i - 1).drop_last() =~= rs.drop_first().take(i - 2));
        assert(rs.take(i).last() == rs[i - 1]);
        assert(rs.drop_first().take(i - 1).last() == rs[i - 1]);
    }
}

/// In duration mode the first row's resolved time is the starting clock, and
/// each later row's resolved time is the clock plus the sum of the durations
/// of all rows before it.
pub proof fn lemma_duration_prefix_sum(rs: Seq<GRecord>, line: int, clock: int, steps: Seq<GStep>)
    requires
        spec_resolve_duration(rs, line, clock) == Ok::<Seq<GStep>, Error>(steps),
    ensures
        steps.len() == rs.len(),
        forall|i: int|
            0 <= i < rs.len() ==> #[trigger] steps[i].time == clock + sum_durations(rs.take(i)),
    decreases rs.len(),
{
    if rs.len() > 0 {
        let d = spec_parse_hms(rs[0].time).unwrap();
        match spec_resolve_duration(rs.drop_first(), line + 1, clock + d) {
            Ok(rest) => {
                lemma_duration_prefix_sum(rs.drop_first(), line + 1, clock + d, rest);
                assert(steps == seq![make_step(clock, rs[0])] + rest);
                assert forall|i: int|
                    0 <= i < rs.len() implies #[trigger] steps[i].time == clock + sum_durations(
                    rs.take(i),
                ) by {
                    if i == 0 {
                        assert(rs.take(0) =~= Seq::<GRecord>::empty());
                    } else {
                        assert(steps[i] == rest[i - 1]);
                        lemma_sum_head(rs, i);
                    }
                }
            },
            Err(_) => {
                assert(false);
            },
        }
    }
}

} // verus!
