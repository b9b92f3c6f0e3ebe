//! The section aggregator: rescales each resolved sample and folds the sample
//! stream into an ordered list of steady-power sections with attached
//! annotations.

use crate::resolve::{GStep, Step, MAX_RECORDS};
use crate::rounding::{round, snap, spec_round, spec_snap};
use vstd::prelude::*;

verus! {

/// Scaled timestamps are clamped here; the clamp is far beyond any real
/// timeline (tens of thousands of years of seconds).
pub const MAX_SCALED_TIME: u64 = 0x100_0000_0000;

/// An annotation attached to a section, at an offset relative to the
/// section's start.
#[derive(Debug, Clone, PartialEq, Eq)]
pub struct Hint {
    pub offset: u64,
    pub text: String,
}

/// One steady-power section of the output document.
#[derive(Debug, Clone, PartialEq, Eq)]
pub struct Section {
    pub start: u64,
    pub duration: u64,
    /// Power as a fraction of the reference power, in hundredths.
    pub power: u64,
    pub text: Vec<Hint>,
}

/// The mathematical image of a `Hint`.
#[verifier::ext_equal]
pub struct GHint {
    pub offset: int,
    pub text: Seq<char>,
}

/// The mathematical image of a `Section`.
#[verifier::ext_equal]
pub struct GSection {
    pub start: int,
    pub duration: int,
    pub power: int,
    pub text: Seq<GHint>,
}

impl View for Hint {
    type V = GHint;

    open spec fn view(&self) -> GHint {
        GHint { offset: self.offset as int, text: self.text@ }
    }
}

impl View for Section {
    type V = GSection;

    open spec fn view(&self) -> GSection {
        GSection {
            start: self.start as int,
            duration: self.duration as int,
            power: self.power as int,
            text: self.text@.map_values(|h: Hint| h@),
        }
    }
}

/// The view of a whole section list.
pub open spec fn sections_view(v: Seq<Section>) -> Seq<GSection> {
    v.map_values(|s: Section| s@)
}

/// A sample after both linear transforms: time rescaled by the acceleration
/// factor, power normalized against the reference power in hundredths.
#[verifier::ext_equal]
pub struct TStep {
    pub time: int,
    pub power: Option<int>,
    pub text: Option<Seq<char>>,
}

/// The numeric configuration of the transforms and the aggregation.
pub struct GConfig {
    pub accel_num: int,
    pub accel_den: int,
    pub scale_num: int,
    pub scale_den: int,
    pub ftp: int,
    pub raster: int,
}

/// `t / (accel_num / accel_den)`, rounded half up and clamped to
/// `MAX_SCALED_TIME`.
pub open spec fn spec_scaled_time(t: int, num: int, den: int) -> int
    recommends
        0 <= t,
        1 <= num,
{
    let q = (2 * t * den + num) / (2 * num);
    if q > MAX_SCALED_TIME as int {
        MAX_SCALED_TIME as int
    } else {
        q
    }
}

/// `w * (scale_num / scale_den) / ftp * 100`, rounded half up: the power
/// fraction in hundredths.
pub open spec fn spec_power_level(w: int, sn: int, sd: int, ftp: int) -> int
    recommends
        0 <= w,
        1 <= sd,
        1 <= ftp,
{
    (2 * w * sn * 100 + sd * ftp) / (2 * sd * ftp)
}

/// Both transforms applied to one resolved sample.
pub open spec fn spec_transform(s: GStep, c: GConfig) -> TStep {
    TStep {
        time: spec_scaled_time(s.time, c.accel_num, c.accel_den),
        power: match s.watts {
            Some(w) => Some(spec_power_level(w as int, c.scale_num, c.scale_den, c.ftp)),
            None => None,
        },
        text: s.text,
    }
}

/// The whole sample stream transformed.
pub open spec fn transform_all(gs: Seq<GStep>, c: GConfig) -> Seq<TStep> {
    gs.map_values(|s: GStep| spec_transform(s, c))
}

/// The aggregator's state: the closed sections so far, and the one open
/// section, if any.
#[verifier::ext_equal]
pub struct AggState {
    pub done: Seq<GSection>,
    pub cur: Option<GSection>,
}

pub open spec fn agg_init() -> AggState {
    AggState { done: Seq::empty(), cur: None }
}

/// Re-measures the open section against the newest sample time: its duration
/// tracks how far the section has run, rounded to the raster, and never
/// shrinks below the measurement of an earlier, larger sample.
pub open spec fn agg_measure(sec: GSection, time: int, raster: int) -> GSection {
    if time > sec.start {
        GSection { duration: spec_round(time - sec.start, raster), ..sec }
    } else {
        sec
    }
}

/// One step of the aggregation: measure the open section, then act on the
/// combination of power present, annotation present, and a section open. A
/// sample whose power equals the open section's extends that section through
/// its own raster slot; only a differing power value closes it.
pub open spec fn agg_step(st: AggState, s: TStep, raster: int) -> AggState {
    let cur = match st.cur {
        Some(sec) => Some(agg_measure(sec, s.time, raster)),
        None => None,
    };
    let offset: int = match st.cur {
        Some(sec) => if s.time > sec.start {
            s.time - sec.start
        } else {
            0
        },
        None => 0,
    };
    match (cur, s.power, s.text) {
        (Some(sec), None, Some(tx)) => {
            let ro = spec_round(offset, 5);
            let grown = GSection { text: sec.text.push(GHint { offset: ro, text: tx }), ..sec };
            let kept = if grown.duration < ro {
                GSection { duration: grown.duration + raster, ..grown }
            } else {
                grown
            };
            AggState { done: st.done, cur: Some(kept) }
        },
        (prev, Some(p), tx) => {
            let hints = match tx {
                Some(t) => seq![GHint { offset: 0, text: t }],
                None => Seq::empty(),
            };
            match prev {
                Some(sec) => if sec.power == p {
                    let grown = GSection { duration: sec.duration + raster, ..sec };
                    let kept = match tx {
                        Some(t) => GSection {
                            text: grown.text.push(GHint { offset: spec_round(offset, 5), text: t }),
                            ..grown
                        },
                        None => grown,
                    };
                    AggState { done: st.done, cur: Some(kept) }
                } else {
                    AggState {
                        done: st.done.push(sec),
                        cur: Some(
                            GSection {
                                start: sec.start + sec.duration,
                                duration: raster,
                                power: p,
                                text: hints,
                            },
                        ),
                    }
                },
                None => AggState {
                    done: st.done,
                    cur: Some(
                        GSection {
                            start: spec_snap(s.time, raster),
                            duration: raster,
                            power: p,
                            text: hints,
                        },
                    ),
                },
            }
        },
        (prev, None, _) => AggState { done: st.done, cur: prev },
    }
}

/// The aggregation folded over a sample stream, front to back.
pub open spec fn agg_fold(st: AggState, ts: Seq<TStep>, raster: int) -> AggState
    decreases ts.len(),
{
    if ts.len() == 0 {
        st
    } else {
        agg_fold(agg_step(st, ts[0], raster), ts.drop_first(), raster)
    }
}

/// When input ends, a still-open section is closed without further
/// adjustment.
pub open spec fn agg_finish(st: AggState) -> Seq<GSection> {
    match st.cur {
        Some(sec) => st.done.push(sec),
        None => st.done,
    }
}

/// The whole aggregation of a transformed sample stream.
pub open spec fn spec_translate(ts: Seq<TStep>, raster: int) -> Seq<GSection> {
    agg_finish(agg_fold(agg_init(), ts, raster))
}

/// Folding one more sample is one more step.
pub proof fn lemma_agg_fold_snoc(st: AggState, ts: Seq<TStep>, x: TStep, raster: int)
    ensures
        agg_fold(st, ts.push(x), raster) == agg_step(agg_fold(st, ts, raster), x, raster),
    decreases ts.len(),
{
    if ts.len() == 0 {
        assert(ts.push(x).drop_first() =~= Seq::<TStep>::empty());
        assert(ts.push(x)[0] == x);
        assert(agg_fold(st, ts.push(x), raster) == agg_fold(
            agg_step(st, x, raster),
            Seq::<TStep>::empty(),
            raster,
        ));
        assert(agg_fold(st, ts, raster) == st);
    } else {
        assert(ts.push(x).drop_first() =~= ts.drop_first().push(x));
        assert(ts.push(x)[0] == ts[0]);
        assert(agg_fold(st, ts.push(x), raster) == agg_fold(
            agg_step(st, ts[0], raster),
            ts.drop_first().push(x),
            raster,
        ));
        lemma_agg_fold_snoc(agg_step(st, ts[0], raster), ts.drop_first(), x, raster);
        assert(agg_fold(st, ts, raster) == agg_fold(
            agg_step(st, ts[0], raster),
            ts.drop_first(),
            raster,
        ));
    }
}

/// The view of the aggregator's open-section register.
pub open spec fn cur_view(cur: Option<Section>) -> Option<GSection> {
    match cur {
        Some(sec) => Some(sec@),
        None => None,
    }
}

/// Folds the resolved sample stream into the ordered section list: every
/// sample is rescaled, a power value differing from the open section's closes
/// it and opens a new section chained behind it, an equal power value extends
/// the open section through its own raster slot, and every annotation lands
/// in the section open at the moment it arrives.
#[verifier::loop_isolation(false)]
pub fn translate_steps(
    accel_num: u32,
    accel_den: u32,
    scale_num: u32,
    scale_den: u32,
    ftp: u16,
    raster: u32,
    steps: &Vec<Step>,
) -> (out: Vec<Section>)
    requires
        1 <= accel_num,
        1 <= scale_den,
        1 <= ftp,
        1 <= raster,
        steps@.len() <= MAX_RECORDS,
    ensures
        sections_view(out@) == spec_translate(
            transform_all(
                crate::resolve::steps_view(steps@),
                (GConfig {
                    accel_num: accel_num as int,
                    accel_den: accel_den as int,
                    scale_num: scale_num as int,
                    scale_den: scale_den as int,
                    ftp: ftp as int,
                    raster: raster as int,
                }),
            ),
            raster as int,
        ),
{
    let ghost c = GConfig {
        accel_num: accel_num as int,
        accel_den: accel_den as int,
        scale_num: scale_num as int,
        scale_den: scale_den as int,
        ftp: ftp as int,
        raster: raster as int,
    };
    let ghost ts = transform_all(crate::resolve::steps_view(steps@), c);
    let mut out: Vec<Section> = Vec::new();
    let mut cur: Option<Section> = None;
    let mut i: usize = 0;
    proof {
        assert(ts.take(0) =~= Seq::<TStep>::empty());
        assert(sections_view(out@) =~= Seq::<GSection>::empty());
    }
    while i < steps.len()
        invariant
            0 <= i <= steps.len(),
            ts == transform_all(crate::resolve::steps_view(steps@), c),
            (AggState { done: sections_view(out@), cur: cur_view(cur) }) == agg_fold(
                agg_init(),
                ts.take(i as int),
                raster as int,
            ),
            (cur matches Some(sec) ==> sec.start + sec.duration <= MAX_SCALED_TIME + 5 + (i as int
                + 1) * (raster as int)),
        decreases steps.len() - i,
    {
        let ghost st0 = AggState { done: sections_view(out@), cur: cur_view(cur) };
        let step = &steps[i];
        proof {
            assert(crate::resolve::steps_view(steps@)[i as int] == step@);
            assert(ts[i as int] == spec_transform(step@, c));
            assert((i as int + 1) * (raster as int) <= (0x0400_0000int + 1) * 0x1_0000_0000int && (
            i as int + 2) * (raster as int) == (i as int + 1) * (raster as int) + raster && (i
                as int + 1) * (raster as int) >= raster) by (nonlinear_arith)
                requires
                    0 <= i <= 0x0400_0000,
                    1 <= raster <= 0xFFFF_FFFFu32,
            ;
        }
        let local_time: u64 = scaled_time(step.time, accel_num, accel_den);
        let power: Option<u64> = match step.watts {
            Some(w) => Some(power_level(w, scale_num, scale_den, ftp)),
            None => None,
        };
        let mut offset: u64 = 0;
        cur = match cur {
            Some(mut sec) => {
                if local_time > sec.start {
                    offset = local_time - sec.start;
                    sec.duration = round(offset, raster as u64);
                }
                Some(sec)
            },
            None => None,
        };
        if let Some(p) = power {
            let same: bool = match &cur {
                Some(sec) => sec.power == p,
                None => false,
            };
            if same {
                cur = match cur {
                    Some(mut sec) => {
                        sec.duration = sec.duration + raster as u64;
                        if let Some(tx) = &step.text {
                            let ro = round(offset, 5);
                            let ghost hs = sec.text@;
                            let h = Hint { offset: ro, text: tx.clone() };
                            sec.text.push(h);
                            proof {
                                assert(sec.text@.map_values(|x: Hint| x@) =~= hs.map_values(
                                    |x: Hint| x@,
                                ).push(h@));
                            }
                        }
                        Some(sec)
                    },
                    None => None,
                };
            } else {
                let new_start: u64 = match &cur {
                    Some(sec) => sec.start + sec.duration,
                    None => snap(local_time, raster as u64),
                };
                if let Some(sec) = cur {
                    let ghost prev = out@;
                    out.push(sec);
                    proof {
                        assert(sections_view(out@) =~= sections_view(prev).push(sec@));
                    }
                }
                let mut hints: Vec<Hint> = Vec::new();
                if let Some(tx) = &step.text {
                    hints.push(Hint { offset: 0, text: tx.clone() });
                }
                let sec = Section {
                    start: new_start,
                    duration: raster as u64,
                    power: p,
                    text: hints,
                };
                proof {
                    match step@.text {
                        Some(tx) => {
                            assert(sec@.text =~= seq![GHint { offset: 0, text: tx }]);
                        },
                        None => {
                            assert(sec@.text =~= Seq::<GHint>::empty());
                        },
                    }
                }
                cur = Some(sec);
            }
        } else {
            if let Some(tx) = &step.text {
                cur = match cur {
                    Some(mut sec) => {
                        let ro = round(offset, 5);
                        let ghost hs = sec.text@;
                        let h = Hint { offset: ro, text: tx.clone() };
                        sec.text.push(h);
                        proof {
                            assert(sec.text@.map_values(|x: Hint| x@) =~= hs.map_values(
                                |x: Hint| x@,
                            ).push(h@));
                        }
                        if sec.duration < ro {
                            sec.duration = sec.duration + raster as u64;
                        }
                        Some(sec)
                    },
                    None => None,
                };
            }
        }
        i = i + 1;
        proof {
            assert(ts.take(i as int) =~= ts.take(i as int - 1).push(ts[i as int - 1]));
            lemma_agg_fold_snoc(agg_init(), ts.take(i as int - 1), ts[i as int - 1], raster as int);
            assert((AggState { done: sections_view(out@), cur: cur_view(cur) }) =~~= agg_step(
                st0,
                ts[i as int - 1],
                raster as int,
            ));
        }
    }
    proof {
        assert(ts.take(i as int) =~= ts);
    }
    if let Some(sec) = cur {
        let ghost prev = out@;
        out.push(sec);
        proof {
            assert(sections_view(out@) =~= sections_view(prev).push(sec@));
        }
    }
    out
}

/// How many maximal runs of equal power values the stream holds, given the
/// power value `last` that the run before the stream ended on, if any:
/// a power-bearing sample starts a new run exactly when its value differs
/// from the power in force.
pub open spec fn count_runs_from(ts: Seq<TStep>, last: Option<int>) -> int
    decreases ts.len(),
{
    if ts.len() == 0 {
        0
    } else {
        let next = if ts[0].power is Some {
            ts[0].power
        } else {
            last
        };
        (if ts[0].power is Some && ts[0].power != last {
            1int
        } else {
            0int
        }) + count_runs_from(ts.drop_first(), next)
    }
}

/// The maximal runs of equal power values among the power-bearing samples.
pub open spec fn count_runs(ts: Seq<TStep>) -> int {
    count_runs_from(ts, None)
}

/// Sections created so far: the closed ones plus the open one, if any.
pub open spec fn live_sections(st: AggState) -> int {
    st.done.len() + (if st.cur is Some {
        1int
    } else {
        0int
    })
}

/// The power value in force: the open section's, if one is open.
pub open spec fn cur_power(st: AggState) -> Option<int> {
    match st.cur {
        Some(sec) => Some(sec.power),
        None => None,
    }
}

proof fn lemma_agg_fold_count(st: AggState, ts: Seq<TStep>, raster: int)
    ensures
        live_sections(agg_fold(st, ts, raster)) == live_sections(st) + count_runs_from(
            ts,
            cur_power(st),
        ),
    decreases ts.len(),
{
    if ts.len() > 0 {
        let st1 = agg_step(st, ts[0], raster);
        assert(live_sections(st1) == live_sections(st) + (if ts[0].power is Some && ts[0].power
            != cur_power(st) {
            1int
        } else {
            0int
        }));
        assert(cur_power(st1) == (if ts[0].power is Some {
            ts[0].power
        } else {
            cur_power(st)
        }));
        lemma_agg_fold_count(st1, ts.drop_first(), raster);
    }
}

/// The output holds exactly one section per maximal run of equal power
/// values: a power-bearing sample opens a section only when its value differs
/// from the open section's, and a stream with no power sample yields none.
pub proof fn lemma_section_count(ts: Seq<TStep>, raster: int)
    ensures
        spec_translate(ts, raster).len() == count_runs(ts),
{
    lemma_agg_fold_count(agg_init(), ts, raster);
}

/// A constant-power sample stream collapses to exactly one section.
pub proof fn lemma_constant_power_one_section(ts: Seq<TStep>, p: int, raster: int)
    requires
        ts.len() >= 1,
        forall|i: int| 0 <= i < ts.len() ==> (#[trigger] ts[i]).power == Some(p),
    ensures
        spec_translate(ts, raster).len() == 1,
{
    lemma_section_count(ts, raster);
    lemma_constant_runs(ts, p, None);
}

proof fn lemma_constant_runs(ts: Seq<TStep>, p: int, last: Option<int>)
    requires
        forall|i: int| 0 <= i < ts.len() ==> (#[trigger] ts[i]).power == Some(p),
    ensures
        count_runs_from(ts, last) == (if ts.len() > 0 && last != Some(p) {
            1int
        } else {
            0int
        }),
    decreases ts.len(),
{
    if ts.len() > 0 {
        assert(forall|i: int|
            0 <= i < ts.drop_first().len() ==> (#[trigger] ts.drop_first()[i]).power == Some(p));
        lemma_constant_runs(ts.drop_first(), p, Some(p));
    }
}

/// Consecutive sections chain: each starts exactly where the one before it
/// ends.
pub open spec fn chained(secs: Seq<GSection>) -> bool {
    forall|i: int|
        #![trigger secs[i]]
        0 <= i < secs.len() - 1 ==> secs[i + 1].start == secs[i].start + secs[i].duration
}

/// The chaining invariant of the aggregator's state.
pub open spec fn st_chained(st: AggState) -> bool {
    &&& chained(st.done)
    &&& (st.cur is None ==> st.done.len() == 0)
    &&& (st.done.len() > 0 ==> (st.cur matches Some(c) ==> c.start == st.done.last().start
        + st.done.last().duration))
}

proof fn lemma_agg_step_chained(st: AggState, s: TStep, raster: int)
    requires
        st_chained(st),
    ensures
        st_chained(agg_step(st, s, raster)),
{
    let st1 = agg_step(st, s, raster);
    if s.power is Some {
        match st.cur {
            Some(sec0) => {
                let sec = agg_measure(sec0, s.time, raster);
                let done = st.done.push(sec);
                assert forall|i: int|
                    #![trigger done[i]]
                    0 <= i < done.len() - 1 implies done[i + 1].start == done[i].start
                    + done[i].duration by {
                    if i < st.done.len() - 1 {
                        assert(done[i] == st.done[i]);
                        assert(done[i + 1] == st.done[i + 1]);
                    } else {
                        assert(done[i] == st.done.last());
                        assert(done[i + 1] == sec);
                    }
                }
            },
            None => {},
        }
    }
}

proof fn lemma_agg_fold_chained(st: AggState, ts: Seq<TStep>, raster: int)
    requires
        st_chained(st),
    ensures
        st_chained(agg_fold(st, ts, raster)),
    decreases ts.len(),
{
    if ts.len() > 0 {
        lemma_agg_step_chained(st, ts[0], raster);
        lemma_agg_fold_chained(agg_step(st, ts[0], raster), ts.drop_first(), raster);
    }
}

/// Emitted sections are contiguous: every section starts exactly where the
/// previous one ends, whatever the sample stream.
pub proof fn lemma_sections_chained(ts: Seq<TStep>, raster: int)
    ensures
        chained(spec_translate(ts, raster)),
{
    lemma_agg_fold_chained(agg_init(), ts, raster);
    let st = agg_fold(agg_init(), ts, raster);
    match st.cur {
        Some(sec) => {
            let done = st.done.push(sec);
            assert forall|i: int|
                #![trigger done[i]]
                0 <= i < done.len() - 1 implies done[i + 1].start == done[i].start
                + done[i].duration by {
                if i < st.done.len() - 1 {
                    assert(done[i] == st.done[i]);
                    assert(done[i + 1] == st.done[i + 1]);
                } else {
                    assert(done[i] == st.done.last());
                    assert(done[i + 1] == sec);
                }
            }
        },
        None => {},
    }
}

/// A stream with no power-bearing sample produces no section at all: its
/// annotations arrive while no section has ever opened, and are dropped.
pub proof fn lemma_no_power_no_sections(ts: Seq<TStep>, raster: int)
    requires
        forall|i: int| 0 <= i < ts.len() ==> (#[trigger] ts[i]).power is None,
    ensures
        spec_translate(ts, raster) =~= Seq::<GSection>::empty(),
    decreases ts.len(),
{
    lemma_no_power_init(ts, raster);
}

proof fn lemma_no_power_init(ts: Seq<TStep>, raster: int)
    requires
        forall|i: int| 0 <= i < ts.len() ==> (#[trigger] ts[i]).power is None,
    ensures
        agg_fold(agg_init(), ts, raster) == agg_init(),
    decreases ts.len(),
{
    if ts.len() > 0 {
        assert(agg_step(agg_init(), ts[0], raster) =~~= agg_init());
        assert(forall|i: int|
            0 <= i < ts.drop_first().len() ==> (#[trigger] ts.drop_first()[i]).power is None);
        lemma_no_power_init(ts.drop_first(), raster);
    }
}

/// Every section of the state has a duration of at least one raster unit and
/// an integer multiple of it.
pub open spec fn st_rastered(st: AggState, raster: int) -> bool {
    &&& forall|i: int|
        0 <= i < st.done.len() ==> (#[trigger] st.done[i]).duration >= raster && st.done[i].duration
            % raster == 0
    &&& (st.cur matches Some(c) ==> c.duration >= raster && c.duration % raster == 0)
}

proof fn lemma_agg_step_rastered(st: AggState, s: TStep, raster: int)
    requires
        1 <= raster,
        st_rastered(st, raster),
    ensures
        st_rastered(agg_step(st, s, raster), raster),
{
    vstd::arithmetic::div_mod::lemma_mod_self_0(raster);
    match st.cur {
        Some(sec0) => {
            if s.time > sec0.start {
                crate::rounding::lemma_round_properties(s.time - sec0.start, raster);
            }
            let sec = agg_measure(sec0, s.time, raster);
            vstd::arithmetic::div_mod::lemma_mod_add_multiples_vanish(sec.duration, raster);
            let st1 = agg_step(st, s, raster);
            assert forall|i: int|
                0 <= i < st1.done.len() implies (#[trigger] st1.done[i]).duration >= raster
                && st1.done[i].duration % raster == 0 by {
                if i < st.done.len() {
                    assert(st1.done[i] == st.done[i]);
                } else {
                    assert(st1.done[i] == sec);
                }
            }
        },
        None => {},
    }
}

proof fn lemma_agg_fold_rastered(st: AggState, ts: Seq<TStep>, raster: int)
    requires
        1 <= raster,
        st_rastered(st, raster),
    ensures
        st_rastered(agg_fold(st, ts, raster), raster),
    decreases ts.len(),
{
    if ts.len() > 0 {
        lemma_agg_step_rastered(st, ts[0], raster);
        lemma_agg_fold_rastered(agg_step(st, ts[0], raster), ts.drop_first(), raster);
    }
}

/// Every emitted section's duration is at least one raster unit and a
/// positive integer multiple of it.
pub proof fn lemma_durations_rastered(ts: Seq<TStep>, raster: int)
    requires
        1 <= raster,
    ensures
        forall|i: int|
            0 <= i < spec_translate(ts, raster).len() ==> (#[trigger] spec_translate(ts, raster)[i]).duration
                >= raster && spec_translate(ts, raster)[i].duration % raster == 0,
{
    lemma_agg_fold_rastered(agg_init(), ts, raster);
    let st = agg_fold(agg_init(), ts, raster);
    let out = spec_translate(ts, raster);
    assert forall|i: int|
        0 <= i < out.len() implies (#[trigger] out[i]).duration >= raster && out[i].duration
        % raster == 0 by {
        match st.cur {
            Some(sec) => {
                if i < st.done.len() {
                    assert(out[i] == st.done[i]);
                } else {
                    assert(out[i] == sec);
                }
            },
            None => {
                assert(out[i] == st.done[i]);
            },
        }
    }
}

/// Samples arriving while no section has ever opened leave no trace: the
/// stream behaves as if it started at its first power-bearing sample, so an
/// annotation arriving before one is silently dropped.
pub proof fn lemma_leading_annotations_dropped(ts: Seq<TStep>, j: int, raster: int)
    requires
        0 <= j <= ts.len(),
        forall|k: int| 0 <= k < j ==> (#[trigger] ts[k]).power is None,
    ensures
        spec_translate(ts, raster) == spec_translate(ts.skip(j), raster),
    decreases j,
{
    if j > 0 {
        assert(agg_step(agg_init(), ts[0], raster) =~~= agg_init());
        assert(ts.drop_first() =~= ts.skip(1));
        assert(ts.skip(1).skip(j - 1) =~= ts.skip(j));
        assert(forall|k: int| 0 <= k < j - 1 ==> (#[trigger] ts.skip(1)[k]).power is None);
        lemma_leading_annotations_dropped(ts.skip(1), j - 1, raster);
    } else {
        assert(ts.skip(0) =~= ts);
    }
}

/// An annotation-only sample attaches to the section open at the moment it is
/// processed: the closed sections are untouched, the open section keeps its
/// start and power, and the annotation is appended to that section's list at
/// the rounded local offset.
pub proof fn lemma_annotation_attaches(st: AggState, s: TStep, raster: int)
    requires
        st.cur is Some,
        s.power is None,
        s.text is Some,
    ensures
        agg_step(st, s, raster).done == st.done,
        agg_step(st, s, raster).cur matches Some(c) && ({
            let sec = agg_measure(st.cur.unwrap(), s.time, raster);
            let off: int = if s.time > sec.start {
                s.time - sec.start
            } else {
                0
            };
            &&& c.start == sec.start
            &&& c.power == sec.power
            &&& c.text =~= sec.text.push(
                GHint { offset: spec_round(off, 5), text: s.text.unwrap() },
            )
        }),
{
}

/// Folding a concatenation is folding the parts in turn.
proof fn lemma_agg_fold_concat(st: AggState, a: Seq<TStep>, b: Seq<TStep>, raster: int)
    ensures
        agg_fold(st, a + b, raster) == agg_fold(agg_fold(st, a, raster), b, raster),
    decreases a.len(),
{
    if a.len() == 0 {
        assert(a + b =~= b);
    } else {
        assert((a + b)[0] == a[0]);
        assert((a + b).drop_first() =~= a.drop_first() + b);
        lemma_agg_fold_concat(agg_step(st, a[0], raster), a.drop_first(), b, raster);
    }
}

/// A section once closed never changes: the closed list only grows at its
/// end.
proof fn lemma_done_persists(st: AggState, ts: Seq<TStep>, raster: int)
    ensures
        agg_fold(st, ts, raster).done.len() >= st.done.len(),
        forall|i: int|
            0 <= i < st.done.len() ==> #[trigger] agg_fold(st, ts, raster).done[i] == st.done[i],
    decreases ts.len(),
{
    if ts.len() > 0 {
        let st1 = agg_step(st, ts[0], raster);
        assert(st1.done.len() >= st.done.len() && forall|i: int|
            0 <= i < st.done.len() ==> #[trigger] st1.done[i] == st.done[i]);
        lemma_done_persists(st1, ts.drop_first(), raster);
    }
}

/// The section open at some moment reaches the output with its start and the
/// annotations it already carries intact, whatever the rest of the stream
/// does; the returned index names it in the output.
proof fn lemma_open_section_persists(
    st: AggState,
    ts: Seq<TStep>,
    raster: int,
    k: int,
    h: GHint,
) -> (j: int)
    requires
        st.cur is Some,
        0 <= k < st.cur.unwrap().text.len(),
        st.cur.unwrap().text[k] == h,
    ensures
        0 <= j < agg_finish(agg_fold(st, ts, raster)).len(),
        agg_finish(agg_fold(st, ts, raster))[j].start == st.cur.unwrap().start,
        agg_finish(agg_fold(st, ts, raster))[j].text.len() > k,
        agg_finish(agg_fold(st, ts, raster))[j].text[k] == h,
    decreases ts.len(),
{
    let c = st.cur.unwrap();
    if ts.len() == 0 {
        assert(agg_finish(st)[st.done.len() as int] == c);
        st.done.len() as int
    } else {
        let st1 = agg_step(st, ts[0], raster);
        if ts[0].power is Some && ts[0].power != Some(c.power) {
            let sec = agg_measure(c, ts[0].time, raster);
            assert(st1.done == st.done.push(sec));
            lemma_done_persists(st1, ts.drop_first(), raster);
            let fin = agg_fold(st1, ts.drop_first(), raster);
            assert(fin.done[st.done.len() as int] == sec);
            assert(agg_finish(fin)[st.done.len() as int] == sec);
            st.done.len() as int
        } else {
            assert(st1.cur is Some && st1.cur.unwrap().start == c.start && st1.cur.unwrap().text.len()
                >= c.text.len() && st1.cur.unwrap().text[k] == h);
            lemma_open_section_persists(st1, ts.drop_first(), raster, k, h)
        }
    }
}

/// Over the whole stream: an annotation-only sample amends exactly the
/// section open at its position. Nothing is closed by it; the open section
/// keeps its start and gains the annotation at the end of its list; and that
/// section reaches the output (at the returned index) still carrying the
/// annotation at that position — it can never belong to a section opened
/// later.
pub proof fn lemma_annotation_attaches_in_stream(ts: Seq<TStep>, x: int, raster: int) -> (j: int)
    requires
        0 <= x < ts.len(),
        ts[x].power is None,
        ts[x].text is Some,
        agg_fold(agg_init(), ts.take(x), raster).cur is Some,
    ensures
        ({
            let st = agg_fold(agg_init(), ts.take(x), raster);
            let open0 = st.cur.unwrap();
            let off: int = if ts[x].time > open0.start {
                ts[x].time - open0.start
            } else {
                0
            };
            let h = GHint { offset: spec_round(off, 5), text: ts[x].text.unwrap() };
            let st1 = agg_fold(agg_init(), ts.take(x + 1), raster);
            let out = spec_translate(ts, raster);
            &&& st1.done == st.done
            &&& st1.cur matches Some(c) && c.start == open0.start && c.text == open0.text.push(h)
            &&& 0 <= j < out.len()
            &&& out[j].start == open0.start
            &&& out[j].text.len() > open0.text.len()
            &&& out[j].text[open0.text.len() as int] == h
        }),
{
    let st = agg_fold(agg_init(), ts.take(x), raster);
    let open0 = st.cur.unwrap();
    let off: int = if ts[x].time > open0.start {
        ts[x].time - open0.start
    } else {
        0
    };
    let h = GHint { offset: spec_round(off, 5), text: ts[x].text.unwrap() };
    assert(ts.take(x + 1) =~= ts.take(x).push(ts[x]));
    lemma_agg_fold_snoc(agg_init(), ts.take(x), ts[x], raster);
    lemma_annotation_attaches(st, ts[x], raster);
    let st1 = agg_fold(agg_init(), ts.take(x + 1), raster);
    assert(st1.cur.unwrap().text =~= open0.text.push(h));
    assert(ts =~= ts.take(x + 1) + ts.skip(x + 1));
    lemma_agg_fold_concat(agg_init(), ts.take(x + 1), ts.skip(x + 1), raster);
    let k = open0.text.len() as int;
    lemma_open_section_persists(st1, ts.skip(x + 1), raster, k, h)
}

/// Rescales one timestamp, clamped to `MAX_SCALED_TIME`.
pub fn scaled_time(t: u64, num: u32, den: u32) -> (r: u64)
    requires
        1 <= num,
    ensures
        r == spec_scaled_time(t as int, num as int, den as int),
        r <= MAX_SCALED_TIME,
{
    proof {
        assert(2 * (t as int) * (den as int) <= 0x8_0000_0000_0000_0000_0000_0000) by (
        nonlinear_arith)
            requires
                0 <= t <= 0xFFFF_FFFF_FFFF_FFFFu64,
                0 <= den <= 0xFFFF_FFFFu32,
        ;
    }
    let x: u128 = 2 * (t as u128) * (den as u128) + (num as u128);
    let q: u128 = x / (2 * (num as u128));
    if q > MAX_SCALED_TIME as u128 {
        MAX_SCALED_TIME
    } else {
        q as u64
    }
}

/// Rescales one power reading into hundredths of the reference power.
pub fn power_level(w: u16, sn: u32, sd: u32, ftp: u16) -> (r: u64)
    requires
        1 <= sd,
        1 <= ftp,
    ensures
        r == spec_power_level(w as int, sn as int, sd as int, ftp as int),
        r <= 0x100_0000_0000_0000,
{
    proof {
        assert(0 <= 2 * (w as int) * (sn as int) * 100 <= 0x100_0000_0000_0000 && 0 <= (sd as int)
            * (ftp as int) <= 0x1_0000_0000_0000 && 2 <= 2 * (sd as int) * (ftp as int)
            <= 0x2_0000_0000_0000) by (nonlinear_arith)
            requires
                0 <= w <= 0xFFFFu16,
                0 <= sn <= 0xFFFF_FFFFu32,
                1 <= sd <= 0xFFFF_FFFFu32,
                1 <= ftp <= 0xFFFFu16,
        ;
    }
    let x: u128 = 2 * (w as u128) * (sn as u128) * 100 + (sd as u128) * (ftp as u128);
    let q: u128 = x / (2 * (sd as u128) * (ftp as u128));
    proof {
        vstd::arithmetic::div_mod::lemma_div_is_ordered_by_denominator(
            x as int,
            2,
            2 * (sd as int) * (ftp as int),
        );
        assert(x as int / 2 <= 0x100_0000_0000_0000);
    }
    q as u64
}

} // verus!
