//! The run configuration and the whole compute pipeline: records are
//! resolved, transformed, aggregated and rendered in one pass.

use crate::course::{spec_course_text, Course, GCourse};
use crate::errors::Error;
use crate::record::{records_view, GRecord, Record};
use crate::resolve::{
    clone_text, resolve_records, spec_resolve, steps_view, GStep, Step, TimeMode, MAX_RECORDS,
};
use crate::translate::{
    sections_view, spec_translate, transform_all, translate_steps, GConfig, Section,
};
use vstd::prelude::*;

verus! {

/// The run configuration: course metadata, time mode, reference power, the
/// two linear factors as positive ratios, and the raster unit.
pub struct CourseBuilder {
    pub name: String,
    pub description: Option<String>,
    pub author: String,
    pub time_mode: TimeMode,
    pub sport_type: String,
    /// Reference power in watts; output power is a fraction of it.
    pub ftp: u16,
    pub accel_num: u32,
    pub accel_den: u32,
    pub scale_num: u32,
    pub scale_den: u32,
    pub raster: u32,
}

/// Compares two strings character by character.
#[verifier::loop_isolation(false)]
pub fn eq_str(a: &str, b: &str) -> (r: bool)
    ensures
        r == (a@ == b@),
{
    let n = a.unicode_len();
    if n != b.unicode_len() {
        return false;
    }
    let mut i: usize = 0;
    while i < n
        invariant
            0 <= i <= n,
            forall|k: int| 0 <= k < i ==> a@[k] == b@[k],
        decreases n - i,
    {
        if a.get_char(i) != b.get_char(i) {
            return false;
        }
        i = i + 1;
    }
    proof {
        assert(a@ =~= b@);
    }
    true
}

/// Checks the configured time mode; only `time` and `duration` are valid,
/// anything else is a configuration failure before any row is read.
pub fn validate_time_mode(s: &str) -> (r: Result<TimeMode, Error>)
    ensures
        s@ == "time"@ ==> r == Ok::<TimeMode, Error>(TimeMode::Time),
        s@ == "duration"@ ==> r == Ok::<TimeMode, Error>(TimeMode::Duration),
        s@ != "time"@ && s@ != "duration"@ ==> r == Err::<TimeMode, Error>(Error::Config),
{
    proof {
        reveal_strlit("time");
        reveal_strlit("duration");
        assert("time"@.len() == 4);
        assert("duration"@.len() == 8);
        assert("time"@ != "duration"@);
    }
    if eq_str(s, "time") {
        Ok(TimeMode::Time)
    } else if eq_str(s, "duration") {
        Ok(TimeMode::Duration)
    } else {
        Err(Error::Config)
    }
}

impl CourseBuilder {
    /// The configuration is meaningful: the reference power, the raster unit
    /// and both linear factors are positive.
    pub open spec fn wf(&self) -> bool {
        &&& self.ftp >= 1
        &&& self.raster >= 1
        &&& self.accel_num >= 1
        &&& self.accel_den >= 1
        &&& self.scale_num >= 1
        &&& self.scale_den >= 1
    }

    /// The numeric configuration handed to the transforms.
    pub open spec fn cfg(&self) -> GConfig {
        GConfig {
            accel_num: self.accel_num as int,
            accel_den: self.accel_den as int,
            scale_num: self.scale_num as int,
            scale_den: self.scale_den as int,
            ftp: self.ftp as int,
            raster: self.raster as int,
        }
    }

    /// Resolves every record's time under the configured mode.
    pub fn parse_records(&self, records: &Vec<Record>) -> (r: Result<Vec<Step>, Error>)
        requires
            records@.len() <= MAX_RECORDS,
        ensures
            match r {
                Ok(v) => spec_resolve(records_view(records@), self.time_mode) == Ok::<_, Error>(
                    steps_view(v@),
                ),
                Err(e) => spec_resolve(records_view(records@), self.time_mode) == Err::<
                    Seq<GStep>,
                    _,
                >(e),
            },
    {
        resolve_records(records, self.time_mode)
    }

    /// Folds the resolved samples into the chained section list.
    pub fn translate(&self, steps: &Vec<Step>) -> (out: Vec<Section>)
        requires
            self.wf(),
            steps@.len() <= MAX_RECORDS,
        ensures
            sections_view(out@) == spec_translate(
                transform_all(steps_view(steps@), self.cfg()),
                self.raster as int,
            ),
    {
        translate_steps(
            self.accel_num,
            self.accel_den,
            self.scale_num,
            self.scale_den,
            self.ftp,
            self.raster,
            steps,
        )
    }

    /// What one whole run computes from the parsed records: the rendered
    /// document, or the first error on the way.
    pub open spec fn spec_run(&self, rs: Seq<GRecord>) -> Result<Seq<char>, Error> {
        match spec_resolve(rs, self.time_mode) {
            Err(e) => Err(e),
            Ok(gsteps) => Ok(
                spec_course_text(
                    GCourse {
                        name: self.name@,
                        description: match self.description {
                            Some(d) => Some(d@),
                            None => None,
                        },
                        author: self.author@,
                        sport_type: self.sport_type@,
                        sections: spec_translate(
                            transform_all(gsteps, self.cfg()),
                            self.raster as int,
                        ),
                    },
                ),
            ),
        }
    }

    /// Builds the rendered document from parsed records: the compute part of
    /// one whole run.
    pub fn build(&self, records: &Vec<Record>) -> (r: Result<String, Error>)
        requires
            self.wf(),
            records@.len() <= MAX_RECORDS,
        ensures
            match r {
                Ok(text) => self.spec_run(records_view(records@)) == Ok::<Seq<char>, Error>(text@),
                Err(e) => self.spec_run(records_view(records@)) == Err::<Seq<char>, Error>(e),
            },
    {
        let steps = match self.parse_records(records) {
            Ok(s) => s,
            Err(e) => {
                return Err(e);
            },
        };
        proof {
            crate::resolve::lemma_resolve_len(
                records_view(records@),
                self.time_mode,
                steps_view(steps@),
            );
        }
        let sections = self.translate(&steps);
        let course = Course {
            name: self.name.clone(),
            description: clone_text(&self.description),
            author: self.author.clone(),
            sport_type: self.sport_type.clone(),
            sections,
        };
        let text = course.to_text();
        Ok(text)
    }
}

} // verus!
