//! Studies: plain metadata records carried alongside infrastructures, with
//! the date-ordering rule their forms are validated against.

use vstd::prelude::*;

verus! {

/// A calendar date.
#[derive(Clone, Copy, Debug, PartialEq, Eq, Structural)]
pub struct Date {
    pub year: i32,
    pub month: u8,
    pub day: u8,
}

/// Whether `a` is on or before `b`.
pub open spec fn spec_date_le(a: Date, b: Date) -> bool {
    if a.year != b.year {
        a.year < b.year
    } else if a.month != b.month {
        a.month < b.month
    } else {
        a.day <= b.day
    }
}

/// Whether `a` is on or before `b`.
pub fn date_le(a: Date, b: Date) -> (r: bool)
    ensures
        r == spec_date_le(a, b),
{
    if a.year != b.year {
        a.year < b.year
    } else if a.month != b.month {
        a.month < b.month
    } else {
        a.day <= b.day
    }
}

/// Failures of study handling.
#[derive(Clone, Debug)]
pub enum StudyError {
    /// No study with the given id exists.
    NotFound { study_id: i64 },
    /// The study start date must be before the end date.
    StartDateAfterEndDate,
}

/// One study.
#[derive(Clone, Debug)]
pub struct Study {
    pub id: i64,
    pub project_id: i64,
    pub name: String,
    pub description: String,
    pub business_code: String,
    pub service_code: String,
    pub budget: i32,
    pub tags: Vec<String>,
    pub state: String,
    pub study_type: String,
    pub start_date: Option<Date>,
    pub expected_end_date: Option<Date>,
    pub actual_end_date: Option<Date>,
}

impl Study {
    /// The start date, when present, precedes each end date present.
    pub open spec fn spec_dates_ok(self) -> bool {
        match self.start_date {
            None => true,
            Some(s) => (match self.expected_end_date {
                None => true,
                Some(e) => spec_date_le(s, e),
            }) && (match self.actual_end_date {
                None => true,
                Some(e) => spec_date_le(s, e),
            }),
        }
    }

    /// Rejects a study whose start date is after one of its end dates.
    pub fn validate(&self) -> (r: Result<(), StudyError>)
        ensures
            match r {
                Ok(()) => self.spec_dates_ok(),
                Err(e) => e is StartDateAfterEndDate && !self.spec_dates_ok(),
            },
    {
        if let Some(s) = self.start_date {
            if let Some(e) = self.expected_end_date {
                if !date_le(s, e) {
                    return Err(StudyError::StartDateAfterEndDate);
                }
            }
            if let Some(e) = self.actual_end_date {
                if !date_le(s, e) {
                    return Err(StudyError::StartDateAfterEndDate);
                }
            }
        }
        Ok(())
    }

    /// A study requested through a project is reported as missing when it
    /// belongs to another project.
    pub fn check_belongs_to_project(&self, project_id: i64) -> (r: Result<(), StudyError>)
        ensures
            match r {
                Ok(()) => self.project_id == project_id,
                Err(e) => (e matches StudyError::NotFound { study_id } && study_id == self.id)
                    && self.project_id != project_id,
            },
    {
        if self.project_id != project_id {
            Err(StudyError::NotFound { study_id: self.id })
        } else {
            Ok(())
        }
    }
}

/// The payload a study is created from.
#[derive(Clone, Debug)]
pub struct StudyCreateForm {
    pub name: String,
    pub description: String,
    pub start_date: Option<Date>,
    pub expected_end_date: Option<Date>,
    pub actual_end_date: Option<Date>,
    pub business_code: String,
    pub service_code: String,
    pub budget: i32,
    pub tags: Vec<String>,
    pub state: String,
    pub study_type: String,
}

impl StudyCreateForm {
    /// The study this form stands for, attached to the given project;
    /// rejected when its dates are out of order.
    pub fn into_study(self, project_id: i64) -> (r: Result<Study, StudyError>)
        ensures
            match r {
                Ok(st) => st.spec_dates_ok() && st.id == 0 && st.project_id == project_id
                    && st.name == self.name && st.description == self.description
                    && st.business_code == self.business_code && st.service_code
                    == self.service_code && st.budget == self.budget && st.tags == self.tags
                    && st.state == self.state && st.study_type == self.study_type
                    && st.start_date == self.start_date && st.expected_end_date
                    == self.expected_end_date && st.actual_end_date == self.actual_end_date,
                Err(e) => e is StartDateAfterEndDate,
            },
    {
        let res = Study {
            id: 0,
            project_id,
            name: self.name,
            description: self.description,
            business_code: self.business_code,
            service_code: self.service_code,
            budget: self.budget,
            tags: self.tags,
            state: self.state,
            study_type: self.study_type,
            start_date: self.start_date,
            expected_end_date: self.expected_end_date,
            actual_end_date: self.actual_end_date,
        };
        match res.validate() {
            Ok(()) => Ok(res),
            Err(e) => Err(e),
        }
    }
}

/// The payload a study is patched with: absent fields are left unchanged.
#[derive(Clone, Debug)]
pub struct StudyPatchForm {
    pub name: Option<String>,
    pub description: Option<String>,
    pub start_date: Option<Date>,
    pub expected_end_date: Option<Date>,
    pub actual_end_date: Option<Date>,
    pub business_code: Option<String>,
    pub service_code: Option<String>,
    pub budget: Option<i32>,
    pub tags: Option<Vec<String>>,
    pub state: Option<String>,
    pub study_type: Option<String>,
}

impl StudyPatchForm {
    /// The dates the patch carries are ordered.
    pub open spec fn spec_dates_ok(self) -> bool {
        match self.start_date {
            None => true,
            Some(s) => (match self.expected_end_date {
                None => true,
                Some(e) => spec_date_le(s, e),
            }) && (match self.actual_end_date {
                None => true,
                Some(e) => spec_date_le(s, e),
            }),
        }
    }

    /// Rejects a patch whose start date is after one of its end dates.
    pub fn validate(&self) -> (r: Result<(), StudyError>)
        ensures
            match r {
                Ok(()) => self.spec_dates_ok(),
                Err(e) => e is StartDateAfterEndDate && !self.spec_dates_ok(),
            },
    {
        if let Some(s) = self.start_date {
            if let Some(e) = self.expected_end_date {
                if !date_le(s, e) {
                    return Err(StudyError::StartDateAfterEndDate);
                }
            }
            if let Some(e) = self.actual_end_date {
                if !date_le(s, e) {
                    return Err(StudyError::StartDateAfterEndDate);
                }
            }
        }
        Ok(())
    }
}

/// One project a study belongs to.
#[derive(Clone, Debug)]
pub struct Project {
    pub id: i64,
    pub name: String,
}

/// A study together with how many scenarios it holds.
#[derive(Clone, Debug)]
pub struct StudyWithScenarios {
    pub study: Study,
    pub scenarios_count: i64,
}

/// The response payload for one study: the study, its scenario count and
/// its project.
#[derive(Clone, Debug)]
pub struct StudyResponse {
    pub study: Study,
    pub scenarios_count: i64,
    pub project: Project,
}

impl StudyResponse {
    pub fn new(study_scenarios: StudyWithScenarios, project: Project) -> (r: Self)
        ensures
            r.study == study_scenarios.study,
            r.scenarios_count == study_scenarios.scenarios_count,
            r.project == project,
    {
        StudyResponse {
            study: study_scenarios.study,
            scenarios_count: study_scenarios.scenarios_count,
            project,
        }
    }
}

/// The path parameter naming one study.
#[derive(Clone, Copy, Debug)]
pub struct StudyIdParam {
    pub study_id: i64,
}

} // verus!
