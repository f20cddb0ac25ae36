use editoast::study::{
    date_le, Date, Project, Study, StudyCreateForm, StudyError, StudyIdParam, StudyPatchForm,
    StudyResponse, StudyWithScenarios,
};

fn date(year: i32, month: u8, day: u8) -> Date {
    Date { year, month, day }
}

fn form(start: Option<Date>, expected: Option<Date>, actual: Option<Date>) -> StudyCreateForm {
    StudyCreateForm {
        name: "study_test".to_string(),
        description: String::new(),
        start_date: start,
        expected_end_date: expected,
        actual_end_date: actual,
        business_code: String::new(),
        service_code: String::new(),
        budget: 0,
        tags: vec![],
        state: "Starting".to_string(),
        study_type: String::new(),
    }
}

#[test]
fn date_ordering_is_lexicographic() {
    assert!(date_le(date(2023, 1, 31), date(2023, 2, 1)));
    assert!(date_le(date(2022, 12, 31), date(2023, 1, 1)));
    assert!(date_le(date(2023, 5, 5), date(2023, 5, 5)));
    assert!(!date_le(date(2023, 5, 6), date(2023, 5, 5)));
}

#[test]
fn into_study_maps_every_field() {
    let f = form(Some(date(2023, 1, 1)), Some(date(2023, 6, 1)), None);
    let study = f.into_study(42).unwrap();
    assert_eq!(study.project_id, 42);
    assert_eq!(study.name, "study_test");
    assert_eq!(study.state, "Starting");
    assert_eq!(study.start_date, Some(date(2023, 1, 1)));
    assert_eq!(study.expected_end_date, Some(date(2023, 6, 1)));
    assert!(study.actual_end_date.is_none());
}

#[test]
fn into_study_rejects_a_start_after_the_end() {
    let f = form(Some(date(2023, 6, 2)), Some(date(2023, 6, 1)), None);
    assert!(matches!(f.into_study(1), Err(StudyError::StartDateAfterEndDate)));
    let f = form(Some(date(2023, 6, 2)), None, Some(date(2023, 6, 1)));
    assert!(matches!(f.into_study(1), Err(StudyError::StartDateAfterEndDate)));
    // Without a start date anything goes.
    let f = form(None, Some(date(2023, 6, 1)), None);
    assert!(f.into_study(1).is_ok());
}

#[test]
fn patch_forms_validate_their_dates() {
    let patch = StudyPatchForm {
        name: Some("rename_test".to_string()),
        description: None,
        start_date: Some(date(2024, 2, 2)),
        expected_end_date: Some(date(2024, 1, 1)),
        actual_end_date: None,
        business_code: None,
        service_code: None,
        budget: Some(20000),
        tags: None,
        state: None,
        study_type: None,
    };
    assert!(matches!(patch.validate(), Err(StudyError::StartDateAfterEndDate)));
}

#[test]
fn study_response_carries_the_scenario_count() {
    let study = form(None, None, None).into_study(7).unwrap();
    let with_scenarios = StudyWithScenarios { study: study.clone(), scenarios_count: 3 };
    let project = Project { id: 7, name: "proj".to_string() };
    let response = StudyResponse::new(with_scenarios, project);
    assert_eq!(response.scenarios_count, 3);
    assert_eq!(response.study.name, study.name);
    assert_eq!(response.project.id, 7);
    let param = StudyIdParam { study_id: response.study.id };
    assert_eq!(param.study_id, 0);
}

#[test]
fn validate_passes_ordered_dates() {
    let study: Study = form(
        Some(date(2023, 1, 1)),
        Some(date(2023, 6, 1)),
        Some(date(2023, 7, 1)),
    )
    .into_study(1)
    .unwrap();
    assert!(study.validate().is_ok());
}

#[test]
fn a_study_of_another_project_is_reported_missing() {
    let mut study = form(None, None, None).into_study(7).unwrap();
    study.id = 99;
    assert!(study.check_belongs_to_project(7).is_ok());
    match study.check_belongs_to_project(8) {
        Err(StudyError::NotFound { study_id }) => assert_eq!(study_id, 99),
        _ => panic!("expected not found"),
    }
}
