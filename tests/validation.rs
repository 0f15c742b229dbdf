use u_ras::models::activity::Activity;
use u_ras::models::resource::Resource;
use u_ras::models::task::Task;
use u_ras::validation::validate_input;

#[test]
fn test_valid_input() {
    let tasks = vec![Task::new("T1").with_activity(Activity::new("A1", "T1", 1).with_resources("machine", vec!["M1".into()]))];
    let resources = vec![Resource::primary("M1")];

    let result = validate_input(&tasks, &resources);
    assert!(result.is_valid);
}

#[test]
fn test_duplicate_task_id() {
    let tasks = vec![Task::new("T1"), Task::new("T1")];
    let resources = vec![];

    let result = validate_input(&tasks, &resources);
    assert!(!result.is_valid);
}

#[test]
fn test_invalid_resource_reference() {
    let tasks = vec![Task::new("T1").with_activity(Activity::new("A1", "T1", 1).with_resources("machine", vec!["UNKNOWN".into()]))];
    let resources = vec![Resource::primary("M1")];

    let result = validate_input(&tasks, &resources);
    assert!(!result.is_valid);
}

#[test]
fn validation_codes_and_messages() {
    let tasks = vec![
        Task::new("T1"),
        Task::new("T1").with_activity(Activity::new("A1", "T1", 1).with_resources("machine", vec!["UNKNOWN".into()])),
    ];
    let resources = vec![Resource::primary("M1"), Resource::primary("M1")];
    let result = validate_input(&tasks, &resources);
    let codes: Vec<&str> = result.errors.iter().map(|e| e.code.as_str()).collect();
    assert_eq!(codes, vec!["DUPLICATE_TASK", "DUPLICATE_RESOURCE", "INVALID_RESOURCE_REF"]);
    assert_eq!(result.errors[0].message, "Duplicate task ID: T1");
    assert_eq!(result.errors[1].message, "Duplicate resource ID: M1");
    assert_eq!(result.errors[2].message, "Activity A1 references unknown resource UNKNOWN");
}
