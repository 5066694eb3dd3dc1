use troll::requirements::{evaluate_requirement, requirement_errors};

#[test]
fn present_requirement_passes() {
    assert!(evaluate_requirement("snap", Some(14)).is_ok());
    assert!(evaluate_requirement("flatpak", Some(1)).is_ok());
}

#[test]
fn empty_probe_output_means_missing() {
    let err = evaluate_requirement("snap", Some(0)).expect_err("missing");
    assert_eq!(err, "requirement not found: snap");
}

#[test]
fn failed_probe_is_its_own_error() {
    let err = evaluate_requirement("flatpak", None).expect_err("probe failed");
    assert_eq!(err, "Error Running `which`");
}

#[test]
fn all_missing_requirements_are_collected_together() {
    let checks = vec![
        Err("requirement not found: snap".to_string()),
        Ok(()),
        Err("requirement not found: flatpak".to_string()),
    ];
    let errs = requirement_errors(checks);
    assert_eq!(errs.len(), 2);
    assert_eq!(errs[0], "requirement not found: snap");
    assert_eq!(errs[1], "requirement not found: flatpak");

    assert_eq!(requirement_errors(vec![Ok(()), Ok(())]).len(), 0);
}
