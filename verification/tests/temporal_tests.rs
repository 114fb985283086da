use emucap::temporal::finish_with_cleanup;

fn combine(primary: Option<&'static str>, cleanup: &'static str) -> &'static str {
    match primary {
        Some(_) => "primary+cleanup",
        None => cleanup,
    }
}

#[test]
fn successful_effect_is_not_completed_when_cleanup_fails() {
    assert_eq!(
        finish_with_cleanup(Ok::<_, &'static str>(7), Err("cleanup"), combine),
        Err("cleanup")
    );
}

#[test]
fn dual_failure_keeps_both_failure_classes() {
    assert_eq!(
        finish_with_cleanup::<(), _>(Err("primary"), Err("cleanup"), combine),
        Err("primary+cleanup")
    );
}

#[test]
fn primary_failure_survives_successful_cleanup() {
    assert_eq!(
        finish_with_cleanup::<(), _>(Err("primary"), Ok(()), combine),
        Err("primary")
    );
}

#[test]
fn success_with_clean_cleanup_completes() {
    assert_eq!(
        finish_with_cleanup(Ok::<_, &'static str>(7), Ok(()), combine),
        Ok(7)
    );
}

#[test]
fn combine_sees_no_primary_failure_when_the_effect_succeeded() {
    let r = finish_with_cleanup(Ok::<u8, String>(1), Err("c".to_string()), |p: Option<String>, c: String| {
        format!("{}|{}", p.unwrap_or_else(|| "none".to_string()), c)
    });
    assert_eq!(r, Err("none|c".to_string()));
}
