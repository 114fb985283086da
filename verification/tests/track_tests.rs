use emucap::track::{
    after_finish, begin_new_run, bind_started, bootstrap, current_run, finding_target,
    finish_status, finish_target, rebind_active, release_finished, require_active, resume_run,
    supplied_meta, ActiveRun, FinishTarget,
};

fn run(rom: &str, id: &str) -> ActiveRun {
    ActiveRun { rom_sha1: rom.into(), run_id: id.into(), connection_ref: Some("port:1".into()) }
}

#[test]
fn rebinding_supersedes_only_another_run() {
    let mut slot = None;
    assert!(rebind_active(&mut slot, run("r", "A")).is_none());
    let same = rebind_active(&mut slot, run("r", "A"));
    assert!(same.is_none());
    let prev = rebind_active(&mut slot, run("r", "B")).unwrap();
    assert_eq!(prev.run_id, "A");
    assert_eq!(slot.as_ref().unwrap().run_id, "B");
}

#[test]
fn starting_and_finishing() {
    let mut slot = Some(run("r", "A"));
    let old = begin_new_run(&mut slot).unwrap();
    assert_eq!(old.run_id, "A");
    assert!(slot.is_none());
    assert_eq!(
        bind_started(&mut slot, "r", None, None),
        Err("내부 오류: start_run 응답에 run_id 없음".to_string())
    );
    assert!(slot.is_none());
    assert!(bind_started(&mut slot, "r", Some("C"), None).is_ok());
    assert_eq!(slot.as_ref().unwrap().run_id, "C");
    release_finished(&mut slot, Some("D"));
    assert!(slot.is_some());
    release_finished(&mut slot, Some("C"));
    assert!(slot.is_none());
}

#[test]
fn findings_and_defaults() {
    let slot = Some(run("rom1", "A"));
    assert_eq!(finding_target(None, &slot), Ok(("rom1".to_string(), Some("A".to_string()))));
    assert_eq!(
        finding_target(Some("rom2".into()), &slot),
        Ok(("rom2".to_string(), Some("A".to_string())))
    );
    assert_eq!(finding_target(None, &None), Err("rom_sha1 미지정 + 활성 run 없음".to_string()));
    assert_eq!(finding_target(Some("x".into()), &None), Ok(("x".to_string(), None)));
    assert!(!supplied_meta(&None, &None, &vec![]));
    assert!(supplied_meta(&None, &None, &vec!["t".into()]));
    assert_eq!(finish_status(None), "done");
    assert_eq!(finish_status(Some("error")), "error");
    assert_eq!(current_run(&slot).unwrap().connection_ref.as_deref(), Some("port:1"));
}

#[test]
fn resuming_answers_with_the_run_and_notes_ignored_metadata() {
    let mut slot = Some(run("r", "A"));
    let (superseded, answer) = resume_run(&mut slot, run("r2", "B"), "/ledger", true);
    assert_eq!(superseded.unwrap().run_id, "A");
    assert_eq!((answer.run_id.as_str(), answer.rom_sha1.as_str()), ("B", "r2"));
    assert_eq!(answer.ledger_path, "/ledger");
    assert!(answer.resumed);
    assert!(answer.note.unwrap().starts_with("기존 run을 resume했다"));
    let (superseded, answer) = resume_run(&mut slot, run("r2", "B"), "/ledger", false);
    assert!(superseded.is_none());
    assert!(answer.note.is_none());
    assert_eq!(slot.unwrap().run_id, "B");
}

#[test]
fn tools_without_a_current_run_are_refused() {
    assert_eq!(require_active(&None).err(), Some("활성 run 없음 — run_start 먼저".to_string()));
    assert_eq!(require_active(&Some(run("r", "A"))).unwrap().run_id, "A");
    assert_eq!(
        finish_target(None, &None).err(),
        Some("활성 run 없음 — run_start 먼저(또는 run_id로 특정 run 종료)".to_string())
    );
}

#[test]
fn finishing_by_id_or_the_current_run() {
    let mut slot = Some(run("r", "A"));
    let t = finish_target(Some("Z"), &slot).unwrap();
    assert!(matches!(&t, FinishTarget::ById(id) if id == "Z"));
    after_finish(&mut slot, &t, Some("Z"));
    assert_eq!(slot.as_ref().unwrap().run_id, "A");
    let t = finish_target(Some("A"), &slot).unwrap();
    after_finish(&mut slot, &t, Some("A"));
    assert!(slot.is_none());
    let mut slot = Some(run("r", "B"));
    let t = finish_target(None, &slot).unwrap();
    assert!(matches!(&t, FinishTarget::Current(a) if a.run_id == "B"));
    after_finish(&mut slot, &t, None);
    assert!(slot.is_none());
}

#[test]
fn bootstrap_reports_the_ledger_and_runs() {
    let slot = Some(run("r", "A"));
    let b = bootstrap::<Vec<u8>, String>(
        "/l".into(),
        "cwd_fallback".into(),
        Some("warn".into()),
        &slot,
        Err("unreadable".into()),
    );
    assert_eq!((b.ledger_path.as_str(), b.ledger_path_source.as_str()), ("/l", "cwd_fallback"));
    assert_eq!(b.active_run.unwrap().run_id, "A");
    assert!(b.running_runs.is_none());
    assert_eq!(b.ledger_path_warning.as_deref(), Some("warn"));
    let b = bootstrap::<Vec<u8>, String>("/l".into(), "env".into(), None, &None, Ok(vec![1]));
    assert_eq!(b.running_runs, Some(vec![1]));
    assert!(b.active_run.is_none());
}
