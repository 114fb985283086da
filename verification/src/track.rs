//! The in-memory "current run" of the experiment tracking server: which run the log tools write
//! to, and which runs get closed when another takes its place.
use vstd::prelude::*;

verus! {

/// The run that log tools currently write to.
pub struct ActiveRun {
    pub rom_sha1: String,
    pub run_id: String,
    /// The session or connection the run belongs to, as the caller named it.
    pub connection_ref: Option<String>,
}

fn clone_opt(o: &Option<String>) -> (r: Option<String>)
    ensures
        r == *o,
{
    match o {
        Some(s) => Some(s.clone()),
        None => None,
    }
}

/// Makes `binding` the current run. The run that was current before, when it is another run,
/// is given back so that it can be closed as superseded; at most one run is ever current.
pub fn rebind_active(slot: &mut Option<ActiveRun>, binding: ActiveRun) -> (superseded: Option<
    ActiveRun,
>)
    ensures
        *final(slot) == Some(binding),
        superseded == match *old(slot) {
            Some(prev) => if prev.run_id@ != binding.run_id@ {
                Some(prev)
            } else {
                None
            },
            None => None,
        },
{
    let prev = slot.take();
    let superseded = match prev {
        Some(p) => if p.run_id != binding.run_id {
            Some(p)
        } else {
            None
        },
        None => None,
    };
    *slot = Some(binding);
    superseded
}

/// Clears the current run before a new run starts, giving it back so that it can be closed
/// as superseded.
pub fn begin_new_run(slot: &mut Option<ActiveRun>) -> (superseded: Option<ActiveRun>)
    ensures
        *final(slot) is None,
        superseded == *old(slot),
{
    slot.take()
}

/// The error of a run start whose reply named no run.
pub open spec fn missing_run_id_message() -> Seq<char> {
    "내부 오류: start_run 응답에 run_id 없음"@
}

/// Makes the run that was just started current, when the store's reply named it (`run_id`); a
/// reply that names no run is an internal error and leaves the current run as it was.
pub fn bind_started(
    slot: &mut Option<ActiveRun>,
    rom_sha1: &str,
    run_id: Option<&str>,
    connection_ref: Option<String>,
) -> (r: Result<(), String>)
    ensures
        run_id is Some ==> r is Ok,
        run_id matches Some(id) ==> (*final(slot) matches Some(a) && a.rom_sha1@ == rom_sha1@
            && a.run_id@ == id@ && a.connection_ref == connection_ref),
        run_id is None ==> (r matches Err(m) && m@ == missing_run_id_message() && *final(slot)
            == *old(slot)),
{
    match run_id {
        Some(id) => {
            *slot = Some(
                ActiveRun {
                    rom_sha1: String::from_str(rom_sha1),
                    run_id: String::from_str(id),
                    connection_ref,
                },
            );
            Ok(())
        },
        None => Err(String::from_str("내부 오류: start_run 응답에 run_id 없음")),
    }
}

/// The answer to resuming a run: the run, the ledger it lives in, that it was resumed, and,
/// when the request carried run metadata, a note that the metadata was not applied.
pub struct ResumeAnswer {
    pub run_id: String,
    pub rom_sha1: String,
    pub ledger_path: String,
    pub resumed: bool,
    pub note: Option<String>,
}

/// The note that a resumed run keeps its own metadata.
pub open spec fn resume_note() -> Seq<char> {
    "기존 run을 resume했다 — 이 호출의 goal/description/tags는 무시됐다(기존 run 메타 유지). 새 goal로 *새 실험*을 시작하려면 run_finish 후 run_start하라."@
}

/// Resumes run `binding` in the ledger at `ledger_path`: it becomes the current run (see
/// [`rebind_active`], whose superseded run is given back to be closed) and the answer names it.
pub fn resume_run(
    slot: &mut Option<ActiveRun>,
    binding: ActiveRun,
    ledger_path: &str,
    caller_supplied_meta: bool,
) -> (r: (Option<ActiveRun>, ResumeAnswer))
    ensures
        *final(slot) == Some(binding),
        r.0 == match *old(slot) {
            Some(prev) => if prev.run_id@ != binding.run_id@ {
                Some(prev)
            } else {
                None
            },
            None => None,
        },
        r.1.run_id@ == binding.run_id@,
        r.1.rom_sha1@ == binding.rom_sha1@,
        r.1.ledger_path@ == ledger_path@,
        r.1.resumed,
        caller_supplied_meta ==> (r.1.note matches Some(n) && n@ == resume_note()),
        !caller_supplied_meta ==> r.1.note is None,
{
    let note = if caller_supplied_meta {
        Some(
            String::from_str(
                "기존 run을 resume했다 — 이 호출의 goal/description/tags는 무시됐다(기존 run 메타 유지). 새 goal로 *새 실험*을 시작하려면 run_finish 후 run_start하라.",
            ),
        )
    } else {
        None
    };
    let answer = ResumeAnswer {
        run_id: binding.run_id.clone(),
        rom_sha1: binding.rom_sha1.clone(),
        ledger_path: String::from_str(ledger_path),
        resumed: true,
        note,
    };
    let superseded = rebind_active(slot, binding);
    (superseded, answer)
}

/// The error of a tool that needs a current run when there is none.
pub open spec fn no_active_message() -> Seq<char> {
    "활성 run 없음 — run_start 먼저"@
}

/// The current run, for a tool that writes to it; an error when there is none.
pub fn require_active(slot: &Option<ActiveRun>) -> (r: Result<ActiveRun, String>)
    ensures
        match *slot {
            Some(a) => r == Ok::<ActiveRun, String>(a),
            None => r matches Err(m) && m@ == no_active_message(),
        },
{
    match current_run(slot) {
        Some(a) => Ok(a),
        None => Err(String::from_str("활성 run 없음 — run_start 먼저")),
    }
}

/// The run a finish request closes: the run it names by id, else the current run.
pub enum FinishTarget {
    ById(String),
    Current(ActiveRun),
}

/// The error of a finish request that names no run when there is no current run.
pub open spec fn nothing_to_finish_message() -> Seq<char> {
    "활성 run 없음 — run_start 먼저(또는 run_id로 특정 run 종료)"@
}

/// The run that a finish request for `run_id` closes (see [`FinishTarget`]); an error when it
/// names none and there is no current run.
pub fn finish_target(run_id: Option<&str>, slot: &Option<ActiveRun>) -> (r: Result<FinishTarget, String>)
    ensures
        match run_id {
            Some(id) => r matches Ok(FinishTarget::ById(x)) && x@ == id@,
            None => match *slot {
                Some(a) => r matches Ok(FinishTarget::Current(b)) && b == a,
                None => r matches Err(m) && m@ == nothing_to_finish_message(),
            },
        },
{
    match run_id {
        Some(id) => Ok(FinishTarget::ById(String::from_str(id))),
        None => match current_run(slot) {
            Some(a) => Ok(FinishTarget::Current(a)),
            None => Err(String::from_str("활성 run 없음 — run_start 먼저(또는 run_id로 특정 run 종료)")),
        },
    }
}

/// The current run after the store closed `target`, its reply naming the run it finished
/// (`finished`): a run closed by id is released when it was the current one (see
/// [`release_finished`]); the current run, once closed, is no longer current.
pub fn after_finish(slot: &mut Option<ActiveRun>, target: &FinishTarget, finished: Option<&str>)
    ensures
        match *target {
            FinishTarget::ById(_) => {
                let cleared = match (*old(slot), finished) {
                    (Some(a), Some(f)) => a.run_id@ == f@,
                    _ => false,
                };
                if cleared {
                    *final(slot) is None
                } else {
                    *final(slot) == *old(slot)
                }
            },
            FinishTarget::Current(_) => *final(slot) is None,
        },
{
    match target {
        FinishTarget::ById(_) => release_finished(slot, finished),
        FinishTarget::Current(_) => {
            *slot = None;
        },
    }
}

/// After run `finished` was closed by id, the current run is cleared if it was that run.
pub fn release_finished(slot: &mut Option<ActiveRun>, finished: Option<&str>)
    ensures
        ({
            let cleared = match (*old(slot), finished) {
                (Some(a), Some(f)) => a.run_id@ == f@,
                _ => false,
            };
            if cleared {
                *final(slot) is None
            } else {
                *final(slot) == *old(slot)
            }
        }),
{
    let clear = match (&*slot, finished) {
        (Some(a), Some(f)) => a.run_id == String::from_str(f),
        _ => false,
    };
    if clear {
        *slot = None;
    }
}

/// The error of a finding that names no ROM when there is no current run.
pub open spec fn no_rom_message() -> Seq<char> {
    "rom_sha1 미지정 + 활성 run 없음"@
}

/// Where a finding is recorded: the ROM given, else the current run's ROM; with the current
/// run's id when there is one. An error when neither names a ROM.
pub fn finding_target(rom_sha1: Option<String>, slot: &Option<ActiveRun>) -> (r: Result<
    (String, Option<String>),
    String,
>)
    ensures
        ({
            let run = match *slot {
                Some(a) => Some(a.run_id),
                None => None,
            };
            match rom_sha1 {
                Some(rom) => r == Ok::<(String, Option<String>), String>((rom, run)),
                None => match *slot {
                    Some(a) => r == Ok::<(String, Option<String>), String>((a.rom_sha1, run)),
                    None => r matches Err(m) && m@ == no_rom_message(),
                },
            }
        }),
{
    let run = match slot {
        Some(a) => Some(a.run_id.clone()),
        None => None,
    };
    match rom_sha1 {
        Some(rom) => Ok((rom, run)),
        None => match slot {
            Some(a) => Ok((a.rom_sha1.clone(), run)),
            None => Err(String::from_str("rom_sha1 미지정 + 활성 run 없음")),
        },
    }
}

/// Whether a start request carried run metadata, which a resumed run does not take over.
pub fn supplied_meta(goal: &Option<String>, description: &Option<String>, tags: &Vec<String>) -> (b:
    bool)
    ensures
        b == (goal is Some || description is Some || tags@.len() > 0),
{
    goal.is_some() || description.is_some() || tags.len() > 0
}

/// The status a run is closed with: the one asked for, else `done`.
pub fn finish_status(status: Option<&str>) -> (r: &str)
    ensures
        r@ == match status {
            Some(s) => s@,
            None => "done"@,
        },
{
    match status {
        Some(s) => s,
        None => "done",
    }
}

/// What a snapshot of the current run holds.
pub fn current_run(slot: &Option<ActiveRun>) -> (r: Option<ActiveRun>)
    ensures
        r == *slot,
{
    match slot {
        Some(a) => Some(
            ActiveRun {
                rom_sha1: a.rom_sha1.clone(),
                run_id: a.run_id.clone(),
                connection_ref: clone_opt(&a.connection_ref),
            },
        ),
        None => None,
    }
}

/// What the tracking server reports first: where its ledger is and why, the current run, the
/// runs still running in the ledger (none when looking them up failed), and a warning when the
/// ledger's place depends on where the server was started.
pub struct Bootstrap<R> {
    pub ledger_path: String,
    pub ledger_path_source: String,
    pub active_run: Option<ActiveRun>,
    pub running_runs: Option<R>,
    pub ledger_path_warning: Option<String>,
}

/// The bootstrap report for the ledger at `ledger_path`, found by `source`, with the `warning`
/// that source carries, the current run and the result of looking up the running runs.
pub fn bootstrap<R, E>(
    ledger_path: String,
    source: String,
    warning: Option<String>,
    slot: &Option<ActiveRun>,
    running: Result<R, E>,
) -> (b: Bootstrap<R>)
    ensures
        b.ledger_path == ledger_path,
        b.ledger_path_source == source,
        b.active_run == *slot,
        b.running_runs == match running {
            Ok(x) => Some(x),
            Err(_) => None::<R>,
        },
        b.ledger_path_warning == warning,
{
    let running_runs = match running {
        Ok(x) => Some(x),
        Err(_) => None,
    };
    Bootstrap {
        ledger_path,
        ledger_path_source: source,
        active_run: current_run(slot),
        running_runs,
        ledger_path_warning: warning,
    }
}

} // verus!
