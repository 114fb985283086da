use emucap::flycast::{
    app_bundle_executable, app_bundle_root, binary_candidates, config_layout, install_candidates,
    plan_runtime_binary, seed_config,
    HostOs, Launch, PathParts, PlanError, RuntimePlan,
};
use emucap::ini::set_ini;

fn path(absolute: bool, parts: &[&str]) -> PathParts {
    PathParts { absolute, parts: parts.iter().map(|p| p.to_string()).collect() }
}

fn names(p: &PathParts) -> Vec<&str> {
    p.parts.iter().map(|s| s.as_str()).collect()
}

#[test]
fn set_ini_replaces_and_inserts_under_config() {
    let mut t = "[config]\naica.Volume = 100\nDynarec.Enabled = yes\n".to_string();
    set_ini(&mut t, "Dynarec.Enabled", "no"); // replace
    set_ini(&mut t, "Debug.GDBEnabled", "no"); // insert
    assert!(t.contains("Dynarec.Enabled = no"));
    assert!(!t.contains("Dynarec.Enabled = yes"));
    assert!(t.contains("Debug.GDBEnabled = no"));
    assert!(t.contains("aica.Volume = 100")); // preserved
}

#[test]
fn set_ini_adds_config_section_when_absent() {
    let mut t = String::new();
    set_ini(&mut t, "aica.Volume", "0");
    assert!(t.contains("[config]"));
    assert!(t.contains("aica.Volume = 0"));
}

#[test]
fn set_ini_exact_texts() {
    let mut t = "[config]\naica.Volume = 100\nDynarec.Enabled = yes\n".to_string();
    set_ini(&mut t, "Dynarec.Enabled", "no");
    assert_eq!(t, "[config]\naica.Volume = 100\nDynarec.Enabled = no\n");
    set_ini(&mut t, "Debug.GDBEnabled", "no");
    assert_eq!(
        t,
        "[config]\nDebug.GDBEnabled = no\naica.Volume = 100\nDynarec.Enabled = no\n"
    );
    let mut e = String::new();
    set_ini(&mut e, "aica.Volume", "0");
    assert_eq!(e, "[config]\naica.Volume = 0\n");
}

#[test]
fn set_ini_replacement_matches_indented_line_and_normalizes_line_ends() {
    let mut t = "[config]\r\n  aica.Volume = 5\r\nlast".to_string();
    set_ini(&mut t, "aica.Volume", "0");
    assert_eq!(t, "[config]\naica.Volume = 0\nlast\n");
}

#[test]
fn set_ini_key_must_be_followed_by_the_separator() {
    let mut t = "[config]\naica.VolumeMax = 5\n".to_string();
    set_ini(&mut t, "aica.Volume", "1");
    assert_eq!(t, "[config]\naica.Volume = 1\naica.VolumeMax = 5\n");
}

#[test]
fn set_ini_inserts_under_header_without_line_break() {
    let mut t = "[config]".to_string();
    set_ini(&mut t, "k", "v");
    assert_eq!(t, "[config]\nk = v\n");
}

#[test]
fn set_ini_leaves_other_sections_alone() {
    let mut t = "[config]\na = 1\n[input]\nk = x\n".to_string();
    set_ini(&mut t, "k", "v");
    assert_eq!(t, "[config]\nk = v\na = 1\n[input]\nk = x\n");
    let mut u = "[input]\nk = x\n[config]\n".to_string();
    set_ini(&mut u, "k", "v");
    assert_eq!(u, "[input]\nk = x\n[config]\nk = v\n");
    let mut w = "[input]\nk = x\n[config]\n  k = 1\n".to_string();
    set_ini(&mut w, "k", "v");
    assert_eq!(w, "[input]\nk = x\n[config]\nk = v\n");
}

#[test]
fn set_ini_appends_section_on_a_line_of_its_own() {
    let mut t = "x = 1".to_string();
    set_ini(&mut t, "k", "v");
    assert_eq!(t, "x = 1\n[config]\nk = v\n");
    let mut u = "[input]\nk = x\n".to_string();
    set_ini(&mut u, "k", "v");
    assert_eq!(u, "[input]\nk = x\n[config]\nk = v\n");
}

#[test]
fn set_ini_is_idempotent_on_its_own_output() {
    let mut t = "[config]\nx = 1\n".to_string();
    set_ini(&mut t, "x", "2");
    let once = t.clone();
    set_ini(&mut t, "x", "2");
    assert_eq!(t, once);
}

#[test]
fn seeded_config_sets_interpreter_audio_and_gdb() {
    let bin = path(true, &["opt", "flycast"]);
    let log = path(true, &["tmp", "fly.log"]);
    let l = Launch {
        binary: &bin,
        content: "/roms/game.gdi",
        log_path: &log,
        port: 47800,
        name: None,
        session_token: None,
        mute: true,
        gdb: false,
    };
    let t = seed_config(&l, "");
    assert_eq!(
        t,
        "[config]\nDebug.GDBEnabled = no\naica.Volume = 0\nDynarec.Enabled = no\n"
    );
    let loud = Launch { mute: false, gdb: true, ..l };
    let u = seed_config(&loud, "[config]\nDynarec.Enabled = yes\nbios = x\n");
    assert_eq!(
        u,
        "[config]\nDebug.GDBEnabled = yes\naica.Volume = 100\nDynarec.Enabled = no\nbios = x\n"
    );
}

#[test]
fn app_bundle_executable_only_for_app_paths() {
    let app = path(true, &["Applications", "Flycast.APP"]);
    let exe = app_bundle_executable(&app).unwrap();
    assert!(exe.absolute);
    assert_eq!(names(&exe), vec!["Applications", "Flycast.APP", "Contents", "MacOS", "Flycast"]);
    assert!(app_bundle_executable(&path(true, &["opt", "flycast"])).is_none());
    assert!(app_bundle_executable(&path(true, &["opt", ".app"])).is_none());
    assert!(app_bundle_executable(&path(false, &[])).is_none());
}

#[test]
fn app_bundle_root_finds_the_enclosing_bundle() {
    let bin = path(true, &["src", "Flycast.app", "Contents", "MacOS", "Flycast"]);
    let (root, rel) = app_bundle_root(&bin).unwrap();
    assert!(root.absolute);
    assert_eq!(names(&root), vec!["src", "Flycast.app"]);
    assert!(!rel.absolute);
    assert_eq!(names(&rel), vec!["Contents", "MacOS", "Flycast"]);
    assert!(app_bundle_root(&path(true, &["src", "flycast"])).is_none());
    let inner = path(true, &["a.app", "b.app", "x"]);
    let (r2, rel2) = app_bundle_root(&inner).unwrap();
    assert_eq!(names(&r2), vec!["a.app", "b.app"]);
    assert_eq!(names(&rel2), vec!["x"]);
}

#[test]
fn runtime_plan_for_plain_exe() {
    let src = path(true, &["src", "Flycast.exe"]);
    let iso = path(true, &["iso"]);
    let (plan, prepared) = plan_runtime_binary(&src, &iso).unwrap();
    assert_eq!(names(&prepared.portable_dir), vec!["iso", "portable"]);
    assert_eq!(names(&prepared.binary), vec!["iso", "portable", "Flycast.exe"]);
    match plan {
        RuntimePlan::CopyFile { dest } => assert_eq!(names(&dest), vec!["iso", "portable", "Flycast.exe"]),
        _ => panic!("expected a file copy"),
    }
}

#[test]
fn runtime_plan_for_app_bundle_uses_inner_binary() {
    let src = path(true, &["src", "Flycast.app", "Contents", "MacOS", "Flycast"]);
    let iso = path(true, &["iso"]);
    let (plan, prepared) = plan_runtime_binary(&src, &iso).unwrap();
    assert_eq!(
        names(&prepared.binary),
        vec!["iso", "portable", "Flycast.app", "Contents", "MacOS", "Flycast"]
    );
    match plan {
        RuntimePlan::CopyBundle { bundle, dest } => {
            assert_eq!(names(&bundle), vec!["src", "Flycast.app"]);
            assert_eq!(names(&dest), vec!["iso", "portable", "Flycast.app"]);
        }
        _ => panic!("expected a bundle copy"),
    }
}

#[test]
fn runtime_plan_uses_binary_already_in_portable_dir() {
    let src = path(true, &["iso", "portable", "flycast"]);
    let iso = path(true, &["iso"]);
    let (plan, prepared) = plan_runtime_binary(&src, &iso).unwrap();
    assert!(matches!(plan, RuntimePlan::InPlace));
    assert_eq!(names(&prepared.binary), vec!["iso", "portable", "flycast"]);
}

#[test]
fn runtime_plan_refuses_a_path_without_file_name() {
    let iso = path(true, &["iso"]);
    assert_eq!(
        plan_runtime_binary(&path(true, &[]), &iso).err(),
        Some(PlanError::InvalidBinaryPath)
    );
    assert_eq!(
        plan_runtime_binary(&path(false, &["a", ".."]), &iso).err(),
        Some(PlanError::InvalidBinaryPath)
    );
}

fn read_setting(text: &str, key: &str) -> Option<String> {
    let prefix = format!("{key} = ");
    let lines: Vec<&str> = text.lines().collect();
    let h = lines.iter().position(|l| *l == "[config]")?;
    lines[h + 1..]
        .iter()
        .map(|l| l.trim_start())
        .take_while(|l| {
            let t = l.trim();
            !(t.starts_with('[') && t.ends_with(']'))
        })
        .find(|l| l.starts_with(&prefix))
        .map(|l| l[prefix.len()..].to_string())
}

#[test]
fn a_setting_reads_back_after_it_is_set() {
    for start in [
        "",
        "[config]\n",
        "x = 1\r\nk = old\r\n",
        "no header",
        "[config]\ny = 2",
        "[input]\nk = x\n[config]\nk = 1\n[other]\nk = 2\n",
    ] {
        let mut t = start.to_string();
        set_ini(&mut t, "k", "new value");
        assert_eq!(read_setting(&t, "k").as_deref(), Some("new value"), "from {start:?}");
    }
}

#[test]
fn binary_candidates_follow_resolution_order() {
    let app = path(true, &["Apps", "Flycast.app"]);
    let build = path(true, &["b"]);
    let home = path(true, &["home", "u"]);
    let c = binary_candidates(Some(&app), &build, Some(&home));
    let got: Vec<Vec<&str>> = c.iter().map(names).collect();
    assert_eq!(
        got,
        vec![
            vec!["Apps", "Flycast.app"],
            vec!["Apps", "Flycast.app", "Contents", "MacOS", "Flycast"],
            vec!["b", "work", "build", "Flycast.app", "Contents", "MacOS", "Flycast"],
            vec!["b", "work", "build", "flycast"],
            vec!["b", "work", "build", "Flycast.exe"],
            vec!["home", "u", "flycast", "build", "Flycast.app", "Contents", "MacOS", "Flycast"],
            vec!["home", "u", "flycast", "build", "flycast"],
        ]
    );
    let plain = binary_candidates(Some(&path(true, &["opt", "flycast"])), &build, None);
    assert_eq!(plain.len(), 4);
    assert_eq!(binary_candidates(None, &build, None).len(), 3);
}

#[test]
fn config_layout_per_os() {
    let iso = path(true, &["iso"]);
    let portable = path(true, &["iso", "portable"]);
    let home = path(true, &["home", "u"]);
    let names = |p: &PathParts| (p.absolute, p.parts.clone());
    let mac = config_layout(HostOs::MacOs, &iso, &portable, Some(&home), None, None);
    assert_eq!(names(&mac.cfg_dir), (true, vec!["iso".to_string(), ".flycast".to_string()]));
    assert_eq!(mac.env.len(), 1);
    assert_eq!(mac.env[0].0, "HOME");
    assert_eq!(names(&mac.env[0].1), (true, vec!["iso".to_string()]));
    assert_eq!(mac.user_sources.len(), 3);
    assert_eq!(
        mac.user_sources[1].parts,
        vec!["home", "u", "Library", "Application Support", "flycast", "emu.cfg"]
    );
    let unix = config_layout(HostOs::Unix, &iso, &portable, Some(&home), None, None);
    assert_eq!(unix.cfg_dir.parts, vec!["iso", "config", "flycast"]);
    assert_eq!(unix.env[0].0, "XDG_CONFIG_HOME");
    assert_eq!(unix.env[0].1.parts, vec!["iso", "config"]);
    assert_eq!(unix.env[1].0, "XDG_DATA_HOME");
    assert_eq!(unix.env[1].1.parts, vec!["iso", "data"]);
    assert_eq!(unix.user_sources.len(), 1);
    assert_eq!(unix.user_sources[0].parts, vec!["home", "u", ".config", "flycast", "emu.cfg"]);
    let xdg = path(true, &["x"]);
    let unix2 = config_layout(HostOs::Unix, &iso, &portable, Some(&home), Some(&xdg), None);
    assert_eq!(unix2.user_sources[0].parts, vec!["x", "flycast", "emu.cfg"]);
    assert!(config_layout(HostOs::Unix, &iso, &portable, None, None, None).user_sources.is_empty());
    let bin_dir = path(true, &["apps", "flycast"]);
    let win = config_layout(HostOs::Windows, &iso, &portable, Some(&home), None, Some(&bin_dir));
    assert_eq!(win.cfg_dir.parts, vec!["iso", "portable"]);
    assert!(win.env.is_empty());
    assert_eq!(win.user_sources[0].parts, vec!["apps", "flycast", "emu.cfg"]);
}

#[test]
fn set_ini_inserts_without_touching_the_rest() {
    let mut t = "[config]\nfoo = 1".to_string();
    set_ini(&mut t, "bar", "v");
    assert_eq!(t, "[config]\nbar = v\nfoo = 1");
    let mut u = "[config]\r\nfoo = 1\r\n".to_string();
    set_ini(&mut u, "bar", "v");
    assert_eq!(u, "[config]\r\nbar = v\nfoo = 1\r\n");
}

#[test]
fn set_ini_keys_that_start_with_a_bracket() {
    let mut t = String::new();
    set_ini(&mut t, "[x", "v");
    assert_eq!(t, "[config]\n[x = v\n");
    set_ini(&mut t, "[x", "v");
    assert_eq!(t, "[config]\n[x = v\n");
    let mut u = "[config]\n[not a header\nk = 1\n[input]\nk = 9\n".to_string();
    set_ini(&mut u, "k", "2");
    assert_eq!(u, "[config]\n[not a header\nk = 2\n[input]\nk = 9\n");
}

#[test]
fn set_ini_twice_is_once() {
    for start in ["", "[config]\n", "[config]\na = 1\n[input]\nk = x\n", "x = 1\n", "[config]", "[config]\nk = 0\n"] {
        let mut t = start.to_string();
        set_ini(&mut t, "k", "v");
        let once = t.clone();
        set_ini(&mut t, "k", "v");
        assert_eq!(t, once, "from {start:?}");
    }
}

#[test]
fn install_candidates_per_os() {
    let mac = install_candidates(HostOs::MacOs, &vec![], None);
    assert_eq!(mac.len(), 1);
    assert!(mac[0].absolute);
    assert_eq!(mac[0].parts, vec!["Applications", "Flycast.app", "Contents", "MacOS", "Flycast"]);
    let bases = vec![Some(path(true, &["L"])), None, Some(path(true, &["P86"])), None];
    let win = install_candidates(HostOs::Windows, &bases, None);
    let got: Vec<Vec<String>> = win.iter().map(|p| p.parts.clone()).collect();
    assert_eq!(
        got,
        vec![
            vec!["L", "Programs", "Flycast", "Flycast.exe"],
            vec!["L", "Flycast", "Flycast.exe"],
            vec!["P86", "Programs", "Flycast", "Flycast.exe"],
            vec!["P86", "Flycast", "Flycast.exe"],
        ]
    );
    let home = path(true, &["home", "u"]);
    let unix = install_candidates(HostOs::Unix, &vec![], Some(&home));
    assert_eq!(unix[0].parts, vec!["home", "u", ".local", "bin", "flycast"]);
    assert!(install_candidates(HostOs::Unix, &vec![], None).is_empty());
}
