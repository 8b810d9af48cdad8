use project_sorter::batch::{NextFile, SortBatch};
use project_sorter::clients::{
    assess_client, check_fix_client, check_new_client, check_open_folder, has_dir, missing_template_dirs,
    project_template_for, scan_clients, template_dirs, ChildDir, ClientListing, CLIENT_SCENE_SWITCHING_TEMPLATE_SOURCE,
    CLIENT_TEMPLATE_PROJECT_SOURCE,
};
use project_sorter::clock::{instant_nanos, stamp_instant_of};
use project_sorter::log::{
    csv_escape, cutoff_from, format_entry, stamp_date, format_log_lines, is_expired, is_log_file_name, log_file_name,
    logs_over_limit, todays_log_file_name, LOG_HEADER,
};
use project_sorter::modes::{destination_for_mode, detect_mode_for_path, is_allowed_for_mode, split_file_name};
use project_sorter::naming::{client_project_filename, unique_destination_path, NameSearch, ReservedNames};
use project_sorter::order::stable_order;
use project_sorter::sorting::{
    accepts_source, batch_context, detect_mode_for_source, entry_timestamp, is_cross_device, move_cleanup_outcome, operation_for, placed_entry, plan_file, select_sources,
    unknown_operation_outcome, unsupported_entry, invalid_name_entry, FilePlan, Operation, Outcome, RemovalAttempts, Rollback,
    SortEntry, SortTally, SourceFile,
};
use project_sorter::text::{decimal_string, text_less};
use project_sorter::undo::{undo_step, UndoEntry, UndoStep, UndoTally};
use project_sorter::watch::{event_in_scope, is_white_space, plan_watch, Debouncer, PathScope, Received, Step, WatchPlan};

/// Runs a name search against the names already on disk.
fn place(file_name: &str, on_disk: &[&str], reserved: &mut ReservedNames) -> String {
    let mut search = NameSearch::new(file_name);
    loop {
        let taken = on_disk.contains(&search.candidate().as_str());
        if let Some(name) = unique_destination_path(&mut search, taken, reserved) {
            return name;
        }
    }
}

fn source(path: &str, name: &str) -> SourceFile {
    SourceFile {
        path: path.to_string(),
        key: path.as_bytes().to_vec(),
        name: name.to_string(),
        name_is_text: true,
        extension_is_text: true,
        stem_is_text: true,
    }
}

fn entry(result: &str) -> SortEntry {
    SortEntry {
        timestamp: "t".to_string(),
        username: "u".to_string(),
        mode: "STILLS".to_string(),
        client: "C".to_string(),
        operation: "copy".to_string(),
        source_path: "/in/a.png".to_string(),
        dest_path: "/out/a.png".to_string(),
        result: result.to_string(),
        error_message: String::new(),
    }
}

fn child(name: &str, subdirs: &[&str]) -> ChildDir {
    ChildDir { name: name.to_string(), subdirs: subdirs.iter().map(|s| s.to_string()).collect() }
}

fn full_template() -> Vec<ChildDir> {
    vec![
        child(
            "01_MEDIA",
            &["010_VIDEO_PROXY", "020_VIDEO_RAW", "030_AUDIO_CLEAN", "040_AUDIO_RAW", "050_STILLS", "060_MUSIC"],
        ),
        child("02_EDIT", &[]),
        child("03_EXPORTS", &["APPROVAL"]),
        child("04_FINAL", &[]),
    ]
}

#[test]
fn destination_mapping() {
    assert_eq!(destination_for_mode("VIDEO PROXY"), Some("01_MEDIA/010_VIDEO_PROXY"));
    assert_eq!(destination_for_mode("APPROVAL EXPORTS"), Some("03_EXPORTS/APPROVAL"));
    assert_eq!(destination_for_mode("UNKNOWN"), None);
}

#[test]
fn collision_naming() {
    let on_disk = ["clip.mov"];
    let mut reserved = ReservedNames::new();
    let dest1 = place("clip.mov", &on_disk, &mut reserved);
    assert_eq!(dest1, "clip__2.mov");
    let dest2 = place("clip.mov", &on_disk, &mut reserved);
    assert_eq!(dest2, "clip__3.mov");
}

#[test]
fn client_project_filename_uses_client_name_without_type() {
    assert_eq!(client_project_filename("DIGITAIN_EXHIBITOR"), "DIGITAIN.prproj");
    assert_eq!(client_project_filename("THE_BIG_SHOW_PRODUCT"), "THE_BIG_SHOW.prproj");
    assert_eq!(client_project_filename("DIGITAIN"), "DIGITAIN.prproj");
}

#[test]
fn all_destinations() {
    assert_eq!(destination_for_mode("VIDEO RAW"), Some("01_MEDIA/020_VIDEO_RAW"));
    assert_eq!(destination_for_mode("AUDIO CLEAN"), Some("01_MEDIA/030_AUDIO_CLEAN"));
    assert_eq!(destination_for_mode("AUDIO RAW"), Some("01_MEDIA/040_AUDIO_RAW"));
    assert_eq!(destination_for_mode("STILLS"), Some("01_MEDIA/050_STILLS"));
    assert_eq!(destination_for_mode("EXPORTS"), Some("03_EXPORTS"));
    assert_eq!(destination_for_mode("AUTO"), None);
    assert_eq!(destination_for_mode("video proxy"), None);
}

#[test]
fn project_filename_edge_cases() {
    assert_eq!(client_project_filename("A__B_HUDDLE"), "A_B.prproj");
    assert_eq!(client_project_filename("HUDDLE"), "HUDDLE.prproj");
    assert_eq!(client_project_filename("X_SOCIAL_"), "X.prproj");
    assert_eq!(client_project_filename("MARIYAMEETS_X"), "MARIYAMEETS_X.prproj");
    assert_eq!(client_project_filename("__"), "__.prproj");
    assert_eq!(client_project_filename(""), ".prproj");
    assert_eq!(client_project_filename(" ACME _SOCIAL"), " ACME .prproj");
}

#[test]
fn file_name_parts() {
    assert_eq!(split_file_name("archive.tar.gz"), ("archive.tar".to_string(), Some("gz".to_string())));
    assert_eq!(split_file_name(".bashrc"), (".bashrc".to_string(), None));
    assert_eq!(split_file_name("noext"), ("noext".to_string(), None));
    assert_eq!(split_file_name("trailing."), ("trailing".to_string(), Some(String::new())));
    assert_eq!(split_file_name(".."), ("..".to_string(), None));
}

#[test]
fn allowed_types_per_mode() {
    assert!(is_allowed_for_mode("VIDEO RAW", "clip.MOV"));
    assert!(is_allowed_for_mode("VIDEO PROXY", "clip.r3d"));
    assert!(!is_allowed_for_mode("VIDEO RAW", "song.wav"));
    assert!(is_allowed_for_mode("AUDIO CLEAN", "song.Opus"));
    assert!(!is_allowed_for_mode("AUDIO RAW", "a.png"));
    assert!(is_allowed_for_mode("STILLS", "a.JPEG"));
    assert!(is_allowed_for_mode("EXPORTS", "cut.pdf"));
    assert!(!is_allowed_for_mode("EXPORTS", "noext"));
    assert!(!is_allowed_for_mode("STILLS", ".png"));
    assert!(!is_allowed_for_mode("APPROVAL EXPORTS", "trailing."));
}

#[test]
fn automatic_modes() {
    assert_eq!(detect_mode_for_path("a.mxf"), Some("VIDEO PROXY"));
    assert_eq!(detect_mode_for_path("b.MP4"), Some("VIDEO RAW"));
    assert_eq!(detect_mode_for_path("clean_take.wav"), Some("AUDIO CLEAN"));
    assert_eq!(detect_mode_for_path("Clean.FLAC"), Some("AUDIO CLEAN"));
    assert_eq!(detect_mode_for_path("take.wav"), Some("AUDIO RAW"));
    assert_eq!(detect_mode_for_path("cla.wav"), Some("AUDIO RAW"));
    assert_eq!(detect_mode_for_path("x.png"), Some("STILLS"));
    assert_eq!(detect_mode_for_path("y.mkv"), Some("VIDEO RAW"));
    assert_eq!(detect_mode_for_path("z.txt"), None);
    assert_eq!(detect_mode_for_path("noext"), None);
}

#[test]
fn numbered_names_without_extension() {
    let mut reserved = ReservedNames::new();
    assert_eq!(place("README", &["README", "README__2"], &mut reserved), "README__3");
    assert_eq!(place("a.b.c", &[], &mut reserved), "a.b.c");
    assert_eq!(place("a.b.c", &[], &mut reserved), "a.b__2.c");
    assert!(reserved.contains("a.b.c"));
    assert!(!reserved.contains("other"));
}

#[test]
fn candidates_never_repeat() {
    let mut search = NameSearch::new("clip.mov");
    let mut reserved = ReservedNames::new();
    let mut seen: Vec<String> = Vec::new();
    for _ in 0..30 {
        let c = search.candidate().clone();
        assert!(!seen.contains(&c));
        seen.push(c);
        assert!(unique_destination_path(&mut search, true, &mut reserved).is_none());
    }
    assert_eq!(seen[11], "clip__12.mov");
}

#[test]
fn decimal_numerals() {
    assert_eq!(decimal_string(0), "0");
    assert_eq!(decimal_string(7), "7");
    assert_eq!(decimal_string(1234), "1234");
    assert_eq!(decimal_string(u64::MAX), u64::MAX.to_string());
}

#[test]
fn code_point_order() {
    assert!(text_less("alpha", "beta"));
    assert!(text_less("ab", "abc"));
    assert!(!text_less("abc", "abc"));
    assert!(text_less("Z", "a"));
    assert!(text_less("z", "é"));
}

#[test]
fn csv_fields() {
    assert_eq!(csv_escape(r#"a"b"#), r#""a""b""#);
    assert_eq!(csv_escape(""), r#""""#);
    assert_eq!(csv_escape("plain, text"), r#""plain, text""#);
}

#[test]
fn csv_rows() {
    let mut e = entry("ok");
    e.error_message = "say \"hi\"".to_string();
    let row = format_entry(&e);
    assert_eq!(
        row,
        "\"t\",\"u\",\"STILLS\",\"C\",\"copy\",\"/in/a.png\",\"/out/a.png\",\"ok\",\"say \"\"hi\"\"\"\n"
    );
    let both = format_log_lines(&vec![entry("ok"), e]);
    assert_eq!(both, format!("{}{}", format_entry(&entry("ok")), row));
    assert_eq!(format_log_lines(&vec![]), "");
    assert!(LOG_HEADER.starts_with("timestamp,username,mode,client,operation"));
    assert!(LOG_HEADER.ends_with("error_message\n"));
}

#[test]
fn log_names() {
    assert_eq!(log_file_name("2024-01-31"), "sort_log_2024-01-31.csv");
    assert!(is_log_file_name("sort_log_2024-01-31.csv"));
    assert!(is_log_file_name(&log_file_name("anything")));
    assert!(!is_log_file_name("sort_log_2024.txt"));
    assert!(!is_log_file_name("other.csv"));
    assert!(is_log_file_name(&todays_log_file_name()));
}

#[test]
fn log_pruning() {
    assert_eq!(cutoff_from(100_000_000_005, 1), 100_000_000_005 - 86_400_000_000_000);
    assert_eq!(cutoff_from(0, 0), 0);
    assert_eq!(cutoff_from(0, i64::MIN), i64::MIN as i128 * -86_400_000_000_000);
    assert!(is_expired(Some(1), 2));
    assert!(!is_expired(Some(2), 2));
    assert!(!is_expired(None, 2));
    let ages = vec![Some(5i128), None, Some(3), Some(3), Some(9)];
    assert_eq!(logs_over_limit(&ages, 2), vec![1, 2, 3]);
    assert_eq!(logs_over_limit(&ages, 5), Vec::<usize>::new());
    assert_eq!(logs_over_limit(&ages, 0), vec![1, 2, 3, 0, 4]);
}

#[test]
fn stable_orders() {
    let keys = vec!["b".to_string(), "a".to_string(), "b".to_string(), "A".to_string()];
    assert_eq!(stable_order(&keys, 4), vec![3, 1, 0, 2]);
    assert_eq!(stable_order(&keys, 2), vec![3, 1]);
}

#[test]
fn batch_selection() {
    let files = vec![
        source("/in/a.mov", "a.mov"),
        source("/in/b.wav", "b.wav"),
        source("/in/a.mov", "a.mov"),
        source("/in/c.MP4", "c.MP4"),
    ];
    let picked = select_sources("VIDEO RAW", files).unwrap();
    let paths: Vec<&str> = picked.iter().map(|f| f.path.as_str()).collect();
    assert_eq!(paths, vec!["/in/a.mov", "/in/c.MP4"]);

    let files = vec![source("/in/a.txt", "a.txt"), source("/in/a.txt", "a.txt")];
    let picked = select_sources("AUTO", files).unwrap();
    assert_eq!(picked.len(), 1);

    let files = vec![source("/in/a.txt", "a.txt")];
    assert_eq!(select_sources("STILLS", files).err(), Some("No files matched the selected mode.".to_string()));
    assert_eq!(select_sources("AUTO", vec![]).err(), Some("No files matched the selected mode.".to_string()));
}

#[test]
fn file_plans() {
    match plan_file("AUTO", &source("/in/x.txt", "x.txt")) {
        FilePlan::Unsupported => {}
        _ => panic!("expected unsupported"),
    }
    match plan_file("BOGUS", &source("/in/x.txt", "x.txt")) {
        FilePlan::UnknownMode => {}
        _ => panic!("expected unknown mode"),
    }
    match plan_file("AUTO", &source("/in/clean01.wav", "clean01.wav")) {
        FilePlan::Place { mode, destination } => {
            assert_eq!(mode, "AUDIO CLEAN");
            assert_eq!(destination, "01_MEDIA/030_AUDIO_CLEAN");
        }
        _ => panic!("expected placement"),
    }
    match plan_file("EXPORTS", &source("/in/cut.mov", "cut.mov")) {
        FilePlan::Place { mode, destination } => {
            assert_eq!(mode, "EXPORTS");
            assert_eq!(destination, "03_EXPORTS");
        }
        _ => panic!("expected placement"),
    }
}

#[test]
fn operations_and_outcomes() {
    assert!(matches!(operation_for("copy", true), Operation::DryRun));
    assert!(matches!(operation_for("copy", false), Operation::Copy));
    assert!(matches!(operation_for("move", false), Operation::Move));
    assert!(matches!(operation_for("link", false), Operation::Unknown));
    assert!(is_cross_device(Some(18), 18));
    assert!(is_cross_device(Some(17), 18));
    assert!(!is_cross_device(Some(2), 18));
    assert!(!is_cross_device(None, 18));
    match unknown_operation_outcome() {
        Outcome::Failed(m) => assert_eq!(m, "Unknown operation"),
        _ => panic!("expected failure"),
    }
    match move_cleanup_outcome("denied", true, Rollback::RolledBack) {
        Outcome::Failed(m) => assert_eq!(
            m,
            "Move failed: could not remove source (denied). Source file is likely open in another app. Copied file was rolled back."
        ),
        _ => panic!("expected failure"),
    }
    match move_cleanup_outcome("busy", false, Rollback::Failed("gone".to_string())) {
        Outcome::Failed(m) => assert_eq!(m, "Move failed: could not remove source (busy). Rollback failed (gone)."),
        _ => panic!("expected failure"),
    }
    match move_cleanup_outcome("x", false, Rollback::AlreadyMissing) {
        Outcome::Failed(m) => assert_eq!(m, "Move failed: could not remove source (x). Copied file was already missing."),
        _ => panic!("expected failure"),
    }
}

#[test]
fn entries_and_tally() {
    let ctx = batch_context("AUTO", "ACME", "move");
    let skipped = unsupported_entry(&ctx, "/in/x.txt");
    assert_eq!(skipped.mode, "AUTO");
    assert_eq!(skipped.result, "skipped");
    assert_eq!(skipped.error_message, "Unsupported file type");
    assert_eq!(skipped.dest_path, "");
    let bad = invalid_name_entry(&ctx, "STILLS", "/in/\u{fffd}.png");
    assert_eq!(bad.result, "failed");
    assert_eq!(bad.error_message, "Invalid file name");
    let dry = placed_entry(&ctx, "ts".to_string(), "STILLS", "/in/a.png", "/out/a.png", Outcome::DryRun);
    assert_eq!((dry.result.as_str(), dry.error_message.as_str()), ("skipped", "Dry run"));
    let ok = placed_entry(&ctx, "ts".to_string(), "STILLS", "/in/b.png", "/out/b.png", Outcome::Done);
    assert_eq!((ok.result.as_str(), ok.error_message.as_str(), ok.timestamp.as_str()), ("ok", "", "ts"));
    assert_eq!(ok.client, "ACME");
    assert_eq!(ok.operation, "move");

    let mut tally = SortTally::new();
    tally = tally.record(skipped);
    tally = tally.record(bad);
    tally = tally.record(dry);
    tally = tally.record(ok);
    assert_eq!(tally.processed(), 4);
    let result = tally.finish("/logs/sort_log_x.csv".to_string());
    assert_eq!((result.processed, result.failed, result.skipped), (4, 1, 2));
    assert_eq!(result.entries.len(), 4);
    assert_eq!(result.log_path, "/logs/sort_log_x.csv");
}

#[test]
fn undo_steps() {
    assert!(matches!(undo_step("move", true, false), UndoStep::Restore));
    assert!(matches!(undo_step("move", false, false), UndoStep::Refuse(ref m) if m == "Destination missing"));
    assert!(matches!(undo_step("move", true, true), UndoStep::Refuse(ref m) if m == "Source already exists"));
    assert!(matches!(undo_step("copy", true, true), UndoStep::RemoveCopy));
    assert!(matches!(undo_step("copy", false, false), UndoStep::Nothing));
    assert!(matches!(undo_step("rename", true, false), UndoStep::Refuse(ref m) if m == "Unknown operation"));
}

#[test]
fn undo_tally() {
    let e = |s: &str| UndoEntry { source_path: s.to_string(), dest_path: format!("/out/{s}"), operation: "move".to_string() };
    let mut tally = UndoTally::new();
    tally = tally.record(e("a"), Ok(()));
    tally = tally.record(e("b"), Err("Destination missing".to_string()));
    let result = tally.finish();
    assert_eq!((result.processed, result.failed), (2, 1));
    assert_eq!(result.entries[0].result, "ok");
    assert_eq!(result.entries[1].result, "failed");
    assert_eq!(result.entries[1].error_message, "Destination missing");
    assert_eq!(result.entries[1].dest_path, "/out/b");
}

#[test]
fn client_scan() {
    let listings = vec![
        ClientListing { name: "beta".to_string(), path: "/p/beta".to_string(), children: full_template() },
        ClientListing { name: "_logs".to_string(), path: "/p/_logs".to_string(), children: vec![] },
        ClientListing { name: "XXold".to_string(), path: "/p/XXold".to_string(), children: vec![] },
        ClientListing {
            name: "Alpha".to_string(),
            path: "/p/Alpha".to_string(),
            children: vec![child("01_MEDIA", &["050_STILLS"]), child("02_EDIT", &[])],
        },
    ];
    let clients = scan_clients(listings);
    let names: Vec<&str> = clients.iter().map(|c| c.name.as_str()).collect();
    assert_eq!(names, vec!["Alpha", "beta", "XXold"]);
    assert_eq!(clients[1].status, "OK");
    assert!(clients[1].missing.is_empty());
    assert_eq!(clients[2].status, "Not a client");
    assert_eq!(clients[0].status, "Missing folders");
    assert_eq!(
        clients[0].missing,
        vec![
            "01_MEDIA/010_VIDEO_PROXY",
            "01_MEDIA/020_VIDEO_RAW",
            "01_MEDIA/030_AUDIO_CLEAN",
            "01_MEDIA/040_AUDIO_RAW",
            "01_MEDIA/060_MUSIC",
            "03_EXPORTS",
            "03_EXPORTS/APPROVAL",
            "04_FINAL",
        ]
    );
    assert_eq!(clients[0].path, "/p/Alpha");
}

#[test]
fn client_folders() {
    assert_eq!(template_dirs().len(), 11);
    assert_eq!(template_dirs()[9], "03_EXPORTS/APPROVAL");
    let kids = full_template();
    assert!(has_dir(&kids, "02_EDIT"));
    assert!(!has_dir(&kids, "05_OTHER"));
    assert!(missing_template_dirs(&kids).is_empty());
    let info = assess_client(ClientListing { name: "_logs".to_string(), path: String::new(), children: vec![] });
    assert!(info.is_none());
}

#[test]
fn client_templates() {
    assert_eq!(project_template_for("EXHIBITOR", None), Some(CLIENT_TEMPLATE_PROJECT_SOURCE));
    assert_eq!(project_template_for("PRODUCT", Some("VIDEO_CALL")), Some(CLIENT_TEMPLATE_PROJECT_SOURCE));
    assert_eq!(project_template_for("HUDDLE", Some("PHYSICAL")), Some(CLIENT_TEMPLATE_PROJECT_SOURCE));
    assert_eq!(project_template_for("HUDDLE", Some("VIDEO_CALL")), Some(CLIENT_SCENE_SWITCHING_TEMPLATE_SOURCE));
    assert_eq!(project_template_for("SOCIAL", Some("VIDEO_CALL")), None);
    assert_eq!(project_template_for("MY MODE", None), None);
    assert!(CLIENT_TEMPLATE_PROJECT_SOURCE.ends_with("Huddle Master Template 2026_4K_2.prproj"));
}

#[test]
fn client_checks() {
    assert_eq!(check_new_client(true), Err("Client folder already exists".to_string()));
    assert_eq!(check_new_client(false), Ok(()));
    assert_eq!(check_fix_client(false, "ACME"), Err("Client folder does not exist".to_string()));
    assert_eq!(check_fix_client(true, "XXACME"), Err("Folder is not recognized as a client".to_string()));
    assert_eq!(check_fix_client(true, "ACME"), Ok(()));
    assert_eq!(check_open_folder(false, false, "/x"), Err("Path does not exist: /x".to_string()));
    assert_eq!(check_open_folder(true, false, "/x"), Err("Path is not a folder: /x".to_string()));
    assert_eq!(check_open_folder(true, true, "/x"), Ok(()));
}

#[test]
fn watching() {
    assert!(matches!(plan_watch("   ", false), WatchPlan::Stop));
    assert!(matches!(plan_watch("", true), WatchPlan::Stop));
    assert!(matches!(plan_watch("/p", false), WatchPlan::Refuse(ref m) if m == "Project root is not a directory"));
    assert!(matches!(plan_watch(" /p ", true), WatchPlan::Watch));
    let out = PathScope { under_root: false, canonical_under_root: None };
    let canon = PathScope { under_root: false, canonical_under_root: Some(true) };
    assert!(!event_in_scope(&vec![]));
    assert!(!event_in_scope(&vec![PathScope { under_root: false, canonical_under_root: Some(false) }]));
    assert!(event_in_scope(&vec![out, canon]));
}

#[test]
fn debouncing() {
    let mut d = Debouncer::new(0);
    assert!(matches!(d.step(Received::Nothing, 1000), Step::Wait));
    assert!(matches!(d.step(Received::OutOfScope, 1100), Step::Wait));
    assert!(matches!(d.step(Received::InScope, 1200), Step::Wait));
    assert!(matches!(d.step(Received::Nothing, 1699), Step::Wait));
    assert!(matches!(d.step(Received::Nothing, 1700), Step::Notify));
    assert!(matches!(d.step(Received::Nothing, 5000), Step::Wait));
    assert!(matches!(d.step(Received::WatchError, 6000), Step::Wait));
    assert!(matches!(d.step(Received::InScope, 6400), Step::Wait));
    assert!(matches!(d.step(Received::Nothing, 6800), Step::Wait));
    assert!(matches!(d.step(Received::Nothing, 6900), Step::Notify));
    assert!(matches!(d.step(Received::Closed, 7000), Step::Exit));
}

#[test]
fn csv_fields_keep_values_apart() {
    let values = ["", "\"", "\"\"", "a\"", "a\"\"", "a", "\",\""];
    for (i, a) in values.iter().enumerate() {
        for (j, b) in values.iter().enumerate() {
            assert_eq!(i == j, csv_escape(a) == csv_escape(b));
        }
    }
}

#[test]
fn log_rows_keep_entries_apart() {
    let mut a = entry("ok");
    let mut b = entry("ok");
    a.source_path = "x\",\"y".to_string();
    a.dest_path = "z".to_string();
    b.source_path = "x".to_string();
    b.dest_path = "y\",\"z".to_string();
    assert_ne!(format_entry(&a), format_entry(&b));
    assert_ne!(format_log_lines(&vec![a, entry("ok")]), format_log_lines(&vec![b, entry("ok")]));
}

#[test]
fn automatic_batches_always_have_destinations() {
    for name in ["a.mxf", "b.mp4", "c.wav", "CLEAN.aiff", "d.gif", "e.webm", "f.doc", "g", ".h"] {
        assert!(!matches!(plan_file("AUTO", &source("/in/x", name)), FilePlan::UnknownMode));
    }
}

#[test]
fn removal_retries() {
    let mut attempts = RemovalAttempts::new();
    let first = attempts.after_failure(true);
    assert!(first.clear_read_only && first.try_again);
    let second = attempts.after_failure(false);
    assert!(!second.clear_read_only && second.try_again);
    let third = attempts.after_failure(true);
    assert!(third.clear_read_only && !third.try_again);
}

fn rfc3339_shaped(s: &str) -> bool {
    let c: Vec<char> = s.chars().collect();
    let d = |i: usize| c[i].is_ascii_digit();
    let n = c.len();
    n >= 25
        && (0..4).all(d)
        && c[4] == '-'
        && d(5) && d(6)
        && c[7] == '-'
        && d(8) && d(9)
        && c[10] == 'T'
        && d(11) && d(12)
        && c[13] == ':'
        && d(14) && d(15)
        && c[16] == ':'
        && d(17) && d(18)
        && (c[n - 6] == '+' || c[n - 6] == '-')
        && d(n - 5) && d(n - 4)
        && c[n - 3] == ':'
        && d(n - 2) && d(n - 1)
}

#[test]
fn time_stamps() {
    assert!(rfc3339_shaped(&entry_timestamp()));
    let ctx = batch_context("AUTO", "ACME", "copy");
    assert!(rfc3339_shaped(&unsupported_entry(&ctx, "/in/x").timestamp));
    let name = todays_log_file_name();
    let date = &name["sort_log_".len()..name.len() - ".csv".len()];
    assert_eq!(date.len(), 10);
    assert!(date.chars().enumerate().all(|(i, ch)| if i == 4 || i == 7 { ch == '-' } else { ch.is_ascii_digit() }));
}

#[test]
fn stamp_dates() {
    assert_eq!(stamp_date("2024-05-06T07:08:09.5+02:00"), "2024-05-06");
    assert_eq!(stamp_date("+10000-01-01T00:00:00+00:00"), "+10000-01-01");
    assert_eq!(stamp_date("+262143-01-01T01:00:00+05:30"), "+262143-01-01");
    assert_eq!(log_file_name(&stamp_date("+10000-01-01T00:00:00-03:00")), "sort_log_+10000-01-01.csv");
    assert_eq!(stamp_date("2024"), "2024");
}

#[test]
fn clock_readings() {
    assert_eq!(instant_nanos(Ok((2, 5))), 2_000_000_005);
    assert_eq!(instant_nanos(Err((2, 5))), -2_000_000_005);
    assert_eq!(stamp_instant_of(Ok((10, 7))), (10, 7));
    assert_eq!(stamp_instant_of(Err((10, 7))), (0, 0));
    assert_eq!(stamp_instant_of(Ok((300_000_000_000, 7))), (300_000_000_000, 7));
    assert_eq!(stamp_instant_of(Ok((8_210_266_876_799, 7))), (8_210_266_876_799, 7));
    assert_eq!(stamp_instant_of(Ok((8_210_266_876_800, 7))), (8_210_266_876_799, 0));
    assert_eq!(stamp_instant_of(Ok((u64::MAX, 7))), (8_210_266_876_799, 0));
}

#[test]
fn names_that_are_not_text() {
    let odd_ext = SourceFile {
        path: "/in/a.\u{fffd}".to_string(),
        key: b"/in/a.\xff".to_vec(),
        name: "a.\u{fffd}".to_string(),
        name_is_text: false,
        extension_is_text: false,
        stem_is_text: true,
    };
    assert!(!accepts_source("EXPORTS", &odd_ext));
    assert!(!accepts_source("MY MODE", &odd_ext));
    assert_eq!(select_sources("EXPORTS", vec![odd_ext]).err(), Some("No files matched the selected mode.".to_string()));
    let odd_stem = SourceFile {
        path: "/in/CLEAN\u{fffd}.wav".to_string(),
        key: b"/in/CLEAN\xff.wav".to_vec(),
        name: "CLEAN\u{fffd}.wav".to_string(),
        name_is_text: false,
        extension_is_text: true,
        stem_is_text: false,
    };
    assert_eq!(detect_mode_for_source(&odd_stem), Some("AUDIO RAW"));
    assert!(accepts_source("AUDIO CLEAN", &odd_stem));
    let odd_mov = SourceFile {
        path: "/in/x.mov".to_string(),
        key: b"/in/x.mov".to_vec(),
        name: "x.mov".to_string(),
        name_is_text: true,
        extension_is_text: false,
        stem_is_text: true,
    };
    assert_eq!(detect_mode_for_source(&odd_mov), None);
}

#[test]
fn same_text_different_files() {
    let mut first = source("/in/\u{fffd}.mov", "\u{fffd}.mov");
    first.key = b"/in/\xfe.mov".to_vec();
    let mut second = source("/in/\u{fffd}.mov", "\u{fffd}.mov");
    second.key = b"/in/\xff.mov".to_vec();
    let again = SourceFile { key: b"/in/\xfe.mov".to_vec(), ..source("/in/\u{fffd}.mov", "\u{fffd}.mov") };
    let picked = select_sources("AUTO", vec![first, second, again]).unwrap();
    assert_eq!(picked.len(), 2);
    assert_eq!(picked[0].key, b"/in/\xfe.mov".to_vec());
    assert_eq!(picked[1].key, b"/in/\xff.mov".to_vec());
}

/// Places the current file of `batch`, with the given names on disk.
fn place_in_batch(batch: &mut SortBatch, on_disk: &[&str], outcome: Outcome) -> Option<(String, String)> {
    let mut search = batch.check_name()?;
    loop {
        let taken = on_disk.contains(&search.candidate().as_str());
        if let Some(name) = batch.search_step(&mut search, taken) {
            let result = batch.record_placed(&format!("/out/{}", name), "ts".to_string(), outcome);
            return Some((name, result));
        }
    }
}

#[test]
fn batch_runs() {
    let ctx = batch_context("AUTO", "ACME", "copy");
    let mut odd = source("/in/\u{fffd}.mov", "\u{fffd}.mov");
    odd.name_is_text = false;
    odd.stem_is_text = false;
    let files = vec![
        source("/in/a.mov", "a.mov"),
        source("/in/notes.txt", "notes.txt"),
        odd,
        source("/in/other/a.mov", "a.mov"),
    ];
    let mut batch = SortBatch::new(ctx, files);
    assert_eq!(batch.total(), 4);

    assert!(matches!(batch.next_file(), NextFile::Place { destination } if destination == "01_MEDIA/020_VIDEO_RAW"));
    let placed = place_in_batch(&mut batch, &["a.mov"], Outcome::Done);
    assert_eq!(placed, Some(("a__2.mov".to_string(), "ok".to_string())));

    assert!(matches!(batch.next_file(), NextFile::Recorded));
    assert_eq!(batch.processed(), 2);

    assert!(matches!(batch.next_file(), NextFile::Place { .. }));
    assert_eq!(place_in_batch(&mut batch, &[], Outcome::Done), None);

    assert!(matches!(batch.next_file(), NextFile::Place { .. }));
    let placed = place_in_batch(&mut batch, &["a.mov"], Outcome::Failed("disk full".to_string()));
    assert_eq!(placed, Some(("a__3.mov".to_string(), "failed".to_string())));

    assert!(matches!(batch.next_file(), NextFile::Finished));
    let result = batch.finish("/logs/l.csv".to_string());
    let sources: Vec<&str> = result.entries.iter().map(|e| e.source_path.as_str()).collect();
    assert_eq!(sources, vec!["/in/a.mov", "/in/notes.txt", "/in/\u{fffd}.mov", "/in/other/a.mov"]);
    let results: Vec<&str> = result.entries.iter().map(|e| e.result.as_str()).collect();
    assert_eq!(results, vec!["ok", "skipped", "failed", "failed"]);
    assert_eq!(result.entries[1].error_message, "Unsupported file type");
    assert_eq!(result.entries[2].error_message, "Invalid file name");
    assert_eq!(result.entries[2].mode, "VIDEO RAW");
    assert_eq!(result.entries[3].dest_path, "/out/a__3.mov");
    assert_eq!((result.processed, result.failed, result.skipped), (4, 2, 1));
}

#[test]
fn batch_stops_on_unknown_mode() {
    let ctx = batch_context("MY MODE", "ACME", "copy");
    let mut batch = SortBatch::new(ctx, vec![source("/in/a.mov", "a.mov")]);
    assert!(matches!(batch.next_file(), NextFile::Abort(ref m) if m == "Unknown mode selected"));
    assert_eq!(batch.processed(), 0);
}

#[test]
fn white_space_matches_std() {
    for c in (0u32..=0x10FFFF).filter_map(char::from_u32) {
        assert_eq!(is_white_space(c), c.is_whitespace(), "{:?}", c);
    }
    assert!(matches!(plan_watch(" \u{3000}\t", false), WatchPlan::Stop));
    assert!(matches!(plan_watch("\u{200b}", true), WatchPlan::Watch));
}

#[test]
fn undo_of_a_clean_batch() {
    let mut tally = UndoTally::new();
    for (name, op) in [("a", "move"), ("b", "copy"), ("c", "move")] {
        let step = undo_step(op, true, false);
        assert!(matches!(step, UndoStep::Restore | UndoStep::RemoveCopy));
        let entry = UndoEntry { source_path: format!("/in/{name}"), dest_path: format!("/out/{name}"), operation: op.to_string() };
        tally = tally.record(entry, Ok(()));
    }
    let result = tally.finish();
    assert_eq!((result.processed, result.failed), (3, 0));
}
