use bin_chd_converter::batch::{
    batch_canceled, batch_summary, delete_warning, diverts_extraction, is_extract_mode,
    needs_preflight, preparation_failure, removes_partial_output, run_status, stream_action,
    writes_output, CommandStatus, EventKind, FileTally, ItemOutcome, StreamAction, StreamEvent,
};
use bin_chd_converter::disc::{
    is_sector_aligned, probe_raw_cd, raw_cd_cue_name, raw_cd_cue_sheet, sector_size_warning,
};
use bin_chd_converter::listing::{lex_le_exec, select_files};
use bin_chd_converter::names::{file_extension, file_stem, lower_extension_exec};
use bin_chd_converter::output::{clean_line, clean_text, output_lines, percent_candidates, LineSplitter};
use bin_chd_converter::paths::{
    output_target, relative_output, choose_output, create_ascii_safe_temp_dir, diverted_base, fixed_drive_roots, hex_suffix,
    is_chdman_safe_path, is_staging_dir_safe, needs_staging, reserve_free_directory, staged_input_name,
    staged_output_name, temp_dir_bases, unique_path, writes_bin_sidecar, FreeName, OutputPlace,
};
use bin_chd_converter::routing::{
    command_for,    detect_extract_command, explicit_extract_format, extensions, extraction_command, input_route,
    is_archive_image, is_raw_cd_candidate, is_scan_candidate, missing_tool_message, rerouted,
    compressed_iso_tool, CsoTool, InputRoute,
};
use bin_chd_converter::tools::{executable_name, find_command};

fn raw_header(mode: u8) -> Vec<u8> {
    let mut h = vec![0x00, 0xFF, 0xFF, 0xFF, 0xFF, 0xFF, 0xFF, 0xFF, 0xFF, 0xFF, 0xFF, 0x00, 0, 2, 0];
    h.push(mode);
    h
}

#[test]
fn detected_command_is_the_explicit_choice_for_its_extension() {
    for info in ["Tag='DVD '", "Tag='GDDD'", "a Hard Disk", "HDD image", "Tag='CHT2'", "", "GD-ROM"] {
        let detected = detect_extract_command(info);
        assert_eq!(explicit_extract_format(detected.1), Some(detected));
    }
}

#[test]
fn detection_ignores_case_and_prefers_dvd() {
    assert_eq!(detect_extract_command("dvd and hdd"), ("extractdvd", "iso"));
    assert_eq!(detect_extract_command("HARD DISK"), ("extracthd", "img"));
    assert_eq!(detect_extract_command("GDROM"), ("extractcd", "cue"));
}

#[test]
fn extraction_command_asks_chdman_only_without_explicit_format() {
    let never = || -> String { panic!("no info needed for an explicit format") };
    assert_eq!(extraction_command("iso", never), ("extractdvd", "iso"));
    assert_eq!(extraction_command("auto", || "Tag='GDDD'".to_string()), ("extracthd", "img"));
    assert_eq!(extraction_command("", || String::new()), ("extractcd", "cue"));
}

#[test]
fn conversion_commands_for_other_extensions() {
    assert_eq!(command_for("GAME.GDI", "convert"), ("createcd", "chd"));
    assert_eq!(command_for("disc.toc", "convert"), ("createcd", "chd"));
    assert_eq!(command_for("noextension", "convert"), ("createhd", "chd"));
    assert_eq!(command_for(".iso", "convert"), ("createhd", "chd"));
    assert_eq!(command_for("movie.iso", "verify"), ("verify", ""));
}

#[test]
fn file_name_extension_and_stem() {
    assert_eq!(file_extension("a.tar.gz"), Some("gz".to_string()));
    assert_eq!(file_stem("a.tar.gz"), "a.tar");
    assert_eq!(file_extension(".bashrc"), None);
    assert_eq!(file_stem(".bashrc"), ".bashrc");
    assert_eq!(file_extension("foo."), Some(String::new()));
    assert_eq!(file_stem("foo."), "foo");
    assert_eq!(file_extension(".."), None);
    assert_eq!(file_stem(".."), "..");
    assert_eq!(file_extension("plain"), None);
    assert_eq!(file_stem(""), "");
    assert_eq!(lower_extension_exec("Game.CUE"), "cue");
}

#[test]
fn scan_extensions_by_mode() {
    assert_eq!(extensions("convert").len(), 15);
    assert_eq!(extensions("convert")[0], "cue");
    assert_eq!(extensions("convert")[14], "mds");
    assert_eq!(extensions("extract"), vec!["chd"]);
    assert!(is_scan_candidate("GAME.CUE", "convert"));
    assert!(is_scan_candidate("game.7z", "convert"));
    assert!(!is_scan_candidate("game.chd", "convert"));
    assert!(is_scan_candidate("game.chd", "verify"));
    assert!(!is_scan_candidate("readme", "convert"));
}

#[test]
fn listing_is_filtered_and_sorted() {
    let entries = vec![
        ("/r/b.cue".to_string(), "b.cue".to_string()),
        ("/r/notes.txt".to_string(), "notes.txt".to_string()),
        ("/r/a.ISO".to_string(), "a.ISO".to_string()),
        ("/r/A.img".to_string(), "A.img".to_string()),
        ("/r/é.zip".to_string(), "é.zip".to_string()),
    ];
    let files = select_files(&entries, "convert");
    assert_eq!(files, vec!["/r/A.img", "/r/a.ISO", "/r/b.cue", "/r/é.zip"]);
    let mut expected = files.clone();
    expected.sort();
    assert_eq!(files, expected);
    assert!(lex_le_exec("ab", "abc"));
    assert!(!lex_le_exec("abc", "ab"));
    assert!(lex_le_exec("Z", "a"));
}

#[test]
fn listing_does_not_depend_on_walk_order() {
    let a = vec![
        ("x/2.chd".to_string(), "2.chd".to_string()),
        ("x/1.chd".to_string(), "1.chd".to_string()),
        ("x/3.cue".to_string(), "3.cue".to_string()),
    ];
    let mut b = a.clone();
    b.reverse();
    assert_eq!(select_files(&a, "extract"), select_files(&b, "extract"));
    assert_eq!(select_files(&a, "extract"), vec!["x/1.chd", "x/2.chd"]);
}

#[test]
fn input_routes_by_extension_and_mode() {
    assert_eq!(input_route("game.PBP", "convert"), InputRoute::HelperUnpack);
    assert_eq!(input_route("game.ccd", "convert"), InputRoute::HelperUnpack);
    assert_eq!(input_route("game.ciso", "convert"), InputRoute::CompressedIso);
    assert_eq!(input_route("game.ecm", "convert"), InputRoute::EcmDecode);
    assert_eq!(input_route("game.MDS", "extract"), InputRoute::MdsDecode);
    assert_eq!(missing_tool_message(InputRoute::EcmDecode), missing_tool_message(InputRoute::MdsDecode));
    assert_eq!(input_route("game.rar", "convert"), InputRoute::Archive);
    assert_eq!(input_route("game.bin", "convert"), InputRoute::RawCdProbe);
    assert_eq!(input_route("game.iso", "verify"), InputRoute::Direct);
    assert_eq!(input_route("game.cue", "convert"), InputRoute::Direct);
    assert_eq!(missing_tool_message(InputRoute::Archive), Some("Archive support requires 7zz/7z in PATH or beside the app"));
    assert_eq!(missing_tool_message(InputRoute::CompressedIso), Some("CSO support requires batch-format-helper or maxcso"));
    assert_eq!(missing_tool_message(InputRoute::Direct), None);
    assert!(is_raw_cd_candidate("bin"));
    assert!(!is_raw_cd_candidate("BIN"));
    assert!(!is_raw_cd_candidate("cue"));
}

#[test]
fn archive_members_and_rerouting() {
    assert!(is_archive_image("disc/Track.RAW"));
    assert!(!is_archive_image("readme.txt"));
    assert!(!is_archive_image("Makefile"));
    let paths = vec!["a.img".to_string(), "a.img".to_string(), "b.bin".to_string(), "c.cue".to_string()];
    let cues = vec![None, None, Some("tmp/b.cue".to_string()), None];
    assert_eq!(rerouted(&paths, &cues), vec!["a.img", "tmp/b.cue", "c.cue"]);
}

#[test]
fn raw_cd_probe_reads_only_whole_sector_images() {
    let never = || -> Option<Vec<u8>> { panic!("header read for a misaligned image") };
    assert_eq!(probe_raw_cd(Some(2353), never), None);
    assert_eq!(probe_raw_cd(Some(0), never), None);
    assert_eq!(probe_raw_cd(None, never), None);
    assert_eq!(probe_raw_cd(Some(2352 * 3), || Some(raw_header(2))), Some(2));
    assert_eq!(probe_raw_cd(Some(2352 * 3), || None), None);
    assert_eq!(probe_raw_cd(Some(2352), || Some(vec![0; 16])), None);
}

#[test]
fn raw_cd_images_pass_the_alignment_preflight() {
    let length = 2352 * 7;
    assert_eq!(probe_raw_cd(Some(length), || Some(raw_header(1))), Some(1));
    assert!(is_sector_aligned(length));
    assert_eq!(sector_size_warning("dump.bin", || Some(length)), None);
}

#[test]
fn multiples_of_aligned_sizes_stay_aligned() {
    for size in [2048u64, 2324, 2336, 2352, 2368, 2448, 2048 * 2352] {
        for k in [1u64, 2, 3, 1000, 123457] {
            assert!(is_sector_aligned(size * k));
        }
    }
}

#[test]
fn sector_warning_text_and_unreadable_sizes() {
    assert_eq!(
        sector_size_warning("broken.ISO", || Some(12345)),
        Some("file size (12345 bytes) is not divisible by any standard sector size (2048/2324/2336/2352/2368/2448). The file may be corrupt or truncated.".to_string())
    );
    assert_eq!(sector_size_warning("unreadable.iso", || None), None);
    assert_eq!(sector_size_warning("empty.iso", || Some(0)), None);
    let never = || -> Option<u64> { panic!("descriptor sizes are not read") };
    assert_eq!(sector_size_warning("disc.GDI", never), None);
}

#[test]
fn cue_sheet_for_raw_cd() {
    assert_eq!(
        raw_cd_cue_sheet("/roms/game.bin", 1),
        "FILE \"/roms/game.bin\" BINARY\n  TRACK 01 MODE1/2352\n    INDEX 01 00:00:00\n"
    );
    assert_eq!(
        raw_cd_cue_sheet("C:\\roms\\x.img", 2),
        "FILE \"C:\\roms\\x.img\" BINARY\n  TRACK 01 MODE2/2352\n    INDEX 01 00:00:00\n"
    );
    assert_eq!(raw_cd_cue_name("game.bin"), "game.cue");
    assert_eq!(raw_cd_cue_name("archive.tar.img"), "archive.tar.cue");
}

#[test]
fn drive_roots_and_temp_bases() {
    let roots = fixed_drive_roots(true);
    assert_eq!(roots.len(), 24);
    assert_eq!(roots[0], "C:\\");
    assert_eq!(roots[23], "Z:\\");
    assert_eq!(fixed_drive_roots(false), vec!["/"]);
    assert_eq!(temp_dir_bases("/tmp", false), vec!["/tmp", "/"]);
    assert_eq!(temp_dir_bases("/tmp/Aurélie", false), vec!["/"]);
    assert_eq!(temp_dir_bases("C:\\Temp", true)[1], "C:\\");
}

#[test]
fn staging_names_and_decisions() {
    assert_eq!(hex_suffix("abc"), "0000000000017862");
    assert_eq!(hex_suffix(""), "0000000000000000");
    assert_eq!(hex_suffix("C:\\Users\\Aurélie\\game.chd"), "30420381ea3c9f28");
    assert_eq!(staged_input_name("abc"), "input_0000000000017862.chd");
    assert_eq!(staged_output_name("abc", "cue"), "output_0000000000017862.cue");
    assert!(needs_staging("convert", "C:\\Jeux été\\a.cue", "C:\\out"));
    assert!(needs_staging("extract", "C:\\a.chd", &"x".repeat(300)));
    assert!(!needs_staging("verify", "C:\\Jeux été\\a.chd", "C:\\out"));
    assert!(!needs_staging("convert", "C:\\a.cue", "C:\\out"));
}

#[test]
fn free_names_count_up() {
    let taken = ["game.chd", "game (1).chd", "game (2).chd"];
    match unique_path("game.chd", |n: &str| taken.contains(&n)) {
        FreeName::Numbered(name) => assert_eq!(name, "game (3).chd"),
        _ => panic!("expected a numbered name"),
    }
    assert!(matches!(unique_path("new.chd", |n: &str| taken.contains(&n)), FreeName::Unchanged));
    match unique_path("noext", |n: &str| n == "noext") {
        FreeName::Numbered(name) => assert_eq!(name, "noext (1)"),
        _ => panic!("expected a numbered name"),
    }
}

#[test]
fn reserved_directory_falls_back_to_a_time_stamp() {
    let name = reserve_free_directory("disc", |_: &str| true, || 255u128);
    assert_eq!(name, "disc_ff");
    assert_eq!(diverted_base("game.cue"), "game");
    assert_eq!(diverted_base(""), "extracted");
    assert_eq!(diverted_base(".cue"), ".cue");
    assert_eq!(bin_chd_converter::paths::diverted_file_name("game", "cue"), "game.cue");
    assert_eq!(bin_chd_converter::routing::decompressed_iso_name("Game.CSO"), "Game.iso");
}

#[test]
fn program_lookup_order() {
    assert_eq!(executable_name("chdman", true), "chdman.exe");
    assert_eq!(executable_name("chdman.exe", true), "chdman.exe");
    assert_eq!(executable_name("chdman", false), "chdman");
    // Root 0 has nothing; root 1 has 7z.exe and 7za.exe: 7z comes first among the names.
    let found = find_command(3, &["7zz", "7z", "7za"], true, |root: usize, name: &str| {
        root == 1 && (name == "7z.exe" || name == "7za.exe")
    });
    assert_eq!(found, Some((1, "7z.exe".to_string())));
    assert_eq!(find_command(2, &["chdman"], false, |_: usize, _: &str| false), None);
}

#[test]
fn line_splitting_does_not_depend_on_chunks() {
    let data = b"Compressing, 10% complete...\rCompressing, 20%\r\nDone\nrest";
    let mut whole = LineSplitter::new();
    let all_at_once = whole.feed(data);
    let rest_whole = whole.finish();
    let mut piecewise = LineSplitter::new();
    let mut lines = Vec::new();
    for chunk in data.chunks(3) {
        lines.extend(piecewise.feed(chunk));
    }
    assert_eq!(lines, all_at_once);
    assert_eq!(piecewise.finish(), rest_whole);
    assert_eq!(all_at_once.len(), 4);
    assert_eq!(all_at_once[2], b"".to_vec());
    assert_eq!(rest_whole, b"rest".to_vec());
    for line in &all_at_once {
        assert!(!line.contains(&b'\r') && !line.contains(&b'\n'));
    }
}

#[test]
fn output_lines_are_cleaned() {
    assert_eq!(clean_line(b"  Compressing  "), Some("Compressing".to_string()));
    assert_eq!(clean_line(b" \t "), None);
    assert_eq!(clean_line(b""), None);
    assert_eq!(clean_line(b"caf\xc3\xa9"), Some("café".to_string()));
    assert_eq!(clean_line(b"bad \xff byte"), Some("bad \u{FFFD} byte".to_string()));
}

#[test]
fn helper_output_lines() {
    assert_eq!(output_lines("a\r\nb\n\nc"), vec!["a", "b", "", "c"]);
    assert_eq!(output_lines("x\r"), vec!["x\r"]);
    assert_eq!(output_lines(""), Vec::<String>::new());
    assert_eq!(output_lines("one\n"), vec!["one"]);
}

#[test]
fn percent_candidates_in_order() {
    assert_eq!(percent_candidates("Compressing, 42.7% complete..."), vec!["42.7"]);
    assert_eq!(percent_candidates("(50%)  and 7%,"), vec!["50", "7"]);
    assert_eq!(percent_candidates("..% 3%"), vec!["..", "3"]);
    assert!(percent_candidates("No percentage here").is_empty());
}

#[test]
fn stream_reactions() {
    assert_eq!(stream_action(StreamEvent::CancelRequested), StreamAction::Interrupt);
    assert_eq!(stream_action(StreamEvent::Line { has_percent: true }), StreamAction::Show(EventKind::Progress));
    assert_eq!(stream_action(StreamEvent::Line { has_percent: false }), StreamAction::Show(EventKind::Output));
    assert_eq!(stream_action(StreamEvent::Idle { exited: None }), StreamAction::Wait);
    assert_eq!(stream_action(StreamEvent::Idle { exited: Some(false) }), StreamAction::Finish(Some(false)));
    assert_eq!(stream_action(StreamEvent::Closed { waited: None }), StreamAction::Finish(None));
    assert_eq!(EventKind::Progress.name(), "progress");
    assert_eq!(EventKind::Complete.name(), "complete");
}

#[test]
fn run_outcomes() {
    assert_eq!(run_status(Some(true)), CommandStatus::Succeeded);
    assert_eq!(run_status(Some(false)), CommandStatus::Failed);
    assert_eq!(run_status(None), CommandStatus::Canceled);
    assert!(!removes_partial_output(CommandStatus::Succeeded));
    assert!(removes_partial_output(CommandStatus::Failed));
    assert!(removes_partial_output(CommandStatus::Canceled));
    assert!(writes_bin_sidecar("extractcd"));
    assert!(!writes_bin_sidecar("extractdvd"));
    assert!(!writes_output("verify"));
    assert!(writes_output("convert"));
    assert!(is_extract_mode("extract"));
    assert!(needs_preflight("convert"));
    assert!(!needs_preflight("extract"));
    assert!(diverts_extraction("extract", || true));
    assert!(!diverts_extraction("convert", || panic!("collisions matter only when extracting")));
}

#[test]
fn file_tally_and_source_deletion() {
    let mut tally = FileTally::new();
    assert!(!tally.may_delete_source(true), "nothing converted yet");
    let (line, kind, stop) = tally.record(&ItemOutcome::Done, "a.cue");
    assert_eq!((line.as_str(), kind, stop), ("OK: a.cue", EventKind::Success, false));
    assert!(tally.may_delete_source(true));
    assert!(!tally.may_delete_source(false));
    let (line, kind, _) = tally.record(&ItemOutcome::Skipped("bad size".to_string()), "b.iso");
    assert_eq!((line.as_str(), kind), ("SKIP: b.iso (bad size)", EventKind::Error));
    assert!(!tally.may_delete_source(true));

    let mut failed = FileTally::new();
    let (line, _, _) = failed.record(&ItemOutcome::Failed(Some("boom".to_string())), "c.iso");
    assert_eq!(line, "FAILED: c.iso (boom)");
    let (line, _, _) = failed.record(&ItemOutcome::Failed(None), "d.iso");
    assert_eq!(line, "FAILED: d.iso");
    assert!(!failed.may_delete_source(true));

    let mut canceled = FileTally::new();
    let (line, kind, stop) = canceled.record(&ItemOutcome::Canceled, "e.cue");
    assert_eq!((line.as_str(), kind, stop), ("CANCELED: e.cue", EventKind::Canceled, true));
    assert!(!canceled.may_delete_source(true));

    assert_eq!(preparation_failure("x.pbp", "no helper"), "FAILED: x.pbp (no helper)");
    let mut unprepared = FileTally::new();
    assert_eq!(
        unprepared.record_preparation_failure("y.7z", "7-Zip is missing"),
        "FAILED: y.7z (7-Zip is missing)"
    );
    assert!(!unprepared.may_delete_source(true));
    unprepared.record(&ItemOutcome::Done, "y.iso");
    assert!(!unprepared.may_delete_source(true));
    assert_eq!(delete_warning("x.cue", "denied"), "WARN: could not delete x.cue (denied)");
}

#[test]
fn batch_end() {
    let logs = vec!["OK: a".to_string(), "CANCELED: b".to_string()];
    assert!(batch_canceled(&logs));
    assert!(!batch_canceled(&vec!["OK: a".to_string(), "FAILED: CANCELED:".to_string()]));
    assert!(!batch_canceled(&Vec::new()));
    assert_eq!(batch_summary(true), ("Batch canceled", EventKind::Canceled));
    assert_eq!(batch_summary(false), ("Batch complete", EventKind::Complete));
}

#[test]
fn every_byte_of_output_is_accounted_for() {
    let data = b"a\rbb\n\nccc\r\nrest";
    let mut splitter = LineSplitter::new();
    let lines = splitter.feed(data);
    let rest = splitter.finish();
    let in_lines: usize = lines.iter().map(|l| l.len()).sum();
    assert_eq!(in_lines + lines.len() + rest.len(), data.len());
}

#[test]
fn rerouting_keeps_every_decoded_file() {
    let paths = vec!["x.bin".to_string(), "y.img".to_string(), "y.img".to_string()];
    let cues = vec![Some("t/x.cue".to_string()), None, None];
    let out = rerouted(&paths, &cues);
    assert!(out.contains(&"t/x.cue".to_string()));
    assert!(out.contains(&"y.img".to_string()));
    assert_eq!(out.len(), 2);
}

#[test]
fn staging_places_are_chdman_safe() {
    for windows in [true, false] {
        for base in temp_dir_bases("/tmp", windows) {
            assert!(is_chdman_safe_path(&base));
        }
    }
    let name = staged_output_name("C:\\Users\\Aurélie\\jeux été.chd", "cue");
    assert!(name.is_ascii());
    assert_eq!(name.len(), 24 + 3);
    assert_eq!(staged_input_name("é").len(), 26);
}

#[test]
fn numbered_alternative_differs_from_taken_name() {
    match unique_path("a", |n: &str| n == "a") {
        FreeName::Numbered(name) => assert_ne!(name, "a"),
        _ => panic!("expected a numbered name"),
    }
}

#[test]
fn unicode_white_space_is_trimmed() {
    assert_eq!(clean_text("\u{3000} Verifying \u{A0}\u{2009}"), Some("Verifying".to_string()));
    assert_eq!(clean_text("\u{85}\u{1680}"), None);
    assert_eq!(clean_text("a b"), Some("a b".to_string()));
}

#[test]
fn empty_input_list_keeps_the_source() {
    let tally = FileTally::new();
    assert!(!tally.may_delete_source(true));
    let mut one = FileTally::new();
    one.record(&ItemOutcome::Done, "a.cue");
    one.record(&ItemOutcome::Done, "b.cue");
    assert!(one.may_delete_source(true));
}

#[test]
fn staging_directory_must_be_safe() {
    assert!(is_staging_dir_safe("/tmp/bchd_a1b2c3"));
    assert!(!is_staging_dir_safe("/tmp/Aurélie/bchd_a1b2c3"));
    assert!(is_staging_dir_safe(&"x".repeat(231)));
    assert!(!is_staging_dir_safe(&"x".repeat(232)));
    // The first base is refused when what it made is not safe; the next one is kept.
    let made = create_ascii_safe_temp_dir(
        "/tmp",
        false,
        |base: &str| Ok((base.to_string(), if base == "/tmp" { format!("/tmp/{}", "é") } else { "/bchd_x".to_string() })),
        || Err("unused".to_string()),
    );
    assert_eq!(made, Ok(("/".to_string(), "/bchd_x".to_string())));
    // Nothing could be made in the bases: the default location's error.
    let failed: Result<(u8, String), String> =
        create_ascii_safe_temp_dir("/tmp", false, |_: &str| Err("denied".to_string()), || Err("full".to_string()));
    assert_eq!(failed, Err("full".to_string()));
    // The default location made an unsafe directory: refused.
    let unsafe_default: Result<(u8, String), String> = create_ascii_safe_temp_dir(
        "/tmp/Aurélie",
        false,
        |_: &str| Err("denied".to_string()),
        || Ok((0, "/tmp/Aurélie/bchd_x".to_string())),
    );
    assert_eq!(unsafe_default, Err("no ASCII-safe temporary directory is available".to_string()));
}

fn place(
    mode: &str,
    cmd: &str,
    taken_at_target: &[&str],
    taken_at_root: &[&str],
) -> Result<Option<OutputPlace>, String> {
    choose_output(
        mode,
        cmd,
        "cue",
        "game.chd",
        "game.cue",
        "game.bin",
        |n: &str| taken_at_target.contains(&n),
        |n: &str| taken_at_root.contains(&n),
        |_: &str, _: &str| false,
        || 0u128,
        || Ok(()),
        |_: &str| Ok(()),
    )
}

#[test]
fn output_never_overwrites_existing_files() {
    assert_eq!(place("verify", "verify", &[], &[]), Ok(None));
    assert_eq!(place("extract", "extractcd", &[], &[]), Ok(Some(OutputPlace::Target("game.cue".to_string()))));
    // A stray sidecar diverts the whole disc into its own subfolder.
    assert_eq!(
        place("extract", "extractcd", &["game.bin"], &[]),
        Ok(Some(OutputPlace::Diverted("game".to_string(), "game.cue".to_string())))
    );
    assert_eq!(
        place("extract", "extractcd", &["game.cue"], &["game", "game (2)"]),
        Ok(Some(OutputPlace::Diverted("game (3)".to_string(), "game.cue".to_string())))
    );
    // Without a sidecar, a `.bin` in the way does not matter.
    assert_eq!(
        place("extract", "extractdvd", &["game.bin"], &[]),
        Ok(Some(OutputPlace::Target("game.cue".to_string())))
    );
    // Conversions keep the target's folder and number the name instead.
    assert_eq!(
        place("convert", "createcd", &["game.cue"], &[]),
        Ok(Some(OutputPlace::Target("game (1).cue".to_string())))
    );
    let refused = choose_output(
        "convert", "createcd", "chd", "a.cue", "a.chd", "a.bin",
        |_: &str| false, |_: &str| false, |_: &str, _: &str| false, || 0u128,
        || Err("read-only".to_string()), |_: &str| Ok(()),
    );
    assert_eq!(refused, Err("read-only".to_string()));
}

#[test]
fn staged_files_in_a_safe_directory_are_chdman_safe() {
    let dir = format!("C:\\{}", "d".repeat(228));
    assert!(is_staging_dir_safe(&dir));
    let input = format!("{dir}\\{}", staged_input_name("D:\\Jeux été\\game.cue"));
    let output = format!("{dir}\\{}", staged_output_name("D:\\Jeux été\\game.cue", "chd"));
    assert!(is_chdman_safe_path(&input));
    assert!(is_chdman_safe_path(&output));
    assert_eq!(output.len(), 259);
}

#[test]
fn default_location_is_kept_when_safe() {
    let made: Result<(u8, String), String> = create_ascii_safe_temp_dir(
        "/tmp/Aurélie",
        false,
        |_: &str| Err("denied".to_string()),
        || Ok((7, "/var/tmp/bchd_q".to_string())),
    );
    assert_eq!(made, Ok((7, "/var/tmp/bchd_q".to_string())));
}

#[test]
fn output_targets_follow_the_source_tree() {
    assert_eq!(
        output_target("/src/a/b.cue", "/src", "/out", "chd"),
        ("a/b.cue".to_string(), "/out/a/b.chd".to_string())
    );
    assert_eq!(
        output_target("/elsewhere/y.iso", "/src", "/out", "chd"),
        ("y.iso".to_string(), "/out/y.chd".to_string())
    );
    // Components, not text: "/srcx" is not below "/src".
    assert_eq!(
        output_target("/srcx/z.gdi", "/src", "/out", "chd"),
        ("z.gdi".to_string(), "/out/z.chd".to_string())
    );
    assert_eq!(relative_output(None, None), "");
}

#[test]
fn compressed_iso_tools_in_order() {
    assert_eq!(compressed_iso_tool(Some(1), || panic!("maxcso is not looked for")), Some(CsoTool::Helper(1)));
    assert_eq!(compressed_iso_tool(None, || Some(2)), Some(CsoTool::Maxcso(2)));
    assert_eq!(compressed_iso_tool::<u8, _>(None, || None), None);
}

#[test]
fn rerouting_compares_paths_by_component() {
    let paths = vec!["a//b.bin".to_string(), "a/b.bin".to_string(), "c.img".to_string()];
    let out = rerouted(&paths, &vec![None, None, None]);
    assert_eq!(out, vec!["a//b.bin".to_string(), "c.img".to_string()]);
    // A raw dump is replaced by its cue; anything else goes on as it is.
    assert_eq!(rerouted(&vec!["d.bin".to_string()], &vec![Some("/t/d.cue".to_string())]), vec!["/t/d.cue"]);
    assert_eq!(rerouted(&vec!["d.bin".to_string()], &vec![None]), vec!["d.bin"]);
}
