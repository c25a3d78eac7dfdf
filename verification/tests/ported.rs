use bin_chd_converter::disc::{classify_raw_cd_header, is_sector_aligned, sector_size_warning};
use bin_chd_converter::output::percent_candidates;
use bin_chd_converter::paths::{
    collides_with_output, is_ascii_path, is_chdman_safe_path, reserve_free_directory,
};
use bin_chd_converter::routing::{command_for, detect_extract_command, explicit_extract_format};
use std::cell::RefCell;
use std::collections::HashSet;
use std::path::{Path, PathBuf};

/// The progress figure of a line: the first candidate that parses, clamped to 0..=100.
fn progress_of(line: &str) -> Option<f64> {
    for candidate in percent_candidates(line) {
        if let Ok(value) = candidate.parse::<f64>() {
            return Some(value.clamp(0.0, 100.0));
        }
    }
    None
}

#[test]
fn parses_chdman_progress_messages() {
    assert_eq!(progress_of("Compressing, 42.7% complete..."), Some(42.7));
    assert_eq!(progress_of("Verifying, 100% complete"), Some(100.0));
    assert_eq!(progress_of("No percentage here"), None);
}

#[test]
fn detects_cd_rom_as_cue() {
    let info = "Input file:   test.chd\nFile Version: 5\nMetadata:     Tag='CHT2'  Index=0  Length=89 bytes";
    assert_eq!(detect_extract_command(info), ("extractcd", "cue"));
}

#[test]
fn detects_dvd_as_iso() {
    let info = "Metadata:     Tag='DVD '  Index=0  Length=1 bytes";
    assert_eq!(detect_extract_command(info), ("extractdvd", "iso"));
}

#[test]
fn detects_hard_disk_as_img() {
    let info = "Metadata:     Tag='GDDD'  Index=0  Length=35 bytes";
    assert_eq!(detect_extract_command(info), ("extracthd", "img"));
}

#[test]
fn explicit_formats_override_detection() {
    assert_eq!(explicit_extract_format("cue"), Some(("extractcd", "cue")));
    assert_eq!(explicit_extract_format("bin"), Some(("extractcd", "cue")));
    assert_eq!(explicit_extract_format("iso"), Some(("extractdvd", "iso")));
    assert_eq!(explicit_extract_format("img"), Some(("extracthd", "img")));
    assert_eq!(explicit_extract_format("auto"), None);
    assert_eq!(explicit_extract_format(""), None);
}

/// The file name of a path as the library receives it.
fn name_of(path: &Path) -> String {
    path.file_name().map(|n| n.to_string_lossy().into_owned()).unwrap_or_default()
}

#[test]
fn picks_conversion_commands_by_extension() {
    assert_eq!(command_for(&name_of(Path::new("game.cue")), "convert"), ("createcd", "chd"));
    assert_eq!(command_for(&name_of(Path::new("movie.iso")), "convert"), ("createdvd", "chd"));
    assert_eq!(command_for(&name_of(Path::new("hd.img")), "convert"), ("createhd", "chd"));
    assert_eq!(command_for(&name_of(Path::new("data.raw")), "convert"), ("createraw", "chd"));
    assert_eq!(command_for(&name_of(Path::new("game.chd")), "verify"), ("verify", ""));
}

#[test]
fn extract_collision_accounts_for_bin_sidecar() {
    // The directory holds only a stray `occup_bin.bin`.
    let existing: HashSet<&str> = ["occup_bin.bin"].into_iter().collect();
    let exists = |name: &str| existing.contains(name);
    // Nothing exists at the target -> free.
    assert!(!collides_with_output(exists("free_disc.cue"), "extractcd", || exists("free_disc.bin")));
    // A stray .bin with the same stem must force diversion for extractcd.
    assert!(collides_with_output(exists("occup_bin.cue"), "extractcd", || exists("occup_bin.bin")));
    // extractdvd has no sidecar: an orphan .bin does not block a .iso.
    assert!(!collides_with_output(exists("occup_bin.iso"), "extractdvd", || exists("occup_bin.bin")));
}

#[test]
fn reserve_free_directory_avoids_and_counts_up() {
    let made: RefCell<HashSet<String>> = RefCell::new(HashSet::new());
    let no_clock = || -> u128 { panic!("the clock is read only when every numbered name is taken") };
    // First reservation is the plain name.
    let first = reserve_free_directory("disc", |n: &str| made.borrow().contains(n), no_clock);
    assert_eq!(first, "disc");
    made.borrow_mut().insert(first);
    // Second goes to "disc (2)".
    let second = reserve_free_directory("disc", |n: &str| made.borrow().contains(n), no_clock);
    assert_eq!(second, "disc (2)");
    made.borrow_mut().insert(second);
    // A distinct name is unaffected.
    let other = reserve_free_directory("other", |n: &str| made.borrow().contains(n), no_clock);
    assert_eq!(other, "other");
}

#[test]
fn path_safety_flags_non_ascii_and_over_long() {
    // Pure ASCII and short is fine.
    let ascii = r"C:\roms\metroid.chd";
    assert!(is_ascii_path(ascii));
    assert!(is_chdman_safe_path(ascii));
    // Accented / non-Latin characters disqualify regardless of extension.
    let accented = r"C:\Users\Aurélie\Emulátory\jeux été.chd";
    assert!(!is_ascii_path(accented));
    assert!(!is_chdman_safe_path(accented));
    // Overlong, pure-ASCII paths exceed MAX_PATH (260) and must be rejected.
    let long_name = format!("{}{}", "a".repeat(300), ".chd");
    let long = PathBuf::from("C:\\").join(long_name);
    let long_text = long.to_string_lossy();
    assert!(is_ascii_path(&long_text), "fully ASCII path should pass the ASCII test");
    assert!(long.as_os_str().len() >= 260, "test fixture must exceed MAX_PATH");
    assert!(!is_chdman_safe_path(&long_text));
}

#[test]
fn raw_cd_detection_returns_mode_and_rejects_others() {
    // A MODE1/2352 header: 12-byte sync mark then 3-byte MSF + mode byte = 1.
    let mut sector = [0_u8; 16];
    sector[..12].copy_from_slice(&[0x00, 0xFF, 0xFF, 0xFF, 0xFF, 0xFF, 0xFF, 0xFF, 0xFF, 0xFF, 0xFF, 0x00]);
    sector[12] = 0x00; // MSF frame
    sector[13] = 0x02; // MSF second
    sector[14] = 0x00; // MSF minute
    sector[15] = 0x01; // MODE1
    assert_eq!(classify_raw_cd_header(&sector), Some(1));

    // Same sync mark but MODE2 -> returns 2.
    sector[15] = 0x02;
    assert_eq!(classify_raw_cd_header(&sector), Some(2));

    // Wrong sync mark -> None.
    sector[0] = 0xAB;
    assert_eq!(classify_raw_cd_header(&sector), None);

    // Too short (fewer than the mode-offset) -> None.
    assert_eq!(classify_raw_cd_header(&[0x00, 0xFF]), None);

    // Unknown mode byte (5) -> None.
    let mut weird = [0_u8; 16];
    weird[..12].copy_from_slice(&[0x00, 0xFF, 0xFF, 0xFF, 0xFF, 0xFF, 0xFF, 0xFF, 0xFF, 0xFF, 0xFF, 0x00]);
    weird[15] = 0x05;
    assert_eq!(classify_raw_cd_header(&weird), None);
}

#[test]
fn sector_alignment_accepts_standard_sizes_and_rejects_stray() {
    assert!(is_sector_aligned(2352));
    assert!(is_sector_aligned(2048));
    assert!(is_sector_aligned(2336));
    assert!(is_sector_aligned(2324));
    assert!(is_sector_aligned(2448));
    assert!(is_sector_aligned(2368));
    assert!(is_sector_aligned(2352 * 32));
    assert!(!is_sector_aligned(0), "zero-length is not aligned");
    assert!(!is_sector_aligned(2353));
    assert!(!is_sector_aligned(2047));
    assert!(!is_sector_aligned(13));
    // A raw CD + subchannel (2352+96=2448) is valid.
    assert!(is_sector_aligned(2448 * 10));

    // sector_size_warning ignores descriptor files regardless of their size.
    assert_eq!(sector_size_warning("sector_check_disc.cue", || Some(1)), None, "descriptor files are never warned about");
    // A small broken image triggers a warning.
    assert!(sector_size_warning("sector_check_broken.iso", || Some(5)).is_some());
}
