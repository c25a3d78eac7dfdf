//! Which `chdman` sub-command handles which input, and how inputs that `chdman`
//! cannot read directly are prepared first.

use vstd::prelude::*;
use crate::names::{
    file_extension, file_stem, has_extension, is_lower_word, lemma_lower_contains, lemma_lower_extension_is,
    lower_extension, lower_extension_exec, mentions_ignoring_case, spec_extension, spec_stem,
};
use crate::text::{ascii_lower, chars_of, contains, contains_exec, str_eq, to_ascii_lowercase};

verus! {

broadcast use vstd::string::group_string_axioms;

/// A `chdman` sub-command with the extension of the file it produces.
pub open spec fn pair(cmd: &str, ext: &str) -> (Seq<char>, Seq<char>) {
    (cmd@, ext@)
}

/// Extraction command chosen by an explicit output format: `cue` and `bin` force
/// BIN+CUE output, `iso` forces DVD, `img` forces a hard disk; anything else leaves
/// the choice to detection.
pub open spec fn spec_explicit_extract_format(format: Seq<char>) -> Option<(Seq<char>, Seq<char>)> {
    if format == "cue"@ || format == "bin"@ {
        Some(("extractcd"@, "cue"@))
    } else if format == "iso"@ {
        Some(("extractdvd"@, "iso"@))
    } else if format == "img"@ {
        Some(("extracthd"@, "img"@))
    } else {
        None
    }
}

/// The extraction command for an explicit output format, if the format names one.
pub fn explicit_extract_format(format: &str) -> (r: Option<(&'static str, &'static str)>)
    ensures
        match r {
            Some(p) => spec_explicit_extract_format(format@) == Some(pair(p.0, p.1)),
            None => spec_explicit_extract_format(format@) is None,
        },
{
    if str_eq(format, "cue") || str_eq(format, "bin") {
        Some(("extractcd", "cue"))
    } else if str_eq(format, "iso") {
        Some(("extractdvd", "iso"))
    } else if str_eq(format, "img") {
        Some(("extracthd", "img"))
    } else {
        None
    }
}

/// Extraction command detected from the text of `chdman info`: a DVD when the text
/// mentions `dvd`; a hard disk when it mentions `gddd` (chdman's hard-disk metadata
/// tag), `hard disk` or `hdd`; otherwise a CD or GD-ROM, extracted to BIN+CUE. The
/// comparison ignores ASCII case.
pub open spec fn spec_detect_extract_command(info: Seq<char>) -> (Seq<char>, Seq<char>) {
    let text = ascii_lower(info);
    if contains(text, "dvd"@) {
        ("extractdvd"@, "iso"@)
    } else if contains(text, "gddd"@) || contains(text, "hard disk"@) || contains(text, "hdd"@) {
        ("extracthd"@, "img"@)
    } else {
        ("extractcd"@, "cue"@)
    }
}

/// Detects the extraction command from the text `chdman info` printed.
pub fn detect_extract_command(info_text: &str) -> (r: (&'static str, &'static str))
    ensures
        pair(r.0, r.1) == spec_detect_extract_command(info_text@),
{
    let lower = to_ascii_lowercase(info_text);
    let text = chars_of(lower.as_str());
    if contains_exec(text.as_slice(), "dvd") {
        ("extractdvd", "iso")
    } else if contains_exec(text.as_slice(), "gddd") || contains_exec(text.as_slice(), "hard disk")
        || contains_exec(text.as_slice(), "hdd") {
        ("extracthd", "img")
    } else {
        ("extractcd", "cue")
    }
}

/// What `chdman info` says decides the extraction, in any case: a DVD when the
/// text mentions `dvd`; otherwise a hard disk when it mentions `gddd`, `hard disk`
/// or `hdd`; otherwise a CD or GD-ROM, extracted to BIN+CUE.
pub proof fn law_detection_follows_chdman_info(info: Seq<char>)
    ensures
        mentions_ignoring_case(info, "dvd"@) ==> spec_detect_extract_command(info) == ("extractdvd"@, "iso"@),
        !mentions_ignoring_case(info, "dvd"@) && (mentions_ignoring_case(info, "gddd"@) || mentions_ignoring_case(
            info,
            "hard disk"@,
        ) || mentions_ignoring_case(info, "hdd"@)) ==> spec_detect_extract_command(info) == ("extracthd"@, "img"@),
        !mentions_ignoring_case(info, "dvd"@) && !mentions_ignoring_case(info, "gddd"@) && !mentions_ignoring_case(
            info,
            "hard disk"@,
        ) && !mentions_ignoring_case(info, "hdd"@) ==> spec_detect_extract_command(info) == ("extractcd"@, "cue"@),
{
    reveal_strlit("dvd");
    reveal_strlit("gddd");
    reveal_strlit("hard disk");
    reveal_strlit("hdd");
    assert(is_lower_word("dvd"@) && is_lower_word("gddd"@) && is_lower_word("hard disk"@) && is_lower_word("hdd"@));
    lemma_lower_contains(info, "dvd"@);
    lemma_lower_contains(info, "gddd"@);
    lemma_lower_contains(info, "hard disk"@);
    lemma_lower_contains(info, "hdd"@);
}

/// An explicit output format decides the extraction exactly for `cue` and `bin`
/// (a CD, to BIN+CUE), `iso` (a DVD) and `img` (a hard disk); any other format
/// leaves it to detection.
pub proof fn law_explicit_formats(format: Seq<char>)
    ensures
        format == "cue"@ || format == "bin"@ ==> spec_explicit_extract_format(format) == Some(("extractcd"@, "cue"@)),
        format == "iso"@ ==> spec_explicit_extract_format(format) == Some(("extractdvd"@, "iso"@)),
        format == "img"@ ==> spec_explicit_extract_format(format) == Some(("extracthd"@, "img"@)),
        format != "cue"@ && format != "bin"@ && format != "iso"@ && format != "img"@ ==> spec_explicit_extract_format(
            format,
        ) is None,
{
    reveal_strlit("cue");
    reveal_strlit("bin");
    reveal_strlit("iso");
    reveal_strlit("img");
    assert("iso"@[0] != "cue"@[0] && "iso"@[0] != "bin"@[0]);
    assert("img"@[1] != "cue"@[1] && "img"@[0] != "bin"@[0] && "img"@[1] != "iso"@[1]);
}

/// Every detected extraction command is the one that its output extension names
/// explicitly: detection and the explicit choice never disagree on which command
/// writes a given kind of file.
pub proof fn law_detected_command_matches_explicit_format(info: Seq<char>)
    ensures
        spec_explicit_extract_format(spec_detect_extract_command(info).1) == Some(
            spec_detect_extract_command(info),
        ),
{
    reveal_strlit("cue");
    reveal_strlit("bin");
    reveal_strlit("iso");
    reveal_strlit("img");
    assert("iso"@[0] != "cue"@[0] && "iso"@[0] != "bin"@[0]);
    assert("img"@[1] != "cue"@[1] && "img"@[0] != "bin"@[0] && "img"@[1] != "iso"@[1]);
}

/// The extraction command: the explicit format when it names one, otherwise the
/// command detected from `info`, the text that `chdman info` printed for the input
/// (only asked for when the format does not decide).
pub fn extraction_command(format: &str, info: impl FnOnce() -> String) -> (r: (
    &'static str,
    &'static str,
))
    requires
        spec_explicit_extract_format(format@) is None ==> call_requires(info, ()),
    ensures
        match spec_explicit_extract_format(format@) {
            Some(p) => pair(r.0, r.1) == p,
            None => exists|text: String|
                call_ensures(info, (), text) && pair(r.0, r.1) == spec_detect_extract_command(
                    text@,
                ),
        },
{
    match explicit_extract_format(format) {
        Some(choice) => choice,
        None => {
            let text = info();
            detect_extract_command(text.as_str())
        },
    }
}

/// The conversion command for an input file: `verify` in verify mode; otherwise by
/// the lower-cased extension of the file name: `cue`, `gdi`, `toc` go to `createcd`,
/// `iso` to `createdvd`, `raw` to `createraw`, anything else to `createhd`, all
/// producing a `chd`.
pub open spec fn spec_command_for(name: Seq<char>, mode: Seq<char>) -> (Seq<char>, Seq<char>) {
    let e = lower_extension(name);
    if mode == "verify"@ {
        ("verify"@, ""@)
    } else if e == "cue"@ || e == "gdi"@ || e == "toc"@ {
        ("createcd"@, "chd"@)
    } else if e == "iso"@ {
        ("createdvd"@, "chd"@)
    } else if e == "raw"@ {
        ("createraw"@, "chd"@)
    } else {
        ("createhd"@, "chd"@)
    }
}

/// The `chdman` command and output extension for the file named `file_name` in `mode`.
pub fn command_for(file_name: &str, mode: &str) -> (r: (&'static str, &'static str))
    ensures
        pair(r.0, r.1) == spec_command_for(file_name@, mode@),
{
    if str_eq(mode, "verify") {
        return ("verify", "");
    }
    let e = lower_extension_exec(file_name);
    let e = e.as_str();
    if str_eq(e, "cue") || str_eq(e, "gdi") || str_eq(e, "toc") {
        ("createcd", "chd")
    } else if str_eq(e, "iso") {
        ("createdvd", "chd")
    } else if str_eq(e, "raw") {
        ("createraw", "chd")
    } else {
        ("createhd", "chd")
    }
}

/// The extensions a conversion batch picks up.
pub open spec fn convert_extensions() -> Seq<Seq<char>> {
    seq![
        "cue"@, "gdi"@, "toc"@, "iso"@, "img"@, "raw"@, "cso"@, "ciso"@, "zip"@, "7z"@, "rar"@,
        "pbp"@, "ccd"@, "ecm"@, "mds"@,
    ]
}

/// The extensions a batch in `mode` picks up: the convertible formats in convert
/// mode, `chd` in every other mode.
pub open spec fn spec_extensions(mode: Seq<char>) -> Seq<Seq<char>> {
    if mode == "convert"@ {
        convert_extensions()
    } else {
        seq!["chd"@]
    }
}

/// The views of a list of string slices.
pub open spec fn views(v: Seq<&str>) -> Seq<Seq<char>> {
    v.map_values(|s: &str| s@)
}

/// The extensions a batch in `mode` picks up.
pub fn extensions(mode: &str) -> (r: Vec<&'static str>)
    ensures
        views(r@) == spec_extensions(mode@),
{
    let r = if str_eq(mode, "convert") {
        vec![
            "cue", "gdi", "toc", "iso", "img", "raw", "cso", "ciso", "zip", "7z", "rar", "pbp",
            "ccd", "ecm", "mds",
        ]
    } else {
        vec!["chd"]
    };
    assert(views(r@) =~= spec_extensions(mode@));
    r
}

/// True when the file named `name` has an extension whose lower-cased form is one
/// of those the batch in `mode` picks up.
pub open spec fn spec_is_scan_candidate(name: Seq<char>, mode: Seq<char>) -> bool {
    match spec_extension(name) {
        Some(e) => spec_extensions(mode).contains(ascii_lower(e)),
        None => false,
    }
}

/// Whether a batch in `mode` picks up the file named `file_name`.
pub fn is_scan_candidate(file_name: &str, mode: &str) -> (r: bool)
    ensures
        r == spec_is_scan_candidate(file_name@, mode@),
{
    let ext = file_extension(file_name);
    match ext {
        None => false,
        Some(e) => {
            assert(spec_extension(file_name@) == Some(e@));
            let lower = to_ascii_lowercase(e.as_str());
            let list = extensions(mode);
            let mut i: usize = 0;
            while i < list.len()
                invariant
                    spec_extension(file_name@) == Some(e@),
                    lower@ == ascii_lower(e@),
                    views(list@) == spec_extensions(mode@),
                    i <= list@.len(),
                    forall|j: int| 0 <= j < i ==> (#[trigger] list@[j])@ != lower@,
                decreases list@.len() - i,
            {
                if str_eq(list[i], lower.as_str()) {
                    assert(views(list@)[i as int] == list@[i as int]@);
                    assert(spec_extensions(mode@)[i as int] == lower@);
                    assert(spec_extensions(mode@).contains(ascii_lower(e@)));
                    return true;
                }
                i = i + 1;
            }
            assert(!spec_extensions(mode@).contains(lower@)) by {
                if spec_extensions(mode@).contains(lower@) {
                    let j = choose|j: int| 0 <= j < spec_extensions(mode@).len() && spec_extensions(mode@)[j] == lower@;
                    assert(list@[j]@ == lower@);
                }
            }
            false
        },
    }
}

/// Extensions under which raw CD dumps get mislabelled, so worth sniffing before
/// trusting the extension.
pub open spec fn spec_is_raw_cd_candidate(ext: Seq<char>) -> bool {
    ext == "iso"@ || ext == "img"@ || ext == "bin"@
}

/// Whether an (already lower-cased) extension may hide a raw CD dump.
pub fn is_raw_cd_candidate(ext: &str) -> (r: bool)
    ensures
        r == spec_is_raw_cd_candidate(ext@),
{
    str_eq(ext, "iso") || str_eq(ext, "img") || str_eq(ext, "bin")
}


/// How an input is prepared before `chdman` sees it.
#[derive(Clone, Copy, Debug, PartialEq, Eq, Structural)]
pub enum InputRoute {
    /// `.pbp` / `.ccd`: the format helper unpacks it into a temporary directory and
    /// prints the files to convert.
    HelperUnpack,
    /// `.cso` / `.ciso`: decompressed to an ISO, by the format helper or by `maxcso`.
    CompressedIso,
    /// `.ecm`: the format helper decodes it and prints the files to convert; decoded
    /// images that turn out to be raw CD dumps get a cue sheet.
    EcmDecode,
    /// `.mds`: the format helper prepares a cue sheet or DVD image and prints the files
    /// to convert.
    MdsDecode,
    /// `.zip` / `.7z` / `.rar`: unpacked by 7-Zip; the disc images inside are converted.
    Archive,
    /// A `.iso` / `.img` / `.bin` to convert: sniffed for raw CD sectors, and given a
    /// cue sheet when it is one.
    RawCdProbe,
    /// Handed to `chdman` as it is.
    Direct,
}

/// The preparation an input named `name` gets in `mode`, by its lower-cased extension.
pub open spec fn spec_input_route(name: Seq<char>, mode: Seq<char>) -> InputRoute {
    let e = lower_extension(name);
    if e == "pbp"@ || e == "ccd"@ {
        InputRoute::HelperUnpack
    } else if e == "cso"@ || e == "ciso"@ {
        InputRoute::CompressedIso
    } else if e == "ecm"@ {
        InputRoute::EcmDecode
    } else if e == "mds"@ {
        InputRoute::MdsDecode
    } else if e == "zip"@ || e == "7z"@ || e == "rar"@ {
        InputRoute::Archive
    } else if mode == "convert"@ && spec_is_raw_cd_candidate(e) {
        InputRoute::RawCdProbe
    } else {
        InputRoute::Direct
    }
}

/// The preparation the input named `file_name` gets in `mode`.
pub fn input_route(file_name: &str, mode: &str) -> (r: InputRoute)
    ensures
        r == spec_input_route(file_name@, mode@),
{
    let e = lower_extension_exec(file_name);
    let e = e.as_str();
    if str_eq(e, "pbp") || str_eq(e, "ccd") {
        InputRoute::HelperUnpack
    } else if str_eq(e, "cso") || str_eq(e, "ciso") {
        InputRoute::CompressedIso
    } else if str_eq(e, "ecm") {
        InputRoute::EcmDecode
    } else if str_eq(e, "mds") {
        InputRoute::MdsDecode
    } else if str_eq(e, "zip") || str_eq(e, "7z") || str_eq(e, "rar") {
        InputRoute::Archive
    } else if str_eq(mode, "convert") && is_raw_cd_candidate(e) {
        InputRoute::RawCdProbe
    } else {
        InputRoute::Direct
    }
}

/// The ISO that `maxcso` decompresses the image named `name` into: its stem and `.iso`.
pub fn decompressed_iso_name(name: &str) -> (s: String)
    ensures
        s@ == spec_stem(name@) + ".iso"@,
{
    let mut s = file_stem(name);
    s.append(".iso");
    s
}

/// The message a failed preparation reports when the tool it needs is missing.
pub open spec fn spec_missing_tool_message(route: InputRoute) -> Option<Seq<char>> {
    match route {
        InputRoute::HelperUnpack => Some("PBP/CCD support requires batch-format-helper beside the app"@),
        InputRoute::CompressedIso => Some("CSO support requires batch-format-helper or maxcso"@),
        InputRoute::EcmDecode => Some("ECM/MDS support requires batch-format-helper beside the app"@),
        InputRoute::MdsDecode => Some("ECM/MDS support requires batch-format-helper beside the app"@),
        InputRoute::Archive => Some("Archive support requires 7zz/7z in PATH or beside the app"@),
        _ => None,
    }
}

/// Exactly the routes that run an outside program (the format helper, maxcso or
/// 7-Zip) have a message for when it is missing; the others need none.
pub proof fn law_tool_routes_name_their_tool(route: InputRoute)
    ensures
        spec_missing_tool_message(route) is Some <==> (route == InputRoute::HelperUnpack || route
            == InputRoute::CompressedIso || route == InputRoute::EcmDecode || route == InputRoute::MdsDecode || route
            == InputRoute::Archive),
{
}

/// The message reported when the tool that `route` needs is missing; `None` for the
/// routes that need no tool.
pub fn missing_tool_message(route: InputRoute) -> (r: Option<&'static str>)
    ensures
        match r {
            Some(m) => spec_missing_tool_message(route) == Some(m@),
            None => spec_missing_tool_message(route) is None,
        },
{
    match route {
        InputRoute::HelperUnpack => Some("PBP/CCD support requires batch-format-helper beside the app"),
        InputRoute::CompressedIso => Some("CSO support requires batch-format-helper or maxcso"),
        InputRoute::EcmDecode => Some("ECM/MDS support requires batch-format-helper beside the app"),
        InputRoute::MdsDecode => Some("ECM/MDS support requires batch-format-helper beside the app"),
        InputRoute::Archive => Some("Archive support requires 7zz/7z in PATH or beside the app"),
        _ => None,
    }
}

/// The disc-image extensions taken out of an unpacked archive.
pub open spec fn archive_image_extensions() -> Seq<Seq<char>> {
    seq!["cue"@, "gdi"@, "toc"@, "iso"@, "img"@, "raw"@]
}

/// True when an archive member named `name` is a disc image to convert.
pub open spec fn spec_is_archive_image(name: Seq<char>) -> bool {
    match spec_extension(name) {
        Some(e) => archive_image_extensions().contains(ascii_lower(e)),
        None => false,
    }
}

/// Whether the archive member named `file_name` is a disc image to convert.
pub fn is_archive_image(file_name: &str) -> (r: bool)
    ensures
        r == spec_is_archive_image(file_name@),
{
    let ext = file_extension(file_name);
    match ext {
        None => false,
        Some(e) => {
            let lower = to_ascii_lowercase(e.as_str());
            let l = lower.as_str();
            let r = str_eq(l, "cue") || str_eq(l, "gdi") || str_eq(l, "toc") || str_eq(l, "iso")
                || str_eq(l, "img") || str_eq(l, "raw");
            proof {
                let list = archive_image_extensions();
                if r {
                    if l@ == "cue"@ { assert(list[0] == l@); }
                    if l@ == "gdi"@ { assert(list[1] == l@); }
                    if l@ == "toc"@ { assert(list[2] == l@); }
                    if l@ == "iso"@ { assert(list[3] == l@); }
                    if l@ == "img"@ { assert(list[4] == l@); }
                    if l@ == "raw"@ { assert(list[5] == l@); }
                } else {
                    assert(!list.contains(l@)) by {
                        if list.contains(l@) {
                            let j = choose|j: int| 0 <= j < list.len() && list[j] == l@;
                            assert(0 <= j < 6);
                        }
                    }
                }
            }
            r
        },
    }
}

/// The program that unpacks a compressed ISO, with where it was found.
#[derive(Debug, PartialEq, Eq)]
pub enum CsoTool<P> {
    /// The format helper, which writes the ISO and prints its path.
    Helper(P),
    /// `maxcso --decompress`, writing the ISO named by [`decompressed_iso_name`].
    Maxcso(P),
}

/// The program that unpacks a compressed ISO: the format helper when it was found
/// (`helper`), otherwise maxcso, looked up with `find_maxcso` only then; `None`
/// when neither is there.
pub fn compressed_iso_tool<P, F: FnOnce() -> Option<P>>(helper: Option<P>, find_maxcso: F) -> (r: Option<CsoTool<P>>)
    requires
        helper is None ==> call_requires(find_maxcso, ()),
    ensures
        helper matches Some(h) ==> r == Some(CsoTool::Helper(h)),
        helper is None ==> exists|found: Option<P>|
            call_ensures(find_maxcso, (), found) && r == match found {
                Some(tool) => Some(CsoTool::Maxcso(tool)),
                None => None::<CsoTool<P>>,
            },
{
    match helper {
        Some(h) => Some(CsoTool::Helper(h)),
        None => match find_maxcso() {
            Some(tool) => Some(CsoTool::Maxcso(tool)),
            None => None,
        },
    }
}


/// The file extensions the routing speaks of are non-empty lower-case words.
proof fn lemma_lower_words()
    ensures
        is_lower_word("cue"@) && "cue"@.len() > 0,
        is_lower_word("gdi"@) && "gdi"@.len() > 0,
        is_lower_word("toc"@) && "toc"@.len() > 0,
        is_lower_word("iso"@) && "iso"@.len() > 0,
        is_lower_word("raw"@) && "raw"@.len() > 0,
        is_lower_word("img"@) && "img"@.len() > 0,
        is_lower_word("bin"@) && "bin"@.len() > 0,
        is_lower_word("pbp"@) && "pbp"@.len() > 0,
        is_lower_word("ccd"@) && "ccd"@.len() > 0,
        is_lower_word("cso"@) && "cso"@.len() > 0,
        is_lower_word("ciso"@) && "ciso"@.len() > 0,
        is_lower_word("ecm"@) && "ecm"@.len() > 0,
        is_lower_word("mds"@) && "mds"@.len() > 0,
        is_lower_word("zip"@) && "zip"@.len() > 0,
        is_lower_word("7z"@) && "7z"@.len() > 0,
        is_lower_word("rar"@) && "rar"@.len() > 0,
        is_lower_word("chd"@) && "chd"@.len() > 0,
{
    reveal_strlit("cue");
    reveal_strlit("gdi");
    reveal_strlit("toc");
    reveal_strlit("iso");
    reveal_strlit("raw");
    reveal_strlit("img");
    reveal_strlit("bin");
    reveal_strlit("pbp");
    reveal_strlit("ccd");
    reveal_strlit("cso");
    reveal_strlit("ciso");
    reveal_strlit("ecm");
    reveal_strlit("mds");
    reveal_strlit("zip");
    reveal_strlit("7z");
    reveal_strlit("rar");
    reveal_strlit("chd");
    assert(is_lower_word("cue"@));
    assert(is_lower_word("gdi"@));
    assert(is_lower_word("toc"@));
    assert(is_lower_word("iso"@));
    assert(is_lower_word("raw"@));
    assert(is_lower_word("img"@));
    assert(is_lower_word("bin"@));
    assert(is_lower_word("pbp"@));
    assert(is_lower_word("ccd"@));
    assert(is_lower_word("cso"@));
    assert(is_lower_word("ciso"@));
    assert(is_lower_word("ecm"@));
    assert(is_lower_word("mds"@));
    assert(is_lower_word("zip"@));
    assert(is_lower_word("7z"@));
    assert(is_lower_word("rar"@));
    assert(is_lower_word("chd"@));
}

/// For each extension the routing speaks of, the lower-cased extension of `name`
/// is that word exactly when `name` has an extension spelling it in any case.
proof fn lemma_extension_words(name: Seq<char>)
    ensures
        (lower_extension(name) == "cue"@) <==> has_extension(name, "cue"@),
        (lower_extension(name) == "gdi"@) <==> has_extension(name, "gdi"@),
        (lower_extension(name) == "toc"@) <==> has_extension(name, "toc"@),
        (lower_extension(name) == "iso"@) <==> has_extension(name, "iso"@),
        (lower_extension(name) == "raw"@) <==> has_extension(name, "raw"@),
        (lower_extension(name) == "img"@) <==> has_extension(name, "img"@),
        (lower_extension(name) == "bin"@) <==> has_extension(name, "bin"@),
        (lower_extension(name) == "pbp"@) <==> has_extension(name, "pbp"@),
        (lower_extension(name) == "ccd"@) <==> has_extension(name, "ccd"@),
        (lower_extension(name) == "cso"@) <==> has_extension(name, "cso"@),
        (lower_extension(name) == "ciso"@) <==> has_extension(name, "ciso"@),
        (lower_extension(name) == "ecm"@) <==> has_extension(name, "ecm"@),
        (lower_extension(name) == "mds"@) <==> has_extension(name, "mds"@),
        (lower_extension(name) == "zip"@) <==> has_extension(name, "zip"@),
        (lower_extension(name) == "7z"@) <==> has_extension(name, "7z"@),
        (lower_extension(name) == "rar"@) <==> has_extension(name, "rar"@),
        (lower_extension(name) == "chd"@) <==> has_extension(name, "chd"@),
{
    lemma_lower_words();
    lemma_lower_extension_is(name, "cue"@);
    lemma_lower_extension_is(name, "gdi"@);
    lemma_lower_extension_is(name, "toc"@);
    lemma_lower_extension_is(name, "iso"@);
    lemma_lower_extension_is(name, "raw"@);
    lemma_lower_extension_is(name, "img"@);
    lemma_lower_extension_is(name, "bin"@);
    lemma_lower_extension_is(name, "pbp"@);
    lemma_lower_extension_is(name, "ccd"@);
    lemma_lower_extension_is(name, "cso"@);
    lemma_lower_extension_is(name, "ciso"@);
    lemma_lower_extension_is(name, "ecm"@);
    lemma_lower_extension_is(name, "mds"@);
    lemma_lower_extension_is(name, "zip"@);
    lemma_lower_extension_is(name, "7z"@);
    lemma_lower_extension_is(name, "rar"@);
    lemma_lower_extension_is(name, "chd"@);
}


/// The conversion command follows the extension whatever its case: `verify` in
/// verify mode; otherwise a `.cue`, `.gdi` or `.toc` is converted as a CD, a `.iso`
/// as a DVD, a `.raw` as raw data and anything else as a hard disk, all into a
/// `.chd`.
pub proof fn law_conversion_command_by_extension(name: Seq<char>, mode: Seq<char>)
    ensures
        mode == "verify"@ ==> spec_command_for(name, mode) == ("verify"@, ""@),
        mode != "verify"@ && (has_extension(name, "cue"@) || has_extension(name, "gdi"@) || has_extension(name, "toc"@))
            ==> spec_command_for(name, mode) == ("createcd"@, "chd"@),
        mode != "verify"@ && has_extension(name, "iso"@) ==> spec_command_for(name, mode) == ("createdvd"@, "chd"@),
        mode != "verify"@ && has_extension(name, "raw"@) ==> spec_command_for(name, mode) == ("createraw"@, "chd"@),
        mode != "verify"@ && !has_extension(name, "cue"@) && !has_extension(name, "gdi"@) && !has_extension(name, "toc"@)
            && !has_extension(name, "iso"@) && !has_extension(name, "raw"@) ==> spec_command_for(name, mode) == (
            "createhd"@,
            "chd"@,
        ),
{
    lemma_extension_words(name);
    reveal_strlit("cue");
    reveal_strlit("gdi");
    reveal_strlit("toc");
    reveal_strlit("iso");
    reveal_strlit("raw");
    assert("iso"@[0] != "cue"@[0] && "iso"@[0] != "gdi"@[0] && "iso"@[0] != "toc"@[0]);
    assert("raw"@[0] != "cue"@[0] && "raw"@[0] != "gdi"@[0] && "raw"@[0] != "toc"@[0] && "raw"@[0] != "iso"@[0]);
}

/// The conversion command depends on the extension only through its ASCII
/// lower-case form: names whose extensions agree ignoring case get the same command.
pub proof fn law_command_ignores_extension_case(a: Seq<char>, b: Seq<char>, mode: Seq<char>)
    requires
        match (spec_extension(a), spec_extension(b)) {
            (Some(x), Some(y)) => ascii_lower(x) == ascii_lower(y),
            (None, None) => true,
            _ => false,
        },
    ensures
        spec_command_for(a, mode) == spec_command_for(b, mode),
{
}

/// How each input is prepared, by its extension in any case and in every mode:
/// `.pbp` / `.ccd` are unpacked by the format helper, `.cso` / `.ciso` decompressed,
/// `.ecm` and `.mds` decoded, `.zip` / `.7z` / `.rar` unpacked as archives; a
/// `.iso`, `.img` or `.bin` to convert is sniffed for a raw CD dump; every other
/// input goes to `chdman` as it is.
pub proof fn law_input_routes_by_extension(name: Seq<char>, mode: Seq<char>)
    ensures
        has_extension(name, "pbp"@) || has_extension(name, "ccd"@) ==> spec_input_route(name, mode)
            == InputRoute::HelperUnpack,
        has_extension(name, "cso"@) || has_extension(name, "ciso"@) ==> spec_input_route(name, mode)
            == InputRoute::CompressedIso,
        has_extension(name, "ecm"@) ==> spec_input_route(name, mode) == InputRoute::EcmDecode,
        has_extension(name, "mds"@) ==> spec_input_route(name, mode) == InputRoute::MdsDecode,
        has_extension(name, "zip"@) || has_extension(name, "7z"@) || has_extension(name, "rar"@)
            ==> spec_input_route(name, mode) == InputRoute::Archive,
        mode == "convert"@ && (has_extension(name, "iso"@) || has_extension(name, "img"@) || has_extension(
            name,
            "bin"@,
        )) ==> spec_input_route(name, mode) == InputRoute::RawCdProbe,
        mode != "convert"@ && (has_extension(name, "iso"@) || has_extension(name, "img"@) || has_extension(
            name,
            "bin"@,
        )) ==> spec_input_route(name, mode) == InputRoute::Direct,
        !has_extension(name, "pbp"@) && !has_extension(name, "ccd"@) && !has_extension(name, "cso"@)
            && !has_extension(name, "ciso"@) && !has_extension(name, "ecm"@) && !has_extension(name, "mds"@)
            && !has_extension(name, "zip"@) && !has_extension(name, "7z"@) && !has_extension(name, "rar"@)
            && !has_extension(name, "iso"@) && !has_extension(name, "img"@) && !has_extension(name, "bin"@)
            ==> spec_input_route(name, mode) == InputRoute::Direct,
{
    lemma_extension_words(name);
    reveal_strlit("pbp");
    reveal_strlit("ccd");
    reveal_strlit("cso");
    reveal_strlit("ciso");
    reveal_strlit("ecm");
    reveal_strlit("mds");
    reveal_strlit("zip");
    reveal_strlit("7z");
    reveal_strlit("rar");
    reveal_strlit("iso");
    reveal_strlit("img");
    reveal_strlit("bin");
    let later = seq!["cso"@, "ciso"@, "ecm"@, "mds"@, "zip"@, "7z"@, "rar"@, "iso"@, "img"@, "bin"@];
    assert forall|i: int| 0 <= i < later.len() implies #[trigger] later[i] != "pbp"@ && later[i] != "ccd"@ by {
        assert(later[i][0] != "pbp"@[0] || later[i].len() != 3 || later[i][1] != "pbp"@[1]);
        assert(later[i][0] != "ccd"@[0] || later[i][1] != "ccd"@[1]);
    }
    assert(later[0] == "cso"@ && later[1] == "ciso"@ && later[2] == "ecm"@ && later[3] == "mds"@ && later[4]
        == "zip"@ && later[5] == "7z"@ && later[6] == "rar"@ && later[7] == "iso"@ && later[8] == "img"@
        && later[9] == "bin"@);
    assert("ecm"@[0] != "cso"@[0] && "ecm"@[0] != "ciso"@[0]);
    assert("mds"@[0] != "cso"@[0] && "mds"@[0] != "ciso"@[0] && "mds"@[0] != "ecm"@[0]);
    assert("zip"@[0] != "cso"@[0] && "zip"@[0] != "ciso"@[0] && "zip"@[0] != "ecm"@[0] && "zip"@[0] != "mds"@[0]);
    assert("7z"@[0] != "cso"@[0] && "7z"@[0] != "ciso"@[0] && "7z"@[0] != "ecm"@[0] && "7z"@[0] != "mds"@[0]);
    assert("rar"@[0] != "cso"@[0] && "rar"@[0] != "ciso"@[0] && "rar"@[0] != "ecm"@[0] && "rar"@[0] != "mds"@[0]);
    assert("iso"@[0] != "cso"@[0] && "iso"@[0] != "ciso"@[0] && "iso"@[0] != "ecm"@[0] && "iso"@[0] != "mds"@[0]);
    assert("img"@[0] != "cso"@[0] && "img"@[0] != "ciso"@[0] && "img"@[0] != "ecm"@[0] && "img"@[0] != "mds"@[0]);
    assert("bin"@[0] != "cso"@[0] && "bin"@[0] != "ciso"@[0] && "bin"@[0] != "ecm"@[0] && "bin"@[0] != "mds"@[0]);
    assert("iso"@[0] != "zip"@[0] && "iso"@[0] != "7z"@[0] && "iso"@[0] != "rar"@[0]);
    assert("img"@[0] != "zip"@[0] && "img"@[0] != "7z"@[0] && "img"@[0] != "rar"@[0]);
    assert("bin"@[0] != "zip"@[0] && "bin"@[0] != "7z"@[0] && "bin"@[0] != "rar"@[0]);
}

proof fn lemma_convert_extensions_contain(x: Seq<char>)
    ensures
        convert_extensions().contains(x) <==> (x == "cue"@ || x == "gdi"@ || x == "toc"@ || x == "iso"@ || x == "img"@ || x == "raw"@ || x == "cso"@ || x == "ciso"@ || x == "zip"@ || x == "7z"@ || x == "rar"@ || x == "pbp"@ || x == "ccd"@ || x == "ecm"@ || x == "mds"@),
{
    let c = convert_extensions();
    assert(c.len() == 15);
    assert(c[0] == "cue"@);
    assert(c[1] == "gdi"@);
    assert(c[2] == "toc"@);
    assert(c[3] == "iso"@);
    assert(c[4] == "img"@);
    assert(c[5] == "raw"@);
    assert(c[6] == "cso"@);
    assert(c[7] == "ciso"@);
    assert(c[8] == "zip"@);
    assert(c[9] == "7z"@);
    assert(c[10] == "rar"@);
    assert(c[11] == "pbp"@);
    assert(c[12] == "ccd"@);
    assert(c[13] == "ecm"@);
    assert(c[14] == "mds"@);
    if c.contains(x) {
        let i = choose|i: int| 0 <= i < c.len() && c[i] == x;
        assert(0 <= i < 15);
    }
}

/// A batch picks up a file by its extension, in any case: in convert mode exactly
/// the disc images and containers it can convert (`.cue`, `.gdi`, `.toc`, `.iso`,
/// `.img`, `.raw`, `.cso`, `.ciso`, `.zip`, `.7z`, `.rar`, `.pbp`, `.ccd`, `.ecm`,
/// `.mds`), in every other mode exactly the `.chd` files.
pub proof fn law_scan_picks_up_by_extension(name: Seq<char>, mode: Seq<char>)
    ensures
        mode == "convert"@ ==> (spec_is_scan_candidate(name, mode) <==> (has_extension(name, "cue"@)
            || has_extension(name, "gdi"@)
            || has_extension(name, "toc"@)
            || has_extension(name, "iso"@)
            || has_extension(name, "img"@)
            || has_extension(name, "raw"@)
            || has_extension(name, "cso"@)
            || has_extension(name, "ciso"@)
            || has_extension(name, "zip"@)
            || has_extension(name, "7z"@)
            || has_extension(name, "rar"@)
            || has_extension(name, "pbp"@)
            || has_extension(name, "ccd"@)
            || has_extension(name, "ecm"@)
            || has_extension(name, "mds"@))),
        mode != "convert"@ ==> (spec_is_scan_candidate(name, mode) <==> has_extension(name, "chd"@)),
{
    lemma_extension_words(name);
    match spec_extension(name) {
        Some(e) => {
            assert(lower_extension(name) == ascii_lower(e));
            lemma_convert_extensions_contain(ascii_lower(e));
            if mode != "convert"@ {
                assert(spec_extensions(mode) == seq!["chd"@]);
                if seq!["chd"@].contains(ascii_lower(e)) {
                    let i = choose|i: int| 0 <= i < 1 && seq!["chd"@][i] == ascii_lower(e);
                }
                if ascii_lower(e) == "chd"@ {
                    assert(seq!["chd"@][0] == ascii_lower(e));
                }
            }
        },
        None => {},
    }
}

/// Of the files an archive held, exactly the disc images are converted: those with
/// a `.cue`, `.gdi`, `.toc`, `.iso`, `.img` or `.raw` extension, in any case.
pub proof fn law_archive_images_by_extension(name: Seq<char>)
    ensures
        spec_is_archive_image(name) <==> (has_extension(name, "cue"@) || has_extension(name, "gdi"@)
            || has_extension(name, "toc"@) || has_extension(name, "iso"@) || has_extension(name, "img"@)
            || has_extension(name, "raw"@)),
{
    lemma_extension_words(name);
    let c = archive_image_extensions();
    assert(c[0] == "cue"@ && c[1] == "gdi"@ && c[2] == "toc"@ && c[3] == "iso"@ && c[4] == "img"@ && c[5] == "raw"@);
    match spec_extension(name) {
        Some(e) => {
            assert(lower_extension(name) == ascii_lower(e));
            if c.contains(ascii_lower(e)) {
                let i = choose|i: int| 0 <= i < c.len() && c[i] == ascii_lower(e);
                assert(0 <= i < 6);
            }
        },
        None => {},
    }
}

/// The views of a list of strings.
pub open spec fn string_views(v: Seq<String>) -> Seq<Seq<char>> {
    v.map_values(|s: String| s@)
}

/// The views of a list of optional strings.
pub open spec fn option_views(v: Seq<Option<String>>) -> Seq<Option<Seq<char>>> {
    v.map_values(|o: Option<String>| match o {
        Some(s) => Some(s@),
        None => None,
    })
}

/// Whether the paths spelled `a` and `b` are equal as `std::path::Path` values,
/// which compare by component (so `a//b.bin` equals `a/b.bin`).
pub uninterp spec fn path_eq(a: Seq<char>, b: Seq<char>) -> bool;

/// Compares two paths with std's `PartialEq` for `std::path::Path`, which compares
/// their components; the result is named [`path_eq`] and nothing more is claimed.
#[verifier::external_body]
fn same_path(a: &str, b: &str) -> (r: bool)
    ensures
        r == path_eq(a@, b@),
{
    std::path::Path::new(a) == std::path::Path::new(b)
}

/// Whether some entry of `acc` is the same path as `p`.
pub open spec fn holds_path(acc: Seq<Seq<char>>, p: Seq<char>) -> bool {
    exists|k: int| 0 <= k < acc.len() && path_eq(#[trigger] acc[k], p)
}

/// The inputs that follow a decoded ECM image, in order: where decoding produced a
/// raw CD dump, the cue sheet written for it (`cues[i]`) takes its place; every
/// other decoded file is kept unless the same path was already taken.
pub open spec fn spec_rerouted(paths: Seq<Seq<char>>, cues: Seq<Option<Seq<char>>>) -> Seq<Seq<char>>
    decreases paths.len(),
{
    if paths.len() == 0 || cues.len() == 0 {
        seq![]
    } else {
        let acc = spec_rerouted(paths.drop_last(), cues.drop_last());
        match cues.last() {
            Some(cue) => acc.push(cue),
            None => if holds_path(acc, paths.last()) {
                acc
            } else {
                acc.push(paths.last())
            },
        }
    }
}

/// Merges the files a helper decoded with the cue sheets written for the raw CD
/// dumps among them (`cues[i]` is `Some` when `paths[i]` got one). Entries are
/// compared as paths, by component.
pub fn rerouted(paths: &Vec<String>, cues: &Vec<Option<String>>) -> (r: Vec<String>)
    requires
        paths@.len() == cues@.len(),
    ensures
        string_views(r@) == spec_rerouted(string_views(paths@), option_views(cues@)),
{
    let mut out: Vec<String> = Vec::new();
    let mut i: usize = 0;
    while i < paths.len()
        invariant
            paths@.len() == cues@.len(),
            i <= paths@.len(),
            string_views(out@) == spec_rerouted(
                string_views(paths@).take(i as int),
                option_views(cues@).take(i as int),
            ),
        decreases paths@.len() - i,
    {
        let ghost p = string_views(paths@).take(i + 1);
        let ghost c = option_views(cues@).take(i + 1);
        assert(p.drop_last() =~= string_views(paths@).take(i as int));
        assert(c.drop_last() =~= option_views(cues@).take(i as int));
        match &cues[i] {
            Some(cue) => {
                out.push(cue.clone());
                assert(string_views(out@) =~= string_views(out@.drop_last()).push(cue@));
            },
            None => {
                let mut j: usize = 0;
                let mut seen = false;
                while j < out.len()
                    invariant
                        j <= out@.len(),
                        i < paths@.len(),
                        seen == exists|k: int| 0 <= k < j && path_eq((#[trigger] out@[k])@, paths@[i as int]@),
                    decreases out@.len() - j,
                {
                    if same_path(out[j].as_str(), paths[i].as_str()) {
                        seen = true;
                    }
                    j = j + 1;
                }
                assert(seen == holds_path(string_views(out@), paths@[i as int]@)) by {
                    if seen {
                        let k = choose|k: int| 0 <= k < out@.len() && path_eq((#[trigger] out@[k])@, paths@[i as int]@);
                        assert(string_views(out@)[k] == out@[k]@);
                    }
                    if holds_path(string_views(out@), paths@[i as int]@) {
                        let k = choose|k: int| 0 <= k < string_views(out@).len() && path_eq(#[trigger] string_views(out@)[k], paths@[i as int]@);
                        assert(out@[k]@ == string_views(out@)[k]);
                    }
                }
                if !seen {
                    out.push(paths[i].clone());
                    assert(string_views(out@) =~= string_views(out@.drop_last()).push(paths@[i as int]@));
                }
            },
        }
        i = i + 1;
    }
    assert(string_views(paths@).take(paths@.len() as int) =~= string_views(paths@));
    assert(option_views(cues@).take(paths@.len() as int) =~= option_views(cues@));
    out
}


/// Nothing a helper decoded is lost: every decoded raw CD dump is represented by its
/// cue sheet, and every other decoded file is kept or the same path already is.
pub proof fn law_rerouting_keeps_every_input(paths: Seq<Seq<char>>, cues: Seq<Option<Seq<char>>>)
    requires
        paths.len() == cues.len(),
    ensures
        forall|i: int| 0 <= i < paths.len() ==> match #[trigger] cues[i] {
            Some(c) => spec_rerouted(paths, cues).contains(c),
            None => spec_rerouted(paths, cues).contains(paths[i]) || holds_path(spec_rerouted(paths, cues), paths[i]),
        },
    decreases paths.len(),
{
    if paths.len() > 0 {
        let p0 = paths.drop_last();
        let c0 = cues.drop_last();
        law_rerouting_keeps_every_input(p0, c0);
        let acc = spec_rerouted(p0, c0);
        let r = spec_rerouted(paths, cues);
        assert forall|j: int| 0 <= j < acc.len() implies r[j] == acc[j] by {
            match cues.last() {
                Some(c) => { assert(r[j] == acc.push(c)[j]); },
                None => {
                    if !holds_path(acc, paths.last()) {
                        assert(r[j] == acc.push(paths.last())[j]);
                    }
                },
            }
        }
        assert forall|x: Seq<char>| acc.contains(x) implies r.contains(x) by {
            let j = choose|j: int| 0 <= j < acc.len() && acc[j] == x;
            assert(r[j] == acc[j]);
        }
        assert forall|x: Seq<char>| holds_path(acc, x) implies holds_path(r, x) by {
            let k = choose|k: int| 0 <= k < acc.len() && path_eq(#[trigger] acc[k], x);
            assert(r[k] == acc[k]);
        }
        assert forall|i: int| 0 <= i < paths.len() implies match #[trigger] cues[i] {
            Some(c) => r.contains(c),
            None => r.contains(paths[i]) || holds_path(r, paths[i]),
        } by {
            if i < paths.len() - 1 {
                assert(cues[i] == c0[i]);
                assert(paths[i] == p0[i]);
            } else {
                match cues.last() {
                    Some(c) => { assert(r[r.len() - 1] == c); },
                    None => {
                        if !holds_path(acc, paths.last()) {
                            assert(r[r.len() - 1] == paths.last());
                        }
                    },
                }
            }
        }
    }
}

} // verus!
