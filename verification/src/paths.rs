//! Which paths can be handed to `chdman` as they are, where staged copies go, and
//! how free output names are found without overwriting anything.

use vstd::prelude::*;
use crate::batch::diverts_extraction;
use crate::names::{file_extension, file_stem, spec_extension, spec_stem};
use crate::text::{
    all_ascii, chars_of, decimal, hex, is_ascii_char, padded_hex, padded_hex16, push_char,
    radix_string, str_eq,
};

verus! {

broadcast use vstd::string::group_string_axioms;

/// Longest path `chdman` handles reliably: its C runtime opens files through ANSI
/// paths capped at MAX_PATH (260), and longer paths fail with "No such file or
/// directory" even when the file exists.
pub const MAX_CHDMAN_PATH: usize = 260;

/// True when every character of `path` is ASCII. `chdman` converts its UTF-16
/// command line down to the ANSI code page, so non-ASCII paths (accented user names,
/// non-Latin folder names) can be mangled.
pub fn is_ascii_path(path: &str) -> (r: bool)
    ensures
        r == all_ascii(path@),
{
    let cs = chars_of(path);
    let mut i: usize = 0;
    while i < cs.len()
        invariant
            cs@ == path@,
            i <= cs@.len(),
            forall|j: int| 0 <= j < i ==> is_ascii_char(#[trigger] cs@[j]),
        decreases cs@.len() - i,
    {
        if (cs[i] as u32) > 127 {
            assert(!is_ascii_char(path@[i as int]));
            return false;
        }
        i = i + 1;
    }
    true
}

/// A path can be handed to `chdman` as it is when it is pure ASCII and shorter than
/// [`MAX_CHDMAN_PATH`].
pub open spec fn spec_is_chdman_safe_path(path: Seq<char>) -> bool {
    all_ascii(path) && path.len() < MAX_CHDMAN_PATH
}

/// Whether `path` can be handed to `chdman` as it is. For an ASCII path the number
/// of characters is its length in bytes, so this is the byte-length limit too.
pub fn is_chdman_safe_path(path: &str) -> (r: bool)
    ensures
        r == spec_is_chdman_safe_path(path@),
{
    is_ascii_path(path) && chars_of(path).len() < MAX_CHDMAN_PATH
}

/// The fixed disk roots tried as ASCII-safe temporary bases, best first: the drive
/// roots `C:\` to `Z:\` on Windows, the file-system root `/` elsewhere.
pub open spec fn spec_fixed_drive_roots(windows: bool) -> Seq<Seq<char>> {
    if windows {
        Seq::new(24, |i: int| seq![(('C' as u32) + i) as char, ':', '\\'])
    } else {
        seq![seq!['/']]
    }
}

/// The fixed disk roots to try as temporary bases on a Windows or other system.
pub fn fixed_drive_roots(windows: bool) -> (roots: Vec<String>)
    ensures
        roots@.map_values(|s: String| s@) == spec_fixed_drive_roots(windows),
{
    let mut roots: Vec<String> = Vec::new();
    if windows {
        let mut letter: u8 = 67;
        while letter <= 90
            invariant
                67 <= letter <= 91,
                roots@.len() == letter - 67,
                forall|j: int| 0 <= j < roots@.len() ==> (#[trigger] roots@[j])@ == spec_fixed_drive_roots(true)[j],
            decreases 91 - letter,
        {
            let mut root = String::new();
            push_char(&mut root, letter as char);
            push_char(&mut root, ':');
            push_char(&mut root, '\\');
            assert(root@ =~= spec_fixed_drive_roots(true)[letter - 67]);
            roots.push(root);
            letter = letter + 1;
        }
    } else {
        let mut root = String::new();
        push_char(&mut root, '/');
        roots.push(root);
    }
    assert(roots@.map_values(|s: String| s@) =~= spec_fixed_drive_roots(windows));
    roots
}

/// The bases tried, in order, for a temporary directory whose path `chdman` can
/// take: the system temporary directory when it is itself safe, then the fixed roots.
pub open spec fn spec_temp_dir_bases(system_temp: Seq<char>, windows: bool) -> Seq<Seq<char>> {
    if spec_is_chdman_safe_path(system_temp) {
        seq![system_temp] + spec_fixed_drive_roots(windows)
    } else {
        spec_fixed_drive_roots(windows)
    }
}

/// The bases to try, in order, for an ASCII-safe temporary directory.
pub fn temp_dir_bases(system_temp: &str, windows: bool) -> (bases: Vec<String>)
    ensures
        bases@.map_values(|s: String| s@) == spec_temp_dir_bases(system_temp@, windows),
{
    let roots = fixed_drive_roots(windows);
    let mut bases: Vec<String> = Vec::new();
    if is_chdman_safe_path(system_temp) {
        bases.push(system_temp.to_owned());
    }
    let ghost start = bases@.map_values(|s: String| s@);
    let mut i: usize = 0;
    while i < roots.len()
        invariant
            i <= roots@.len(),
            roots@.map_values(|s: String| s@) == spec_fixed_drive_roots(windows),
            bases@.map_values(|s: String| s@) == start + roots@.map_values(|s: String| s@).take(i as int),
        decreases roots@.len() - i,
    {
        let ghost prev = bases@;
        bases.push(roots[i].clone());
        assert(roots@.map_values(|s: String| s@).take(i + 1) =~= roots@.map_values(|s: String| s@).take(i as int).push(roots@[i as int]@));
        assert(bases@.map_values(|s: String| s@) =~= prev.map_values(|s: String| s@).push(roots@[i as int]@));
        assert(start + roots@.map_values(|s: String| s@).take(i + 1) =~= (start + roots@.map_values(|s: String| s@).take(i as int)).push(roots@[i as int]@));
        i = i + 1;
    }
    assert(roots@.map_values(|s: String| s@).take(roots@.len() as int) =~= roots@.map_values(|s: String| s@));
    assert(bases@.map_values(|s: String| s@) =~= spec_temp_dir_bases(system_temp@, windows));
    bases
}

/// Room that a staging directory leaves in a path for a separator and the longest
/// staged name: 27 characters, a staged output with a three-letter extension.
pub const STAGING_NAME_ROOM: usize = 28;

/// A staging directory whose full path is pure ASCII and short enough that every
/// staged file inside it is still below [`MAX_CHDMAN_PATH`].
pub open spec fn spec_is_staging_dir_safe(dir: Seq<char>) -> bool {
    all_ascii(dir) && dir.len() + STAGING_NAME_ROOM < MAX_CHDMAN_PATH
}

/// Whether the created directory `dir` can hold staged files for `chdman`.
pub fn is_staging_dir_safe(dir: &str) -> (r: bool)
    ensures
        r == spec_is_staging_dir_safe(dir@),
{
    let n = chars_of(dir).len();
    is_ascii_path(dir) && n < MAX_CHDMAN_PATH - STAGING_NAME_ROOM
}

/// `create_in` was called with the base `base` and could have given `made`.
pub open spec fn made_in<D, F: Fn(&str) -> Result<(D, String), String>>(
    create_in: F,
    base: Seq<char>,
    made: Result<(D, String), String>,
) -> bool {
    exists|b: &str| b@ == base && call_ensures(create_in, (b,), made)
}

/// `create_in` was tried on `base` and gave nothing usable: an error, or a
/// directory whose path is not staging-safe.
pub open spec fn unusable_base<D, F: Fn(&str) -> Result<(D, String), String>>(create_in: F, base: Seq<char>) -> bool {
    exists|made: Result<(D, String), String>|
        made_in(create_in, base, made) && !(made matches Ok((_, path)) && spec_is_staging_dir_safe(path@))
}

/// Creates the staging directory: a new directory in each base of
/// [`temp_dir_bases`] in turn (`create_in`), then in the system default
/// (`create_default`), keeping the first whose full path, as the creating call
/// reports it, is staging-safe. Each call gives the directory and its path, or the
/// error that stopped it. A directory that was made but is not safe is dropped.
/// When none can be kept, the error is the default location's, or
/// `"no ASCII-safe temporary directory is available"` when that was made but unsafe.
pub fn create_ascii_safe_temp_dir<D, F, G>(
    system_temp: &str,
    windows: bool,
    create_in: F,
    create_default: G,
) -> (r: Result<(D, String), String>)
    where
        F: Fn(&str) -> Result<(D, String), String>,
        G: FnOnce() -> Result<(D, String), String>,
    requires
        forall|base: &str| call_requires(create_in, (base,)),
        call_requires(create_default, ()),
    ensures
        r matches Ok((_, path)) ==> spec_is_staging_dir_safe(path@),
        r is Ok ==> {
            let bases = spec_temp_dir_bases(system_temp@, windows);
            ||| exists|k: int|
                0 <= k < bases.len() && made_in(create_in, bases[k], r) && forall|j: int|
                    0 <= j < k ==> unusable_base(create_in, #[trigger] bases[j])
            ||| call_ensures(create_default, (), r) && forall|j: int|
                0 <= j < bases.len() ==> unusable_base(create_in, #[trigger] bases[j])
        },
        r matches Err(e) ==> {
            &&& forall|j: int|
                0 <= j < spec_temp_dir_bases(system_temp@, windows).len() ==> unusable_base(
                    create_in,
                    #[trigger] spec_temp_dir_bases(system_temp@, windows)[j],
                )
            &&& call_ensures(create_default, (), r) || exists|made: Result<(D, String), String>|
                call_ensures(create_default, (), made) && (made matches Ok((_, path)) && !spec_is_staging_dir_safe(path@))
                    && e@ == "no ASCII-safe temporary directory is available"@
        },
{
    let bases = temp_dir_bases(system_temp, windows);
    let ghost spec_bases = spec_temp_dir_bases(system_temp@, windows);
    let mut i: usize = 0;
    while i < bases.len()
        invariant
            i <= bases@.len(),
            spec_bases == spec_temp_dir_bases(system_temp@, windows),
            bases@.map_values(|s: String| s@) == spec_bases,
            forall|base: &str| call_requires(create_in, (base,)),
            forall|j: int| 0 <= j < i ==> unusable_base(create_in, #[trigger] spec_bases[j]),
        decreases bases@.len() - i,
    {
        let made = create_in(bases[i].as_str());
        proof {
            assert(bases@.map_values(|s: String| s@)[i as int] == bases@[i as int]@);
            assert(made_in(create_in, spec_bases[i as int], made));
        }
        match made {
            Ok((dir, path)) => {
                if is_staging_dir_safe(path.as_str()) {
                    return Ok((dir, path));
                }
            },
            Err(_) => {},
        }
        assert(unusable_base(create_in, spec_bases[i as int]));
        i = i + 1;
    }
    let made = create_default();
    match made {
        Ok((dir, path)) => {
            if is_staging_dir_safe(path.as_str()) {
                Ok((dir, path))
            } else {
                Err("no ASCII-safe temporary directory is available".to_string())
            }
        },
        Err(e) => Err(e),
    }
}

/// The rolling hash of up to 16 leading bytes that names staged files: starting
/// from 0, each byte `b` takes the value `v` to `v * 31 + b`, wrapping at 2^64.
pub open spec fn name_hash(bytes: Seq<u8>) -> u64
    decreases bytes.len(),
{
    if bytes.len() == 0 {
        0
    } else {
        name_hash(bytes.drop_last()).wrapping_mul(31).wrapping_add(bytes.last() as u64)
    }
}

/// At most the 16 leading elements of `s`.
pub open spec fn leading16<A>(s: Seq<A>) -> Seq<A> {
    if s.len() <= 16 {
        s
    } else {
        s.take(16)
    }
}

/// The deterministic 16-digit hexadecimal suffix that disambiguates the staged copies
/// of the file at `input`: the hash of the leading 16 bytes of its UTF-8 text.
pub open spec fn spec_hex_suffix(input: Seq<char>) -> Seq<char> {
    padded_hex(name_hash(leading16(vstd::utf8::encode_utf8(input))) as nat, 16)
}

/// The hexadecimal suffix for the staged copies of `input`.
pub fn hex_suffix(input: &str) -> (s: String)
    ensures
        s@ == spec_hex_suffix(input@),
{
    let bytes = input.as_bytes();
    let n: usize = if bytes.len() <= 16 { bytes.len() } else { 16 };
    let mut value: u64 = 0;
    let mut i: usize = 0;
    while i < n
        invariant
            n <= bytes@.len(),
            n == leading16(bytes@).len(),
            i <= n,
            value == name_hash(bytes@.take(i as int)),
        decreases n - i,
    {
        assert(bytes@.take(i + 1).drop_last() =~= bytes@.take(i as int));
        value = value.wrapping_mul(31).wrapping_add(bytes[i] as u64);
        i = i + 1;
    }
    assert(bytes@.take(n as int) =~= leading16(bytes@));
    padded_hex16(value)
}

/// The name under which the input `input` is staged.
pub open spec fn spec_staged_input_name(input: Seq<char>) -> Seq<char> {
    "input_"@ + spec_hex_suffix(input) + ".chd"@
}

/// The name of the staged copy of the input `input`.
pub fn staged_input_name(input: &str) -> (s: String)
    ensures
        s@ == spec_staged_input_name(input@),
{
    let mut s = String::new();
    s.append("input_");
    let h = hex_suffix(input);
    s.append(h.as_str());
    s.append(".chd");
    s
}

/// The name under which `chdman` writes the output for `input` inside the staging
/// directory.
pub open spec fn spec_staged_output_name(input: Seq<char>, ext: Seq<char>) -> Seq<char> {
    "output_"@ + spec_hex_suffix(input) + "."@ + ext
}

/// The staged output name for `input` with extension `ext`.
pub fn staged_output_name(input: &str, ext: &str) -> (s: String)
    ensures
        s@ == spec_staged_output_name(input@, ext@),
{
    let mut s = String::new();
    s.append("output_");
    let h = hex_suffix(input);
    s.append(h.as_str());
    s.append(".");
    s.append(ext);
    s
}

/// A run stages its files in an ASCII-safe temporary directory whenever it writes
/// output (every mode but `verify`) and the input, or the output root, cannot be
/// handed to `chdman` as it is.
pub open spec fn spec_needs_staging(mode: Seq<char>, input: Seq<char>, output: Seq<char>) -> bool {
    mode != "verify"@ && (!spec_is_chdman_safe_path(input) || !spec_is_chdman_safe_path(output))
}

/// Whether a run in `mode` on `input`, writing under `output`, must be staged.
pub fn needs_staging(mode: &str, input: &str, output: &str) -> (r: bool)
    ensures
        r == spec_needs_staging(mode@, input@, output@),
{
    !str_eq(mode, "verify") && (!is_chdman_safe_path(input) || !is_chdman_safe_path(output))
}

/// A run stages exactly when it writes output (every mode but `verify`) and its
/// input or its output root holds a character beyond ASCII or is 260 characters
/// or longer.
pub proof fn law_staging_when_a_path_is_unsafe(mode: Seq<char>, input: Seq<char>, output: Seq<char>)
    ensures
        spec_needs_staging(mode, input, output) <==> (mode != "verify"@ && ((exists|i: int|
            0 <= i < input.len() && (#[trigger] input[i]) as u32 > 127) || input.len() >= 260 || (exists|i: int|
            0 <= i < output.len() && (#[trigger] output[i]) as u32 > 127) || output.len() >= 260)),
{
}

/// `chdman extractcd` writes a same-stem `.bin` beside the `.cue` it is told to write.
pub open spec fn spec_writes_bin_sidecar(cmd: Seq<char>) -> bool {
    cmd == "extractcd"@
}

/// Whether `cmd` also writes a same-stem `.bin` beside its output.
pub fn writes_bin_sidecar(cmd: &str) -> (r: bool)
    ensures
        r == spec_writes_bin_sidecar(cmd@),
{
    str_eq(cmd, "extractcd")
}

/// Whether writing the output of `cmd` would destroy existing files: the primary
/// output exists (`target_exists`), or, for `extractcd`, its `.bin` sidecar does
/// (`sidecar_exists`, asked only then).
pub fn collides_with_output(target_exists: bool, cmd: &str, sidecar_exists: impl FnOnce() -> bool) -> (r: bool)
    requires
        !target_exists && spec_writes_bin_sidecar(cmd@) ==> call_requires(sidecar_exists, ()),
    ensures
        target_exists ==> r,
        !target_exists && !spec_writes_bin_sidecar(cmd@) ==> !r,
        !target_exists && spec_writes_bin_sidecar(cmd@) ==> call_ensures(sidecar_exists, (), r),
{
    if target_exists {
        return true;
    }
    writes_bin_sidecar(cmd) && sidecar_exists()
}

/// What std's `Path::strip_prefix` gives for `path` below `base`, as text: the
/// rest of the path when `base` is a leading run of its components.
pub uninterp spec fn stripped_path(path: Seq<char>, base: Seq<char>) -> Option<Seq<char>>;

/// What std's `Path::file_name` gives for `path`, as text.
pub uninterp spec fn path_file_name(path: Seq<char>) -> Option<Seq<char>>;

/// What std's `Path::join` gives for `base` and `part`, as text.
pub uninterp spec fn joined_path(base: Seq<char>, part: Seq<char>) -> Seq<char>;

/// What std's `Path::with_extension` gives for `path` and `ext`, as text.
pub uninterp spec fn path_with_extension(path: Seq<char>, ext: Seq<char>) -> Seq<char>;

/// `Path::strip_prefix` of std, the remainder turned back into text (which loses
/// nothing, as it came from text). The result is named [`stripped_path`].
#[verifier::external_body]
fn strip_path_prefix(path: &str, base: &str) -> (r: Option<String>)
    ensures
        match r {
            Some(rest) => stripped_path(path@, base@) == Some(rest@),
            None => stripped_path(path@, base@) is None,
        },
{
    std::path::Path::new(path).strip_prefix(base).ok().map(|rest| rest.to_string_lossy().into_owned())
}

/// `Path::file_name` of std, turned back into text. The result is named
/// [`path_file_name`].
#[verifier::external_body]
fn file_name_of_path(path: &str) -> (r: Option<String>)
    ensures
        match r {
            Some(name) => path_file_name(path@) == Some(name@),
            None => path_file_name(path@) is None,
        },
{
    std::path::Path::new(path).file_name().map(|name| name.to_string_lossy().into_owned())
}

/// `Path::join` of std, turned back into text. The result is named [`joined_path`].
#[verifier::external_body]
fn join_path(base: &str, part: &str) -> (r: String)
    ensures
        r@ == joined_path(base@, part@),
{
    std::path::Path::new(base).join(part).to_string_lossy().into_owned()
}

/// `Path::with_extension` of std, turned back into text; std panics on an
/// extension holding a path separator, which is left out. The result is named
/// [`path_with_extension`].
#[verifier::external_body]
fn replace_extension(path: &str, ext: &str) -> (r: String)
    requires
        !ext@.contains('/'),
        !ext@.contains('\\'),
    ensures
        r@ == path_with_extension(path@, ext@),
{
    std::path::Path::new(path).with_extension(ext).to_string_lossy().into_owned()
}

/// The path of an output below the output root: the input's path below the source
/// folder when it lies there (`stripped`), otherwise its file name (`file_name`,
/// empty when it has none).
pub open spec fn spec_relative_output(stripped: Option<Seq<char>>, file_name: Option<Seq<char>>) -> Seq<char> {
    match stripped {
        Some(rest) => rest,
        None => match file_name {
            Some(name) => name,
            None => seq![],
        },
    }
}

/// The path of an output below the output root, from what std found of the input:
/// its path below the source folder, or else its file name.
pub fn relative_output(stripped: Option<String>, file_name: Option<String>) -> (r: String)
    ensures
        r@ == spec_relative_output(
            match stripped {
                Some(s) => Some(s@),
                None => None,
            },
            match file_name {
                Some(f) => Some(f@),
                None => None,
            },
        ),
{
    match stripped {
        Some(rest) => rest,
        None => match file_name {
            Some(name) => name,
            None => String::new(),
        },
    }
}

/// Where the output for `input` is aimed, before any collision is looked at: the
/// input's place below `source` (or its bare file name when it lies elsewhere)
/// taken below `output`, with its extension replaced by `ext`. Returns that
/// relative path and the target.
pub fn output_target(input: &str, source: &str, output: &str, ext: &str) -> (r: (String, String))
    requires
        !ext@.contains('/'),
        !ext@.contains('\\'),
    ensures
        r.0@ == spec_relative_output(stripped_path(input@, source@), path_file_name(input@)),
        r.1@ == path_with_extension(joined_path(output@, r.0@), ext@),
{
    let stripped = strip_path_prefix(input, source);
    let name = match stripped {
        Some(_) => None,
        None => file_name_of_path(input),
    };
    let rel = relative_output(stripped, name);
    let joined = join_path(output, rel.as_str());
    let target = replace_extension(joined.as_str(), ext);
    (rel, target)
}

/// The base name of the subfolder an extraction is diverted into: the stem of the
/// relative output path, or `extracted` when that stem is empty.
pub open spec fn spec_diverted_base(rel_name: Seq<char>) -> Seq<char> {
    if spec_stem(rel_name).len() == 0 {
        "extracted"@
    } else {
        spec_stem(rel_name)
    }
}

/// The base name for a diverted extraction of the file named `rel_name`.
pub fn diverted_base(rel_name: &str) -> (s: String)
    ensures
        s@ == spec_diverted_base(rel_name@),
{
    let stem = file_stem(rel_name);
    if chars_of(stem.as_str()).len() == 0 {
        String::from_str("extracted")
    } else {
        stem
    }
}


/// The file a diverted extraction writes inside its subfolder: `"{base}.{ext}"`.
pub fn diverted_file_name(base: &str, ext: &str) -> (s: String)
    ensures
        s@ == base@ + "."@ + ext@,
{
    let mut s = base.to_owned();
    s.append(".");
    s.append(ext);
    s
}

/// `probe` was asked about a name spelled `name` and could have answered `answer`.
pub open spec fn answered<F: Fn(&str) -> bool>(probe: F, name: Seq<char>, answer: bool) -> bool {
    exists|x: &str| x@ == name && call_ensures(probe, (x,), answer)
}

/// Asks `probe` about `name`.
fn ask<F: Fn(&str) -> bool>(probe: &F, name: &str) -> (r: bool)
    requires
        forall|x: &str| call_requires(*probe, (x,)),
    ensures
        answered(*probe, name@, r),
{
    let r = probe(name);
    assert(call_ensures(*probe, (name,), r));
    r
}

/// The `number`-th alternative to a taken file name: `"{stem} ({number}){.ext}"`.
pub open spec fn numbered_name(name: Seq<char>, number: nat) -> Seq<char> {
    spec_stem(name) + " ("@ + decimal(number) + ")"@ + match spec_extension(name) {
        Some(e) => "."@ + e,
        None => seq![],
    }
}

/// The largest number tried for an alternative file name (the counter is an `i32`).
pub const MAX_NAME_NUMBER: u32 = 2147483647;

/// A free file name in a directory.
pub enum FreeName {
    /// The requested name itself is free.
    Unchanged,
    /// The requested name is taken; this numbered alternative is free.
    Numbered(String),
    /// The requested name and every numbered alternative are taken.
    Exhausted,
}

/// A name that does not exist yet in the directory that `exists` probes: the
/// requested `file_name` when it is free, otherwise the first free alternative
/// `"{stem} (1){.ext}"`, `"{stem} (2){.ext}"`, …
pub fn unique_path<F: Fn(&str) -> bool>(file_name: &str, exists: F) -> (r: FreeName)
    requires
        forall|x: &str| call_requires(exists, (x,)),
    ensures
        match r {
            FreeName::Unchanged => answered(exists, file_name@, false),
            FreeName::Numbered(s) => answered(exists, file_name@, true) && exists|n: nat|
                1 <= n <= MAX_NAME_NUMBER && s@ == numbered_name(file_name@, n) && answered(
                    exists,
                    s@,
                    false,
                ) && forall|m: nat|
                    1 <= m < n ==> answered(exists, #[trigger] numbered_name(file_name@, m), true),
            FreeName::Exhausted => answered(exists, file_name@, true) && forall|m: nat|
                1 <= m <= MAX_NAME_NUMBER ==> answered(exists, #[trigger] numbered_name(file_name@, m), true),
        },
{
    if !ask(&exists, file_name) {
        return FreeName::Unchanged;
    }
    let stem = file_stem(file_name);
    let ext = file_extension(file_name);
    let mut number: u32 = 1;
    while number <= MAX_NAME_NUMBER
        invariant
            1 <= number <= MAX_NAME_NUMBER + 1,
            forall|x: &str| call_requires(exists, (x,)),
            answered(exists, file_name@, true),
            stem@ == spec_stem(file_name@),
            match ext {
                Some(e) => spec_extension(file_name@) == Some(e@),
                None => spec_extension(file_name@) is None,
            },
            forall|m: nat| 1 <= m < number ==> answered(exists, #[trigger] numbered_name(file_name@, m), true),
        decreases MAX_NAME_NUMBER + 1 - number,
    {
        let mut candidate = String::new();
        candidate.append(stem.as_str());
        candidate.append(" (");
        let digits = radix_string(number as u128, 10);
        candidate.append(digits.as_str());
        candidate.append(")");
        match &ext {
            Some(e) => {
                candidate.append(".");
                candidate.append(e.as_str());
            },
            None => {},
        }
        assert(candidate@ =~= numbered_name(file_name@, number as nat));
        if !ask(&exists, candidate.as_str()) {
            return FreeName::Numbered(candidate);
        }
        number = number + 1;
    }
    FreeName::Exhausted
}

/// The `number`-th candidate for a reserved directory named after `base`: `base`
/// itself first, then `"{base} (2)"`, `"{base} (3)"`, …
pub open spec fn reserved_candidate(base: Seq<char>, number: nat) -> Seq<char> {
    if number <= 1 {
        base
    } else {
        base + " ("@ + decimal(number) + ")"@
    }
}

/// The number of candidates tried before falling back to a time-stamped name.
pub const MAX_RESERVED_NUMBER: u32 = 999;

/// The time-stamped fallback name `"{base}_{nanos:x}"`.
pub open spec fn stamped_name(base: Seq<char>, nanos: u128) -> Seq<char> {
    base + "_"@ + hex(nanos as nat)
}

/// `dir` is the subdirectory name reserved for `base` under the directory that
/// `exists` probes: the first candidate answered free, after every earlier one was
/// answered taken; or, when all candidates were answered taken, the time-stamped
/// name with a time that `now_nanos` could have given.
pub open spec fn spec_reserved<F: Fn(&str) -> bool, T: FnOnce() -> u128>(
    exists: F,
    now_nanos: T,
    base: Seq<char>,
    dir: Seq<char>,
) -> bool {
    ||| exists|n: nat|
        1 <= n <= MAX_RESERVED_NUMBER && dir == reserved_candidate(base, n) && answered(exists, dir, false)
            && forall|m: nat| 1 <= m < n ==> answered(exists, #[trigger] reserved_candidate(base, m), true)
    ||| (forall|m: nat| 1 <= m <= MAX_RESERVED_NUMBER ==> answered(exists, #[trigger] reserved_candidate(base, m), true))
        && exists|t: u128| call_ensures(now_nanos, (), t) && dir == stamped_name(base, t)
}

/// A subdirectory name under the directory that `exists` probes, named after `base`
/// and not existing yet (the directory is not created): the first free candidate of
/// `base`, `"{base} (2)"` … `"{base} (999)"`, and when all of them are taken
/// `"{base}_{nanos:x}"` with the time `now_nanos` gives.
pub fn reserve_free_directory<F: Fn(&str) -> bool, T: FnOnce() -> u128>(
    base: &str,
    exists: F,
    now_nanos: T,
) -> (r: String)
    requires
        forall|x: &str| call_requires(exists, (x,)),
        call_requires(now_nanos, ()),
    ensures
        spec_reserved(exists, now_nanos, base@, r@),
{
    if !ask(&exists, base) {
        assert(reserved_candidate(base@, 1) == base@);
        return base.to_owned();
    }
    assert(reserved_candidate(base@, 1) == base@);
    let mut number: u32 = 2;
    while number <= MAX_RESERVED_NUMBER
        invariant
            2 <= number <= MAX_RESERVED_NUMBER + 1,
            forall|x: &str| call_requires(exists, (x,)),
            forall|m: nat| 1 <= m < number ==> answered(exists, #[trigger] reserved_candidate(base@, m), true),
        decreases MAX_RESERVED_NUMBER + 1 - number,
    {
        let mut candidate = String::new();
        candidate.append(base);
        candidate.append(" (");
        let digits = radix_string(number as u128, 10);
        candidate.append(digits.as_str());
        candidate.append(")");
        assert(candidate@ =~= reserved_candidate(base@, number as nat));
        if !ask(&exists, candidate.as_str()) {
            return candidate;
        }
        number = number + 1;
    }
    let nanos = now_nanos();
    let mut name = base.to_owned();
    name.append("_");
    let digits = radix_string(nanos, 16);
    name.append(digits.as_str());
    assert(name@ =~= stamped_name(base@, nanos));
    assert(call_ensures(now_nanos, (), nanos));
    name
}

/// Where the output of a run is written.
#[derive(Debug, PartialEq, Eq)]
pub enum OutputPlace {
    /// In the directory of the target, under this file name.
    Target(String),
    /// In this new subfolder of the output root, under this file name.
    Diverted(String, String),
}

/// `probe` was asked whether `name` exists in the subfolder `dir` and could have
/// answered `answer`.
pub open spec fn answered_in<F: Fn(&str, &str) -> bool>(probe: F, dir: Seq<char>, name: Seq<char>, answer: bool) -> bool {
    exists|d: &str, x: &str| d@ == dir && x@ == name && call_ensures(probe, (d, x), answer)
}

/// `chosen` is a free name for `requested` in the directory that `probe` asks
/// about, as [`unique_path`] settles it: the requested name answered free, or the
/// first numbered alternative answered free after the requested name and every
/// earlier alternative were answered taken.
pub open spec fn settled_name<F: Fn(&str) -> bool>(probe: F, requested: Seq<char>, chosen: Seq<char>) -> bool {
    ||| chosen == requested && answered(probe, requested, false)
    ||| answered(probe, requested, true) && exists|n: nat|
        1 <= n <= MAX_NAME_NUMBER && chosen == numbered_name(requested, n) && answered(probe, chosen, false)
            && forall|m: nat| 1 <= m < n ==> answered(probe, #[trigger] numbered_name(requested, m), true)
}

/// [`settled_name`] for the subfolder `dir`, asked about through `probe`.
pub open spec fn settled_name_in<F: Fn(&str, &str) -> bool>(
    probe: F,
    dir: Seq<char>,
    requested: Seq<char>,
    chosen: Seq<char>,
) -> bool {
    ||| chosen == requested && answered_in(probe, dir, requested, false)
    ||| answered_in(probe, dir, requested, true) && exists|n: nat|
        1 <= n <= MAX_NAME_NUMBER && chosen == numbered_name(requested, n) && answered_in(probe, dir, chosen, false)
            && forall|m: nat| 1 <= m < n ==> answered_in(probe, dir, #[trigger] numbered_name(requested, m), true)
}

/// The name settled on is one that the probe answered free, so the file written
/// under it replaces nothing that the probe saw.
pub proof fn law_settled_names_were_free<F: Fn(&str) -> bool>(probe: F, requested: Seq<char>, chosen: Seq<char>)
    requires
        settled_name(probe, requested, chosen),
    ensures
        answered(probe, chosen, false),
{
}

/// [`law_settled_names_were_free`] for a name settled in a subfolder.
pub proof fn law_settled_names_in_were_free<F: Fn(&str, &str) -> bool>(
    probe: F,
    dir: Seq<char>,
    requested: Seq<char>,
    chosen: Seq<char>,
)
    requires
        settled_name_in(probe, dir, requested, chosen),
    ensures
        answered_in(probe, dir, chosen, false),
{
}

/// `probe` answers by what the directory holds: asked about any `x`, it answers
/// `taken(x)`, so the directory does not change while it is asked.
pub open spec fn answers_by<F: Fn(&str) -> bool>(probe: F, taken: spec_fn(Seq<char>) -> bool) -> bool {
    forall|x: &str, b: bool| call_ensures(probe, (x,), b) ==> b == taken(x@)
}

/// [`answers_by`] for a probe of names inside subfolders.
pub open spec fn answers_in_by<F: Fn(&str, &str) -> bool>(
    probe: F,
    taken: spec_fn(Seq<char>, Seq<char>) -> bool,
) -> bool {
    forall|d: &str, x: &str, b: bool| call_ensures(probe, (d, x), b) ==> b == taken(d@, x@)
}

proof fn lemma_answered_by<F: Fn(&str) -> bool>(probe: F, taken: spec_fn(Seq<char>) -> bool)
    requires
        answers_by(probe, taken),
    ensures
        forall|n: Seq<char>, b: bool| #[trigger] answered(probe, n, b) ==> b == taken(n),
{
    assert forall|n: Seq<char>, b: bool| #[trigger] answered(probe, n, b) implies b == taken(n) by {
        let x = choose|x: &str| x@ == n && call_ensures(probe, (x,), b);
    }
}

proof fn lemma_answered_in_by<F: Fn(&str, &str) -> bool>(probe: F, taken: spec_fn(Seq<char>, Seq<char>) -> bool)
    requires
        answers_in_by(probe, taken),
    ensures
        forall|d: Seq<char>, n: Seq<char>, b: bool| #[trigger] answered_in(probe, d, n, b) ==> b == taken(d, n),
{
    assert forall|d: Seq<char>, n: Seq<char>, b: bool| #[trigger] answered_in(probe, d, n, b) implies b == taken(d, n) by {
        let (dd, x) = choose|dd: &str, x: &str| dd@ == d && x@ == n && call_ensures(probe, (dd, x), b);
    }
}

/// Against a directory that does not change while it is asked, the name settled
/// on is the requested one when it is free, and otherwise the least numbered
/// alternative that is free; either way it is free.
pub proof fn law_settled_name_is_least_free<F: Fn(&str) -> bool>(
    probe: F,
    taken: spec_fn(Seq<char>) -> bool,
    requested: Seq<char>,
    chosen: Seq<char>,
)
    requires
        settled_name(probe, requested, chosen),
        answers_by(probe, taken),
    ensures
        !taken(chosen),
        !taken(requested) ==> chosen == requested,
        taken(requested) ==> exists|n: nat|
            1 <= n <= MAX_NAME_NUMBER && chosen == numbered_name(requested, n) && forall|m: nat|
                1 <= m < n ==> taken(#[trigger] numbered_name(requested, m)),
{
    lemma_answered_by(probe, taken);
    if !(chosen == requested && answered(probe, requested, false)) {
        let n = choose|n: nat|
            1 <= n <= MAX_NAME_NUMBER && chosen == numbered_name(requested, n) && answered(probe, chosen, false)
                && forall|m: nat| 1 <= m < n ==> answered(probe, #[trigger] numbered_name(requested, m), true);
        assert forall|m: nat| 1 <= m < n implies taken(#[trigger] numbered_name(requested, m)) by {
            assert(answered(probe, numbered_name(requested, m), true));
        }
    }
}

/// [`law_settled_name_is_least_free`] for a name settled inside the subfolder `dir`.
pub proof fn law_settled_name_in_is_least_free<F: Fn(&str, &str) -> bool>(
    probe: F,
    taken: spec_fn(Seq<char>, Seq<char>) -> bool,
    dir: Seq<char>,
    requested: Seq<char>,
    chosen: Seq<char>,
)
    requires
        settled_name_in(probe, dir, requested, chosen),
        answers_in_by(probe, taken),
    ensures
        !taken(dir, chosen),
        !taken(dir, requested) ==> chosen == requested,
        taken(dir, requested) ==> exists|n: nat|
            1 <= n <= MAX_NAME_NUMBER && chosen == numbered_name(requested, n) && forall|m: nat|
                1 <= m < n ==> taken(dir, #[trigger] numbered_name(requested, m)),
{
    lemma_answered_in_by(probe, taken);
    if !(chosen == requested && answered_in(probe, dir, requested, false)) {
        let n = choose|n: nat|
            1 <= n <= MAX_NAME_NUMBER && chosen == numbered_name(requested, n) && answered_in(probe, dir, chosen, false)
                && forall|m: nat| 1 <= m < n ==> answered_in(probe, dir, #[trigger] numbered_name(requested, m), true);
        assert forall|m: nat| 1 <= m < n implies taken(dir, #[trigger] numbered_name(requested, m)) by {
            assert(answered_in(probe, dir, numbered_name(requested, m), true));
        }
    }
}

/// Against a directory that does not change while it is asked, the reserved
/// subfolder is the first free candidate; only when all of them are taken is it
/// the time-stamped name.
pub proof fn law_reserved_directory_is_first_free<F: Fn(&str) -> bool, T: FnOnce() -> u128>(
    exists: F,
    now_nanos: T,
    taken: spec_fn(Seq<char>) -> bool,
    base: Seq<char>,
    dir: Seq<char>,
)
    requires
        spec_reserved(exists, now_nanos, base, dir),
        answers_by(exists, taken),
    ensures
        (exists|n: nat|
            1 <= n <= MAX_RESERVED_NUMBER && dir == reserved_candidate(base, n) && !taken(dir) && forall|m: nat|
                1 <= m < n ==> taken(#[trigger] reserved_candidate(base, m))) || ((forall|m: nat|
            1 <= m <= MAX_RESERVED_NUMBER ==> taken(#[trigger] reserved_candidate(base, m))) && exists|t: u128|
            call_ensures(now_nanos, (), t) && dir == stamped_name(base, t)),
{
    lemma_answered_by(exists, taken);
    if exists|n: nat|
        1 <= n <= MAX_RESERVED_NUMBER && dir == reserved_candidate(base, n) && answered(exists, dir, false)
            && forall|m: nat| 1 <= m < n ==> answered(exists, #[trigger] reserved_candidate(base, m), true) {
        let n = choose|n: nat|
            1 <= n <= MAX_RESERVED_NUMBER && dir == reserved_candidate(base, n) && answered(exists, dir, false)
                && forall|m: nat| 1 <= m < n ==> answered(exists, #[trigger] reserved_candidate(base, m), true);
        assert forall|m: nat| 1 <= m < n implies taken(#[trigger] reserved_candidate(base, m)) by {
            assert(answered(exists, reserved_candidate(base, m), true));
        }
    } else {
        assert forall|m: nat| 1 <= m <= MAX_RESERVED_NUMBER implies taken(#[trigger] reserved_candidate(base, m)) by {
            assert(answered(exists, reserved_candidate(base, m), true));
        }
    }
}

/// A run whose output stays next to its target replaces nothing, when the target's
/// directory does not change while it is asked: the output name is free, and an
/// extraction writes exactly the target, which was free, and beside it a sidecar
/// whose name was free too.
pub proof fn law_outputs_at_target_replace_nothing<P: Fn(&str) -> bool, M: FnOnce() -> Result<(), String>>(
    mode: Seq<char>,
    cmd: Seq<char>,
    target_name: Seq<char>,
    sidecar_name: Seq<char>,
    exists_at_target: P,
    make_target_dir: M,
    taken: spec_fn(Seq<char>) -> bool,
    name: Seq<char>,
)
    requires
        spec_target_choice(mode, cmd, target_name, sidecar_name, exists_at_target, make_target_dir, name),
        answers_by(exists_at_target, taken),
    ensures
        !taken(name),
        mode == "extract"@ ==> name == target_name && !taken(target_name) && (spec_writes_bin_sidecar(cmd)
            ==> !taken(sidecar_name)),
{
    lemma_answered_by(exists_at_target, taken);
    law_settled_name_is_least_free(exists_at_target, taken, target_name, name);
    if mode == "extract"@ {
        assert(answered(exists_at_target, target_name, false));
        if spec_writes_bin_sidecar(cmd) {
            assert(answered(exists_at_target, sidecar_name, false));
        }
    }
}

/// A diverted extraction replaces nothing, when the output root and the folders
/// in it do not change while they are asked: it writes into a subfolder that did
/// not exist (unless every numbered candidate was taken and the time-stamped name
/// was used), under a name that was free there.
pub proof fn law_diverted_outputs_replace_nothing<
    P: Fn(&str) -> bool,
    Q: Fn(&str) -> bool,
    R: Fn(&str, &str) -> bool,
    T: FnOnce() -> u128,
    S: FnOnce(&str) -> Result<(), String>,
>(
    mode: Seq<char>,
    cmd: Seq<char>,
    ext: Seq<char>,
    rel_name: Seq<char>,
    target_name: Seq<char>,
    sidecar_name: Seq<char>,
    exists_at_target: P,
    exists_at_root: Q,
    exists_in_subdir: R,
    now_nanos: T,
    make_subdir: S,
    taken_at_root: spec_fn(Seq<char>) -> bool,
    taken_in: spec_fn(Seq<char>, Seq<char>) -> bool,
    dir: Seq<char>,
    name: Seq<char>,
)
    requires
        spec_diverted_choice(
            mode,
            cmd,
            ext,
            rel_name,
            target_name,
            sidecar_name,
            exists_at_target,
            exists_at_root,
            exists_in_subdir,
            now_nanos,
            make_subdir,
            dir,
            name,
        ),
        answers_by(exists_at_root, taken_at_root),
        answers_in_by(exists_in_subdir, taken_in),
    ensures
        !taken_in(dir, name),
        !taken_at_root(dir) || ((forall|m: nat|
            1 <= m <= MAX_RESERVED_NUMBER ==> taken_at_root(
                #[trigger] reserved_candidate(spec_diverted_base(rel_name), m),
            )) && exists|t: u128| call_ensures(now_nanos, (), t) && dir == stamped_name(spec_diverted_base(rel_name), t)),
{
    law_settled_name_in_is_least_free(exists_in_subdir, taken_in, dir, spec_diverted_base(rel_name) + "."@ + ext, name);
    law_reserved_directory_is_first_free(exists_at_root, now_nanos, taken_at_root, spec_diverted_base(rel_name), dir);
}

/// Every name [`unique_path`] tries for `requested` in the directory that `probe`
/// asks about was answered taken.
pub open spec fn all_names_taken<F: Fn(&str) -> bool>(probe: F, requested: Seq<char>) -> bool {
    answered(probe, requested, true) && forall|m: nat|
        1 <= m <= MAX_NAME_NUMBER ==> answered(probe, #[trigger] numbered_name(requested, m), true)
}

/// [`all_names_taken`] for the subfolder `dir`, asked about through `probe`.
pub open spec fn all_names_taken_in<F: Fn(&str, &str) -> bool>(probe: F, dir: Seq<char>, requested: Seq<char>) -> bool {
    answered_in(probe, dir, requested, true) && forall|m: nat|
        1 <= m <= MAX_NAME_NUMBER ==> answered_in(probe, dir, #[trigger] numbered_name(requested, m), true)
}

/// What [`choose_output`] settles when the output stays next to its target: the
/// target's directory was created, the name is settled among the names that
/// `exists_at_target` answered about, and an extraction there saw both the
/// target and (for a command that writes one) its `.bin` sidecar answered free.
pub open spec fn spec_target_choice<P: Fn(&str) -> bool, M: FnOnce() -> Result<(), String>>(
    mode: Seq<char>,
    cmd: Seq<char>,
    target_name: Seq<char>,
    sidecar_name: Seq<char>,
    exists_at_target: P,
    make_target_dir: M,
    name: Seq<char>,
) -> bool {
    &&& call_ensures(make_target_dir, (), Ok::<(), String>(()))
    &&& settled_name(exists_at_target, target_name, name)
    &&& mode == "extract"@ ==> answered(exists_at_target, target_name, false)
        && (spec_writes_bin_sidecar(cmd) ==> answered(exists_at_target, sidecar_name, false))
}

/// What [`choose_output`] settles when an extraction is diverted: the target or
/// its sidecar was answered taken, the subfolder `dir` is the one reserved for the
/// stem of `rel_name` and was created, and the name `"{base}.{ext}"` is settled
/// among the names that `exists_in_subdir` answered about inside it.
pub open spec fn spec_diverted_choice<
    P: Fn(&str) -> bool,
    Q: Fn(&str) -> bool,
    R: Fn(&str, &str) -> bool,
    T: FnOnce() -> u128,
    S: FnOnce(&str) -> Result<(), String>,
>(
    mode: Seq<char>,
    cmd: Seq<char>,
    ext: Seq<char>,
    rel_name: Seq<char>,
    target_name: Seq<char>,
    sidecar_name: Seq<char>,
    exists_at_target: P,
    exists_at_root: Q,
    exists_in_subdir: R,
    now_nanos: T,
    make_subdir: S,
    dir: Seq<char>,
    name: Seq<char>,
) -> bool {
    &&& mode == "extract"@
    &&& answered(exists_at_target, target_name, true) || (spec_writes_bin_sidecar(cmd)
        && answered(exists_at_target, sidecar_name, true))
    &&& spec_reserved(exists_at_root, now_nanos, spec_diverted_base(rel_name), dir)
    &&& exists|d: &str| d@ == dir && call_ensures(make_subdir, (d,), Ok::<(), String>(()))
    &&& settled_name_in(exists_in_subdir, dir, spec_diverted_base(rel_name) + "."@ + ext, name)
}

/// Picks where the output of a run in `mode` goes, without overwriting anything;
/// `None` in `verify` mode, which writes nothing. The target is the file
/// `target_name` in its directory (probed by `exists_at_target`), whose `.bin`
/// sidecar is `sidecar_name`. An extraction that would destroy existing files
/// (the target, or for `extractcd` its sidecar, exists) is diverted into a
/// subfolder of the output root (probed by `exists_at_root`) reserved for the
/// stem of `rel_name` and created with `make_subdir`, and writes
/// `"{base}.{ext}"` there (probed by `exists_in_subdir`). Otherwise the target's
/// directory is created with `make_target_dir`. Either way the file name is the
/// first free one [`unique_path`] finds. A directory that cannot be created
/// gives its error; a directory with every alternative name taken gives
/// `"no free file name is left"`.
pub fn choose_output<P, Q, R, T, M, S>(
    mode: &str,
    cmd: &str,
    ext: &str,
    rel_name: &str,
    target_name: &str,
    sidecar_name: &str,
    exists_at_target: P,
    exists_at_root: Q,
    exists_in_subdir: R,
    now_nanos: T,
    make_target_dir: M,
    make_subdir: S,
) -> (r: Result<Option<OutputPlace>, String>)
    where
        P: Fn(&str) -> bool,
        Q: Fn(&str) -> bool,
        R: Fn(&str, &str) -> bool,
        T: FnOnce() -> u128,
        M: FnOnce() -> Result<(), String>,
        S: FnOnce(&str) -> Result<(), String>,
    requires
        forall|x: &str| call_requires(exists_at_target, (x,)),
        forall|x: &str| call_requires(exists_at_root, (x,)),
        forall|d: &str, x: &str| call_requires(exists_in_subdir, (d, x)),
        call_requires(now_nanos, ()),
        call_requires(make_target_dir, ()),
        forall|d: &str| call_requires(make_subdir, (d,)),
    ensures
        mode@ == "verify"@ <==> r == Ok::<Option<OutputPlace>, String>(None),
        r matches Ok(Some(OutputPlace::Target(name))) ==> spec_target_choice(
            mode@,
            cmd@,
            target_name@,
            sidecar_name@,
            exists_at_target,
            make_target_dir,
            name@,
        ),
        r matches Ok(Some(OutputPlace::Diverted(dir, name))) ==> spec_diverted_choice(
            mode@,
            cmd@,
            ext@,
            rel_name@,
            target_name@,
            sidecar_name@,
            exists_at_target,
            exists_at_root,
            exists_in_subdir,
            now_nanos,
            make_subdir,
            dir@,
            name@,
        ),
        r matches Err(e) ==> mode@ != "verify"@ && {
            ||| call_ensures(make_target_dir, (), Err::<(), String>(e))
            ||| exists|d: &str| call_ensures(make_subdir, (d,), Err::<(), String>(e))
            ||| e@ == "no free file name is left"@ && {
                ||| all_names_taken(exists_at_target, target_name@)
                ||| exists|d: Seq<char>|
                    all_names_taken_in(exists_in_subdir, d, spec_diverted_base(rel_name@) + "."@ + ext@)
            }
        },
{
    if str_eq(mode, "verify") {
        return Ok(None);
    }
    let at_target = &exists_at_target;
    let collides = || -> (c: bool)
        requires
            forall|x: &str| call_requires(*at_target, (x,)),
        ensures
            c ==> answered(*at_target, target_name@, true) || (spec_writes_bin_sidecar(cmd@)
                && answered(*at_target, sidecar_name@, true)),
            !c ==> answered(*at_target, target_name@, false) && (spec_writes_bin_sidecar(cmd@)
                ==> answered(*at_target, sidecar_name@, false)),
    {
        let taken = ask(at_target, target_name);
        let sidecar_taken = || -> (b: bool)
            requires
                forall|x: &str| call_requires(*at_target, (x,)),
            ensures
                answered(*at_target, sidecar_name@, b),
        { ask(at_target, sidecar_name) };
        collides_with_output(taken, cmd, sidecar_taken)
    };
    let diverted = diverts_extraction(mode, collides);
    if diverted {
        let base = diverted_base(rel_name);
        let dir = reserve_free_directory(base.as_str(), exists_at_root, now_nanos);
        let made = make_subdir(dir.as_str());
        match made {
            Ok(u) => {
                assert(made == Ok::<(), String>(()));
            },
            Err(e) => return Err(e),
        }
        let file = diverted_file_name(base.as_str(), ext);
        let d = dir.as_str();
        let in_subdir = &exists_in_subdir;
        let probe = |x: &str| -> (b: bool)
            requires
                forall|d2: &str, x2: &str| call_requires(*in_subdir, (d2, x2)),
            ensures
                call_ensures(*in_subdir, (d, x), b),
        { in_subdir(d, x) };
        let found = unique_path(file.as_str(), probe);
        proof {
            assert forall|n: Seq<char>, b: bool| answered(probe, n, b) implies answered_in(exists_in_subdir, dir@, n, b) by {
                let x = choose|x: &str| x@ == n && call_ensures(probe, (x,), b);
                assert(call_ensures(exists_in_subdir, (d, x), b));
            }
        }
        match found {
            FreeName::Unchanged => Ok(Some(OutputPlace::Diverted(dir, file))),
            FreeName::Numbered(name) => {
                proof {
                    let n = choose|n: nat|
                        1 <= n <= MAX_NAME_NUMBER && name@ == numbered_name(file@, n) && answered(probe, name@, false)
                            && forall|m: nat| 1 <= m < n ==> answered(probe, #[trigger] numbered_name(file@, m), true);
                    assert forall|m: nat| 1 <= m < n implies answered_in(exists_in_subdir, dir@, #[trigger] numbered_name(file@, m), true) by {
                        assert(answered(probe, numbered_name(file@, m), true));
                    }
                }
                Ok(Some(OutputPlace::Diverted(dir, name)))
            },
            FreeName::Exhausted => {
                proof {
                    assert forall|m: nat| 1 <= m <= MAX_NAME_NUMBER implies answered_in(exists_in_subdir, dir@, #[trigger] numbered_name(file@, m), true) by {
                        assert(answered(probe, numbered_name(file@, m), true));
                    }
                    assert(all_names_taken_in(exists_in_subdir, dir@, file@));
                }
                Err("no free file name is left".to_string())
            },
        }
    } else {
        let made = make_target_dir();
        match made {
            Ok(u) => {
                assert(made == Ok::<(), String>(()));
            },
            Err(e) => return Err(e),
        }
        match unique_path(target_name, exists_at_target) {
            FreeName::Unchanged => Ok(Some(OutputPlace::Target(target_name.to_owned()))),
            FreeName::Numbered(name) => Ok(Some(OutputPlace::Target(name))),
            FreeName::Exhausted => Err("no free file name is left".to_string()),
        }
    }
}


proof fn lemma_padded_hex_ascii(n: nat, width: nat)
    ensures
        padded_hex(n, width).len() == width,
        all_ascii(padded_hex(n, width)),
    decreases width,
{
    if width > 0 {
        lemma_padded_hex_ascii(n / 16, (width - 1) as nat);
        let p = padded_hex(n / 16, (width - 1) as nat);
        let d = crate::text::digit_char(n % 16);
        assert(is_ascii_char(d));
        assert forall|i: int| 0 <= i < p.push(d).len() implies is_ascii_char(#[trigger] p.push(d)[i]) by {
            if i < p.len() {
                assert(p.push(d)[i] == p[i]);
            }
        }
    }
}

proof fn lemma_concat_ascii(a: Seq<char>, b: Seq<char>)
    requires
        all_ascii(a),
        all_ascii(b),
    ensures
        all_ascii(a + b),
{
    assert forall|i: int| 0 <= i < (a + b).len() implies is_ascii_char(#[trigger] (a + b)[i]) by {
        if i < a.len() {
            assert((a + b)[i] == a[i]);
        } else {
            assert((a + b)[i] == b[i - a.len()]);
        }
    }
}

/// Staged files carry names that `chdman` can always take: pure ASCII and of a fixed,
/// short length (26 characters for the input, 24 plus the extension for the output),
/// whatever the name of the input being staged.
pub proof fn law_staged_names_are_ascii(input: Seq<char>, ext: Seq<char>)
    requires
        all_ascii(ext),
    ensures
        all_ascii(spec_staged_input_name(input)),
        spec_staged_input_name(input).len() == 26,
        all_ascii(spec_staged_output_name(input, ext)),
        spec_staged_output_name(input, ext).len() == 24 + ext.len(),
{
    reveal_strlit("input_");
    reveal_strlit(".chd");
    reveal_strlit("output_");
    reveal_strlit(".");
    let h = spec_hex_suffix(input);
    lemma_padded_hex_ascii(name_hash(leading16(vstd::utf8::encode_utf8(input))) as nat, 16);
    assert(all_ascii("input_"@));
    assert(all_ascii(".chd"@));
    assert(all_ascii("output_"@));
    assert(all_ascii("."@));
    lemma_concat_ascii("input_"@, h);
    lemma_concat_ascii("input_"@ + h, ".chd"@);
    lemma_concat_ascii("output_"@, h);
    lemma_concat_ascii("output_"@ + h, "."@);
    lemma_concat_ascii("output_"@ + h + "."@, ext);
}

/// Every base tried for a staging directory can itself be handed to `chdman`.
pub proof fn law_temp_bases_are_chdman_safe(system_temp: Seq<char>, windows: bool)
    ensures
        forall|i: int|
            0 <= i < spec_temp_dir_bases(system_temp, windows).len() ==> spec_is_chdman_safe_path(
                #[trigger] spec_temp_dir_bases(system_temp, windows)[i],
            ),
{
    let roots = spec_fixed_drive_roots(windows);
    assert forall|i: int| 0 <= i < roots.len() implies spec_is_chdman_safe_path(#[trigger] roots[i]) by {
        let r = roots[i];
        if windows {
            assert(r == seq![(('C' as u32) + i) as char, ':', '\\']);
        }
        assert forall|j: int| 0 <= j < r.len() implies is_ascii_char(#[trigger] r[j]) by {}
    }
    let bases = spec_temp_dir_bases(system_temp, windows);
    assert forall|i: int| 0 <= i < bases.len() implies spec_is_chdman_safe_path(#[trigger] bases[i]) by {
        if spec_is_chdman_safe_path(system_temp) {
            if i > 0 {
                assert(bases[i] == roots[i - 1]);
            }
        }
    }
}

/// Staged files inside a staging-safe directory can be handed to `chdman`: the
/// directory, an ASCII separator and a staged input name, or a staged output name
/// with an ASCII extension of at most three letters, make a pure ASCII path shorter
/// than [`MAX_CHDMAN_PATH`].
pub proof fn law_staged_paths_are_chdman_safe(dir: Seq<char>, separator: char, input: Seq<char>, ext: Seq<char>)
    requires
        spec_is_staging_dir_safe(dir),
        is_ascii_char(separator),
        all_ascii(ext),
        ext.len() <= 3,
    ensures
        spec_is_chdman_safe_path(dir.push(separator) + spec_staged_input_name(input)),
        spec_is_chdman_safe_path(dir.push(separator) + spec_staged_output_name(input, ext)),
{
    law_staged_names_are_ascii(input, ext);
    assert(all_ascii(dir.push(separator))) by {
        assert forall|i: int| 0 <= i < dir.push(separator).len() implies is_ascii_char(#[trigger] dir.push(separator)[i]) by {
            if i < dir.len() {
                assert(dir.push(separator)[i] == dir[i]);
            }
        }
    }
    lemma_concat_ascii(dir.push(separator), spec_staged_input_name(input));
    lemma_concat_ascii(dir.push(separator), spec_staged_output_name(input, ext));
}

/// A run that writes output without staging hands `chdman` an input path and an
/// output root that are both pure ASCII and shorter than [`MAX_CHDMAN_PATH`].
pub proof fn law_unstaged_runs_use_safe_paths(mode: Seq<char>, input: Seq<char>, output: Seq<char>)
    requires
        mode != "verify"@,
        !spec_needs_staging(mode, input, output),
    ensures
        spec_is_chdman_safe_path(input),
        spec_is_chdman_safe_path(output),
{
}


proof fn lemma_last_dot_is_dot(name: Seq<char>)
    ensures
        -1 <= crate::names::last_dot(name) < name.len(),
        crate::names::last_dot(name) >= 0 ==> name[crate::names::last_dot(name)] == '.',
    decreases name.len(),
{
    if name.len() > 0 && name.last() != '.' {
        lemma_last_dot_is_dot(name.drop_last());
    }
}

/// A file name is its stem followed by its extension (with the dot, when it has one).
proof fn lemma_name_is_stem_and_extension(name: Seq<char>)
    ensures
        name == spec_stem(name) + match spec_extension(name) {
            Some(e) => "."@ + e,
            None => seq![],
        },
{
    reveal_strlit(".");
    lemma_last_dot_is_dot(name);
    let k = crate::names::last_dot(name);
    match spec_extension(name) {
        Some(e) => {
            assert(name =~= name.subrange(0, k) + "."@ + name.subrange(k + 1, name.len() as int));
        },
        None => {
            assert(name =~= name + Seq::<char>::empty());
        },
    }
}

/// A numbered alternative never spells the name it replaces, so the renamed output
/// never lands on the file that was found in the way.
pub proof fn law_numbered_names_differ(name: Seq<char>, number: nat)
    ensures
        numbered_name(name, number) != name,
{
    reveal_strlit(" (");
    reveal_strlit(")");
    lemma_name_is_stem_and_extension(name);
    assert(numbered_name(name, number).len() > name.len());
}

} // verus!
