//! Recognition of raw CD sectors and validation of image sizes.

use vstd::prelude::*;
use crate::names::{
    file_stem, has_extension, is_lower_word, lemma_lower_extension_is, lower_extension, lower_extension_exec,
    spec_stem,
};
use crate::text::{decimal, radix_string, str_eq};

verus! {

/// The 12-byte sync pattern every raw CD sector opens with: 00, ten FF, 00.
pub open spec fn sync_mark() -> Seq<u8> {
    seq![0x00u8, 0xFF, 0xFF, 0xFF, 0xFF, 0xFF, 0xFF, 0xFF, 0xFF, 0xFF, 0xFF, 0x00]
}

/// Bytes per sector in a raw CD image (2048 user bytes plus sync, header and EDC/ECC).
pub const RAW_CD_SECTOR_SIZE: u64 = 2352;

/// Offset of the mode byte: 12 bytes of sync plus a 3-byte MSF address.
pub const RAW_CD_MODE_OFFSET: usize = 15;

/// The track mode a sector header announces, or `None` when it is no raw CD sector
/// header of mode 1 or 2.
pub open spec fn spec_classify_raw_cd_header(header: Seq<u8>) -> Option<u8> {
    if header.len() <= RAW_CD_MODE_OFFSET as int {
        None
    } else if header.subrange(0, 12) != sync_mark() {
        None
    } else if header[RAW_CD_MODE_OFFSET as int] == 1 || header[RAW_CD_MODE_OFFSET as int] == 2 {
        Some(header[RAW_CD_MODE_OFFSET as int])
    } else {
        None
    }
}

/// Returns the track-mode byte (1 = MODE1/2352, 2 = MODE2/2352) of a raw CD sector
/// header: the header must be longer than the mode offset, open with the sync mark
/// and carry mode 1 or 2.
pub fn classify_raw_cd_header(header: &[u8]) -> (mode: Option<u8>)
    ensures
        mode == spec_classify_raw_cd_header(header@),
{
    if header.len() <= RAW_CD_MODE_OFFSET {
        return None;
    }
    let mark: [u8; 12] = [0x00, 0xFF, 0xFF, 0xFF, 0xFF, 0xFF, 0xFF, 0xFF, 0xFF, 0xFF, 0xFF, 0x00];
    assert(mark@ == sync_mark());
    let mut i: usize = 0;
    while i < 12
        invariant
            i <= 12,
            header@.len() > 15,
            mark@ == sync_mark(),
            forall|j: int| 0 <= j < i ==> header@[j] == mark@[j],
        decreases 12 - i,
    {
        if header[i] != mark[i] {
            assert(header@.subrange(0, 12)[i as int] != sync_mark()[i as int]);
            return None;
        }
        i = i + 1;
    }
    assert(header@.subrange(0, 12) =~= sync_mark());
    let m = header[RAW_CD_MODE_OFFSET];
    if m == 1 || m == 2 {
        Some(m)
    } else {
        None
    }
}


/// A header is recognised as a raw CD sector exactly when it has more than 15
/// bytes, opens with `00`, ten `FF` and `00`, and its 16th byte is 1 or 2; the
/// track mode is that byte.
pub proof fn law_raw_cd_headers(header: Seq<u8>)
    ensures
        spec_classify_raw_cd_header(header) is Some <==> (header.len() > 15 && header[0] == 0 && header[11] == 0
            && (forall|i: int| 1 <= i <= 10 ==> #[trigger] header[i] == 0xFF) && (header[15] == 1 || header[15] == 2)),
        spec_classify_raw_cd_header(header) matches Some(m) ==> m == header[15],
{
    if header.len() > 15 {
        let s = header.subrange(0, 12);
        if s == sync_mark() {
            assert forall|i: int| 1 <= i <= 10 implies #[trigger] header[i] == 0xFF by {
                assert(s[i] == sync_mark()[i]);
            }
            assert(s[0] == sync_mark()[0] && s[11] == sync_mark()[11]);
        }
        if header[0] == 0 && header[11] == 0 && (forall|i: int| 1 <= i <= 10 ==> #[trigger] header[i] == 0xFF) {
            assert(s =~= sync_mark());
        }
    }
}

/// Standard CD/DVD sector sizes. 2448 and 2368 are raw CD sectors carrying
/// subchannel data (2352+96 and 2352+16), as Alcohol and CloneCD rips use.
pub open spec fn standard_sector_sizes() -> Seq<u64> {
    seq![2352u64, 2048, 2336, 2324, 2448, 2368]
}

/// True when `len` is non-zero and a whole multiple of a standard sector size.
pub open spec fn spec_is_sector_aligned(len: u64) -> bool {
    len > 0 && exists|i: int|
        0 <= i < standard_sector_sizes().len() && len % (#[trigger] standard_sector_sizes()[i]) == 0
}

/// Whether an image of `len` bytes is a whole number of sectors of a standard size.
pub fn is_sector_aligned(len: u64) -> (r: bool)
    ensures
        r == spec_is_sector_aligned(len),
{
    let sizes: [u64; 6] = [2352, 2048, 2336, 2324, 2448, 2368];
    assert(sizes@ == standard_sector_sizes());
    if len == 0 {
        return false;
    }
    let mut i: usize = 0;
    while i < 6
        invariant
            sizes@ == standard_sector_sizes(),
            len > 0,
            i <= 6,
            forall|j: int| 0 <= j < i ==> len % (#[trigger] standard_sector_sizes()[j]) != 0,
        decreases 6 - i,
    {
        if len % sizes[i] == 0 {
            assert(len % standard_sector_sizes()[i as int] == 0);
            return true;
        }
        i = i + 1;
    }
    false
}

/// A whole number of aligned images is aligned: any non-zero multiple of an aligned
/// size is aligned as well.
pub proof fn law_alignment_survives_multiples(len: u64, k: u64)
    requires
        spec_is_sector_aligned(len),
        k >= 1,
        k * len <= u64::MAX,
    ensures
        spec_is_sector_aligned((k * len) as u64),
{
    let i = choose|i: int|
        0 <= i < standard_sector_sizes().len() && len % (#[trigger] standard_sector_sizes()[i]) == 0;
    let s = standard_sector_sizes()[i];
    vstd::arithmetic::div_mod::lemma_mul_mod_noop_right(k as int, len as int, s as int);
    assert((k * len) as int >= len) by (nonlinear_arith)
        requires
            k >= 1,
    ;
    assert(((k * len) as u64) % standard_sector_sizes()[i] == 0);
}

/// The track mode of an image of `length` bytes (`None` when its size could not be
/// read) whose first 16 bytes `header` yields, read only when the size is a whole,
/// non-zero number of raw CD sectors.
pub open spec fn spec_probe_raw_cd(length: u64, header: Option<Seq<u8>>) -> Option<u8> {
    if length == 0 || length % RAW_CD_SECTOR_SIZE != 0 {
        None
    } else {
        match header {
            Some(h) => spec_classify_raw_cd_header(h),
            None => None,
        }
    }
}

/// Whether an image is a raw CD dump (2352-byte sectors opening with the sync mark),
/// and its track mode (1 = MODE1/2352, 2 = MODE2/2352). `length` is the image size
/// (`None` when it could not be read); `read_header` reads its leading bytes (`None`
/// when reading fails) and is called only when the size is a whole, non-zero number
/// of raw sectors.
pub fn probe_raw_cd(length: Option<u64>, read_header: impl FnOnce() -> Option<Vec<u8>>) -> (r: Option<u8>)
    requires
        (length matches Some(l) && l != 0 && l % RAW_CD_SECTOR_SIZE == 0) ==> call_requires(read_header, ()),
    ensures
        match length {
            None => r is None,
            Some(l) => if l == 0 || l % RAW_CD_SECTOR_SIZE != 0 {
                r is None
            } else {
                exists|h: Option<Vec<u8>>|
                    call_ensures(read_header, (), h) && r == spec_probe_raw_cd(
                        l,
                        match h {
                            Some(v) => Some(v@),
                            None => None,
                        },
                    )
            },
        },
{
    let l = match length {
        Some(l) => l,
        None => return None,
    };
    if l == 0 || l % RAW_CD_SECTOR_SIZE != 0 {
        return None;
    }
    let h = read_header();
    match h {
        Some(v) => classify_raw_cd_header(v.as_slice()),
        None => None,
    }
}

/// Every image recognised as a raw CD dump passes the sector-alignment preflight.
pub proof fn law_raw_cd_images_are_aligned(length: u64, header: Option<Seq<u8>>)
    requires
        spec_probe_raw_cd(length, header) is Some,
    ensures
        spec_is_sector_aligned(length),
{
    assert(length % standard_sector_sizes()[0] == 0);
}

/// The track type a raw CD of `mode` is declared with in a cue sheet.
pub open spec fn track_type(mode: u8) -> Seq<char> {
    if mode == 1 {
        "MODE1/2352"@
    } else {
        "MODE2/2352"@
    }
}

/// A single-track cue sheet whose FILE line names the image at `image_path`.
pub open spec fn spec_raw_cd_cue_sheet(image_path: Seq<char>, mode: u8) -> Seq<char> {
    "FILE \""@ + image_path + "\" BINARY\n  TRACK 01 "@ + track_type(mode) + "\n    INDEX 01 00:00:00\n"@
}

/// The cue sheet that lets `chdman createcd` read the raw CD image at the absolute
/// path `image_path`, so that the cue can be written into a temporary directory and
/// still find the image wherever it is: one BINARY file, track 01 of type
/// MODE1/2352 (mode 1) or MODE2/2352 (any other mode), index 01 at 00:00:00.
pub fn raw_cd_cue_sheet(image_path: &str, mode: u8) -> (s: String)
    ensures
        s@ == spec_raw_cd_cue_sheet(image_path@, mode),
{
    let track = if mode == 1 { "MODE1/2352" } else { "MODE2/2352" };
    let mut s = String::new();
    s.append("FILE \"");
    s.append(image_path);
    s.append("\" BINARY\n  TRACK 01 ");
    s.append(track);
    s.append("\n    INDEX 01 00:00:00\n");
    s
}

/// The name of the cue sheet written for the image `image_name`: its stem and `.cue`.
pub fn raw_cd_cue_name(image_name: &str) -> (s: String)
    ensures
        s@ == spec_stem(image_name@) + ".cue"@,
{
    let mut s = file_stem(image_name);
    s.append(".cue");
    s
}

/// Extensions of descriptor files, whose size says nothing about the disc.
pub open spec fn is_descriptor_extension(e: Seq<char>) -> bool {
    e == "cue"@ || e == "gdi"@ || e == "toc"@
}

/// The warning about an image of `len` bytes that is no whole number of sectors.
pub open spec fn misaligned_warning(len: u64) -> Seq<char> {
    "file size ("@ + decimal(len as nat)
        + " bytes) is not divisible by any standard sector size (2048/2324/2336/2352/2368/2448). The file may be corrupt or truncated."@
}

/// The preflight warning for the file named `name` of size `length`: none for
/// descriptor files (`.cue`, `.gdi`, `.toc`) or when the size could not be read;
/// otherwise a warning exactly when the size is non-zero and not sector-aligned.
pub open spec fn spec_sector_size_warning(name: Seq<char>, length: Option<u64>) -> Option<Seq<char>> {
    if is_descriptor_extension(lower_extension(name)) {
        None
    } else {
        match length {
            Some(l) => if l > 0 && !spec_is_sector_aligned(l) {
                Some(misaligned_warning(l))
            } else {
                None
            },
            None => None,
        }
    }
}

/// Descriptor files are never warned about, whatever their size: a `.cue`, `.gdi`
/// or `.toc`, in any case, counts as a descriptor, so its size is not even read.
pub proof fn law_descriptor_files_are_never_warned(name: Seq<char>, length: Option<u64>)
    requires
        has_extension(name, "cue"@) || has_extension(name, "gdi"@) || has_extension(name, "toc"@),
    ensures
        is_descriptor_extension(lower_extension(name)),
        spec_sector_size_warning(name, length) is None,
{
    reveal_strlit("cue");
    reveal_strlit("gdi");
    reveal_strlit("toc");
    assert(is_lower_word("cue"@) && is_lower_word("gdi"@) && is_lower_word("toc"@));
    lemma_lower_extension_is(name, "cue"@);
    lemma_lower_extension_is(name, "gdi"@);
    lemma_lower_extension_is(name, "toc"@);
}

/// Any other image is warned about exactly when its size is known, non-zero, and no
/// whole multiple of 2048, 2324, 2336, 2352, 2368 or 2448 bytes, and the warning
/// names that size.
pub proof fn law_misaligned_images_are_warned(name: Seq<char>, length: Option<u64>)
    requires
        !has_extension(name, "cue"@) && !has_extension(name, "gdi"@) && !has_extension(name, "toc"@),
    ensures
        spec_sector_size_warning(name, length) is Some <==> (length matches Some(l) && l > 0 && l % 2048 != 0
            && l % 2324 != 0 && l % 2336 != 0 && l % 2352 != 0 && l % 2368 != 0 && l % 2448 != 0),
        spec_sector_size_warning(name, length) matches Some(w) ==> (length matches Some(l) && w == "file size ("@
            + decimal(l as nat) + " bytes) is not divisible by any standard sector size (2048/2324/2336/2352/2368/2448). The file may be corrupt or truncated."@),
{
    reveal_strlit("cue");
    reveal_strlit("gdi");
    reveal_strlit("toc");
    assert(is_lower_word("cue"@) && is_lower_word("gdi"@) && is_lower_word("toc"@));
    lemma_lower_extension_is(name, "cue"@);
    lemma_lower_extension_is(name, "gdi"@);
    lemma_lower_extension_is(name, "toc"@);
    if let Some(l) = length {
        let sizes = standard_sector_sizes();
        assert(sizes[0] == 2352 && sizes[1] == 2048 && sizes[2] == 2336 && sizes[3] == 2324 && sizes[4] == 2448
            && sizes[5] == 2368);
        if l > 0 && !spec_is_sector_aligned(l) {
            assert(l % sizes[0] != 0 && l % sizes[1] != 0 && l % sizes[2] != 0 && l % sizes[3] != 0 && l % sizes[4]
                != 0 && l % sizes[5] != 0);
        }
        if spec_is_sector_aligned(l) {
            let i = choose|i: int| 0 <= i < sizes.len() && l % (#[trigger] sizes[i]) == 0;
        }
    }
}

/// The sector-alignment preflight for the file named `file_name`; `length` reads its
/// size (`None` when that fails) and is called only for files that are no
/// descriptors. When the reader always gives the same size, the warning is the one
/// [`spec_sector_size_warning`] gives for that size.
pub fn sector_size_warning(file_name: &str, length: impl FnOnce() -> Option<u64>) -> (r: Option<String>)
    requires
        !is_descriptor_extension(lower_extension(file_name@)) ==> call_requires(length, ()),
    ensures
        is_descriptor_extension(lower_extension(file_name@)) ==> r is None,
        !is_descriptor_extension(lower_extension(file_name@)) ==> exists|l: Option<u64>|
            call_ensures(length, (), l) && match r {
                Some(w) => spec_sector_size_warning(file_name@, l) == Some(w@),
                None => spec_sector_size_warning(file_name@, l) is None,
            },
        forall|known: Option<u64>|
            (forall|l: Option<u64>| call_ensures(length, (), l) ==> l == known) ==> match r {
                Some(w) => #[trigger] spec_sector_size_warning(file_name@, known) == Some(w@),
                None => spec_sector_size_warning(file_name@, known) is None,
            },
{
    let e = lower_extension_exec(file_name);
    let e = e.as_str();
    if str_eq(e, "cue") || str_eq(e, "gdi") || str_eq(e, "toc") {
        return None;
    }
    let l = length();
    assert(call_ensures(length, (), l));
    assert(!is_descriptor_extension(lower_extension(file_name@)));
    match l {
        None => {
            assert(spec_sector_size_warning(file_name@, l) is None);
            None
        },
        Some(len) => {
            if len > 0 && !is_sector_aligned(len) {
                let mut w = String::new();
                w.append("file size (");
                let digits = radix_string(len as u128, 10);
                w.append(digits.as_str());
                w.append(" bytes) is not divisible by any standard sector size (2048/2324/2336/2352/2368/2448). The file may be corrupt or truncated.");
                Some(w)
            } else {
                None
            }
        },
    }
}

} // verus!
