# bin_chd_converter

The decision logic of a desktop batch converter between disc images (CUE/BIN, GDI,
ISO, IMG, raw CD dumps, PBP, CSO, ECM, MDS, archives) and MAME's CHD format, proved
with Verus.

- `src/` — the verified library:
  - `routing` — which `chdman` command handles which input, how inputs are prepared;
  - `disc` — raw CD sector recognition, sector-size preflight, cue sheets for raw dumps;
  - `paths` — paths `chdman` can take as they are, the staging directory and names,
    where each output goes without overwriting anything;
  - `listing` — the sorted list of files a batch processes;
  - `output` — splitting `chdman` output into lines and finding progress figures;
  - `batch` — reactions to `chdman` events, per-file logs, source deletion, batch end;
  - `tools` — locating `chdman`, 7-Zip and the format helper;
  - `names`, `text` — file-name and character helpers.
- `app/` — the Tauri program around it: window, file system, processes, threads,
  and the floating-point progress figures.
- `tests/` — tests of the library.
