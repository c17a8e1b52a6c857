# file_toolkit

The verified core of FileToolkit, a desktop tool for batch file work (renaming, finding
duplicate files, audio conversion, OCR of scanned PDFs) whose user interface calls a Rust
backend.

- `src/` is the library, verified with Verus: the error type and its texts, the shared task
  types, the batch worker's cancel record and its settling and progress reports, and the
  decisions of each command (rename plans and their conflicts, grouping duplicates by size and
  content, video selection, ffmpeg command lines, the OCR job's steps in page order, tool
  probes).
- `app/` is the Tauri backend around it: the commands that read folders, run ffmpeg,
  Tesseract, `pdftoppm` and `pdftk`, run batches on a thread pool, and hand serialisable
  copies of the library's types to the front end.
- `tests/` runs the library on concrete values.
