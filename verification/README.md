# htldoc

A tool to write HTL documentation and diploma theses in Markdown, Typst and
LaTeX, built with Nix.

- `src/` is the verified library (Verus): which source files take part in a
  build, the chapter text and Nix expressions of a build, the trimming of
  command output into versions, the `init` templates, and the commit listing
  (which commits get a PDF, the PDF content hash, the HTML index).
- `app/` is the command line program around it: argument handling, running
  `nix`, `pandoc` and `pdflatex`, git, and the file system.
- `tests/` runs the library on concrete values.

Commands: `htldoc init diploma [PATH]`, `htldoc build [-v]`,
`htldoc gen_listing [-v]` (alias `gl`).
