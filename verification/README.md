# c2rust-transpile

The logic of a C-to-Rust transpiler around its translator, written in Verus.

- `src/` is the verified library.
  - `assembly/`: from GNU inline assembly, as Clang hands it out, to the operands,
    template and options of Rust's `asm!`.
  - `diagnostics`, `errors`: which records are shown and how, what is captured for
    one file, and the errors of a translation.
  - `kernel_idioms`: the opt-in rewrites for Linux kernel sources.
  - `paths`, `names`, `config`, `crates`: paths and their components, names of
    modules and crates, where output goes, what a crate depends on.
  - `session`, `requirements`, `single`, `batch`, `tools`: the decisions of a run
    over the link commands of a project, of the translation of one file, and of the
    programs that are run around it.
  - `text`: text as sequences of characters.
- `tests/` runs the library.
- `app/` is the transpiler around the library: files, processes, logging, and Rust
  syntax trees. The parts that read C and write Rust stand behind its trait
  `Frontend`.
