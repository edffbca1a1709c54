# deb_installer

The logic of a graphical installer for Debian packages, verified with Verus.

- `src/` — the verified library:
  - `utils/deb_reader.rs`: parsing the control fields printed by `dpkg-deb --info`;
  - `utils/deb_files.rs`: classifying the files of a package for preview;
  - `utils/dpkg.rs`: splitting tool output into lines, reading `dpkg-query` answers;
  - `views/files_tree.rs`, `views/tree_laws.rs`: the folder tree of a package's files and what it shows;
  - `views/files_preview.rs`, `views/install.rs`, `views/packages.rs`: the screens' state machines;
  - `models/`: package records and the installed-package list;
  - `i18n.rs`: choosing the interface locale;
  - `text.rs`: the string operations the rest is built from.
- `app/` — the program around it: the window and widgets, processes, files and JSON.
- `tests/` — tests of the library on concrete values.
