# linux_themer

Theme discovery and theme configuration for a KDE/GTK desktop theming tool,
as a verified library, with the desktop application around it.

- `src/`: the library, verified with Verus. Text and INI handling (`text`,
  `ini`), colors (`color`, `palette`), slugs (`slug`), Xcursor decoding
  (`xcursor`), installed-theme listing (`scan`, `installed`, `probe`, `paths`,
  `order`), and what applying, saving and launching do (`plans`, `profiles`,
  `ocs`). The disk is reached only through probes handed in by the caller.
- `tests/`: tests of the library on concrete values.
- `app/`: the Tauri application: commands, file system, processes, network.
