# fixmanager

A manager for the fix scripts of several games' mod folders, with its rules
verified in Verus.

- `src/` is the verified library: version strings and release tags
  (`version`, `order`), the supported games (`games`), the settings and
  their rules (`config`), release handling and update decisions (`release`),
  scripts (`scripts`), file locations (`paths`), the search for a game's mod
  folder as a state machine (`search`), the updater's wait for a locked file
  (`unlock`), the PowerShell commands it builds (`launch`), and text and
  number helpers (`text`, `numbers`).
- `app/` is the desktop shell: the Tauri commands, file, network and process
  work, and the updater program. It drives the library's state machines and
  passes plain values in and out.
- `tests/` runs the library on concrete values.
