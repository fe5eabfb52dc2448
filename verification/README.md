# fuckace

A Windows tray tool that keeps an anti-cheat service (`SGuard64.exe`,
`SGuardSvc64.exe`) from taking more of the machine than it needs: it binds the
service to chosen cores, lowers its priorities, presets per-program priorities
in the registry, starts itself at logon through a scheduled task, and trims the
working sets of ordinary background processes.

`src/` is the verified library (Verus): every decision and every text the tool
produces, with contracts.

- `affinity` – which cores to bind to, the affinity mask, its printed form.
- `restrict` – reports of each setting, of each process, and of a whole pass.
- `task_xml` – the autostart task document, XML escaping, reading the command
  back, comparing paths.
- `utf16` – UTF-16LE encoding and lossy decoding of the task file.
- `registry` – key paths and the lines shown for priority presets.
- `memory` – protected processes, entry names, the counts of a trimming pass.
- `report`, `system_info` – the report image, the processor model, WebView2.
- `machine` – the logical-processor count read through `sysinfo`.
- `text` – decimal numerals, joining, searching, replacing, trimming.

`app/` is the Windows shell around it: tauri commands and tray, the Windows API
and registry calls, files and `schtasks`.
