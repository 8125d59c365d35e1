# Controwly

Controwly switches game controllers off and on again, and keeps a record of
every controller that it switched off, so that each one can be restored.

- `src/` is the verified library. It decides which input devices are
  controllers, which kernel function or device node may be touched, what is
  written to the recovery records, and what each command answers.
- `app/` is the program around it: the window and the tray, the state file, the
  privileged Linux helper, sysfs, and the Windows device interfaces. It carries
  out what the library asks for and hands back what the system answered.
- `tests/` runs the library on concrete values.

| Modules | Subject |
| --- | --- |
| `text`, `wide_text`, `paths`, `sorting`, `ordered`, `names` | texts, paths, orders and small collections |
| `platform`, `controller`, `service`, `invariants`, `restore_laws` | devices, recovery records, commands and what they keep |
| `hid_descriptor`, `capability`, `input`, `identity`, `fingerprint` | what a Linux input device is, and how it is told from others |
| `function`, `discovery`, `acceptance` | the kernel function behind an input device |
| `journal`, `recovery`, `removal`, `helper`, `helper_laws` | the privileged helper, its journal and its marker |
| `linux`, `linux_helper`, `linux_switch` | the Linux platform |
| `devnode`, `link_collections`, `link_tree`, `interfaces`, `family`, `xusb` | what Windows says of its device nodes |
| `inventory`, `locate`, `scan_laws` | the controllers of a scan, and finding one of them again |
| `windows`, `windows_switch` | the Windows platform |
| `shell`, `updater` | the application around the controllers, and its updates |
