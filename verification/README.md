# d3os

The verified core of the D3OS terminal stack and of the kernel services around it,
written in Verus. Everything under `src/` carries contracts and is proved; `app/` is
the ordinary Rust that talks to the kernel, to devices and to other processes.

| Module | What it holds |
| --- | --- |
| `terminal` | the screen of a session: escape sequences, cells, cursor, colours, scrollback, damage; what has to be drawn; the status bar |
| `worker` | line editing and its echo, key decoding, key frames, the blinking of the cursor |
| `session` | control records, paths, the environment, the session manager, the sessions that the emulator shows |
| `shell` | the line that the shell edits |
| `kernel` | the table of open objects and its owners, the list of processes |
| `virtio` | virtqueues, PCI capabilities, device initialization, the GPU protocol and driver |
| `thread` | threads and the functions that they are to run |
| `httpd`, `pipetest` | what these programs decide and say |
| `text` | strings, byte offsets, numbers in digits |

Properties that span several functions are public proof functions whose names begin
with `law_`. Calls into other crates stand behind small functions, each with a doc
comment that says what is taken for granted of the call.
