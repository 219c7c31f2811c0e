# pam_linuxcampam

Face authentication for Linux logins: a PAM module asks a daemon over a Unix
socket to recognise the user in front of an (IR) camera; a command-line tool
enrolls and manages the users' face embeddings; a proximity sensor can wake
and lock the screen.

## Layout

- `src/` — the verified library (Verus). Every function carries a contract:
  - `ini`, `config`, `pam/pam_config`: the configuration files and their defaults;
  - `ipc_protocol`: the socket protocol, with its round-trip laws;
  - `daemon`: what each request is answered, and the proximity state machine
    (wake, lock);
  - `auth`: the lockout tracker, the verification verdict under each policy,
    the embedding slots and labels;
  - `camera`: V4L2 frame decoding to RGB, frame averaging, the device locks;
  - `pam/pam_module`: the decisions of the PAM conversation;
  - `hardware_manager`, `sensor_factory`, `parsers`: the presence sensor;
  - `logger`, `utils`, `cli`, `text`: logging filter, device classification,
    command lines and the text helpers the rest is built on.
- `tests/` — the test suite, run against the compiled library.
- `app/` — the programs around the library: the daemon loop, the command-line
  tool, the PAM entry points, V4L2 and HID device access, the face models and
  the users' JSON files.
