# wrapper-rust

An Apple Music playback daemon whose decisions are proved with Verus.

- `src/` is the verified library: MP4 fragment sanitizing and sample ranges,
  HLS playlist parsing and variant choice, TTML lyrics, the login/session
  state machine of the control protocol, the Subsonic API (authentication,
  records, XML documents), catalog shaping, configuration, logging and the
  HTTP error and health rules. Calls into `regex`, `reqwest`'s URL parser,
  `hex`, `md5`, `num_cpus` and `roxmltree` stand behind small trusted
  wrappers whose contracts name what those crates compute.
- `tests/` exercises the library on concrete values.
- `app/` is the program around it: command line, HTTP servers, downloads,
  external tools, the native runtime interface and the chroot launcher.
