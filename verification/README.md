# nex

A verified library for the nex build system and its bootloader.

- `src/` is verified with Verus: manifest handling, dependency closures,
  the wave scheduler of parallel builds, OSTree naming and metadata, the
  runtime dependency scanner and closure, output checksums, the GPT,
  cpio, TPM and LUKS2 logic of the bootloader.
- `app/` is the builder's command line: it reads and writes files, runs
  `ostree` and build scripts, and hands plain values to the library.
- `tests/` runs the library on concrete inputs.

A build's checksum is the SHA-256 of each output file's relative path and
content, NUL-terminated, in path order, after the plan (the hash of the manifest without its
checksum field; `builder::outputs::build_checksum`);
`checksum_action` decides whether a build verifies, updates, records or
fails against the manifest's recorded checksum.
