# da — Deploy Automático

`da` deploys a frontend build to a server over SSH in one command
(`da deploy`): it rebuilds locally, packs the output into an in-memory
`tar.gz`, backs up and cleans the remote directory, and unpacks the new
build there in a single round trip. `da init` writes `.da/config.toml`,
`da undo` restores the last remote backup and `da upgrade` installs the
latest release.

## Layout

- `src/` — the library, verified with Verus: every function carries a
  `requires`/`ensures` contract proved against spec functions.
  - `pipeline` — the deploy steps as a state machine (`DeployRun::next`),
    with the laws that a dry run does no work, that nothing connects after a
    failed build and that the remote is backed up before it is cleaned.
  - `remote`, `hostkey` — which remote directories may be wiped, the wipe
    command, shell quoting, host key decisions and fingerprints.
  - `daignore`, `deploy` — `.daignore*` rules (matched by the `ignore`
    crate), the upload plan, the archive members and the `tar.gz` packed from
    them (through the `tar` and `flate2` crates), and the decisions of a
    remote clean (refuse, wipe, or delete only the unprotected listed files).
  - `backup`, `init`, `upgrade`, `config`, `cli` — backup naming and
    selection, the `.gitignore` update, release selection and extraction,
    configuration values.
  - `text`, `paths`, `order`, `size` — text, Unix path and ordering helpers,
    and the exact integer model of the size shown in the log.
- `app/` — the program around the library: argument parsing, prompts,
  files, the build process, the SSH session and HTTP.
- `tests/` — tests of the library.
