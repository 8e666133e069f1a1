# codex_core (safety checks)

Verified decisions on whether a patch or a shell command proposed by the
agent may run automatically, must be approved by the user, or is rejected,
and the head-and-tail summary of command output that the model is shown.

- `src/safety.rs`: `assess_patch_safety`, `assess_command_safety`,
  `assess_safety_for_untrusted_command`, `get_platform_sandbox`,
  `is_write_patch_constrained_to_writable_paths`, approved commands.
- `src/policy.rs`: approval and sandbox policies, writable roots.
- `src/path.rs`: the lexical Unix path model (components, join, normalize).
- `src/patch.rs`: the changes of a patch, one per path.
- `src/text.rs`: UTF-8 byte budgets, lines, decimal rendering.
- `src/exec_output.rs`: command output and its summary for the model.
- `src/shell.rs`: the user's shell and when commands go through it.
- `app/`: reads the operating system and `$TMPDIR` from the process.

Paths are modelled as Unix paths. Where the operating system is Windows,
`assess_patch_safety` does not count a workspace-write patch as confined to
the writable roots.
