# rshome

The verified core of the rshome device-configuration SDK: validation of
ESPHome-style device configurations, their export and import, board and
adapter code generation, and the decisions of the ESPHome Native API device
link (discovery records, session handshake, supervision).

## Layout

- `src/` — the library, written in Verus. Every function carries a contract
  and is proved.
  - `json`, `text`, `keyed`, `raw`, `error`, `validated`, `catalog`: data
    model — JSON values, configs, diagnostics, the component catalog.
  - `stages/`: the validation stages, one module each (packages,
    substitutions, extend/remove, variants, external sources, the esphome
    block, component loading, schemas, ids, final checks, pins, exclusive
    groups, profiles, secrets).
  - `pipeline`, `pipeline_run`: the run of the stages, which stops at the
    first fatal stage, and the assembly of the validated config.
  - `export`, `board_yaml`, `codegen`: YAML import/export, board files,
    Home Assistant adapter source.
  - `device_link`, `link_manager`, `session_fsm`, `noise_frame`,
    `supervisor`: device ids, the manager's records, the handshake state
    machine, Noise frame layout, actor supervision.
- `tests/` — tests of the library.
- `app/` — host glue: serde forms of the library types, file output, the
  registry adapters of a validation run, floating-point climate checks, and
  the device-link message loops.
