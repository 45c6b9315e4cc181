# datssol_bot

A bot for DatsSol, a turn-based terraforming game. The decision core is a
library verified with Verus; a thin binary around it talks HTTP to the arena.

## Layout

- `src/` — the verified library.
  - `geom/`, `graph/` — grid distances, boosted cells, storm disks; the
    4-connectivity graph of our plantations, reachability from the main
    plantation and cut vertices.
  - `model/` — the normalized game state, turn-to-turn memory (births,
    sightings, respawn detection), derived parameters, and the small maps
    and sets they are kept in.
  - `predict/` — hp and construction damage, completion of cells, storm
    extrapolation, the settlement limit.
  - `tactics/` — build candidates and cell features, repairs, relays,
    sabotage targets, beaver lairs, upgrades, relocation of the main plantation.
  - `planner/` — task assignment, the turn plan and its fallback, and the
    laws that the assignments obey.
  - `Memory` keeps its maps and sets in `model/store.rs`: `IdMap`, `PosMap`
    and `PosSet`, vectors of entries with a type invariant (no key twice) and
    a `Map`/`Set` view. vstd specifies `HashMap` contents only through a
    key-view that its hash and equality must obey; with `String` and struct
    keys nothing beyond that was provable, so the library keeps its own small
    maps, whose every operation is proved against the view.
  - Every public function states its result in `ensures`; the `*_check`
    functions decide the range conditions that some `requires` ask for.
- `app/` — the process: TOML settings, the HTTP client and local proxy,
  per-turn JSON logs, and the float-weighted ranking of tasks.
- `tests/` — tests of the library on concrete game situations.

## Running

```sh
export DATSSOL_TOKEN=<token>
export DATSSOL_SERVER=test   # or prod
```

`DATSSOL_CONFIG` points to the TOML settings (built-in defaults otherwise),
`DATSSOL_LOG_DIR` to the per-turn logs, and `DATSSOL_DRY_RUN=1` skips sending
commands.
