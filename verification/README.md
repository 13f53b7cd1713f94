# eak — Electronics Agent Kit runtime

An event-sourced engineering runtime that turns a design intent into requirements, an
architecture, a schematic, a bill of materials and a PCB layout, phase by phase, with
every decision recorded and every artifact traceable back to the intent.

## Layout

- `src/` — the verified library (Verus).
  - `domain`, `units`, `ports`, `protocol`: the entities, their invariants, events and
    the capability requests agents make.
  - `state`, `runtime`: the engineering state as a fold of the event log, and the
    kernel whose seam validates every proposal and commits exactly its events. The
    kernel invariant is that its state is the replay of its log.
  - `fsm`, `orchestrator`: phase state machines, the execution engine, and the
    workflow with bounded loop-back edges.
  - `compiler`, `lowering`: the IR projections (requirement, engineering, schematic,
    BOM, PCB, manufacturing) and their invariants.
  - `engines`, `rules`, `connectivity`, `gates`, `checks`: verification rules, the
    union-find behind open-net detection, and the gates that raise findings without
    duplicates.
  - `agents`, `phases`, `schematic`, `procurement`, `layout`: the phases.
  - `reasoning`, `cli`: the cassette reasoner, the provider's output mapping, and the
    provenance trace.
- `app/` — the command-line program: event file, cassette loading, the live provider's
  HTTP exchange, and the phases whose work is real-number geometry (floor plan,
  placement, routing, and the numeric design rules).
- `tests/` — executable tests of the library.
