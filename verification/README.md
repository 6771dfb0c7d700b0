# embarch-ui

The browser tabs of an embedded test bench: the boards on it, the studies that are
authored for a firmware repository, the runs that are going on, and the captures that
past runs left.

The decisions behind the tabs are a library of verified functions, under `src/`. Each
states what it returns in a contract that Verus proves; what holds of several of them
together stands beside them as proof functions.

| Module | What it decides |
|---|---|
| `live_study` | one study being watched: its console lines, its series, its marks, the axis that grows with its trace |
| `time_chart` | every stream of a finished study on one axis, binned for a window |
| `studies_api` | the tables, consoles and captures of past studies, page by page |
| `study_designer` | the project that is open, what a study requires and captures, what is saved, loaded, checked and run |
| `topology` | the board catalog, the saved benches, the checks of the declared bench |
| `firmware_build` | check, build, flash and reset; the logs that are kept |
| `trace` | which taps are traces, and whether one can be drawn |
| `logs`, `snapshot`, `config`, `assets` | the log tail, the picture of the bench, the address, the pages |
| `text`, `path`, `sorting`, `shelf`, `roster`, `json`, `double`, `reading`, `projection`, `streams` | what the others are made of |

Doubles are held as their bits; `double` computes with whole numbers what the bins need
of them, and `reading` orders them.

`app/` serves the pages: it reads files, asks the core, and hands plain values to the
library and back. `tests/` runs the library on values.
