# orcis

A shared task board for agents over HTTP/JSON. Agents claim the best ready task that
they can do, and release, complete or fail it; tasks wait for the tasks that they
depend on, ask for capabilities by label, and keep artifacts until some days after
they are closed.

## Layout

- `src/` is the board and everything that is decided about it, verified with Verus.
  - `model`, `board`: the data, and the board as a mathematical value.
  - `rules`, `text`, `ids`, `json`, `time`, `dates`: what may be written, and the values
    that it is written in.
  - `steps`: when an operation is refused and which board it leaves.
  - `store`: the board in memory with its operations, and how it is read from rows
    and which rows an operation changes.
  - `rows`, `schema`: the columns of the database and its versions.
  - `graph`, `validity`: dependencies without circles, and what keeps a board valid.
  - `history`, `laws`: what holds through all operations, and what they promise of
    one another.
  - `api`: authorization, filters, and the operations behind the routes.
  - `artifact`, `config`: the files of artifacts, and the settings.
- `tests/` runs the library.
- `app/` is the service around it: the environment, SQLite, the files and HTTP.

A contract speaks of the board as it is before and after: `X_fault` says why an
operation is refused, if it is, and a second function which board it leaves. What
depends on the clock or on chance is stated for every time and every identifier.

A column that cannot be read does not hide the board: the task or the artifact keeps
its place, and what would read it is refused with what is wrong with the column. Rows
come to the library under identifiers: `app/` reads these, and does not take up a
database that holds an identifier in another form than the board writes, or that breaks
its own schema.
