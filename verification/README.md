# aurex

Aurex (`ax`) builds small Java applications: it reads `ax.toml`, resolves
Maven dependencies, compiles with `javac`, copies resources and writes a
runnable jar (a thin jar whose manifest names its dependency jars, or a fat
jar holding them).

The library under `src/` holds the tool's logic with its contracts, proved
by Verus:

- `config`: `ax.toml` as values, defaults and the project's paths.
- `maven`, `pom`, `pom_xml`, `xml`, `resolution`, `resolver`, `fetch`:
  coordinates and repositories, POM reading (parents, BOM imports,
  properties, dependency management) and transitive resolution as a
  function of the POMs and jars fetched so far; the search over
  repositories for one file.
- `manifest`: adding and removing `[dependencies]` entries in `ax.toml`
  text, keeping every other item of the file as it was.
- `jar`: manifests (with line wrapping) and the entries of thin and fat
  jars (first entry of a name wins, service files merged).
- `sources`, `tools`, `paths`, `order`: which files are compiled, copied
  and formatted, and the command lines of `javac`, JUnit and the
  formatters.
- `stages`, `report`: the build as a sequence of stages, and the text the
  plain reporter writes for each event.
- `text`, `strmap`: string and map helpers with their specifications.

`app/` is the command-line program around the library: argument parsing,
the file system, processes, HTTP, zip archives and the terminal animation.
