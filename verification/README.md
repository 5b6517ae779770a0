# dapintar

A Debug Adapter Protocol server for Java, Groovy and Kotlin programs. It speaks
JDWP, the debug wire protocol of the JVM, and maps classes back to the source
files they were compiled from.

## Layout

- `src/` is the library, verified with Verus. It performs no input or output: it
  computes what is to be asked, run or sent, and takes what came back.
  - `text`, `number`, `wire`, `path`, `list`, `files`, `json`: text, numbers,
    bytes, paths, directory contents and JSON values.
  - `types`, `transport`: the messages of the Debug Adapter Protocol and how they
    are framed.
  - `jdwp`: commands, replies and events of JDWP, and the bookkeeping of a
    connection.
  - `class_file`, `source_map`: which class comes from which source file.
  - `main_class`, `build_tools`, `launcher`: finding the class to start, compiling
    the project, and starting it.
  - `server`: the session with the editor. Requests and events lead to messages
    and to work; work that asks the JVM several questions in a row (setting
    breakpoints, gathering a snapshot) is a state machine with `next` and
    `supply`. What holds across requests is stated in `server::laws`.
- `app/` is the program: processes, sockets, files, and the loop that hands the
  library what happens.
- `tests/` runs the library, with a simulated JVM and a directory tree in memory.

Proof functions whose names begin with `law_` state what the library promises.
Functions marked `external_body` and `assume_specification` items are the only
ones whose contracts are taken on trust; their comments say what they call.
