# td

A command-line manager for [todo.txt](https://github.com/todotxt/todo.txt)
task lists, with time contexts (`@today`, `@tomorrow`, `@thisweek`, ...) that
move along by themselves as the days pass.

The library under `src/` is written in Verus and verified: every public
function states what it computes, and the laws that tie functions together
are proved there.

- `text`, `classes`, `grammar`: white space, words, the todo.txt line grammar
  (completion mark, dates, priority, `+project`, `@context`, `key:value`).
- `date`: calendar dates as plain numbers; the date arithmetic, formatting and
  parsing are done by `chrono`.
- `task`: parsing a line into a task, rendering it back, tags, due dates and
  recurrence (`rec:1w`, `rec:+1m`).
- `filter`: selecting tasks by project, context, priority and text.
- `time_context`: the time contexts, their automatic transitions and the
  context a due date belongs in.
- `todo_file`: a todo.txt file in memory, numbered by line.
- `commands`: what each command does to the tasks and reports.
- `config`, `cli`, `output`: settings, the files a command acts on, the
  arguments that carry data, and how a task is styled.
- `roundtrip`: a rendered task parses to the same task; a saved file loads to
  the same tasks.

`app/` holds the program around the library: argument parsing with `clap`,
files, the settings file in TOML, and colored output.
