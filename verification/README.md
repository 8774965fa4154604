# spor

A small git timeline for the terminal. "Spor" is Norwegian for *track* or
*trace*: what you follow to see where a branch has been.

The logic is a library whose functions carry contracts that Verus proves. The
program around it runs git, reads keys and writes to the terminal.

- `src/text.rs` — text as a sequence of characters
- `src/command.rs` — commands to run, and what their replies say
- `src/git.rs` — what git is asked, and how its answers are read
- `src/graph.rs` — lanes of the graph, with the main branch leftmost
- `src/color.rs` — hues by branch prefix, shades by branch name
- `src/remote.rs` — hosts of remotes, pull and merge requests
- `src/job.rs` — background jobs that may ask for a password
- `src/cells.rs`, `src/canvas.rs` — widths of text, steps of painting
- `src/ui.rs` — layout; `src/ui/` — rows, panes and boxes
- `src/app.rs` — the state; `src/app/` — keys, work and the whole screen
- `app/` — the terminal program

An operation that needs commands is a function of the replies so far: it names
the next command or is done. A key changes the state at once and may call for
such an operation.

## Keys

Everywhere: `?` help, `q` or `Ctrl-C` quit, `Tab` switch between graph and
files, `r` refresh, `b` branch picker, `R` open a pull or merge request, `P`
pull (fast-forward only), `p` push (warns if behind).

Graph: `j`/`k` or arrows move, `J`/`K` scroll the diff, `Enter` or `o` check out
the branch at the selected commit, `n` new branch from it.

Files: `j`/`k` or arrows move, `Space` stage or unstage, `c` commit.

Branch picker: type to filter, arrows move, `Enter` check out, `Esc` cancel.

When the working tree blocks a switch: `s` stash and switch, `c` or `Esc`
cancel.
