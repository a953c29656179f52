# dig_stack

`dig_stack` is the library behind `dig`, a git wrapper for stacked branches: each tracked
branch hangs on a parent branch or on trunk, and commands create, adopt, move, merge, clean
up and restack those stacks, and open pull requests for them.

The library in `src/` is written in Verus. It holds the store model and its migrations, the
branch graph, the plans of every command, the restack queue, the state machines that drive
a cleanup and the sync display, the parsers of git and GitHub command output, and the text
the commands print. Each public function carries a contract over a mathematical model of its
data, and the laws that span several functions stand as public proof functions.

`app/` is the command-line program around it: argument parsing, running git and `gh`, the
store files and their lock, and the terminal. It hands the library plain values and carries
out what the library decides.

`tests/` runs the library on concrete cases.
