# snow_storage

The storage rules of a desktop assistant that edits code: what it keeps of
conversations, configuration, Git repositories and working directories, and how
it changes them. The rules are written in Verus, with contracts that are proved.

- `src/chat`: conversations as tables; exchanges, context, forking, truncating,
  deleting, searching and paging.
- `src/checkpoint`: what a working directory was before a command ran, what the
  command changed, and how to go back; on this machine and on others.
- `src/config`: export and import of configuration packages, with secrets hidden
  and put back, and copies of the databases.
- `src/git`: building `git` commands and reading what they print.
- `src/sensitive.rs`, `src/theme.rs`, `src/workspace.rs`: rules for commands,
  files of themes, and entries of workspaces.
- `src/text.rs`, `src/order.rs`, `src/rows.rs`, `src/error.rs`: what these share.

Files, processes and databases are not touched in `src`. An operation that needs
them is a step: it takes the replies so far and returns what to ask for next, or
its result. `app` performs what is asked for, with the file system, `git`, SQLite
and the remote client.

`tests` runs the library on concrete values, and holds the chat tables against
the SQL that they stand for.
