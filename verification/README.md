# cloudreve_vfs

The logic of an on-demand drive: a remote tree that is listed as it is visited, a block cache in front of
ranged downloads, drafts that take every write, and a queue that uploads them when they have come to rest.
It is written in Verus. Every function of `src/` states what it does, and is proved to do it.

## Layout

`src/` decides and computes. It holds no file, no socket and no thread: a function that needs one says what
is to be done, and another takes what came back.

| module | what it holds |
| --- | --- |
| `tree` | nodes, listings and how long they are trusted |
| `cache`, `blockset`, `blocks` | cached versions, eviction, which bytes to fetch and how a read is put together |
| `drafts`, `datafile` | local copies that are written to, and what writing does to a file |
| `writeback` | the queue of uploads: timers, retries, conflict copies, reports |
| `vfs` and its submodules | the file system: handles, names, reads and writes, one upload from start to end |
| `frontend_util`, `nfs`, `fuse`, `mount` | what the two front ends and the mounting need to decide |
| `commands` | what the desktop program needs to decide |
| `error` | failures and their messages |
| `text`, `scan`, `hash`, `clock`, `keymap`, `idmap`, `reach` | strings, digests, times, maps and reachability |
| `*_laws` | what holds over several operations |

`app/` is ordinary Rust around it: files, HTTP, timers, the NFS and FUSE front ends, mounting, and the
commands of the desktop program. The API client, the windowing toolkit and the drive manager are behind
traits there.

`tests/` runs the library, most of it against a server and a disk in memory.

## What is trusted

The library calls `sha2`, `chrono`, `urlencoding` and `uuid`, and two functions of the standard library that come
without a contract. Each call is in a small function marked `external_body`, whose comment says what is taken
for granted.
