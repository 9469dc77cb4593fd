# ecsctl

A command line for services on Amazon ECS, in the manner of kubectl: deploy a
service from a specification, look at it, run commands in it, copy files in and
out, restart, scale and schedule it, and export it again.

The rules of the program are a library that is verified with Verus; the program
around it talks to AWS.

## Layout

- `src/` is the library.
  - `apply`, `validate`, `depgraph`: service specifications, and which of them can
    be deployed.
  - `yaml`: documents, and settings that are made in them.
  - `ecs`, `task`, `export`, `roundtrip`: what ECS is asked for, what it reports,
    and that one leads back to the other.
  - `deployment`, `restart`, `recreate`: when a deployment has come to rest, and
    restarts that stop the old task first.
  - `config`, `alias`, `service`, `container`, `exec`, `cp`, `sync`, `shell`: short
    names, places inside containers, the commands that run there, and how a shell
    reads them.
  - `describe`, `table`, `json`, `jsonpath`, `logs`, `logsearch`, `instant`: what is
    reported.
  - `scheduler`: schedules that scale services.
  - `text`, `number`, `order`, `strmap`, `textmap`, `error`: the ground the rest
    stands on.
- `tests/` runs the library.
- `app/` is the program: arguments, files, and requests to AWS.

## What is proved

The functions of the library state what they return, down to the messages. Beyond
that, among other things:

- a specification is accepted exactly if it describes a service that can be
  deployed, and an accepted one can be registered and its containers started in
  some order;
- what was applied is exported as it was applied, and what is exported can be
  applied again;
- a restart that stops the old task first always ends, writes only what is still
  its own, and succeeds only with the old policy back in place;
- output is looked for in the streams of the newest task, of the tasks that stopped
  last and of the latest event, in this order, and the search ends;
- a request to the scheduler is made four times at most;
- a value that is set in a document is read back, and nothing else changes;
- whether a specification is accepted does not depend on the order of its
  containers and volumes;
- in the commands that copy a directory, a shell finds the path and the URL as
  they were given, whatever quotes they hold.
