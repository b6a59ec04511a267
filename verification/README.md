# micro_proxy

micro_proxy builds, deploys and proxies the micro applications of a host
behind one nginx. It discovers application folders, checks their
configuration, builds images, and writes the nginx and Docker Compose
configurations from which the containers run; deployments switch an
application to a new image and can be rolled back.

## Layout

- `src/` is the library, verified with Verus. Each public function states
  in its contract what it returns or changes, over views of the data
  (`Seq`, `Map`, `Option` of character sequences). The `law_*` proof
  functions state properties that span several functions, for example
  that a rollback undoes a deployment, that nginx locations come longest
  route first, or that a recorded build needs no rebuild for the same
  sources.
  - `config`, `micro_app_config`, `volumes_config`: the configuration
    files and their checks.
  - `discovery`: unique application names and which scanned folders are
    accepted.
  - `deployment`: active, previous and historical images of each
    application, and the run configuration derived from them.
  - `nginx`, `compose`, `network`: the generated configuration texts and
    documents.
  - `builder`, `container`, `dockerfile`, `state`: command arguments, the
    reading of docker's output, the `EXPOSE` instructions of a
    Dockerfile, and the build state with the hash of a source folder.
  - `named_map`, `text`, `error`: a map keyed by name, text helpers, and
    the error type.
- `tests/` runs the library on concrete values.
- `app/` is the command line: it reads and writes the files, runs docker,
  and hands the library plain values.
