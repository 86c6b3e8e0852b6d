# zako_core

The core of the zako build system, written in Verus: each public function states
what it does in its contract, and the proofs are checked by the verifier.

- `src/` is the verified library:
  - `path`: neutral paths (relative, `/`-separated, normalized, valid on every platform),
    with their laws in `path/laws.rs` (canonical form, idempotent normalisation, joining
    parts at once or one by one, parent and file name, relative paths);
  - `intern`, `id`, `package_id`, `package_source`, `pattern`, `author`,
    `config_value`: identifiers, labels, package ids and sources, file patterns and
    authors, and their interned forms;
  - `package`, `project`: manifests, their key checks (the least bad key in key order
    is reported, as a sorted map would list it), the resolution of a package (with the
    patterns added to it) and of a project, and a project read back;
  - `resource`: resource requests and the resource pool (capacities, what is left,
    taking, giving back and granting queued requests in order), with its laws in
    `resource/laws.rs`;
  - `local_cas`, `blob_range`: where blobs live in the local store (the paths that
    storing, checking and reading use), and byte ranges;
  - `module_loader`: module specifiers and which kind of module may import which;
  - `worker`: worker pool configuration and scaling.
- `app/` holds what touches the machine: the shared pool behind a lock with its
  waiting tasks, reading the system for the heuristics, hashing and linking files
  into the store, storing, checking and reading blobs, and walking the file system.
- `tests/` runs the library on concrete values.

Identifiers follow Unicode's XID rules; the XID tables come from the `unicode-ident`
crate, which the library calls for each character.

Left out of the library: resolving a configuration (it needs the build context and
the configuration resolver), so a resolving package and a resolved project carry their
configuration values as declared; resolving a dependency source against the project
root (dependencies are interned as sources); and the hashes of a resolving or resolved
package (they need the digest crate that writes each field's bytes).
