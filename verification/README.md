# redoubtful

`redoubtful` runs coding agents inside a tight Linux sandbox. It starts
`pasta`, which gives the sandbox a network of its own, and that starts
`bwrap`, which shows it a few files of the host and nothing else of the
environment. The only way out is a proxy on the host, which decides by
configuration where requests may go and puts credentials into them that the
sandbox never sees.

- `src/` is the library: every rule by which a sandbox is built, with its
  contract, verified with Verus. It does no I/O.
- `app/` is the program: arguments, files, processes and the proxy server.
- `tests/` runs the library on concrete values.

What a sandbox lets in is stated in `src/sandbox/isolation.rs`; what the proxy
lets out, in `src/sandbox/proxy.rs` and `src/config/proxies.rs`; which profiles
apply, in `src/config/uses.rs`. The functions marked
`#[verifier::external_body]` call other crates, and their contracts are
believed; each says in its comment what it claims.
