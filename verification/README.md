# auks

Client side of AUKS, a service that keeps Kerberos credentials for batch jobs,
as a library whose behaviour is stated in contracts and proved by Verus.

- `src/` is the library. It holds the wire format (`proto`, `cred`,
  `messages`), the configuration (`grammar`, `config`, `ordmap`), the rules on
  Kerberos values (`krb5`, `cred_blob`), the client (`attempt`, `exchange`,
  `client`, `cli`), the SPANK plugin (`plugin`, `mode`, `spank`) and the switch
  of users (`privilege`). `text` has the helpers for strings.
- `app/` is the ordinary Rust around it: bindings to Kerberos and Slurm, the
  network, files, and the entry points.
- `tests/` runs the library.

Whatever needs the network, Kerberos, Slurm or the operating system is a state
machine (`machine`). Its `call` says what is to be done, and its `step` takes
what came of it. The caller must hand back an event that the call can lead to;
the `answers` function beside each machine tells whether it does.

Functions named `law_...` state what holds of the library as a whole.

Two functions in `text` are trusted: they call `std::str::from_utf8` and
`String::from_utf8_lossy`.
