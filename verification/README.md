# infused_modbus

Modbus over TCP and serial lines, and a device shown as a tree of files: reading
a register is reading a file, and a write is a file in `transactions/` that is
sent off when `TRANSACTION_END` is made.

The library in `src/` is verified with Verus. Its functions state what they
return and change in `requires` and `ensures`, over mathematical models.

| Modules | What they are about |
| --- | --- |
| `wire`, `pdu`, `adu`, `tcp`, `rtu` | messages, frames, and how they are exchanged |
| `connection_string`, `arguments`, `tls` | naming a device, and identities |
| `device_description`, `values`, `register_encoding` | what a device has, and its values as words |
| `text`, `numbers`, `parsing` | values as text |
| `table`, `stores`, `inode`, `permissions`, `client_trust` | what the file system keeps |
| `filesystem`, `files`, `operations`, `writing` | the tree of files and its requests |
| `batching`, `polling` | reading a device with few requests |
| `write_confirmation`, `transaction_consumer` | writing what was staged, and reporting it |
| `device_identification` | fetching a device's own description |
| `fuzz` | random inputs for the messages |

What holds of the library as a whole is stated by the proof functions whose names
start with `law_`; those about the tree of files are in `filesystem_laws`.

A few functions of the standard library and of `rcgen` are called through
declarations that are believed and not proved: `String::push` and
`String::from_utf8` in `text`, the quoting and number parsing of `str` in
`connection_string`, `Duration::from_nanos` in `rtu`, and
`rcgen::generate_simple_self_signed` in `tls`.

`app/` is the program around the library: sockets, serial lines, TLS, the mount,
and configuration in TOML. It decides nothing that the library could.
