# artichoke

A peer-to-peer file sharing application. Peers announce the files in their `shared_files`
directory over an MQTT broker and fetch files from each other's onion services.

`src/` is the core of the application, verified with Verus: what it computes and decides about
files, peers, commands and downloads, as functions on plain values with contracts. `app/` is the
program around it, which reads directories, talks to the broker and to the Tor network, deals with
their failures, and prints. `tests/` runs the core on concrete values.

| Module | What it decides |
| --- | --- |
| `text`, `order`, `encoding` | characters, decimal numbers, the order of texts, Base64 |
| `sealed_url` | the sealed form of a peer's address |
| `file_map` | shared files by their identifiers |
| `file_watcher`, `directory_scan` | what is announced of a file, and the scan of a directory |
| `mqtt_sync`, `sync_loop` | what is known of other peers, and when to announce one's own files |
| `catalog` | listing the files of other peers, and where one of them is served |
| `onion_client`, `reassembly` | fetching a file in pieces, and putting it together |
| `onion_service` | which requests are served |
| `commands` | the commands of the user |

Calls into other crates stand behind small functions whose contracts are trusted: AES-256-GCM
(`aes-gcm`), Base64 (`base64`), random characters (`rand`), random UUIDs (`uuid`) and the parsing
of URLs (`hyper`). So do three functions of the standard library: `str::to_lowercase`,
`String::from_utf8_lossy` and `String::push`. The doc comments say what is relied on.

`app/` also needs the crates `arti-client`, `tor-cell`, `tor-error`, `tor-hsservice`, `tor-proto` and
`tor-rtcompat`, which `Cargo.toml` does not list: the library and its tests do without them, and
they bring several hundred packages.
