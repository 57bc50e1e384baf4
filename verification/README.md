# statsai

Local-first statistics of AI coding tools: usage events and summaries, accounts
and subscriptions, code changes, and what of it is sent to a server.

- `src/` is the library, verified with Verus: every function says in its contract
  what it returns, and the laws that hold across functions are public proof
  functions. What is not proved are the contracts of the few wrappers listed
  below, each around one call of an outside crate.
- `tests/` holds the library's tests.
- `app/` is the command line program: arguments, files, the network, the keyring
  and other programs. It hands the library plain values.

## Modules

| Modules | What they hold |
| --- | --- |
| `text`, `letter_case`, `sorted`, `paths`, `binary64`, `binary64_laws`, `decimals`, `calendar`, `time`, `hashing`, `json`, `json_limit` | texts, orders, paths, rounded numbers, instants, hashes, bounded JSON |
| `ids`, `records`, `archive`, `account_plan`, `quota` | records and their identifiers |
| `classify`, `diff`, `patch`, `overlap`, `matching`, `git`, `metrics`, `code_types` | code changes: patches, commits and their attribution |
| `usage`, `periods`, `report`, `report_laws`, `render`, `rollups` | usage added up, reports and tables |
| `accounts`, `identities`, `assignments`, `subscriptions`, `merge`, `merge_laws`, `sources`, `imports` | accounts and what belongs to them |
| `sync`, `batch_ids`, `sync_laws`, `sync_flow`, `sync_queue` | batches and how they are sent |
| `auth`, `daemon_presence` | device sessions, and who else has the store open |

## What is trusted

| Module | Wrapper | Call |
| --- | --- | --- |
| `hashing` | `digest`, `encode_hex` | `sha2`, `hex` |
| `time` | `format_rfc3339`, `read_rfc3339`, `read_ymd`, `read_civil` | `chrono` |
| `json` | `is_json`, `are_json`, `read_json_string`, `read_json_u64` | `serde_json` |
| `json_limit` | `gunzip` | `flate2` |
| `archive` | `encode_base64`, `decode_base64` | `base64` |
| `auth` | `fill_random` | `getrandom` |
| `auth` | `percent_encode`, `percent_decode` | `percent-encoding` |
| `text` | the contract of `String::push` | the standard library |
