# LogCabin

A split-view resistant, tamper-evident ledger system, verified with Verus.

A set of append-only ledgers is endorsed by a cohort of endorsers. Each endorser
signs receipts for what it does, and a client accepts what a strict majority of
the cohort it trusts has signed. Cohorts hand over to one another, and clients
follow the handovers.

## Layout

`src/` is the library. Every function in it is verified against its contract.

| Module | What it holds |
| --- | --- |
| `crypto`, `keys` | SHA-256 and ECDSA over P-256, from the `sha2` and `p256` crates |
| `bytes` | byte strings, big-endian and decimal numbers |
| `cohort`, `quorum` | cohort configurations, and majorities of receipts |
| `ledger`, `receipts` | blocks, the store of ledgers, and the messages that receipts sign |
| `endorser`, `takeover` | the endorser's state machine, and takeovers from a previous cohort |
| `messages`, `status`, `proto_mapping`, `service` | the service that multiplexes endorsers |
| `handover`, `ledger_receipts`, `verification` | what a client checks |
| `challenge`, `util` | judging an attempt to show two contradicting views, and helpers for one |
| `history`, `consistency`, `honest` | what holds of endorsers, cohorts and clients together |

The functions named `law_...` state what holds of the library as a whole. The
main one is `consistency::law_no_split_view`: as long as signatures are not
forged and digests do not collide, no two views that clients accept contradict,
behind whatever handovers.

What is not proved is the behaviour of the `sha2` and `p256` crates. The
functions of `crypto` that are marked `external_body` state all that the library
relies on.

`app/` is the ordinary Rust around it: the enclave app's server, the host gRPC
server, and the runner of the challenge. `tests/` runs the library.
