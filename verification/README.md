# xrebalance

A Core Lightning plugin that rebalances a node's channels by moving
funds between them via independent circular self-payments, using
askrene for route computation.  askrene only solves point-to-point, so
each request builds a layer that splits the local node into its two
roles: the real node originates the route, and a stand-in for its
inbound side terminates it, reachable only through copies of the chosen
destination channels.

## Layout

- `src/` is the plugin's logic, verified with Verus: what a request may
  ask for, how it is sized and planned, how parts are sent, claimed and
  accounted for, what their outcomes teach, and when the rounds end.
  Each function states exactly what it returns; functions named `law_*`
  state what holds of several of them together.
- `src/outside.rs` holds the calls into other crates, each with what is
  claimed of it: hexadecimal text, SHA-256 digests, random bytes.
- `app/` is the plugin around it: the RPC calls, the reading and writing
  of JSON text, the options and the hook.  It performs what the library
  decides and hands back what came of it.
- `tests/` runs the library on concrete values.

## Interface

    xrebalance sources=[src,...] destinations=[dst,...]
               amount_msat=N (maxfee_ppm=N | maxfee_msat=N)
               [label=...] [dryrun=true] [maxparts=N] [part_wait=N]
               [maxrounds=N] [verbose=true]

Each `src`/`dst` element names one of the local node's channels,
optionally with a cap on how much this request moves through it:

    "845123x1x0"                                  no cap
    "845123x1x0:250000"                           cap in msat
    "845123x1x0:250sat"                           msat/sat suffixes
    {"scid": "845123x1x0", "max_msat": 250000}    object form

`xrebalance-stats` reports the option values and what was learned.

| option                                | default | meaning                                      |
| ------------------------------------- | ------- | -------------------------------------------- |
| `xrebalance-constraint-age=<seconds>` | 21600   | expiry of learned constraints                |
| `xrebalance-override-age=<seconds>`   | 3600    | expiry of learned overrides                  |
| `xrebalance-part-wait=<seconds>`      | 30      | default snapshot window                      |
| `xrebalance-min-part-msat=<msat>`     | 1000000 | fragment floor: the least a part may deliver |
| `xrebalance-max-rounds=<n>`           | 50      | plan-execute rounds per request              |
| `xrebalance-final-cltv=<blocks>`      | 40      | final-hop cltv delta for return legs         |

All options are dynamic.
