# higuard

The server of HiGuard, an error-tracking dashboard: applications report their
errors through an SDK, the server groups and charts them per namespace, and
namespace alerts notify their subscribers when errors pile up. Alerts are
delivered by mail; an alert set to post to Discord is decided all the same,
but this server has no Discord client, so posting it fails with a Discord
error.

## Layout

- `src/` is the verified library. Every function there carries a contract that
  Verus proves: role rules and permissions, the striped rate limiter, stack
  trace parsing, error grouping, ranking, paging and the charts' tallies, the
  alert checks, the steps of reporting an error (`report.rs`, a state machine
  that the server drives), accounts, sessions and notifications. The laws that
  relate several operations stand there as public proof functions (`lemma_*`).
- `app/` is the server around it: routes, the database, mail, websockets and
  the loop that performs the actions the report state machine asks for.
- `tests/` runs the library on concrete inputs.
