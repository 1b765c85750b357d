# guard_queries

Two queries over the facts that a whole-program analysis of a JavaScript
application leaves behind:

- `pa_auth_bypass_findings` reports the sinks that may run without a successful
  call of an authentication function, following values through variables and
  properties;
- `idor_findings` reports the sinks that may run without a comparison of the
  requested resource with the session's owner.

`src/` is the verified library. `ids`, `value`, `graph` and `control_flow` hold
the facts; `provenance` says where a value comes from and `auth_guard` decides
with it whether a block is guarded by authentication; `ownership` decides whether
a block is guarded by a comparison with the owner; `findings` puts the queries to
all summaries; `plan_learning` learns how a prover decides conditions from runs of
that prover; `laws` states what holds of the queries as a whole, and `direct_query`
where the authentication query agrees with one that knows no properties.

What is trusted: that `fxhash`'s hash set behaves as a set (`id_set`).

`app/` turns the analysis's own data into the library's facts and the findings
back into the analysis's terms.
