# agent_api

The decision logic of a capability-secured agent platform's HTTP API, proved
with Verus: request validation, roles and capability grants, trusted-proxy
authentication, trigger rules, agent-context and bootstrap rules, memory
records and retrieval planning, compliance exports, delivery alerts and the
tamper chain, payment and operations reporting.

- `src/` is the verified library. Each public function states in its
  `ensures` what it returns; the `law_*` proof functions state properties
  that span calls (default-deny grants, tamper detection, canonical JSON,
  acknowledgement precedence, and others).
- `tests/` exercises the library on concrete values.
- `app/` is the server around it: routing, storage, files, serialization and
  the floating-point figures of the reports. It hands the library plain
  values and writes the library's answers back out.
