# sysboost

Reversible performance tuning for Linux hosts: discover what a host offers, plan a
placement, change controls under a session that can be undone, and put back exactly
what was there.

The library is written in Verus. What an executable function computes, its contract
says for every input it takes. What it asks of a part that its user brings, such as a
backend or a place for records, the contract says in the words of that part: each trait
has relations between what a part is before a call, what it answers and what it is
afterwards, and a part that states none may do anything. The laws that relate several
functions are public proof functions next to them.

## Layout

- `src/` holds the library.
  - Values and records: `error`, `ids`, `value`, `mutation`, `capability`, `catalog`,
    `session`, `journal`, `clock`, `cpuset`, `bytes`, `text`, `order`.
  - Host discovery: `filesystem`, `fixture`, `nodes`, `facts`, `discover_system`,
    `discover_cpu`, `discover_cgroup`, `discover_devices`, `probe`, `discovery`,
    `matrix`, `topology`, `placement`, `rooted`.
  - Backends: `backend`, `registry`; `cpu`, `cpu_node`, `cpu_host`, `cpu_fixture` for
    CPU controls; `workload`, `workload_node`, `workload_model`, `workload_host`,
    `workload_fixture` for control groups and processes.
  - Sessions: `process`, `privilege`, `state`, `durable`, `transaction`, `schedule`,
    `trace`, `exact`, `exact_cpu`, `exact_groups`, `exact_registry`, `protocol`,
    `logging`.
- `app/` is the privileged helper and the adapters that read and write a real host.
- `tests/` runs the library on concrete values.

## What a session promises

A control is written only after its value has been captured and recorded. A value that
someone else has set since is never overwritten: the change is reported as a conflict
and left alone. Restoring undoes changes in the reverse of the order in which they were
made.

A coordinator carries, for its proofs alone, the history of what it asked and was
answered, and beside it the parts as they were at each step (`trace`). Its contracts
say which history a call leads to (`schedule`). From the two together follow the laws
of `exact_cpu`, `exact_groups` and `exact_registry`, on the hosts in memory of
`cpu_fixture` and `workload_fixture` and on registries of several of them: a session
that ends restored leaves every host exactly as it found it. It may have been prepared
with the coordinator or through the helper, applied in full or in part and rolled
back, restored at once or at a later try, or recovered by another coordinator after a
restart. Each law says under which conditions.
