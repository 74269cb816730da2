# AES syscall driver, verified

A driver through which processes run AES-128 operations (CTR, CBC, ECB and
CCM) on one hardware engine. One process owns the driver at a time; others
queue one request each, started when the owner finishes. All data passes
through two static buffers: the driver copies key, IV and data into them,
hands them to the hardware, and copies the results back to the process.

Layout of `src/`:

- `error.rs`: error codes, process errors, command results.
- `bytes.rs`: the byte copies between process and static buffers.
- `grant.rs`: process identifiers, shared buffers, per-process state and the
  table of processes with their grants.
- `hil.rs`: the hardware interface a chip implements, whose `trace` records
  every call it receives with its arguments and answer, and `Engine`, the
  driver's handle on it.
- `driver.rs`: the driver, its abstract view and well-formedness.
- `setup.rs`: loading key, IV and data and starting the hardware.
- `queue.rs`: starting queued requests.
- `syscall.rs`: `allow`, `command` and grant allocation.
- `client.rs`: the completion callbacks of the hardware.
- `laws.rs`: properties that relate several calls.

Every contract is stated over the view `DriverView` and the hardware
record; where the outcome depends on the hardware's answers, the contract
reads them from the record.
