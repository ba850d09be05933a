# umbra

The secure-world core of Umbra, a TrustZone-M enclave kernel for the
STM32N657 (Cortex-M55), written in Verus: every function in `src/` carries a
contract that Verus proves.

Layout:

- `src/` — the verified library.
  - `mmio`, `regprog`: the register access model (every access is recorded,
    in order) and straight-line register programs run over it.
  - Drivers: `rcc`, `gpio`, `uart`, `raw_print`, `hash`, `cryp`, `saes`,
    `hpdma`, `risaf`, `mce`, `mpu`, `tamp_store`, `bkpsram`, `state_anchor`,
    `state_flash`.
  - Board bring-up: `bringup` (RIFSC, clock tree, caches, external flash,
    console), `platform`.
  - Cryptography: `sha256`, `aes` (with `aes::keyreg`, `aes::gcm`,
    `aes::hal_adapter`), `crypto_engine`, `crypto_wait`, `key_derivation`,
    `dhuk_provision`, `hdpl`.
  - Enclave management decisions: `enclave_api` (create, enter, exit,
    status, update and the preemption tick as steps over the enclave table),
    `nsc`, `measurement`, `validator`, `prefetch`, `exceptions`, `attest`,
    `antirollback`, `state_store`, `dma`.
- `tests/` — tests of the library on host register files and simulated
  peripherals.
- `app/` — the firmware glue: volatile register access, interrupt-posted
  flags, and entry points that hand the library plain values (`app/enclave.rs`
  exports the enclave entry points, the SysTick and fault handlers over the
  library's decisions; the parts that belong to the kernel's own crate, such
  as the blob header layout and the update-package format, are installed by
  the kernel as hooks).
