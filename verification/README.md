# patina_key

A verified library for the boot and update path of a hardware security key on a
dual-bank STM32 part.

- `src/image`: the signed image format, its encoder, and the verifier over
  borrowed segments. SHA-256 comes from `sha2`, ECDSA over P-256 from `p256`.
- `src/update`: the dual-bank update machine over a flash seam and a
  secure-element counter, with two in-memory seams, one of them with power cuts.
- `src/boot`: the boot decision, the watermark check, and the boot flow.
- `src/flash`: the register map, the flash driver behind both seams, and a host
  model of the flash controller.
- `src/spi`: the SPI1 device driver over a register bus.
- `src/layout.rs`, `src/arch.rs`: the memory layout and the interrupt-mask rule.

Each area states what holds of it as a whole in a `laws` module. `app` is the part
that touches the machine: memory-mapped access, assembly, the reset entry.
