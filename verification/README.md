# tvisor

The decision-making core of tvisor, an AArch64 hypervisor for the Raspberry
Pi 4 that U-Boot starts at EL2, written in Verus: every function states its
behaviour in `requires` / `ensures` and is proved against it.

The library covers what tvisor computes rather than what it touches:

- `handoff` and `mm::bootstrap_prerequisites`: the checks on the register
  state that U-Boot hands over;
- `devicetree`, `fdt` and `platform`: parsing the flattened device tree and
  discovering RAM, reservations, MMIO windows, the console and the GICv2;
- `memory_map` and `page_allocator`: the physical memory map and the
  three-state page allocator;
- `el2_translation`, `mm` and `stage2_translation`: building and checking
  the EL2 stage-1 and the stage-2 translation tables;
- `vmctl`, `guest`, `guest_fdt`, `guest_platform`, `linux_boot`, `vcpu`,
  `mmio`, `gicv2` and `virtual_timer`: the guest's memory, boot layout and
  trapped-device emulation;
- `aarch64_reg`, `diag`, `exception`, `boot_mode` and `heap`: register
  decoders, diagnostics and boot options.

Reading and writing system registers, the UART, and the boot sequence that
strings these steps together on hardware are not part of this crate: their
callers hand the library the values they read and act on what it returns.

`tests/` exercises the library on concrete values.
