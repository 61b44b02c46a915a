# Stage-2 tables and NVMe data plane, verified

A Verus library for a bare-metal ARMv8-A hypervisor's core logic:

- `src/mm/stage2.rs`: LPAE Stage-2 descriptors (`Stage2Pte`) and the 3-level
  4 KiB-granule translation state (`Stage2Mmu`: root table, sub-table pool, VTTBR_EL2),
  with `map_4kb_page` proved to change exactly the mapped page's leaf descriptor and
  to install exactly the Level-2/Level-3 table descriptors its walk lacks.
- `src/dataplane/poll.rs`: the power-of-two SPSC ring (`SpscQueue`), proved FIFO with
  capacity `N`, NVMe completion tokens, and one step of the polling loop.
- `src/hw/viommu.rs`: NVMe BAR0 pass-through mapping.
- `src/boot.rs`: the boot sequence up to the data plane.
- `app/`: the program around it: copying the tables into the statically placed table
  memory, the VTTBR_EL2 write and TLB maintenance, SEV/WFE, the endless loop.
