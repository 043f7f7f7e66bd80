# gent_kern

The core of the GeNT RISC-V kernel as a Verus library.

- `src/` is verified: page-table entries (`pte`), the page-table memory
  model (`memory`), paging modes, page sizes and the walks that read,
  build and remove mappings (`paging`), runs of page mappings for DMA buffers and
  firmware regions (`mapping`, `dma`), the `satp` register (`csr`), the
  fw_cfg directory and DMA command records (`fw_cfg`), the ramfb record,
  colours and framebuffer drawing (`ramfb`, `font`), and the register
  channels, UART and syscon models (`global`, `transit`, `uart`, `power`).
- `app/` holds the hardware side: volatile register and memory access, the
  console, the arenas, and the drivers that read page tables and device
  data into the library's types and write the results back.
- `tests/` runs the library on concrete values.
