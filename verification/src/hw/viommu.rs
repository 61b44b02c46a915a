use vstd::prelude::*;
use crate::mm::stage2::{
    addr_bits, page_of, Stage2Mmu, IPA_PAGES, ROOT_ENTRIES, S2_DEVICE_NGNRE_RW, TABLE_ENTRIES,
    TABLE_POOL_SIZE,
};

verus! {

/// PCIe Stream ID of the assigned NVMe controller (placeholder until IORT discovery).
pub const NVME_STREAM_ID: u16 = 0x0100;

/// Map the NVMe controller's BAR0 at `nvme_bar0_pa` into the guest's IPA space at
/// `guest_bar0_ipa` with Device-nGnRE, read-write, execute-never attributes, then
/// bind the device's DMA stream to the same Stage-2 tables (VTTBR_EL2). The tables
/// change exactly as `map_4kb_page` changes them.
pub fn viommu_pcie_bypass_init(mmu: &mut Stage2Mmu, nvme_bar0_pa: u64, guest_bar0_ipa: u64)
    requires
        old(mmu).wf(),
        old(mmu).needed_for(page_of(guest_bar0_ipa)) + old(mmu).tables_used() <= TABLE_POOL_SIZE,
    ensures
        final(mmu).wf(),
        final(mmu)@ == old(mmu)@.insert(
            page_of(guest_bar0_ipa),
            addr_bits(nvme_bar0_pa) as u64 | S2_DEVICE_NGNRE_RW,
        ),
        final(mmu).tables_used() == old(mmu).tables_used() + old(mmu).needed_for(
            page_of(guest_bar0_ipa),
        ),
        forall|i: int|
            0 <= i < ROOT_ENTRIES ==> #[trigger] final(mmu).root_entry(i) == old(
                mmu,
            ).root_entry_after_map(page_of(guest_bar0_ipa), i),
        forall|t: int, i: int|
            0 <= t < TABLE_POOL_SIZE && 0 <= i < TABLE_ENTRIES ==> #[trigger] final(mmu).pool_entry(t, i)
                == old(mmu).pool_entry_after_map(
                page_of(guest_bar0_ipa),
                addr_bits(nvme_bar0_pa) as u64 | S2_DEVICE_NGNRE_RW,
                t,
                i,
            ),
        final(mmu).needed_for(page_of(guest_bar0_ipa)) == 0,
        forall|p: int|
            0 <= p < IPA_PAGES ==> #[trigger] final(mmu).needed_for(p) == old(mmu).needed_after_map(
                page_of(guest_bar0_ipa),
                p,
            ),
        final(mmu).pool_addr() == old(mmu).pool_addr(),
        final(mmu).root_addr() == old(mmu).root_addr(),
        final(mmu).vttbr_value() == old(mmu).vttbr_value(),
{
    mmu.map_4kb_page(guest_bar0_ipa, nvme_bar0_pa, S2_DEVICE_NGNRE_RW);
    smmuv3_bind_stream_id(NVME_STREAM_ID, mmu.get_vttbr());
}

/// Bind the DMA traffic of PCIe stream `stream_id` to the Stage-2 tables named by
/// `vttbr` through the SMMUv3 stream table. No SMMU is programmed on the supported
/// platforms (Nitro enforces DMA isolation in hardware), so this does nothing.
fn smmuv3_bind_stream_id(stream_id: u16, vttbr: u64) {
}

} // verus!
