use vstd::prelude::*;
use crate::hw::viommu::viommu_pcie_bypass_init;
use crate::mm::stage2::{
    addr_bits, page_of, Stage2Mmu, BOOT_VMID, ROOT_ENTRIES, S2_DEVICE_NGNRE_RW, TABLE_ENTRIES,
    TABLE_POOL_SIZE,
};

verus! {

/// Physical address of the NVMe controller's BAR0 (boot-time placeholder).
pub const NVME_BAR0_PA: u64 = 0x4000_0000;

/// Guest IPA at which the NVMe BAR0 appears (boot-time placeholder).
pub const GUEST_BAR0_IPA: u64 = 0x1000_0000;

/// The boot sequence before the data plane starts: activate Stage-2 translation
/// (VTTBR_EL2 names the root table and the boot VMID), then map the NVMe BAR0 into
/// the guest and bind its DMA stream. On a state with no table handed out, this
/// allocates exactly the Level-2 and Level-3 tables of the BAR0 walk.
pub fn hypervisor_boot(mmu: &mut Stage2Mmu)
    requires
        old(mmu).wf(),
        old(mmu).tables_used() == 0,
    ensures
        final(mmu).wf(),
        final(mmu).vttbr_value() == BOOT_VMID * 0x1_0000_0000_0000 + old(mmu).root_addr(),
        final(mmu)@ == old(mmu)@.insert(
            page_of(GUEST_BAR0_IPA),
            addr_bits(NVME_BAR0_PA) as u64 | S2_DEVICE_NGNRE_RW,
        ),
        final(mmu).tables_used() == 2,
        forall|i: int|
            0 <= i < ROOT_ENTRIES ==> #[trigger] final(mmu).root_entry(i) == old(
                mmu,
            ).root_entry_after_map(page_of(GUEST_BAR0_IPA), i),
        forall|t: int, i: int|
            0 <= t < TABLE_POOL_SIZE && 0 <= i < TABLE_ENTRIES ==> #[trigger] final(mmu).pool_entry(t, i)
                == old(mmu).pool_entry_after_map(
                page_of(GUEST_BAR0_IPA),
                addr_bits(NVME_BAR0_PA) as u64 | S2_DEVICE_NGNRE_RW,
                t,
                i,
            ),
        final(mmu).pool_addr() == old(mmu).pool_addr(),
        final(mmu).root_addr() == old(mmu).root_addr(),
{
    proof {
        old(mmu).lemma_wf_facts();
        vstd::arithmetic::power2::lemma2_to64();
        assert(0 <= page_of(GUEST_BAR0_IPA) < crate::mm::stage2::IPA_PAGES);
    }
    mmu.stage2_mmu_init();
    viommu_pcie_bypass_init(mmu, NVME_BAR0_PA, GUEST_BAR0_IPA);
}

} // verus!
