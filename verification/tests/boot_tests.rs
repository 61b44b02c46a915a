use lib::boot::{hypervisor_boot, GUEST_BAR0_IPA, NVME_BAR0_PA};
use lib::hw::viommu::viommu_pcie_bypass_init;
use lib::mm::stage2::{Stage2Mmu, Stage2Pte, S2_DEVICE_NGNRE_RW, TABLE_POOL_SIZE};

#[test]
fn boot_activates_translation_and_maps_the_nvme_bar() {
    let mut mmu = Stage2Mmu::new(0x4020_0000, 0x4040_0000);
    hypervisor_boot(&mut mmu);
    assert_eq!(mmu.get_vttbr(), 0x0001_0000_4020_0000);
    let leaf = Stage2Pte::from_raw(mmu.walk(GUEST_BAR0_IPA));
    assert!(leaf.is_valid());
    assert!(leaf.is_table_or_page());
    assert_eq!(leaf.output_addr(), NVME_BAR0_PA);
    assert_eq!(leaf.hap(), 0b11);
    assert_eq!(leaf.raw(), 0x0040_0000_4000_04CB);
    assert_eq!(mmu.free_tables(), TABLE_POOL_SIZE - 2);
}

#[test]
fn bar_mapping_uses_device_ngnre() {
    let mut mmu = Stage2Mmu::new(0x10_0000, 0x20_0000);
    viommu_pcie_bypass_init(&mut mmu, 0x8_0000_0000, 0x3000_0000);
    assert_eq!(mmu.walk(0x3000_0000), 0x8_0000_0000 | S2_DEVICE_NGNRE_RW);
    assert_eq!(mmu.walk(0x3000_1000), 0);
    assert_eq!(mmu.get_vttbr(), 0);
}

#[test]
fn boot_table_layout() {
    let root_pa: u64 = 0x4020_0000;
    let pool_pa: u64 = 0x4040_0000;
    let mut mmu = Stage2Mmu::new(root_pa, pool_pa);
    hypervisor_boot(&mut mmu);
    assert_eq!(mmu.root_entry_at(0), pool_pa + 3);
    assert_eq!(mmu.pool_entry_at(0, 128), pool_pa + 4096 + 3);
    assert_eq!(mmu.pool_entry_at(1, 0), 0x0040_0000_4000_04CB);
    let mut nonzero = 0;
    for i in 0..1024 {
        if mmu.root_entry_at(i) != 0 {
            nonzero += 1;
        }
    }
    for t in 0..TABLE_POOL_SIZE {
        for i in 0..512 {
            if mmu.pool_entry_at(t, i) != 0 {
                nonzero += 1;
            }
        }
    }
    assert_eq!(nonzero, 3);
    assert_eq!(mmu.tables_needed(GUEST_BAR0_IPA), 0);
}
