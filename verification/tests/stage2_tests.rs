use lib::mm::stage2::{
    Stage2Mmu, Stage2Pte, ADDR_MASK, HAP_RO, HAP_RW, PTE_VALID, S2_DEVICE_NGNRE_RW, S2_DEVICE_RW,
    S2_NORMAL_RW, TABLE_POOL_SIZE,
};

const ROOT_PA: u64 = 0x4020_0000;
const POOL_PA: u64 = 0x4040_0000;

#[test]
fn composite_flag_values() {
    assert_eq!(S2_NORMAL_RW, 0x7FF);
    assert_eq!(S2_DEVICE_RW, 0x0040_0000_0000_04C7);
    assert_eq!(S2_DEVICE_NGNRE_RW, 0x0040_0000_0000_04CB);
    assert_eq!(S2_NORMAL_RW & ADDR_MASK, 0);
}

#[test]
fn raw_round_trip() {
    let p = Stage2Pte::from_raw(0xDEAD_BEEF_CAFE_F00D);
    assert_eq!(p.raw(), 0xDEAD_BEEF_CAFE_F00D);
    assert!(Stage2Pte::from_raw(p.raw()) == p);
}

#[test]
fn invalid_descriptor_is_not_valid() {
    let p = Stage2Pte::invalid();
    assert_eq!(p.raw(), 0);
    assert!(!p.is_valid());
    assert!(!p.is_table_or_page());
}

#[test]
fn field_accessors() {
    let p = Stage2Pte::from_raw(0x0540_1234_5678_90C3);
    assert!(p.is_valid());
    assert!(p.is_table_or_page());
    assert_eq!(p.hap(), 0b11);
    assert_eq!(p.page_size_tag(), 0b101);
    assert_eq!(p.output_addr(), 0x0000_1234_5678_9000);

    let q = Stage2Pte::from_raw(PTE_VALID | HAP_RO);
    assert!(q.is_valid());
    assert!(!q.is_table_or_page());
    assert_eq!(q.hap(), 0b01);
    assert_eq!(q.page_size_tag(), 0);
    assert_eq!(q.output_addr(), 0);
}

#[test]
fn table_descriptor() {
    let d = Stage2Pte::table_desc(0x4040_3000);
    assert_eq!(d.raw(), 0x4040_3003);
    assert!(d.is_valid());
    assert!(d.is_table_or_page());
    assert_eq!(d.output_addr(), 0x4040_3000);
    // Bits outside [47:12] of the address are dropped.
    let e = Stage2Pte::table_desc(0xFFFF_0000_4040_3FFF);
    assert_eq!(e.raw(), 0x4040_3003);
}

#[test]
fn page_descriptor() {
    let d = Stage2Pte::page_4kb(0x4000_0000, S2_DEVICE_NGNRE_RW);
    assert_eq!(d.raw(), 0x0040_0000_4000_04CB);
    assert!(d.is_valid());
    assert!(d.is_table_or_page());
    assert_eq!(d.hap(), 0b11);
    assert_eq!(d.page_size_tag(), 0);
    assert_eq!(d.output_addr(), 0x4000_0000);

    let n = Stage2Pte::page_4kb(0x8_0000_1000, S2_NORMAL_RW);
    assert_eq!(n.raw(), 0x8_0000_17FF);
    assert_eq!(n.hap(), HAP_RW >> 6);
}

#[test]
fn fresh_tables_fault_everywhere() {
    let mmu = Stage2Mmu::new(ROOT_PA, POOL_PA);
    assert_eq!(mmu.walk(0), 0);
    assert_eq!(mmu.walk(0x1000_0000), 0);
    assert_eq!(mmu.walk(0xFF_FFFF_F000), 0);
    assert_eq!(mmu.free_tables(), TABLE_POOL_SIZE);
    assert_eq!(mmu.get_vttbr(), 0);
}

#[test]
fn map_then_walk() {
    let mut mmu = Stage2Mmu::new(ROOT_PA, POOL_PA);
    assert_eq!(mmu.tables_needed(0x1000_0000), 2);
    mmu.map_4kb_page(0x1000_0000, 0x4000_0000, S2_DEVICE_NGNRE_RW);
    assert_eq!(mmu.walk(0x1000_0000), 0x0040_0000_4000_04CB);
    // The offset within the page does not change the walk.
    assert_eq!(mmu.walk(0x1000_0ABC), 0x0040_0000_4000_04CB);
    // Neighbouring pages stay unmapped.
    assert_eq!(mmu.walk(0x1000_1000), 0);
    assert_eq!(mmu.walk(0x0FFF_F000), 0);
    assert_eq!(mmu.free_tables(), TABLE_POOL_SIZE - 2);
}

#[test]
fn tables_are_shared_along_the_walk() {
    let mut mmu = Stage2Mmu::new(ROOT_PA, POOL_PA);
    mmu.map_4kb_page(0x8000_0000, 0x9000_0000, S2_NORMAL_RW);
    assert_eq!(mmu.free_tables(), TABLE_POOL_SIZE - 2);
    // Same 2 MiB region: no new table.
    assert_eq!(mmu.tables_needed(0x8000_1000), 0);
    mmu.map_4kb_page(0x8000_1000, 0x9000_1000, S2_NORMAL_RW);
    assert_eq!(mmu.free_tables(), TABLE_POOL_SIZE - 2);
    // Same 1 GiB region, other 2 MiB region: one new Level-3 table.
    assert_eq!(mmu.tables_needed(0x8020_0000), 1);
    mmu.map_4kb_page(0x8020_0000, 0x9020_0000, S2_DEVICE_RW);
    assert_eq!(mmu.free_tables(), TABLE_POOL_SIZE - 3);
    assert_eq!(mmu.walk(0x8000_0000), 0x9000_07FF);
    assert_eq!(mmu.walk(0x8000_1000), 0x9000_17FF);
    assert_eq!(mmu.walk(0x8020_0000), 0x0040_0000_9020_04C7);
}

#[test]
fn remapping_overwrites_the_leaf() {
    let mut mmu = Stage2Mmu::new(ROOT_PA, POOL_PA);
    mmu.map_4kb_page(0x2000, 0x5000, S2_NORMAL_RW);
    mmu.map_4kb_page(0x2000, 0x6000, S2_DEVICE_RW);
    assert_eq!(mmu.walk(0x2000), 0x0040_0000_0000_64C7);
    assert_eq!(mmu.free_tables(), TABLE_POOL_SIZE - 2);
}

#[test]
fn ipa_bits_above_39_are_ignored() {
    let mut mmu = Stage2Mmu::new(ROOT_PA, POOL_PA);
    mmu.map_4kb_page(0x100_0000_3000, 0x7000, S2_NORMAL_RW);
    assert_eq!(mmu.walk(0x3000), 0x77FF);
}

#[test]
fn vttbr_after_init() {
    let mut mmu = Stage2Mmu::new(ROOT_PA, POOL_PA);
    mmu.stage2_mmu_init();
    assert_eq!(mmu.get_vttbr(), 0x0001_0000_4020_0000);
    assert_eq!(mmu.walk(0x1000_0000), 0);
}

#[test]
fn pool_runs_down_by_two_per_gib() {
    let mut mmu = Stage2Mmu::new(ROOT_PA, POOL_PA);
    let mut gib: u64 = 0;
    while gib < 256 {
        mmu.map_4kb_page(gib << 30, 0x1000 * gib, S2_NORMAL_RW);
        gib += 1;
    }
    assert_eq!(mmu.free_tables(), 0);
    assert_eq!(mmu.tables_needed(0x4000_0000 * 300), 2);
    assert_eq!(mmu.tables_needed(0x4000_0000 * 255 + 0x1000), 0);
    assert_eq!(mmu.walk(0x4000_0000 * 255), 0xFF_000 | S2_NORMAL_RW);
}

#[test]
fn mapping_twice_allocates_once_and_keeps_the_tables() {
    let mut mmu = Stage2Mmu::new(ROOT_PA, POOL_PA);
    mmu.map_4kb_page(0x1234_5000, 0xA000, S2_NORMAL_RW);
    let root_before = mmu.root_entry_at(0);
    let l2_before = mmu.pool_entry_at(0, 0x91);
    assert_eq!(mmu.tables_needed(0x1234_5000), 0);
    mmu.map_4kb_page(0x1234_5000, 0xB000, S2_NORMAL_RW);
    assert_eq!(mmu.free_tables(), TABLE_POOL_SIZE - 2);
    assert_eq!(mmu.root_entry_at(0), root_before);
    assert_eq!(mmu.pool_entry_at(0, 0x91), l2_before);
    assert_eq!(mmu.pool_entry_at(1, 0x145), 0xB7FF);
}

#[test]
fn init_leaves_the_tables_alone() {
    let mut mmu = Stage2Mmu::new(ROOT_PA, POOL_PA);
    mmu.map_4kb_page(0, 0, 0);
    assert_eq!(mmu.tables_needed(0), 0);
    mmu.stage2_mmu_init();
    mmu.stage2_mmu_init();
    assert_eq!(mmu.tables_needed(0), 0);
    assert_eq!(mmu.root_entry_at(0), POOL_PA + 3);
    assert_eq!(mmu.pool_entry_at(0, 0), POOL_PA + 4096 + 3);
    assert_eq!(mmu.get_vttbr(), 0x0001_0000_4020_0000);
}
