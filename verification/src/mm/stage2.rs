use vstd::prelude::*;
use vstd::arithmetic::power2::{pow2, lemma2_to64, lemma2_to64_rest};

verus! {

// ── Descriptor bit definitions (ARMv8-A LPAE, Stage-2, 4 KiB granule) ──

/// Bit [0]: descriptor is valid and will be walked by hardware.
pub const PTE_VALID: u64 = 1 << 0;

/// Bit [1]: Table descriptor (L1/L2) or Page descriptor (L3).
pub const PTE_TABLE: u64 = 1 << 1;

/// Bit [1]: Level-3 name for the same encoding as `PTE_TABLE`.
pub const PTE_PAGE: u64 = 1 << 1;

/// MemAttr [5:2] = 0b0001: Device-nGnRnE.
pub const S2_MEMATTR_DEVICE_NGNRNE: u64 = 0b0001 << 2;

/// MemAttr [5:2] = 0b0010: Device-nGnRE (early write acknowledgement).
pub const S2_MEMATTR_DEVICE_NGNRE: u64 = 0b0010 << 2;

/// MemAttr [5:2] = 0b1111: Normal write-back cacheable.
pub const S2_MEMATTR_NORMAL_WB: u64 = 0b1111 << 2;

/// Bit position of the HAP (S2AP) field.
pub const HAP_SHIFT: u32 = 6;

/// HAP mask: bits [7:6].
pub const HAP_MASK: u64 = 0b11 << 6;

/// No access.
pub const HAP_NONE: u64 = 0b00 << 6;

/// Read-only.
pub const HAP_RO: u64 = 0b01 << 6;

/// Write-only.
pub const HAP_WO: u64 = 0b10 << 6;

/// Read-write.
pub const HAP_RW: u64 = 0b11 << 6;

/// SH [9:8] = 0b00: non-shareable.
pub const SH_NON: u64 = 0b00 << 8;

/// SH [9:8] = 0b10: outer-shareable.
pub const SH_OUTER: u64 = 0b10 << 8;

/// SH [9:8] = 0b11: inner-shareable.
pub const SH_INNER: u64 = 0b11 << 8;

/// Bit [10]: access flag.
pub const PTE_AF: u64 = 1 << 10;

/// Bit [54]: execute-never.
pub const PTE_XN: u64 = 1 << 54;

/// Bit position of the software page-size tag.
pub const SW_PGSZ_SHIFT: u32 = 56;

/// Software page-size tag mask: bits [58:56].
pub const SW_PGSZ_MASK: u64 = 0b111 << 56;

/// Software page-size tag for the 4 KiB granule.
pub const SW_PGSZ_4K: u64 = 0b000 << 56;

/// Output address field: bits [47:12].
pub const ADDR_MASK: u64 = 0x0000_FFFF_FFFF_F000;

/// Normal RAM: write-back, inner-shareable, read-write, access flag set.
pub const S2_NORMAL_RW: u64 = PTE_VALID | PTE_PAGE | S2_MEMATTR_NORMAL_WB | HAP_RW | SH_INNER
    | PTE_AF | SW_PGSZ_4K;

/// Device MMIO: nGnRnE, non-shareable, read-write, access flag, execute-never.
pub const S2_DEVICE_RW: u64 = PTE_VALID | PTE_PAGE | S2_MEMATTR_DEVICE_NGNRNE | HAP_RW | SH_NON
    | PTE_AF | PTE_XN | SW_PGSZ_4K;

/// PCIe BAR (NVMe doorbells): nGnRE, non-shareable, read-write, access flag, execute-never.
pub const S2_DEVICE_NGNRE_RW: u64 = PTE_VALID | PTE_PAGE | S2_MEMATTR_DEVICE_NGNRE | HAP_RW
    | SH_NON | PTE_AF | PTE_XN | SW_PGSZ_4K;

// ── Mathematical reading of a descriptor ──

/// The unsigned number held in bits `[lo + width - 1 : lo]` of `v`.
pub open spec fn field(v: u64, lo: nat, width: nat) -> int {
    (v as int / pow2(lo) as int) % pow2(width) as int
}

/// Whether bit `i` of `v` is set.
pub open spec fn bit(v: u64, i: nat) -> bool {
    field(v, i, 1) == 1
}

/// The 4 KiB-aligned output address carried in bits [47:12] of `v`.
pub open spec fn addr_bits(v: u64) -> int {
    field(v, 12, 36) * 4096
}

/// Whether `v` is a 4 KiB-aligned address that the output address field can hold.
pub open spec fn is_page_addr(v: u64) -> bool {
    v % 4096 == 0 && v < 0x1_0000_0000_0000
}

/// Facts about the powers of two that the descriptor fields use.
pub proof fn lemma_pow2_values()
    ensures
        pow2(0) == 1,
        pow2(1) == 2,
        pow2(2) == 4,
        pow2(3) == 8,
        pow2(6) == 0x40,
        pow2(12) == 0x1000,
        pow2(36) == 0x10_0000_0000,
        pow2(56) == 0x0100_0000_0000_0000,
{
    lemma2_to64();
    lemma2_to64_rest();
}

/// The numeric values of the descriptor constants.
pub proof fn lemma_constant_values()
    ensures
        PTE_VALID == 0x1,
        PTE_TABLE == 0x2,
        PTE_PAGE == 0x2,
        S2_MEMATTR_DEVICE_NGNRNE == 0x4,
        S2_MEMATTR_DEVICE_NGNRE == 0x8,
        S2_MEMATTR_NORMAL_WB == 0x3C,
        HAP_MASK == 0xC0,
        HAP_NONE == 0,
        HAP_RO == 0x40,
        HAP_WO == 0x80,
        HAP_RW == 0xC0,
        SH_NON == 0,
        SH_OUTER == 0x200,
        SH_INNER == 0x300,
        PTE_AF == 0x400,
        PTE_XN == 0x0040_0000_0000_0000,
        SW_PGSZ_MASK == 0x0700_0000_0000_0000,
        SW_PGSZ_4K == 0,
        S2_NORMAL_RW == 0x7FF,
        S2_DEVICE_RW == 0x0040_0000_0000_04C7,
        S2_DEVICE_NGNRE_RW == 0x0040_0000_0000_04CB,
{
    assert(1u64 << 0u64 == 0x1) by (bit_vector);
    assert(1u64 << 1u64 == 0x2) by (bit_vector);
    assert(1u64 << 2u64 == 0x4) by (bit_vector);
    assert(2u64 << 2u64 == 0x8) by (bit_vector);
    assert(15u64 << 2u64 == 0x3C) by (bit_vector);
    assert(3u64 << 6u64 == 0xC0) by (bit_vector);
    assert(0u64 << 6u64 == 0) by (bit_vector);
    assert(1u64 << 6u64 == 0x40) by (bit_vector);
    assert(2u64 << 6u64 == 0x80) by (bit_vector);
    assert(0u64 << 8u64 == 0) by (bit_vector);
    assert(2u64 << 8u64 == 0x200) by (bit_vector);
    assert(3u64 << 8u64 == 0x300) by (bit_vector);
    assert(1u64 << 10u64 == 0x400) by (bit_vector);
    assert(1u64 << 54u64 == 0x0040_0000_0000_0000) by (bit_vector);
    assert(7u64 << 56u64 == 0x0700_0000_0000_0000) by (bit_vector);
    assert(0u64 << 56u64 == 0) by (bit_vector);
    assert(1u64 | 2u64 | 0x3Cu64 | 0xC0u64 | 0x300u64 | 0x400u64 | 0u64 == 0x7FF) by (bit_vector);
    assert(1u64 | 2u64 | 4u64 | 0xC0u64 | 0u64 | 0x400u64 | 0x0040_0000_0000_0000u64 | 0u64
        == 0x0040_0000_0000_04C7) by (bit_vector);
    assert(1u64 | 2u64 | 8u64 | 0xC0u64 | 0u64 | 0x400u64 | 0x0040_0000_0000_0000u64 | 0u64
        == 0x0040_0000_0000_04CB) by (bit_vector);
}

/// The masks and shifts that the executable code uses compute the fields.
proof fn lemma_field_masks(v: u64)
    ensures
        (v & ADDR_MASK) as int == addr_bits(v),
        ((v & HAP_MASK) >> 6) as int == field(v, 6, 2),
        ((v & SW_PGSZ_MASK) >> 56) as int == field(v, 56, 3),
        (v & PTE_VALID != 0) == bit(v, 0),
        ((v & (PTE_VALID | PTE_TABLE)) == (PTE_VALID | PTE_TABLE)) == (bit(v, 0) && bit(v, 1)),
        bit(v, 0) == (v % 2 == 1),
        bit(v, 1) == ((v / 2) % 2 == 1),
        field(v, 6, 2) == (v / 0x40) % 4,
        field(v, 56, 3) == (v / 0x0100_0000_0000_0000) % 8,
        addr_bits(v) == ((v / 0x1000) % 0x10_0000_0000) * 0x1000,
{
    lemma_pow2_values();
    lemma_constant_values();
    assert(v & 0x0000_FFFF_FFFF_F000u64 == ((v / 0x1000) % 0x10_0000_0000) * 0x1000) by (bit_vector);
    assert((v & 0xC0u64) >> 6u64 == (v / 0x40) % 4) by (bit_vector);
    assert((v & 0x0700_0000_0000_0000u64) >> 56u64 == (v / 0x0100_0000_0000_0000) % 8)
        by (bit_vector);
    assert((v & 1u64 != 0) == (v % 2 == 1)) by (bit_vector);
    assert(1u64 | 2u64 == 3) by (bit_vector);
    assert((v & 3u64 == 3) == (v % 2 == 1 && (v / 2) % 2 == 1)) by (bit_vector);
}

/// A single 64-bit ARMv8-A LPAE Stage-2 page table entry.
#[derive(Clone, Copy, PartialEq, Eq, Structural)]
pub struct Stage2Pte(u64);

impl View for Stage2Pte {
    type V = u64;

    closed spec fn view(&self) -> u64 {
        self.0
    }
}

impl Stage2Pte {
    /// The all-zero descriptor: bit [0] clear, so any walk through it faults.
    pub fn invalid() -> (pte: Self)
        ensures
            pte@ == 0,
            !bit(pte@, 0),
    {
        proof {
            lemma_pow2_values();
        }
        Self(0)
    }

    /// Construct from a raw 64-bit hardware descriptor value.
    pub fn from_raw(bits: u64) -> (pte: Self)
        ensures
            pte@ == bits,
    {
        Self(bits)
    }

    /// The raw 64-bit hardware value.
    pub fn raw(self) -> (bits: u64)
        ensures
            bits == self@,
    {
        self.0
    }

    /// Whether the descriptor is valid (bit [0] set).
    pub fn is_valid(self) -> (b: bool)
        ensures
            b == bit(self@, 0),
    {
        proof {
            lemma_field_masks(self.0);
        }
        self.0 & PTE_VALID != 0
    }

    /// Whether bits [1:0] are both set: a Table descriptor at L1/L2, a Page descriptor at L3.
    pub fn is_table_or_page(self) -> (b: bool)
        ensures
            b == (bit(self@, 0) && bit(self@, 1)),
    {
        proof {
            lemma_field_masks(self.0);
        }
        (self.0 & (PTE_VALID | PTE_TABLE)) == (PTE_VALID | PTE_TABLE)
    }

    /// The 2-bit hypervisor access permission field, bits [7:6].
    pub fn hap(self) -> (h: u64)
        ensures
            h == field(self@, 6, 2),
    {
        proof {
            lemma_field_masks(self.0);
        }
        (self.0 & HAP_MASK) >> HAP_SHIFT
    }

    /// The 3-bit software page-size tag, bits [58:56].
    pub fn page_size_tag(self) -> (t: u64)
        ensures
            t == field(self@, 56, 3),
    {
        proof {
            lemma_field_masks(self.0);
        }
        (self.0 & SW_PGSZ_MASK) >> SW_PGSZ_SHIFT
    }

    /// The 4 KiB-aligned output physical address, bits [47:12].
    pub fn output_addr(self) -> (a: u64)
        ensures
            a == addr_bits(self@),
    {
        proof {
            lemma_field_masks(self.0);
        }
        self.0 & ADDR_MASK
    }

    /// An L1/L2 Table descriptor pointing to the next-level table at `next_table_pa`:
    /// the address bits [47:12] of `next_table_pa` with bits [1:0] set and all else clear.
    pub fn table_desc(next_table_pa: u64) -> (pte: Self)
        ensures
            pte@ == addr_bits(next_table_pa) + 3,
    {
        proof {
            lemma_constant_values();
            lemma_field_masks(next_table_pa);
            assert(((next_table_pa & 0x0000_FFFF_FFFF_F000u64) | 1u64 | 2u64) == (next_table_pa
                & 0x0000_FFFF_FFFF_F000u64) + 3) by (bit_vector);
        }
        Self((next_table_pa & ADDR_MASK) | PTE_VALID | PTE_TABLE)
    }

    /// A Level-3 Page descriptor for a 4 KiB leaf: the address bits [47:12] of `pa`,
    /// combined bit by bit (inclusive or) with `flags`.
    pub fn page_4kb(pa: u64, flags: u64) -> (pte: Self)
        ensures
            pte@ == (addr_bits(pa) as u64 | flags),
    {
        proof {
            lemma_field_masks(pa);
        }
        Self((pa & ADDR_MASK) | flags)
    }
}

/// Reading back a Table descriptor gives the table's address, with the
/// descriptor valid and of Table type.
pub proof fn lemma_table_desc_fields(pa: u64)
    requires
        is_page_addr(pa),
    ensures
        addr_bits(pa) == pa,
        ({
            let d = (pa + 3) as u64;
            &&& bit(d, 0)
            &&& bit(d, 1)
            &&& addr_bits(d) == pa
        }),
{
    lemma_field_masks(pa);
    let d = (pa + 3) as u64;
    lemma_field_masks(d);
    assert(pa % 4096 == 0 && pa < 0x1_0000_0000_0000 ==> pa & 0x0000_FFFF_FFFF_F000u64 == pa)
        by (bit_vector);
    assert(pa % 4096 == 0 && pa < 0x1_0000_0000_0000 ==> ((pa + 3) as u64 & 0x0000_FFFF_FFFF_F000u64
        == pa && (pa + 3) as u64 % 2 == 1 && ((pa + 3) as u64 / 2) % 2 == 1)) by (bit_vector);
}

/// A Page descriptor built from `flags` that leave the address field clear keeps
/// every field of `flags` outside the address and carries the address bits of `pa`.
pub proof fn lemma_page_4kb_fields(pa: u64, flags: u64)
    requires
        addr_bits(flags) == 0,
    ensures
        ({
            let d = addr_bits(pa) as u64 | flags;
            &&& addr_bits(d) == addr_bits(pa)
            &&& bit(d, 0) == bit(flags, 0)
            &&& bit(d, 1) == bit(flags, 1)
            &&& field(d, 6, 2) == field(flags, 6, 2)
            &&& field(d, 56, 3) == field(flags, 56, 3)
        }),
{
    lemma_field_masks(pa);
    lemma_field_masks(flags);
    let d = addr_bits(pa) as u64 | flags;
    lemma_field_masks(d);
    let a = pa & 0x0000_FFFF_FFFF_F000u64;
    assert(a == pa & 0x0000_FFFF_FFFF_F000u64);
    assert(flags & 0x0000_FFFF_FFFF_F000u64 == 0 ==> {
        let x = (pa & 0x0000_FFFF_FFFF_F000u64) | flags;
        &&& x & 0x0000_FFFF_FFFF_F000u64 == pa & 0x0000_FFFF_FFFF_F000u64
        &&& x % 2 == flags % 2
        &&& (x / 2) % 2 == (flags / 2) % 2
        &&& (x / 0x40) % 4 == (flags / 0x40) % 4
        &&& (x / 0x0100_0000_0000_0000) % 8 == (flags / 0x0100_0000_0000_0000) % 8
    }) by (bit_vector);
}

/// The composite flag sets leave the address field clear, and describe valid
/// read-write Page descriptors tagged with the 4 KiB granule.
pub proof fn lemma_composite_flags(f: u64)
    requires
        f == S2_NORMAL_RW || f == S2_DEVICE_RW || f == S2_DEVICE_NGNRE_RW,
    ensures
        addr_bits(f) == 0,
        bit(f, 0),
        bit(f, 1),
        field(f, 6, 2) == 3,
        field(f, 56, 3) == 0,
{
    lemma_constant_values();
    lemma_field_masks(f);
}

// ── Page table structures and the translation state they encode ──

/// Number of 8-byte entries in one 4 KiB table (Level 2 and Level 3).
pub const TABLE_ENTRIES: usize = 512;

/// Number of entries in the concatenated Level-1 root table (IPA[39:30]).
pub const ROOT_ENTRIES: usize = 1024;

/// Capacity of the pre-allocated sub-table pool (Level-2 and Level-3 tables).
pub const TABLE_POOL_SIZE: usize = 512;

/// Number of 4 KiB pages in the 40-bit IPA space: the range of `page_of`.
pub const IPA_PAGES: u64 = 0x1000_0000;

/// The 4 KiB page of the 40-bit IPA space that `ipa` falls in: IPA[39:12].
/// Bits above 39 take no part in the walk.
pub open spec fn page_of(ipa: u64) -> int {
    field(ipa, 12, 28)
}

/// Level-1 index of a page: IPA[39:30].
pub open spec fn l1_of(page: int) -> int {
    page / 0x4_0000
}

/// Level-2 index of a page: IPA[29:21].
pub open spec fn l2_of(page: int) -> int {
    (page / 512) % 512
}

/// Level-3 index of a page: IPA[20:12].
pub open spec fn l3_of(page: int) -> int {
    page % 512
}

/// A single 4 KiB-aligned Stage-2 table of 512 entries (Level 2 or Level 3).
#[derive(Clone, Copy)]
pub struct Stage2PageTable {
    entries: [u64; 512],
}

impl Stage2PageTable {
    /// A table whose entries are all INVALID (zero).
    fn zero() -> (t: Self)
        ensures
            forall|i: int| 0 <= i < 512 ==> #[trigger] t.entries@[i] == 0,
    {
        Self { entries: [0u64; 512] }
    }
}

/// The Level-1 root table: 1024 entries across two concatenated 4 KiB pages.
struct Stage2RootTable {
    entries: [u64; 1024],
}

impl Stage2RootTable {
    /// A root whose entries are all INVALID (zero).
    fn zero() -> (t: Self)
        ensures
            forall|i: int| 0 <= i < 1024 ==> #[trigger] t.entries@[i] == 0,
    {
        Self { entries: [0u64; 1024] }
    }
}

/// Holder for table storage that the hypervisor owns exclusively.
struct TableCell<T> {
    value: T,
}

impl<T> TableCell<T> {
    /// Hold `val`.
    fn new(val: T) -> (c: Self)
        ensures
            c.value == val,
    {
        Self { value: val }
    }
}

/// What a pool table is used as: the Level-2 table below root entry `l1`, or the
/// Level-3 table below entry `l2` of that Level-2 table.
pub ghost enum TableRole {
    Level2 { l1: int },
    Level3 { l1: int, l2: int },
}

/// The Stage-2 translation state of one VM: the root table, the sub-table pool with
/// its bump index, the physical addresses at which the root and the pool reside,
/// and the value held in VTTBR_EL2.
pub struct Stage2Mmu {
    root: TableCell<Stage2RootTable>,
    pool: TableCell<Vec<Stage2PageTable>>,
    pool_next: usize,
    root_pa: u64,
    pool_pa: u64,
    vttbr: u64,
    roles: Ghost<Seq<TableRole>>,
}

impl Stage2Mmu {
    /// Entry `i` of the root table.
    pub closed spec fn root_entry(self, i: int) -> u64 {
        self.root.value.entries@[i]
    }

    /// Entry `i` of pool table `t`.
    pub closed spec fn pool_entry(self, t: int, i: int) -> u64 {
        self.pool.value@[t].entries@[i]
    }

    /// Physical address of the sub-table pool: pool table `t` sits `4096 * t` above it.
    pub closed spec fn pool_addr(self) -> u64 {
        self.pool_pa
    }

    /// Physical address of pool table `t`.
    pub open spec fn table_addr(self, t: int) -> int {
        self.pool_addr() + 4096 * t
    }

    /// Pool index of the table a descriptor points to.
    pub open spec fn table_index(self, desc: u64) -> int {
        (addr_bits(desc) - self.pool_addr()) / 4096
    }

    /// Pool index of the Level-2 table below root entry `l1`.
    pub open spec fn l2_table(self, l1: int) -> int {
        self.table_index(self.root_entry(l1))
    }

    /// Pool index of the Level-3 table below entry `l2` of the Level-2 table of `l1`.
    pub open spec fn l3_table(self, l1: int, l2: int) -> int {
        self.table_index(self.pool_entry(self.l2_table(l1), l2))
    }

    /// Root entry `l1` is a Table descriptor for an allocated Level-2 table.
    pub closed spec fn l1_entry_ok(self, l1: int) -> bool {
        let t = self.l2_table(l1);
        &&& 0 <= t < self.pool_next
        &&& self.root_entry(l1) == self.table_addr(t) + 3
        &&& self.roles@[t] == TableRole::Level2 { l1 }
    }

    /// Entry `l2` of the Level-2 table of `l1` is a Table descriptor for an
    /// allocated Level-3 table.
    pub closed spec fn l2_entry_ok(self, l1: int, l2: int) -> bool {
        let t = self.l3_table(l1, l2);
        &&& 0 <= t < self.pool_next
        &&& self.pool_entry(self.l2_table(l1), l2) == self.table_addr(t) + 3
        &&& self.roles@[t] == TableRole::Level3 { l1, l2 }
    }

    /// Whether the walk for (`l1`, `l2`) reaches a Level-3 table.
    pub open spec fn l3_present(self, l1: int, l2: int) -> bool {
        bit(self.root_entry(l1), 0) && bit(self.pool_entry(self.l2_table(l1), l2), 0)
    }

    /// The well-formedness of the translation state: table storage of the right
    /// shape, unallocated tables all INVALID, and every valid Level-1 and Level-2
    /// entry a Table descriptor for a distinct allocated table.
    pub closed spec fn wf(self) -> bool {
        &&& self.pool.value@.len() == TABLE_POOL_SIZE
        &&& self.roles@.len() == TABLE_POOL_SIZE
        &&& self.pool_next <= TABLE_POOL_SIZE
        &&& self.root_pa % 8192 == 0
        &&& self.root_pa < 0x1_0000_0000_0000
        &&& self.pool_pa % 4096 == 0
        &&& self.pool_pa + 4096 * TABLE_POOL_SIZE <= 0x1_0000_0000_0000
        &&& forall|t: int, i: int|
            self.pool_next <= t < TABLE_POOL_SIZE && 0 <= i < TABLE_ENTRIES
                ==> #[trigger] self.pool_entry(t, i) == 0
        &&& forall|l1: int|
            0 <= l1 < ROOT_ENTRIES && #[trigger] bit(self.root_entry(l1), 0) ==> self.l1_entry_ok(
                l1,
            )
        &&& forall|l1: int, l2: int|
            0 <= l1 < ROOT_ENTRIES && 0 <= l2 < TABLE_ENTRIES && #[trigger] self.l3_present(l1, l2)
                ==> self.l2_entry_ok(l1, l2)
    }

    /// The leaf descriptor that a walk for `page` reaches; 0 (INVALID) where the
    /// walk stops at an invalid Level-1 or Level-2 entry.
    pub open spec fn descriptor(self, page: int) -> u64 {
        let l1 = l1_of(page);
        let l2 = l2_of(page);
        if self.l3_present(l1, l2) {
            self.pool_entry(self.l3_table(l1, l2), l3_of(page))
        } else {
            0
        }
    }

    /// Number of pool tables handed out so far.
    pub closed spec fn tables_used(self) -> nat {
        self.pool_next as nat
    }

    /// Physical address of the root table.
    pub closed spec fn root_addr(self) -> u64 {
        self.root_pa
    }

    /// The value held in VTTBR_EL2.
    pub closed spec fn vttbr_value(self) -> u64 {
        self.vttbr
    }

    /// Number of sub-tables that mapping a page in `page` would allocate:
    /// 2 when its Level-1 entry is invalid, 1 when its Level-2 entry is, else 0.
    pub open spec fn needed_for(self, page: int) -> nat {
        if !bit(self.root_entry(l1_of(page)), 0) {
            2
        } else if !self.l3_present(l1_of(page), l2_of(page)) {
            1
        } else {
            0
        }
    }

    /// Pool index of the Level-2 table that mapping `page` walks through: the next
    /// free table when root entry `l1_of(page)` is invalid, else the one it points to.
    pub open spec fn l2_table_for(self, page: int) -> int {
        if self.needed_for(page) == 2 {
            self.tables_used() as int
        } else {
            self.l2_table(l1_of(page))
        }
    }

    /// Pool index of the Level-3 table that mapping `page` writes its leaf into: the
    /// table allocated after the Level-2 one, the next free table, or the existing one.
    pub open spec fn l3_table_for(self, page: int) -> int {
        if self.needed_for(page) == 2 {
            self.tables_used() + 1int
        } else if self.needed_for(page) == 1 {
            self.tables_used() as int
        } else {
            self.l3_table(l1_of(page), l2_of(page))
        }
    }

    /// The root entry after mapping `page`: a Table descriptor for the Level-2 table
    /// allocated for it where root entry `i` was invalid, else unchanged.
    pub open spec fn root_entry_after_map(self, page: int, i: int) -> u64 {
        if i == l1_of(page) && self.needed_for(page) == 2 {
            (self.pool_addr() + 4096 * self.tables_used() + 3) as u64
        } else {
            self.root_entry(i)
        }
    }

    /// Entry `i` of pool table `t` after mapping `page` to the leaf `leaf`: the
    /// Level-2 entry of the walk becomes a Table descriptor for its Level-3 table
    /// where it was invalid, the walk's leaf entry becomes `leaf`, all else unchanged.
    pub open spec fn pool_entry_after_map(self, page: int, leaf: u64, t: int, i: int) -> u64 {
        if t == self.l2_table_for(page) && i == l2_of(page) && self.needed_for(page) >= 1 {
            (self.pool_addr() + 4096 * self.l3_table_for(page) + 3) as u64
        } else if t == self.l3_table_for(page) && i == l3_of(page) {
            leaf
        } else {
            self.pool_entry(t, i)
        }
    }

    /// How many sub-tables mapping page `p` needs once `page` is mapped: none within
    /// `page`'s 2 MiB region, at most one within its 1 GiB region, else as before.
    pub open spec fn needed_after_map(self, page: int, p: int) -> nat {
        if l1_of(p) == l1_of(page) && l2_of(p) == l2_of(page) {
            0
        } else if l1_of(p) == l1_of(page) && self.needed_for(p) == 2 {
            1
        } else {
            self.needed_for(p)
        }
    }
}

impl View for Stage2Mmu {
    /// The leaf descriptor of every page of the 40-bit IPA space.
    type V = Map<int, u64>;

    closed spec fn view(&self) -> Map<int, u64> {
        Map::new(|p: int| 0 <= p < IPA_PAGES, |p: int| self.descriptor(p))
    }
}

/// A page number splits into its three table indices, and back.
proof fn lemma_page_indices(page: int)
    requires
        0 <= page < IPA_PAGES,
    ensures
        0 <= l1_of(page) < ROOT_ENTRIES,
        0 <= l2_of(page) < TABLE_ENTRIES,
        0 <= l3_of(page) < TABLE_ENTRIES,
        page == l1_of(page) * 0x4_0000 + l2_of(page) * 512 + l3_of(page),
{
}

/// Pages with the same three table indices are the same page.
proof fn lemma_page_indices_unique(p: int, q: int)
    requires
        0 <= p < IPA_PAGES,
        0 <= q < IPA_PAGES,
        l1_of(p) == l1_of(q),
        l2_of(p) == l2_of(q),
        l3_of(p) == l3_of(q),
    ensures
        p == q,
{
    lemma_page_indices(p);
    lemma_page_indices(q);
}

/// The shifts and masks of the walk extract the table indices of `page_of(ipa)`.
proof fn lemma_ipa_indices(ipa: u64)
    ensures
        0 <= page_of(ipa) < IPA_PAGES,
        ((ipa >> 30u64) & 0x3FF) as int == l1_of(page_of(ipa)),
        ((ipa >> 21u64) & 0x1FF) as int == l2_of(page_of(ipa)),
        ((ipa >> 12u64) & 0x1FF) as int == l3_of(page_of(ipa)),
{
    lemma2_to64();
    assert(pow2(28) == 0x1000_0000) by {
        lemma2_to64();
    }
    assert(((ipa >> 30u64) & 0x3FF) == ((ipa / 0x1000) % 0x1000_0000) / 0x4_0000) by (bit_vector);
    assert(((ipa >> 21u64) & 0x1FF) == (((ipa / 0x1000) % 0x1000_0000) / 512) % 512)
        by (bit_vector);
    assert(((ipa >> 12u64) & 0x1FF) == ((ipa / 0x1000) % 0x1000_0000) % 512) by (bit_vector);
}

impl Stage2Mmu {
    /// An empty translation state: root and pool at the given physical addresses,
    /// every entry INVALID, no table handed out, VTTBR_EL2 zero.
    pub fn new(root_pa: u64, pool_pa: u64) -> (mmu: Self)
        requires
            root_pa % 8192 == 0,
            root_pa < 0x1_0000_0000_0000,
            pool_pa % 4096 == 0,
            pool_pa + 4096 * TABLE_POOL_SIZE <= 0x1_0000_0000_0000,
        ensures
            mmu.wf(),
            mmu@ == Map::new(|p: int| 0 <= p < IPA_PAGES, |p: int| 0u64),
            forall|i: int| 0 <= i < ROOT_ENTRIES ==> #[trigger] mmu.root_entry(i) == 0,
            forall|t: int, i: int|
                0 <= t < TABLE_POOL_SIZE && 0 <= i < TABLE_ENTRIES ==> #[trigger] mmu.pool_entry(t, i) == 0,
            forall|p: int| 0 <= p < IPA_PAGES ==> #[trigger] mmu.needed_for(p) == 2,
            mmu.tables_used() == 0,
            mmu.root_addr() == root_pa,
            mmu.pool_addr() == pool_pa,
            mmu.vttbr_value() == 0,
    {
        let mut pool: Vec<Stage2PageTable> = Vec::new();
        let mut n: usize = 0;
        while n < TABLE_POOL_SIZE
            invariant
                n <= TABLE_POOL_SIZE,
                pool@.len() == n,
                forall|t: int, i: int|
                    0 <= t < n && 0 <= i < TABLE_ENTRIES ==> #[trigger] pool@[t].entries@[i] == 0,
            decreases TABLE_POOL_SIZE - n,
        {
            pool.push(Stage2PageTable::zero());
            n = n + 1;
        }
        let mmu = Stage2Mmu {
            root: TableCell::new(Stage2RootTable::zero()),
            pool: TableCell::new(pool),
            pool_next: 0,
            root_pa,
            pool_pa,
            vttbr: 0,
            roles: Ghost(Seq::new(TABLE_POOL_SIZE as nat, |t: int| TableRole::Level2 { l1: -1 })),
        };
        proof {
            lemma_pow2_values();
            assert(!bit(0u64, 0));
            assert forall|l1: int| 0 <= l1 < ROOT_ENTRIES implies !bit(mmu.root_entry(l1), 0) by {
                assert(mmu.root_entry(l1) == 0);
            }
            assert(mmu@ =~= Map::new(|p: int| 0 <= p < IPA_PAGES, |p: int| 0u64));
            assert forall|p: int| 0 <= p < IPA_PAGES implies #[trigger] mmu.needed_for(p) == 2 by {
                lemma_page_indices(p);
                assert(mmu.root_entry(l1_of(p)) == 0);
            }
        }
        mmu
    }

    /// Number of sub-tables still free in the pool.
    pub fn free_tables(&self) -> (n: usize)
        requires
            self.wf(),
        ensures
            n == TABLE_POOL_SIZE - self.tables_used(),
    {
        TABLE_POOL_SIZE - self.pool_next
    }

    /// Number of sub-tables that `map_4kb_page` would allocate to map `ipa`.
    pub fn tables_needed(&self, ipa: u64) -> (n: usize)
        requires
            self.wf(),
        ensures
            n == self.needed_for(page_of(ipa)),
    {
        proof {
            lemma_ipa_indices(ipa);
        }
        let l1_idx = ((ipa >> 30) & 0x3FF) as usize;
        let l2_idx = ((ipa >> 21) & 0x1FF) as usize;
        let l1_pte = Stage2Pte::from_raw(self.root.value.entries[l1_idx]);
        if !l1_pte.is_valid() {
            return 2;
        }
        let t2 = self.follow(l1_pte);
        proof {
            assert(self.l1_entry_ok(l1_idx as int));
        }
        let l2_pte = Stage2Pte::from_raw(self.pool.value[t2].entries[l2_idx]);
        if !l2_pte.is_valid() {
            1
        } else {
            0
        }
    }

    /// The leaf descriptor that a hardware walk for `ipa` reaches: L1[IPA[39:30]] →
    /// L2[IPA[29:21]] → L3[IPA[20:12]]; 0 (INVALID) where the walk meets an invalid
    /// Level-1 or Level-2 entry.
    pub fn walk(&self, ipa: u64) -> (d: u64)
        requires
            self.wf(),
        ensures
            d == self@[page_of(ipa)],
    {
        proof {
            lemma_ipa_indices(ipa);
            lemma_page_indices(page_of(ipa));
        }
        let l1_idx = ((ipa >> 30) & 0x3FF) as usize;
        let l2_idx = ((ipa >> 21) & 0x1FF) as usize;
        let l3_idx = ((ipa >> 12) & 0x1FF) as usize;
        let l1_pte = Stage2Pte::from_raw(self.root.value.entries[l1_idx]);
        if !l1_pte.is_valid() {
            return 0;
        }
        proof {
            assert(self.l1_entry_ok(l1_idx as int));
        }
        let t2 = self.follow(l1_pte);
        let l2_pte = Stage2Pte::from_raw(self.pool.value[t2].entries[l2_idx]);
        if !l2_pte.is_valid() {
            return 0;
        }
        proof {
            assert(self.l3_present(l1_idx as int, l2_idx as int));
            assert(self.l2_entry_ok(l1_idx as int, l2_idx as int));
        }
        let t3 = self.follow(l2_pte);
        self.pool.value[t3].entries[l3_idx]
    }

    /// Pool index of the table that a Table descriptor installed by this state points to.
    fn follow(&self, pte: Stage2Pte) -> (t: usize)
        requires
            self.wf(),
            exists|t: int| 0 <= t < self.pool_next && pte@ == self.table_addr(t) + 3,
        ensures
            t == self.table_index(pte@),
            t < self.pool_next,
            pte@ == self.table_addr(t as int) + 3,
    {
        let ghost t0 = choose|t: int| 0 <= t < self.pool_next && pte@ == self.table_addr(t) + 3;
        proof {
            lemma_table_desc_fields(self.table_addr(t0) as u64);
        }
        let a = pte.output_addr();
        ((a - self.pool_pa) / 4096) as usize
    }
}

impl Stage2Mmu {
    /// A state with the same tables as a well-formed one, and at least as many but
    /// not more than all pool tables handed out, is well-formed with the same translation.
    proof fn lemma_tables_unchanged(pre: Self, post: Self)
        requires
            pre.wf(),
            post.root == pre.root,
            post.pool == pre.pool,
            post.roles == pre.roles,
            post.root_pa == pre.root_pa,
            post.pool_pa == pre.pool_pa,
            pre.pool_next <= post.pool_next <= TABLE_POOL_SIZE,
        ensures
            post.wf(),
            post@ == pre@,
    {
        assert forall|l1: int| #[trigger] post.root_entry(l1) == pre.root_entry(l1) by {}
        assert forall|t: int, i: int| #[trigger] post.pool_entry(t, i) == pre.pool_entry(t, i) by {}
        assert forall|t: int, i: int|
            post.pool_next <= t < TABLE_POOL_SIZE && 0 <= i < TABLE_ENTRIES implies #[trigger] post.pool_entry(t, i) == 0 by {
            assert(pre.pool_entry(t, i) == 0);
        }
        assert forall|l1: int|
            0 <= l1 < ROOT_ENTRIES && #[trigger] bit(post.root_entry(l1), 0) implies post.l1_entry_ok(l1) by {
            assert(pre.l1_entry_ok(l1));
        }
        assert forall|l1: int, l2: int|
            0 <= l1 < ROOT_ENTRIES && 0 <= l2 < TABLE_ENTRIES && #[trigger] post.l3_present(l1, l2)
                implies post.l2_entry_ok(l1, l2) by {
            assert(pre.l3_present(l1, l2));
            assert(pre.l2_entry_ok(l1, l2));
        }
        assert forall|p: int| #[trigger] post.descriptor(p) == pre.descriptor(p) by {}
        assert(post@ =~= pre@);
    }

    /// Hand out the next unused pool table; returns its physical address. The
    /// table is INVALID throughout, and nothing points to it yet.
    fn alloc_sub_table(&mut self) -> (pa: u64)
        requires
            old(self).wf(),
            old(self).pool_next < TABLE_POOL_SIZE,
        ensures
            final(self).wf(),
            final(self).pool_next == old(self).pool_next + 1,
            pa == final(self).table_addr(old(self).pool_next as int),
            pa == old(self).pool_addr() + 4096 * old(self).pool_next,
            is_page_addr(pa),
            forall|i: int|
                0 <= i < TABLE_ENTRIES ==> #[trigger] final(self).pool_entry(
                    old(self).pool_next as int,
                    i,
                ) == 0,
            final(self).root == old(self).root,
            final(self).pool == old(self).pool,
            final(self).roles == old(self).roles,
            final(self).root_pa == old(self).root_pa,
            final(self).pool_pa == old(self).pool_pa,
            final(self).vttbr == old(self).vttbr,
    {
        let ghost pre = *self;
        let idx = self.pool_next;
        self.pool_next = idx + 1;
        proof {
            Self::lemma_tables_unchanged(pre, *self);
            assert forall|i: int| 0 <= i < TABLE_ENTRIES implies #[trigger] self.pool_entry(
                idx as int,
                i,
            ) == 0 by {
                assert(pre.pool_entry(idx as int, i) == 0);
            }
        }
        self.pool_pa + 4096 * (idx as u64)
    }

    /// Make root entry `l1` point to a Level-2 table, allocating a fresh one when
    /// the entry is invalid; returns the table's pool index. The translation of
    /// every page is unchanged.
    fn install_l2(&mut self, l1: usize) -> (t: usize)
        requires
            old(self).wf(),
            l1 < ROOT_ENTRIES,
            !bit(old(self).root_entry(l1 as int), 0) ==> old(self).pool_next < TABLE_POOL_SIZE,
        ensures
            final(self).wf(),
            final(self)@ == old(self)@,
            bit(final(self).root_entry(l1 as int), 0),
            t == final(self).l2_table(l1 as int),
            bit(old(self).root_entry(l1 as int), 0) ==> *final(self) == *old(self),
            !bit(old(self).root_entry(l1 as int), 0) ==> {
                &&& final(self).pool_next == old(self).pool_next + 1
                &&& t == old(self).pool_next
                &&& final(self).pool == old(self).pool
                &&& forall|i: int|
                    0 <= i < ROOT_ENTRIES ==> #[trigger] final(self).root_entry(i) == (if i
                        == l1 {
                        (old(self).table_addr(t as int) + 3) as u64
                    } else {
                        old(self).root_entry(i)
                    })
                &&& forall|i: int|
                    0 <= i < TABLE_ENTRIES ==> #[trigger] final(self).pool_entry(t as int, i) == 0
            },
            final(self).root_pa == old(self).root_pa,
            final(self).pool_pa == old(self).pool_pa,
            final(self).vttbr == old(self).vttbr,
    {
        let l1_pte = Stage2Pte::from_raw(self.root.value.entries[l1]);
        if l1_pte.is_valid() {
            proof {
                assert(self.l1_entry_ok(l1 as int));
            }
            self.follow(l1_pte)
        } else {
            let ghost pre = *self;
            let t = self.pool_next;
            let pa = self.alloc_sub_table();
            let ghost mid = *self;
            self.roles = Ghost(self.roles@.update(t as int, TableRole::Level2 { l1: l1 as int }));
            let desc = Stage2Pte::table_desc(pa);
            self.root.value.entries[l1] = desc.raw();
            proof {
                lemma_pow2_values();
                lemma_table_desc_fields(pa);
                assert(self.root_entry(l1 as int) == pa + 3);
                assert(self.l2_table(l1 as int) == t);
                assert forall|tb: int, i: int|
                    self.pool_next <= tb < TABLE_POOL_SIZE && 0 <= i < TABLE_ENTRIES implies #[trigger] self.pool_entry(tb, i) == 0 by {
                    assert(mid.pool_entry(tb, i) == 0);
                }
                assert forall|i: int| 0 <= i < TABLE_ENTRIES implies #[trigger] self.pool_entry(t as int, i) == 0 by {
                    assert(mid.pool_entry(t as int, i) == 0);
                }
                assert forall|l1b: int|
                    0 <= l1b < ROOT_ENTRIES && #[trigger] bit(
                        self.root_entry(l1b),
                        0,
                    ) implies self.l1_entry_ok(l1b) by {
                    if l1b != l1 {
                        assert(pre.l1_entry_ok(l1b));
                    }
                }
                assert forall|l1b: int, l2b: int|
                    0 <= l1b < ROOT_ENTRIES && 0 <= l2b < TABLE_ENTRIES
                        && #[trigger] self.l3_present(l1b, l2b) implies self.l2_entry_ok(
                    l1b,
                    l2b,
                ) by {
                    if l1b == l1 {
                        assert(pre.pool_entry(t as int, l2b) == 0);
                        assert(!bit(0u64, 0));
                    }
                    assert(pre.l3_present(l1b, l2b));
                    assert(pre.l2_entry_ok(l1b, l2b));
                }
                assert forall|p: int| 0 <= p < IPA_PAGES implies #[trigger] self.descriptor(p)
                    == pre.descriptor(p) by {
                    lemma_page_indices(p);
                    if l1_of(p) != l1 {
                        assert(self.root_entry(l1_of(p)) == pre.root_entry(l1_of(p)));
                    } else {
                        assert(pre.pool_entry(t as int, l2_of(p)) == 0);
                        assert(!bit(0u64, 0));
                    }
                }
                assert(self@ =~= pre@);
            }
            t
        }
    }
}

impl Stage2Mmu {
    /// Make entry `l2` of the Level-2 table `t2` of root entry `l1` point to a
    /// Level-3 table, allocating a fresh one when the entry is invalid; returns the
    /// table's pool index. The translation of every page is unchanged.
    fn install_l3(&mut self, l1: usize, l2: usize, t2: usize) -> (t: usize)
        requires
            old(self).wf(),
            l1 < ROOT_ENTRIES,
            l2 < TABLE_ENTRIES,
            bit(old(self).root_entry(l1 as int), 0),
            t2 == old(self).l2_table(l1 as int),
            !old(self).l3_present(l1 as int, l2 as int) ==> old(self).pool_next < TABLE_POOL_SIZE,
        ensures
            final(self).wf(),
            final(self)@ == old(self)@,
            final(self).l3_present(l1 as int, l2 as int),
            t == final(self).l3_table(l1 as int, l2 as int),
            final(self).pool_next == old(self).pool_next + (if old(self).l3_present(
                l1 as int,
                l2 as int,
            ) {
                0int
            } else {
                1int
            }),
            old(self).l3_present(l1 as int, l2 as int) ==> *final(self) == *old(self),
            !old(self).l3_present(l1 as int, l2 as int) ==> {
                &&& t == old(self).pool_next
                &&& final(self).root == old(self).root
                &&& forall|tb: int, i: int|
                    0 <= tb < TABLE_POOL_SIZE && 0 <= i < TABLE_ENTRIES ==> #[trigger] final(self).pool_entry(tb, i) == (if tb == t2 && i == l2 {
                        (old(self).table_addr(t as int) + 3) as u64
                    } else {
                        old(self).pool_entry(tb, i)
                    })
            },
            final(self).root_pa == old(self).root_pa,
            final(self).pool_pa == old(self).pool_pa,
            final(self).vttbr == old(self).vttbr,
    {
        proof {
            assert(self.l1_entry_ok(l1 as int));
        }
        let l2_pte = Stage2Pte::from_raw(self.pool.value[t2].entries[l2]);
        if l2_pte.is_valid() {
            proof {
                assert(self.l3_present(l1 as int, l2 as int));
                assert(self.l2_entry_ok(l1 as int, l2 as int));
            }
            self.follow(l2_pte)
        } else {
            let ghost pre = *self;
            let t = self.pool_next;
            let pa = self.alloc_sub_table();
            let ghost mid = *self;
            self.roles = Ghost(
                self.roles@.update(t as int, TableRole::Level3 { l1: l1 as int, l2: l2 as int }),
            );
            let desc = Stage2Pte::table_desc(pa);
            self.pool.value[t2].entries[l2] = desc.raw();
            proof {
                lemma_pow2_values();
                lemma_table_desc_fields(pa);
                assert(!bit(0u64, 0));
                assert(self.pool_entry(t2 as int, l2 as int) == pa + 3);
                assert(self.l3_table(l1 as int, l2 as int) == t);
                assert forall|tb: int, i: int|
                    self.pool_next <= tb < TABLE_POOL_SIZE && 0 <= i
                        < TABLE_ENTRIES implies #[trigger] self.pool_entry(tb, i) == 0 by {
                    assert(mid.pool_entry(tb, i) == 0);
                }
                assert forall|i: int|
                    0 <= i < TABLE_ENTRIES implies #[trigger] self.pool_entry(t as int, i) == 0 by {
                    assert(mid.pool_entry(t as int, i) == 0);
                }
                assert forall|l1b: int|
                    0 <= l1b < ROOT_ENTRIES && #[trigger] bit(
                        self.root_entry(l1b),
                        0,
                    ) implies self.l1_entry_ok(l1b) by {
                    assert(pre.l1_entry_ok(l1b));
                }
                assert forall|l1b: int, l2b: int|
                    0 <= l1b < ROOT_ENTRIES && 0 <= l2b < TABLE_ENTRIES
                        && #[trigger] self.l3_present(l1b, l2b) implies self.l2_entry_ok(
                    l1b,
                    l2b,
                ) by {
                    assert(pre.l1_entry_ok(l1b));
                    if l1b == l1 && l2b == l2 {
                    } else {
                        if self.l2_table(l1b) == t2 {
                            assert(l1b == l1);
                        }
                        assert(self.pool_entry(self.l2_table(l1b), l2b) == pre.pool_entry(
                            pre.l2_table(l1b),
                            l2b,
                        ));
                        assert(pre.l3_present(l1b, l2b));
                        assert(pre.l2_entry_ok(l1b, l2b));
                    }
                }
                assert forall|p: int| 0 <= p < IPA_PAGES implies #[trigger] self.descriptor(p)
                    == pre.descriptor(p) by {
                    lemma_page_indices(p);
                    let l1p = l1_of(p);
                    let l2p = l2_of(p);
                    if bit(self.root_entry(l1p), 0) {
                        assert(pre.l1_entry_ok(l1p));
                        if l1p == l1 && l2p == l2 {
                            assert(self.pool_entry(t as int, l3_of(p)) == 0);
                        } else {
                            if self.l2_table(l1p) == t2 {
                                assert(l1p == l1);
                            }
                            assert(self.pool_entry(self.l2_table(l1p), l2p) == pre.pool_entry(
                                pre.l2_table(l1p),
                                l2p,
                            ));
                            if pre.l3_present(l1p, l2p) {
                                assert(pre.l2_entry_ok(l1p, l2p));
                                assert(self.l3_table(l1p, l2p) != t2);
                            }
                        }
                    }
                }
                assert(self@ =~= pre@);
            }
            t
        }
    }
}

/// VMID given to the boot VM; VMID 0 is reserved for the host context.
pub const BOOT_VMID: u64 = 1;

impl Stage2Mmu {
    /// Write leaf entry `l3` of the Level-3 table `t3` of (`l1`, `l2`): the
    /// descriptor of that one page becomes `value`, every other page keeps its own.
    fn write_leaf(&mut self, l1: usize, l2: usize, l3: usize, t3: usize, value: u64)
        requires
            old(self).wf(),
            l1 < ROOT_ENTRIES,
            l2 < TABLE_ENTRIES,
            l3 < TABLE_ENTRIES,
            old(self).l3_present(l1 as int, l2 as int),
            t3 == old(self).l3_table(l1 as int, l2 as int),
        ensures
            final(self).wf(),
            final(self)@ == old(self)@.insert(
                l1 as int * 0x4_0000 + l2 as int * 512 + l3 as int,
                value,
            ),
            final(self).pool_next == old(self).pool_next,
            final(self).root == old(self).root,
            forall|tb: int, i: int|
                0 <= tb < TABLE_POOL_SIZE && 0 <= i < TABLE_ENTRIES ==> #[trigger] final(self).pool_entry(tb, i) == (if tb == t3 && i == l3 {
                    value
                } else {
                    old(self).pool_entry(tb, i)
                }),
            final(self).root_pa == old(self).root_pa,
            final(self).pool_pa == old(self).pool_pa,
            final(self).vttbr == old(self).vttbr,
    {
        let ghost pre = *self;
        proof {
            assert(self.l1_entry_ok(l1 as int));
            assert(self.l2_entry_ok(l1 as int, l2 as int));
        }
        self.pool.value[t3].entries[l3] = value;
        let ghost page = l1 as int * 0x4_0000 + l2 as int * 512 + l3 as int;
        proof {
            assert(l1_of(page) == l1 && l2_of(page) == l2 && l3_of(page) == l3);
            assert forall|tb: int, i: int|
                self.pool_next <= tb < TABLE_POOL_SIZE && 0 <= i
                    < TABLE_ENTRIES implies #[trigger] self.pool_entry(tb, i) == 0 by {
                assert(pre.pool_entry(tb, i) == 0);
            }
            assert forall|l1b: int|
                0 <= l1b < ROOT_ENTRIES && #[trigger] bit(
                    self.root_entry(l1b),
                    0,
                ) implies self.l1_entry_ok(l1b) by {
                assert(pre.l1_entry_ok(l1b));
                assert(self.l2_table(l1b) != t3);
            }
            assert forall|l1b: int, l2b: int|
                0 <= l1b < ROOT_ENTRIES && 0 <= l2b < TABLE_ENTRIES
                    && #[trigger] self.l3_present(l1b, l2b) implies self.l2_entry_ok(l1b, l2b) by {
                assert(pre.l1_entry_ok(l1b));
                assert(self.l2_table(l1b) != t3);
                assert(pre.l3_present(l1b, l2b));
                assert(pre.l2_entry_ok(l1b, l2b));
            }
            assert forall|p: int| 0 <= p < IPA_PAGES implies #[trigger] self.descriptor(p) == (
            if p == page {
                value
            } else {
                pre.descriptor(p)
            }) by {
                lemma_page_indices(p);
                let l1p = l1_of(p);
                let l2p = l2_of(p);
                if bit(self.root_entry(l1p), 0) {
                    assert(pre.l1_entry_ok(l1p));
                    assert(self.l2_table(l1p) != t3);
                    if pre.l3_present(l1p, l2p) {
                        assert(pre.l2_entry_ok(l1p, l2p));
                        if p != page && self.l3_table(l1p, l2p) == t3 && l3_of(p) == l3 {
                            assert(l1p == l1 && l2p == l2);
                            lemma_page_indices_unique(p, page);
                        }
                    }
                }
            }
            assert(self@ =~= pre@.insert(page, value));
        }
    }

    /// Map the 4 KiB page of `ipa` to `pa`: walk L1[IPA[39:30]] → L2[IPA[29:21]] →
    /// L3[IPA[20:12]], allocating and installing a Level-2 and a Level-3 table where
    /// the walk meets an invalid entry, then write the leaf Page descriptor
    /// (address bits of `pa`, or `flags`). Every other page keeps its descriptor.
    pub fn map_4kb_page(&mut self, ipa: u64, pa: u64, flags: u64)
        requires
            old(self).wf(),
            old(self).needed_for(page_of(ipa)) + old(self).tables_used() <= TABLE_POOL_SIZE,
        ensures
            final(self).wf(),
            final(self)@ == old(self)@.insert(page_of(ipa), addr_bits(pa) as u64 | flags),
            final(self).tables_used() == old(self).tables_used() + old(self).needed_for(
                page_of(ipa),
            ),
            forall|i: int|
                0 <= i < ROOT_ENTRIES ==> #[trigger] final(self).root_entry(i) == old(
                    self,
                ).root_entry_after_map(page_of(ipa), i),
            forall|t: int, i: int|
                0 <= t < TABLE_POOL_SIZE && 0 <= i < TABLE_ENTRIES ==> #[trigger] final(self).pool_entry(t, i)
                    == old(self).pool_entry_after_map(page_of(ipa), addr_bits(pa) as u64 | flags, t, i),
            final(self).needed_for(page_of(ipa)) == 0,
            forall|p: int|
                0 <= p < IPA_PAGES ==> #[trigger] final(self).needed_for(p) == old(
                    self,
                ).needed_after_map(page_of(ipa), p),
            final(self).pool_addr() == old(self).pool_addr(),
            final(self).root_addr() == old(self).root_addr(),
            final(self).vttbr_value() == old(self).vttbr_value(),
    {
        proof {
            lemma_ipa_indices(ipa);
            lemma_page_indices(page_of(ipa));
        }
        let ghost s0 = *self;
        let ghost page = page_of(ipa);
        let l1_idx = ((ipa >> 30) & 0x3FF) as usize;
        let l2_idx = ((ipa >> 21) & 0x1FF) as usize;
        let l3_idx = ((ipa >> 12) & 0x1FF) as usize;
        let l2_table = self.install_l2(l1_idx);
        let ghost s1 = *self;
        let l3_table = self.install_l3(l1_idx, l2_idx, l2_table);
        let ghost s2 = *self;
        let leaf = Stage2Pte::page_4kb(pa, flags);
        self.write_leaf(l1_idx, l2_idx, l3_idx, l3_table, leaf.raw());
        proof {
            let l1 = l1_idx as int;
            let l2 = l2_idx as int;
            let n = s0.pool_next as int;
            let need = s0.needed_for(page);
            let t2 = s0.l2_table_for(page);
            let t3 = s0.l3_table_for(page);
            let lf = addr_bits(pa) as u64 | flags;
            if need == 2 {
                lemma_pow2_values();
                assert(s1.pool_entry(n, l2) == 0);
                assert(!bit(0u64, 0));
                assert(!s1.l3_present(l1, l2));
            } else {
                assert(s0.l1_entry_ok(l1));
                if need == 1 {
                    assert(!s1.l3_present(l1, l2));
                } else {
                    assert(s1.l3_present(l1, l2));
                    assert(s0.l2_entry_ok(l1, l2));
                }
            }
            assert(l2_table == t2);
            assert(l3_table == t3);
            assert forall|i: int| 0 <= i < ROOT_ENTRIES implies #[trigger] self.root_entry(i)
                == s0.root_entry_after_map(page, i) by {
                assert(self.root_entry(i) == s2.root_entry(i));
                assert(s2.root_entry(i) == s1.root_entry(i));
            }
            assert forall|t: int, i: int|
                0 <= t < TABLE_POOL_SIZE && 0 <= i < TABLE_ENTRIES implies #[trigger] self.pool_entry(t, i)
                == s0.pool_entry_after_map(page, lf, t, i) by {
                assert(s1.pool_entry(t, i) == s0.pool_entry(t, i));
                if need >= 1 {
                    assert(t3 == n + need - 1);
                    assert(t2 != t3);
                }
            }
            // The walk for `page` now reaches its Level-3 table.
            assert(self.l1_entry_ok(l1));
            assert(self.l2_table(l1) == t2);
            assert(self.l3_present(l1, l2));
            // How every other page's walk changes.
            assert forall|p: int| 0 <= p < IPA_PAGES implies #[trigger] self.needed_for(p)
                == s0.needed_after_map(page, p) by {
                lemma_page_indices(p);
                let l1p = l1_of(p);
                let l2p = l2_of(p);
                if l1p == l1 {
                    if l2p != l2 {
                        assert(self.pool_entry(t2, l2p) == s0.pool_entry(t2, l2p));
                        if need == 2 {
                            lemma_pow2_values();
                            assert(s0.pool_entry(n, l2p) == 0);
                            assert(!bit(0u64, 0));
                        }
                    }
                } else {
                    assert(self.root_entry(l1p) == s0.root_entry(l1p));
                    if bit(s0.root_entry(l1p), 0) {
                        assert(s0.l1_entry_ok(l1p));
                        let tp = s0.l2_table(l1p);
                        if need == 1 {
                            assert(t2 != tp);
                        }
                        if need == 0 {
                            assert(s0.l2_entry_ok(l1, l2));
                            assert(t3 != tp);
                        }
                        assert(self.pool_entry(tp, l2p) == s0.pool_entry(tp, l2p));
                    }
                }
            }
        }
    }

    /// Compute the VTTBR_EL2 value for this state's root table and the boot VMID,
    /// and hold it as the register's value: VMID in bits [63:48], the root table's
    /// address in BADDR, CnP clear. The translation tables are unchanged.
    pub fn stage2_mmu_init(&mut self)
        requires
            old(self).wf(),
        ensures
            final(self).wf(),
            final(self)@ == old(self)@,
            final(self).tables_used() == old(self).tables_used(),
            forall|i: int| #[trigger] final(self).root_entry(i) == old(self).root_entry(i),
            forall|t: int, i: int| #[trigger] final(self).pool_entry(t, i) == old(self).pool_entry(t, i),
            forall|p: int| #[trigger] final(self).needed_for(p) == old(self).needed_for(p),
            final(self).pool_addr() == old(self).pool_addr(),
            final(self).root_addr() == old(self).root_addr(),
            final(self).vttbr_value() == BOOT_VMID * 0x1_0000_0000_0000 + old(self).root_addr(),
    {
        let root_pa = self.root_pa;
        proof {
            lemma_field_masks(root_pa);
            assert(root_pa % 4096 == 0 && root_pa < 0x1_0000_0000_0000 ==> (1u64 << 48u64) | (
            root_pa & 0x0000_FFFF_FFFF_F000u64) == 0x1_0000_0000_0000 + root_pa) by (bit_vector);
        }
        let ghost pre = *self;
        let vttbr: u64 = (BOOT_VMID << 48) | (root_pa & ADDR_MASK);
        self.vttbr = vttbr;
        proof {
            Self::lemma_tables_unchanged(pre, *self);
        }
    }

    /// The value held in VTTBR_EL2.
    pub fn get_vttbr(&self) -> (v: u64)
        ensures
            v == self.vttbr_value(),
    {
        self.vttbr
    }
}

impl Stage2Mmu {
    /// Entry `i` of the root table, as it is to be installed in memory.
    pub fn root_entry_at(&self, i: usize) -> (e: u64)
        requires
            i < ROOT_ENTRIES,
        ensures
            e == self.root_entry(i as int),
    {
        self.root.value.entries[i]
    }

    /// Entry `i` of pool table `t`, as it is to be installed in memory.
    pub fn pool_entry_at(&self, t: usize, i: usize) -> (e: u64)
        requires
            self.wf(),
            t < TABLE_POOL_SIZE,
            i < TABLE_ENTRIES,
        ensures
            e == self.pool_entry(t as int, i as int),
    {
        self.pool.value[t].entries[i]
    }

    /// What well-formedness guarantees about the addresses and the pool count.
    pub proof fn lemma_wf_facts(self)
        requires
            self.wf(),
        ensures
            self.root_addr() % 8192 == 0,
            self.root_addr() < 0x1_0000_0000_0000,
            self.pool_addr() % 4096 == 0,
            self.pool_addr() + 4096 * TABLE_POOL_SIZE <= 0x1_0000_0000_0000,
            self.tables_used() <= TABLE_POOL_SIZE,
            self.tables_used() == 0 ==> forall|p: int|
                0 <= p < IPA_PAGES ==> #[trigger] self.needed_for(p) == 2,
    {
        if self.tables_used() == 0 {
            assert forall|p: int| 0 <= p < IPA_PAGES implies #[trigger] self.needed_for(p) == 2 by {
                lemma_page_indices(p);
                if bit(self.root_entry(l1_of(p)), 0) {
                    assert(self.l1_entry_ok(l1_of(p)));
                }
            }
        }
    }

    /// Mapping one page allocates at most two sub-tables.
    pub proof fn lemma_needed_at_most_two(self, page: int)
        ensures
            self.needed_for(page) <= 2,
    {
    }
}

/// A descriptor is determined by its raw value: reconstructing a descriptor from
/// its raw value gives the same descriptor.
pub proof fn lemma_pte_view_injective(a: Stage2Pte, b: Stage2Pte)
    requires
        a@ == b@,
    ensures
        a == b,
{
}

/// A Page descriptor built by `page_4kb` from a 4 KiB-aligned `pa` and one of the
/// composite flag sets is a valid Page descriptor whose output address is `pa`,
/// with read-write access and the 4 KiB tag: a walk through it reaches `pa`.
pub proof fn lemma_composite_leaf(pa: u64, flags: u64)
    requires
        is_page_addr(pa),
        flags == S2_NORMAL_RW || flags == S2_DEVICE_RW || flags == S2_DEVICE_NGNRE_RW,
    ensures
        ({
            let d = addr_bits(pa) as u64 | flags;
            &&& bit(d, 0)
            &&& bit(d, 1)
            &&& addr_bits(d) == pa
            &&& field(d, 6, 2) == 3
            &&& field(d, 56, 3) == 0
        }),
{
    lemma_composite_flags(flags);
    lemma_page_4kb_fields(pa, flags);
    lemma_table_desc_fields(pa);
}

/// The VTTBR_EL2 value of the boot VM for a root table at `root_pa` carries the
/// boot VMID in bits [63:48] and `root_pa` in its base-address bits [47:12], with
/// CnP (bit 0) clear.
pub proof fn lemma_vttbr_fields(root_pa: u64)
    requires
        root_pa % 8192 == 0,
        root_pa < 0x1_0000_0000_0000,
    ensures
        ({
            let v = (BOOT_VMID * 0x1_0000_0000_0000 + root_pa) as u64;
            &&& field(v, 48, 16) == BOOT_VMID
            &&& addr_bits(v) == root_pa
            &&& !bit(v, 0)
        }),
{
    lemma2_to64();
    lemma2_to64_rest();
    lemma_pow2_values();
    let v = (BOOT_VMID * 0x1_0000_0000_0000 + root_pa) as u64;
    lemma_field_masks(v);
    assert(root_pa % 8192 == 0 && root_pa < 0x1_0000_0000_0000 ==> {
        let w = (0x1_0000_0000_0000u64 + root_pa) as u64;
        &&& (w / 0x1_0000_0000_0000) % 0x1_0000 == 1
        &&& ((w / 0x1000) % 0x10_0000_0000) * 0x1000 == root_pa
        &&& w % 2 == 0
    }) by (bit_vector);
}

impl Stage2Mmu {
    /// Pool table `t` sits `4096 * t` bytes above the pool's base address, and a
    /// Table descriptor for that address leads back to table `t`.
    pub proof fn lemma_table_placement(self, t: int)
        requires
            self.wf(),
            0 <= t < TABLE_POOL_SIZE,
        ensures
            self.table_addr(t) == self.pool_addr() + 4096 * t,
            is_page_addr((self.pool_addr() + 4096 * t) as u64),
            addr_bits((self.pool_addr() + 4096 * t + 3) as u64) == self.pool_addr() + 4096 * t,
            self.table_index((self.pool_addr() + 4096 * t + 3) as u64) == t,
    {
        lemma_table_desc_fields((self.pool_addr() + 4096 * t) as u64);
    }

    /// Every valid Level-1 entry, and every valid Level-2 entry below one, is a Table
    /// descriptor naming the physical address of an allocated pool table: the pool's
    /// base plus `4096` times the table's index.
    pub proof fn lemma_table_descriptors_name_pool_tables(self)
        requires
            self.wf(),
        ensures
            forall|l1: int|
                0 <= l1 < ROOT_ENTRIES && #[trigger] bit(self.root_entry(l1), 0) ==> {
                    &&& 0 <= self.l2_table(l1) < self.tables_used()
                    &&& self.root_entry(l1) == self.pool_addr() + 4096 * self.l2_table(l1) + 3
                },
            forall|l1: int, l2: int|
                0 <= l1 < ROOT_ENTRIES && 0 <= l2 < TABLE_ENTRIES && #[trigger] self.l3_present(
                    l1,
                    l2,
                ) ==> {
                    &&& 0 <= self.l3_table(l1, l2) < self.tables_used()
                    &&& self.pool_entry(self.l2_table(l1), l2) == self.pool_addr() + 4096
                        * self.l3_table(l1, l2) + 3
                },
    {
        assert forall|l1: int|
            0 <= l1 < ROOT_ENTRIES && #[trigger] bit(self.root_entry(l1), 0) implies {
                &&& 0 <= self.l2_table(l1) < self.tables_used()
                &&& self.root_entry(l1) == self.pool_addr() + 4096 * self.l2_table(l1) + 3
            } by {
            assert(self.l1_entry_ok(l1));
        }
        assert forall|l1: int, l2: int|
            0 <= l1 < ROOT_ENTRIES && 0 <= l2 < TABLE_ENTRIES && #[trigger] self.l3_present(
                l1,
                l2,
            ) implies {
                &&& 0 <= self.l3_table(l1, l2) < self.tables_used()
                &&& self.pool_entry(self.l2_table(l1), l2) == self.pool_addr() + 4096
                    * self.l3_table(l1, l2) + 3
            } by {
            assert(self.l2_entry_ok(l1, l2));
        }
    }

    /// Mapping a page on a fresh state (no table handed out, every root entry zero)
    /// installs, in the page's root entry, a Table descriptor for the pool's first table (at the pool's base), and
    /// in that table's entry for the page, one for the second table (4 KiB above the
    /// base), whose entry for the page becomes the leaf; nothing else is written.
    pub proof fn lemma_first_map_layout(self, page: int, leaf: u64)
        requires
            self.wf(),
            self.tables_used() == 0,
            forall|i: int| 0 <= i < ROOT_ENTRIES ==> #[trigger] self.root_entry(i) == 0,
            0 <= page < IPA_PAGES,
        ensures
            self.root_entry_after_map(page, l1_of(page)) == self.pool_addr() + 3,
            self.pool_entry_after_map(page, leaf, 0, l2_of(page)) == self.pool_addr() + 4096 + 3,
            self.pool_entry_after_map(page, leaf, 1, l3_of(page)) == leaf,
            forall|i: int|
                0 <= i < ROOT_ENTRIES && i != l1_of(page) ==> #[trigger] self.root_entry_after_map(
                    page,
                    i,
                ) == 0,
            forall|t: int, i: int|
                0 <= t < TABLE_POOL_SIZE && 0 <= i < TABLE_ENTRIES && !(t == 0 && i == l2_of(page))
                    && !(t == 1 && i == l3_of(page)) ==> #[trigger] self.pool_entry_after_map(
                    page,
                    leaf,
                    t,
                    i,
                ) == 0,
    {
        self.lemma_wf_facts();
        lemma_page_indices(page);
        lemma_pow2_values();
        assert(self.needed_for(page) == 2);
        assert(self.root_entry(l1_of(page)) == 0);
        assert forall|t: int, i: int|
            0 <= t < TABLE_POOL_SIZE && 0 <= i < TABLE_ENTRIES && !(t == 0 && i == l2_of(page))
                && !(t == 1 && i == l3_of(page)) implies #[trigger] self.pool_entry_after_map(
                page,
                leaf,
                t,
                i,
            ) == 0 by {
            assert(self.pool_entry(t, i) == 0);
        }
    }
}

} // verus!
