use kernel::page::{vpn_index, EntryAttributes, Frame, Page, Table, ENTRIES};
use kernel::symbols::{MAXVA, TRAMPOLINE_START, TRAPFRAME_START};

fn owned_byte(t: &Table, va: u64, at: usize) -> u8 {
    match &t.lookup(va).unwrap().frame {
        Frame::Owned(page) => page.data[at],
        Frame::Kernel(_) => panic!("a kernel mapping"),
    }
}

#[test]
fn attribute_bits() {
    assert_eq!(EntryAttributes::R.val(), 2);
    assert_eq!(EntryAttributes::W.val(), 4);
    assert_eq!(EntryAttributes::X.val(), 8);
    assert_eq!(EntryAttributes::U.val(), 16);
    assert_eq!(EntryAttributes::RW.val(), 6);
    assert_eq!(EntryAttributes::RX.val(), 10);
    assert_eq!(EntryAttributes::UR.val(), 18);
    assert_eq!(EntryAttributes::URW.val(), 22);
    assert_eq!(EntryAttributes::URX.val(), 26);
}

#[test]
fn indices_split_the_address_nine_bits_a_level() {
    assert_eq!(ENTRIES, 512);
    assert_eq!(vpn_index(0, 0), 0);
    assert_eq!(vpn_index(0x1000, 0), 1);
    assert_eq!(vpn_index(0x1fff, 0), 1);
    assert_eq!(vpn_index(0x20_0000, 1), 1);
    assert_eq!(vpn_index(0x20_0000, 0), 0);
    assert_eq!(vpn_index(0x4000_0000, 2), 1);
    assert_eq!(vpn_index(TRAMPOLINE_START, 2), 255);
    assert_eq!(vpn_index(TRAMPOLINE_START, 1), 511);
    assert_eq!(vpn_index(TRAMPOLINE_START, 0), 511);
    assert_eq!(vpn_index(TRAPFRAME_START, 0), 510);
    assert_eq!(vpn_index(0x8000_1000, 2), 2);
    assert_eq!(vpn_index(0x8000_1000, 1), 0);
    assert_eq!(vpn_index(0x8000_1000, 0), 1);
}

#[test]
fn layout_constants() {
    assert_eq!(MAXVA, 1u64 << 38);
    assert_eq!(TRAMPOLINE_START, MAXVA - 4096);
    assert_eq!(TRAPFRAME_START, MAXVA - 2 * 4096);
}

#[test]
fn a_new_table_maps_nothing() {
    let t = Table::new();
    assert!(t.lookup(0).is_none());
    assert!(t.lookup(0x8000_1000).is_none());
    assert!(t.lookup(TRAMPOLINE_START).is_none());
}

#[test]
fn a_new_page_is_zero() {
    let p = Page::new();
    assert!(p.data.iter().all(|b| *b == 0));
    assert_eq!(p.data.len(), 4096);
}

#[test]
fn map_installs_an_owned_page_for_the_whole_page() {
    let mut t = Table::new();
    let mut page = Page::new();
    page.data[5] = 0xab;
    t.map(0x3000, page, EntryAttributes::URW.val());
    assert_eq!(t.lookup(0x3000).unwrap().attrs, 22);
    assert_eq!(owned_byte(&t, 0x3000, 5), 0xab);
    assert_eq!(owned_byte(&t, 0x3fff, 5), 0xab);
    assert!(t.lookup(0x2fff).is_none());
    assert!(t.lookup(0x4000).is_none());
    assert!(t.lookup(0x20_3000).is_none());
    assert!(t.lookup(0x4000_3000).is_none());
}

#[test]
fn kernel_map_points_at_memory_owned_elsewhere() {
    let mut t = Table::new();
    t.kernel_map(TRAMPOLINE_START, 0x8000_5000, EntryAttributes::RX.val());
    let leaf = t.lookup(TRAMPOLINE_START).unwrap();
    assert_eq!(leaf.attrs, 10);
    match leaf.frame {
        Frame::Kernel(pa) => assert_eq!(pa, 0x8000_5000),
        Frame::Owned(_) => panic!("an owned frame"),
    }
    assert!(t.lookup(TRAPFRAME_START).is_none());
}

#[test]
fn a_second_mapping_replaces_the_first() {
    let mut t = Table::new();
    t.kernel_map(0x5000, 0x1000, EntryAttributes::RW.val());
    t.kernel_map(0x5000, 0x2000, EntryAttributes::R.val());
    let leaf = t.lookup(0x5000).unwrap();
    assert_eq!(leaf.attrs, 2);
    match leaf.frame {
        Frame::Kernel(pa) => assert_eq!(pa, 0x2000),
        Frame::Owned(_) => panic!("an owned frame"),
    }
}

#[test]
fn unmap_user_keeps_the_kernel_mappings() {
    let mut t = Table::new();
    t.map(0, Page::new(), EntryAttributes::URX.val());
    t.map(0x8000_1000, Page::new(), EntryAttributes::URW.val());
    t.kernel_map(TRAMPOLINE_START, 0x8000_5000, EntryAttributes::RX.val());
    t.kernel_map(0x1000, 0x1000_1000, EntryAttributes::RW.val());
    t.unmap_user();
    assert!(t.lookup(0).is_none());
    assert!(t.lookup(0x8000_1000).is_none());
    assert_eq!(t.lookup(TRAMPOLINE_START).unwrap().attrs, 10);
    assert_eq!(t.lookup(0x1000).unwrap().attrs, 6);
}

#[test]
fn duplicate_copies_owned_pages_and_shares_kernel_mappings() {
    let mut t = Table::new();
    let mut page = Page::new();
    page.data[0] = 1;
    t.map(0x7000, page, EntryAttributes::URW.val());
    t.kernel_map(TRAPFRAME_START, 0x8000_9000, EntryAttributes::RW.val());
    let mut copy = t.duplicate();
    assert_eq!(owned_byte(&copy, 0x7000, 0), 1);
    match copy.lookup(TRAPFRAME_START).unwrap().frame {
        Frame::Kernel(pa) => assert_eq!(pa, 0x8000_9000),
        Frame::Owned(_) => panic!("an owned frame"),
    }
    let mut changed = Page::new();
    changed.data[0] = 2;
    copy.map(0x7000, changed, EntryAttributes::URW.val());
    assert_eq!(owned_byte(&copy, 0x7000, 0), 2);
    assert_eq!(owned_byte(&t, 0x7000, 0), 1);
}
