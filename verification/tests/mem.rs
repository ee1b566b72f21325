use kernel::mem::{align_val, align_val_down, init, page_down, Allocator, ALLOC, MAX_PAGE};
use kernel::process::cpu::Cpu;
use kernel::spinlock::Mutex;
use kernel::symbols::PAGE_SIZE;

const BASE: usize = 0x8000_0000;

fn heap(cells: Vec<usize>) -> Allocator {
    Allocator { base_addr: BASE, page_allocated: cells }
}

#[test]
fn align_val_rounds_up_to_the_power_of_two() {
    assert_eq!(align_val(0, 12), 0);
    assert_eq!(align_val(1, 12), 4096);
    assert_eq!(align_val(4096, 12), 4096);
    assert_eq!(align_val(4097, 12), 8192);
    assert_eq!(align_val(5, 0), 5);
    assert_eq!(align_val(5, 3), 8);
}

#[test]
fn align_val_down_rounds_down_to_the_power_of_two() {
    assert_eq!(align_val_down(0, 12), 0);
    assert_eq!(align_val_down(4095, 12), 0);
    assert_eq!(align_val_down(4096, 12), 4096);
    assert_eq!(align_val_down(8191, 12), 4096);
    assert_eq!(align_val_down(13, 2), 12);
    assert_eq!(align_val_down(usize::MAX, 63), 1usize << 63);
}

#[test]
fn page_down_gives_the_start_of_the_page() {
    assert_eq!(page_down(0x8000_1234), 0x8000_1000);
    assert_eq!(page_down(0x8000_1000), 0x8000_1000);
    assert_eq!(page_down(4095), 0);
}

#[test]
fn new_allocator_has_the_whole_heap_free() {
    let a = Allocator::new();
    assert_eq!(a.base_addr, 0);
    assert_eq!(MAX_PAGE, 128 * 1024 * 1024 / 4096);
    assert_eq!(a.page_allocated.len(), MAX_PAGE);
    assert!(a.page_allocated.iter().all(|c| *c == 0));
}

#[test]
fn the_heap_lock_is_named_and_free() {
    let m = ALLOC();
    assert_eq!(m.name, "alloc");
    assert_eq!(m.lock, 0);
    assert_eq!(m.hart, -1);
    assert_eq!(m.data.page_allocated.len(), MAX_PAGE);
}

#[test]
fn init_places_the_heap_on_a_page_boundary() {
    let mut a = Mutex::new(heap(vec![0; 4]), "alloc");
    let mut cpu = Cpu::new(0);
    init(&mut a, &mut cpu, 0x8020_0001);
    assert_eq!(a.data.base_addr, 0x8020_1000);
    init(&mut a, &mut cpu, 0x8020_1000);
    assert_eq!(a.data.base_addr, 0x8020_1000);
    assert_eq!(a.data.page_allocated, vec![0; 4]);
    assert_eq!(a.lock, 0);
    assert_eq!(cpu.intr_lock.depth, 0);
}

#[test]
fn offsets_convert_between_frames_and_addresses() {
    let a = heap(vec![0; 4]);
    assert_eq!(a.offset_addr_of(0), BASE);
    assert_eq!(a.offset_addr_of(3), BASE + 3 * 4096);
    assert_eq!(a.offset_page_of(BASE), 0);
    assert_eq!(a.offset_page_of(BASE + 4095), 0);
    assert_eq!(a.offset_page_of(BASE + 2 * 4096), 2);
}

#[test]
fn first_fit_over_four_frames() {
    let mut a = heap(vec![0; 4]);
    assert_eq!(a.allocate(4096), BASE);
    assert_eq!(a.allocate(8192), BASE + 4096);
    assert_eq!(a.page_allocated, vec![1, 2, 2, 0]);
    a.deallocate(BASE);
    assert_eq!(a.page_allocated, vec![0, 2, 2, 0]);
    assert_eq!(a.allocate(4096), BASE);
    assert_eq!(a.page_allocated, vec![1, 2, 2, 0]);
}

#[test]
fn allocate_rounds_the_size_up_to_whole_frames() {
    let mut a = heap(vec![0; 8]);
    assert_eq!(a.allocate(1), BASE);
    assert_eq!(a.allocate(4097), BASE + 4096);
    assert_eq!(a.allocate(3 * 4096), BASE + 3 * 4096);
    assert_eq!(a.page_allocated, vec![1, 2, 2, 3, 3, 3, 0, 0]);
}

#[test]
fn allocate_of_no_bytes_gives_the_lowest_free_frame_and_marks_nothing() {
    let mut a = heap(vec![1, 0, 0, 0]);
    assert_eq!(a.allocate(0), BASE + 4096);
    assert_eq!(a.page_allocated, vec![1, 0, 0, 0]);
    a.deallocate(BASE + 4096);
    assert_eq!(a.page_allocated, vec![1, 0, 0, 0]);
    assert_eq!(heap(vec![0, 0]).allocate(0), BASE);
}

#[test]
fn allocate_skips_holes_that_are_too_small() {
    let mut a = heap(vec![1, 0, 2, 2, 0, 0, 0, 1]);
    assert_eq!(a.find_free(2), Some(4));
    assert_eq!(a.find_free(1), Some(1));
    assert_eq!(a.find_free(3), Some(4));
    assert_eq!(a.find_free(4), None);
    assert_eq!(a.allocate(2 * 4096), BASE + 4 * 4096);
    assert_eq!(a.page_allocated, vec![1, 0, 2, 2, 2, 2, 0, 1]);
}

#[test]
fn find_free_tells_when_the_heap_has_no_room() {
    let a = heap(vec![1, 1, 0, 1]);
    assert_eq!(a.find_free(2), None);
    assert_eq!(a.find_free(5), None);
    assert_eq!(a.find_free(1), Some(2));
    assert_eq!(a.find_free(0), Some(2));
    assert_eq!(heap(vec![3, 3, 3]).find_free(0), None);
    let empty = heap(vec![]);
    assert_eq!(empty.find_free(0), None);
    assert_eq!(empty.find_free(1), None);
}

#[test]
fn a_run_at_the_end_of_the_heap_fits() {
    let mut a = heap(vec![1, 0, 0]);
    assert_eq!(a.allocate(2 * 4096), BASE + 4096);
    assert_eq!(a.page_allocated, vec![1, 2, 2]);
}

#[test]
fn allocated_address_is_aligned_and_inside_the_heap() {
    let mut a = heap(vec![0; 16]);
    let mut taken: Vec<(usize, usize)> = Vec::new();
    for size in [1usize, 4096, 5000, 3 * 4096, 100] {
        let addr = a.allocate(size);
        let pages = (size + PAGE_SIZE - 1) / PAGE_SIZE;
        assert_eq!(addr % PAGE_SIZE, 0);
        assert!(addr >= BASE);
        assert!(addr + pages * PAGE_SIZE <= BASE + 16 * PAGE_SIZE);
        for (other, other_pages) in taken.iter() {
            assert!(addr + pages * PAGE_SIZE <= *other || other + other_pages * PAGE_SIZE <= addr);
        }
        taken.push((addr, pages));
    }
}

#[test]
fn allocate_then_deallocate_restores_the_cells() {
    let mut a = heap(vec![1, 0, 0, 3, 3, 3, 0, 0, 0, 0]);
    let before = a.page_allocated.clone();
    let addr = a.allocate(3 * 4096 + 1);
    assert_eq!(addr, BASE + 6 * 4096);
    assert_ne!(a.page_allocated, before);
    a.deallocate(addr);
    assert_eq!(a.page_allocated, before);
}

#[test]
fn deallocate_frees_one_of_two_runs_of_the_same_length() {
    let mut a = heap(vec![2, 2, 2, 2, 0]);
    a.deallocate(BASE + 2 * 4096);
    assert_eq!(a.page_allocated, vec![2, 2, 0, 0, 0]);
    a.deallocate(BASE);
    assert_eq!(a.page_allocated, vec![0, 0, 0, 0, 0]);
}

#[test]
fn deallocate_of_a_free_frame_changes_nothing() {
    let mut a = heap(vec![0, 1, 0, 0]);
    a.deallocate(BASE + 2 * 4096);
    assert_eq!(a.page_allocated, vec![0, 1, 0, 0]);
}

#[test]
fn deallocate_takes_an_address_inside_the_first_frame() {
    let mut a = heap(vec![0, 2, 2, 0]);
    a.deallocate(BASE + 4096 + 17);
    assert_eq!(a.page_allocated, vec![0, 0, 0, 0]);
}

#[test]
fn debug_lists_the_live_runs_in_address_order() {
    let a = heap(vec![1, 0, 2, 2, 2, 2, 0, 1]);
    assert_eq!(
        a.debug(),
        vec![
            (BASE, BASE + 4096, 1),
            (BASE + 2 * 4096, BASE + 4 * 4096, 2),
            (BASE + 4 * 4096, BASE + 6 * 4096, 2),
            (BASE + 7 * 4096, BASE + 8 * 4096, 1),
        ]
    );
    assert_eq!(heap(vec![0; 4]).debug(), vec![]);
}

#[test]
fn starts_run_tells_the_first_frames_of_live_runs() {
    let a = heap(vec![2, 2, 2, 2, 0, 1, 3, 3, 3]);
    let heads = [true, false, true, false, false, true, true, false, false];
    for (frame, head) in heads.iter().enumerate() {
        assert_eq!(a.starts_run(BASE + frame * 4096), *head);
        assert_eq!(a.starts_run(BASE + frame * 4096 + 4095), *head);
    }
    assert!(!a.starts_run(BASE - 1));
    assert!(!a.starts_run(BASE + 9 * 4096));
}
