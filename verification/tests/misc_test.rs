use catos::doom::{doom_key, get_key, source_index, ticks_ms};
use catos::fb::{pixel_offset, FbInfo, Framebuffer, CONSOLE, UNOWNED};
use catos::fbtest::{clamp, FbTest};
use catos::memory::{containing_frame, page_span, BootFrameAllocator, MemoryRegion, HEAP_SIZE, HEAP_START};
use catos::rawkeys::{KeyCode, RawBuffer, RawKey};

fn info() -> FbInfo {
    FbInfo { addr: 0x1000, width: 640, height: 400, pitch: 2560, bpp: 32 }
}

#[test]
fn framebuffer_ownership() {
    let mut fb = Framebuffer::new();
    assert_eq!(fb.owner(), UNOWNED);
    assert!(fb.acquire(3).is_none());
    fb.init(info());
    assert_eq!(fb.owner(), CONSOLE);
    assert!(fb.console_owns());
    assert_eq!(fb.acquire(3), Some(info()));
    assert_eq!(fb.owner(), 3);
    assert!(fb.acquire(4).is_none());
    fb.release_if_owner(4);
    assert_eq!(fb.owner(), 3);
    fb.release_if_owner(3);
    assert_eq!(fb.owner(), CONSOLE);
    fb.acquire(5);
    fb.force_console();
    assert_eq!(fb.owner(), CONSOLE);
    fb.init(FbInfo { addr: 0, width: 1, height: 1, pitch: 4, bpp: 32 });
    assert_eq!(fb.info(), info());
}

#[test]
fn pixel_offsets() {
    assert_eq!(pixel_offset(info(), 0, 0), 0);
    assert_eq!(pixel_offset(info(), 3, 2), 2 * 2560 + 12);
}

#[test]
fn frames_come_from_usable_regions_in_order() {
    let map = vec![
        MemoryRegion { base: 0, length: 0x1000, usable: false },
        MemoryRegion { base: 0x1000, length: 0x2000, usable: true },
        MemoryRegion { base: 0x3000, length: 0x1000, usable: false },
        MemoryRegion { base: 0x10000, length: 0x1800, usable: true },
    ];
    let mut a = BootFrameAllocator::new(map);
    let got: Vec<Option<u64>> = (0..6).map(|_| a.allocate_frame()).collect();
    assert_eq!(got, vec![Some(0x1000), Some(0x2000), Some(0x10000), Some(0x11000), None, None]);
    assert_eq!(a.allocated(), 4);
}

#[test]
fn page_arithmetic() {
    assert_eq!(containing_frame(0x1234), 0x1000);
    assert_eq!(containing_frame(0x2000), 0x2000);
    assert_eq!(page_span(HEAP_START, HEAP_SIZE), (HEAP_START, HEAP_START + HEAP_SIZE - 4096));
    assert_eq!(page_span(0x1fff, 2), (0x1000, 0x2000));
}

#[test]
fn fbtest_moves_and_stays_on_screen() {
    let mut g = FbTest::new(100, 80);
    assert_eq!((g.x, g.y), (34, 24));
    assert!(!g.handle_key(RawKey::Press(KeyCode::D)));
    assert!(!g.handle_key(RawKey::Press(KeyCode::W)));
    g.step(100, 80);
    assert_eq!((g.x, g.y), (35, 23));
    g.handle_key(RawKey::Release(KeyCode::W));
    for _ in 0..200 {
        g.step(100, 80);
    }
    assert_eq!((g.x, g.y), (84, 23));
    g.handle_key(RawKey::Press(KeyCode::A));
    g.step(100, 80);
    assert_eq!(g.x, 84);
    assert!(g.handle_key(RawKey::Release(KeyCode::Escape)));
    assert!(!g.handle_key(RawKey::Press(KeyCode::Other)));
    assert_eq!(clamp(-5, 0, 10), 0);
    assert_eq!(clamp(15, 0, 10), 10);
    let g = FbTest::new(10, 10);
    assert_eq!((g.x, g.y), (-11, -11));
}

#[test]
fn game_keys() {
    assert_eq!(doom_key(KeyCode::W), Some(0xAD));
    assert_eq!(doom_key(KeyCode::ArrowLeft), Some(0xAC));
    assert_eq!(doom_key(KeyCode::RShift), Some(0xB6));
    assert_eq!(doom_key(KeyCode::Key7), Some(b'7'));
    assert_eq!(doom_key(KeyCode::N), Some(b'n'));
    assert_eq!(doom_key(KeyCode::Other), None);
}

#[test]
fn game_reads_known_keys_only() {
    let mut q = RawBuffer::new_raw();
    assert_eq!(get_key(&mut q), None);
    q.push_raw(RawKey::Press(KeyCode::Other));
    q.push_raw(RawKey::Press(KeyCode::Spacebar));
    q.push_raw(RawKey::Release(KeyCode::Spacebar));
    q.push_raw(RawKey::Release(KeyCode::Other));
    assert_eq!(get_key(&mut q), Some((1, 0xA2)));
    assert_eq!(get_key(&mut q), Some((0, 0xA2)));
    assert_eq!(get_key(&mut q), None);
    assert_eq!(q.len(), 0);
}

#[test]
fn game_clock_and_scaling() {
    assert_eq!(ticks_ms(0), 0);
    assert_eq!(ticks_ms(123), 1230);
    assert_eq!(ticks_ms((1u64 << 32) + 5), 50);
    assert_eq!(source_index(0, 0, 1280, 800), 0);
    assert_eq!(source_index(1279, 799, 1280, 800), 640 * 400 - 1);
    assert_eq!(source_index(3, 1, 640, 400), 643);
    assert_eq!(source_index(10, 10, 320, 200), 20 * 640 + 20);
}

#[test]
fn total_usable_memory_sums_usable_regions() {
    let rs = [
        MemoryRegion { base: 0, length: 0x1000, usable: true },
        MemoryRegion { base: 0x1000, length: 0x5000, usable: false },
        MemoryRegion { base: 0x10_0000, length: 0x20_0000, usable: true },
    ];
    assert_eq!(catos::memory::total_usable(&rs), Some(0x20_1000));
    assert_eq!(catos::memory::total_usable(&[]), Some(0));
    let huge = [
        MemoryRegion { base: 0, length: u64::MAX, usable: true },
        MemoryRegion { base: 0, length: 1, usable: true },
    ];
    assert_eq!(catos::memory::total_usable(&huge), None);
}

#[test]
fn memory_maps_are_checked_before_allocating() {
    let good = [
        MemoryRegion { base: 0x1000, length: 0x3000, usable: true },
        MemoryRegion { base: 0xF000_0000, length: 0x1000_0000, usable: false },
    ];
    assert!(catos::memory::regions_valid(&good));
    assert!(catos::memory::regions_valid(&[]));
    // Ends past the top of the 64-bit range.
    let wraps = [MemoryRegion { base: u64::MAX - 10, length: 20, usable: false }];
    assert!(!catos::memory::regions_valid(&wraps));
    // Usable memory above the physical address limit.
    let high = [MemoryRegion { base: 0x10_0000_0000_0000, length: 0x1000, usable: true }];
    assert!(!catos::memory::regions_valid(&high));
    let mut a = BootFrameAllocator::new(good.to_vec());
    assert_eq!(a.allocate_frame(), Some(0x1000));
}

#[test]
fn framebuffer_reports_whether_it_is_set_up() {
    let mut fb = Framebuffer::new();
    assert!(!fb.is_set_up());
    fb.force_console();
    assert!(!fb.is_set_up());
    fb.init(info());
    assert!(fb.is_set_up());
}
