use ringdb::storage::buffer_pool::{
    clear_buffer, BufferPoolManager, Fetch, FrameRequest, INVALID_PAGE_ID,
};
use ringdb::storage::page::{Page, PAGE_SIZE};
use ringdb::storage::replacer::ClockReplacer;

#[test]
fn page_fills_up_and_keeps_what_it_holds() {
    let mut page = Page::from_bytes([0u8; PAGE_SIZE]);
    let record = [7u8; 98];
    // Each record takes 100 bytes; 81 of them fit into the 8190 behind the header.
    for slot in 0..81u16 {
        assert_eq!(page.insert_tuple(&record), Some(slot));
    }
    assert_eq!(page.insert_tuple(&record), None);
    assert_eq!(page.header.tuple_count, 81);
    for slot in 0..81u16 {
        assert_eq!(page.get_tuple(slot), Some(&record[..]));
    }
    // 8190 - 8100 = 90 bytes are left: 88 of payload fit, 89 do not.
    assert_eq!(page.insert_tuple(&[1u8; 89]), None);
    assert_eq!(page.insert_tuple(&[1u8; 88]), Some(81));
    assert_eq!(page.insert_tuple(&[]), None);
}

#[test]
fn page_round_trips_through_bytes() {
    let mut page = Page::from_bytes([0u8; PAGE_SIZE]);
    page.insert_tuple(b"hello").unwrap();
    page.insert_tuple(b"").unwrap();
    page.insert_tuple(&[0xAB; 300]).unwrap();
    let bytes = page.to_bytes();
    assert_eq!(&bytes[..9], &[3, 0, 5, 0, b'h', b'e', b'l', b'l', b'o']);
    assert_eq!(&bytes[9..13], &[0, 0, 0x2C, 0x01]);
    assert!(Page::is_valid(&bytes));
    let again = Page::from_bytes(bytes);
    assert_eq!(again.header.tuple_count, 3);
    assert_eq!(again.get_tuple(0), Some(&b"hello"[..]));
    assert_eq!(again.get_tuple(1), Some(&b""[..]));
    assert_eq!(again.get_tuple(2), Some(&[0xABu8; 300][..]));
    assert_eq!(again.to_bytes(), bytes);
}

#[test]
fn page_header_is_little_endian() {
    let mut bytes = [0u8; PAGE_SIZE];
    bytes[0] = 0x01;
    bytes[1] = 0x01;
    // 257 empty records of two bytes each.
    assert!(Page::is_valid(&bytes));
    let page = Page::from_bytes(bytes);
    assert_eq!(page.header.tuple_count, 257);
    assert_eq!(page.get_tuple(256), Some(&[][..]));
    assert_eq!(page.get_tuple(257), None);
    assert_eq!(page.to_bytes(), bytes);
}

#[test]
fn page_validity_is_told() {
    let mut bytes = [0u8; PAGE_SIZE];
    bytes[0] = 1;
    bytes[2] = 0xFF;
    bytes[3] = 0xFF;
    // One record of 65535 bytes does not fit.
    assert!(!Page::is_valid(&bytes));
    bytes[2] = 0xFC;
    bytes[3] = 0x1F;
    // One record of 8188 bytes fills the page exactly.
    assert!(Page::is_valid(&bytes));
    bytes[2] = 0xFD;
    assert!(!Page::is_valid(&bytes));
    // 4096 records cannot fit, whatever their lengths.
    let mut bytes = [0u8; PAGE_SIZE];
    bytes[1] = 0x10;
    assert!(!Page::is_valid(&bytes));
    bytes[0] = 0xFF;
    bytes[1] = 0x0F;
    assert!(Page::is_valid(&bytes));
}

#[test]
fn replacer_starts_with_every_frame_free() {
    let mut replacer = ClockReplacer::new(3);
    assert_eq!(replacer.capacity(), 3);
    assert_eq!(replacer.victim(), Some(0));
    // The hand rests on the victim until it is pinned.
    assert_eq!(replacer.victim(), Some(0));
    replacer.pin(0);
    assert_eq!(replacer.victim(), Some(1));
}

#[test]
fn replacer_never_gives_a_pinned_frame() {
    let mut replacer = ClockReplacer::new(3);
    replacer.pin(0);
    replacer.pin(1);
    replacer.pin(2);
    assert_eq!(replacer.victim(), None);
    replacer.unpin(1);
    assert_eq!(replacer.victim(), Some(1));
    replacer.pin(1);
    assert_eq!(replacer.victim(), None);
}

#[test]
fn replacer_gives_referenced_frames_a_second_chance() {
    let mut replacer = ClockReplacer::new(3);
    replacer.pin(0);
    replacer.pin(1);
    replacer.pin(2);
    replacer.unpin(0);
    replacer.unpin(2);
    // Both free frames are referenced: the first revolution clears them, the
    // second takes the first of them.
    assert_eq!(replacer.victim(), Some(0));
    replacer.pin(0);
    replacer.unpin(0);
    // Frame 2 has lost its reference, frame 0 has a new one.
    assert_eq!(replacer.victim(), Some(2));
}

#[test]
fn replacer_without_frames_has_no_victim() {
    let mut replacer = ClockReplacer::new(0);
    assert_eq!(replacer.victim(), None);
}

fn load(pool: &mut BufferPoolManager, page_id: u32, fill: u8) -> usize {
    match pool.get_frame_for_page(page_id).unwrap() {
        FrameRequest::Miss(load) => {
            assert_eq!(load.page_id, page_id);
            let mut buffer = load.buffer;
            assert_eq!(buffer.len(), PAGE_SIZE);
            clear_buffer(&mut buffer);
            assert!(buffer.iter().all(|b| *b == 0));
            buffer[0] = fill;
            pool.install_page(load.frame_id, page_id, buffer)
        }
        FrameRequest::Hit(_) => panic!("page {} is in the pool", page_id),
    }
}

#[test]
fn pool_starts_empty() {
    let pool = BufferPoolManager::new(4);
    assert_eq!(pool.pool_size(), 4);
    for frame in pool.frames() {
        assert_eq!(frame.page_id, INVALID_PAGE_ID);
        assert_eq!(frame.data, vec![0u8; PAGE_SIZE]);
        assert!(!frame.is_dirty);
    }
}

#[test]
fn pool_misses_then_hits() {
    let mut pool = BufferPoolManager::new(2);
    let frame = load(&mut pool, 7, 0x77);
    assert_eq!(pool.frames()[frame].page_id, 7);
    assert_eq!(pool.frames()[frame].data[0], 0x77);
    assert!(!pool.frames()[frame].is_dirty);
    match pool.get_frame_for_page(7).unwrap() {
        FrameRequest::Hit(f) => assert_eq!(f, frame),
        FrameRequest::Miss(_) => panic!("page 7 was loaded"),
    }
}

#[test]
fn pool_runs_out_of_frames_when_all_are_pinned() {
    let mut pool = BufferPoolManager::new(2);
    load(&mut pool, 1, 1);
    load(&mut pool, 2, 2);
    assert_eq!(pool.get_frame_for_page(3).unwrap_err(), "No free frame available");
    assert!(matches!(pool.fetch_page(3), Err(_)));
    // Pages in the pool are still found.
    assert!(matches!(pool.get_frame_for_page(1), Ok(FrameRequest::Hit(_))));
}

#[test]
fn pool_evicts_released_frames_and_asks_for_write_back_of_dirty_ones() {
    let mut pool = BufferPoolManager::new(2);
    let read = match pool.fetch_page(1).unwrap() {
        Fetch::Load(l) => pool.finish_fetch(l.frame_id, 1, vec![1u8; PAGE_SIZE]),
        Fetch::Ready(_) => panic!("page 1 was not loaded"),
    };
    let write = match pool.fetch_page_mut(2).unwrap() {
        Fetch::Load(l) => pool.finish_fetch_mut(l.frame_id, 2, vec![2u8; PAGE_SIZE]),
        Fetch::Ready(_) => panic!("page 2 was not loaded"),
    };
    let (read_frame, write_frame) = (read.frame_id(), write.frame_id());
    assert_ne!(read_frame, write_frame);
    assert_eq!(read.page_id(&pool), 1);
    assert_eq!(write.page_id(&pool), 2);
    read.release(&mut pool);
    write.release(&mut pool);
    assert!(!pool.frames()[read_frame].is_dirty);
    assert!(pool.frames()[write_frame].is_dirty);

    // Both frames are free and referenced, and the hand rests on the second
    // frame: the sweep clears both references and comes back to it.
    let first = match pool.get_frame_for_page(3).unwrap() {
        FrameRequest::Miss(l) => l,
        FrameRequest::Hit(_) => panic!("page 3 was not loaded"),
    };
    assert_eq!(first.frame_id, write_frame);
    assert_eq!(first.old_page_id, 2);
    assert!(first.write_back);
    assert_eq!(first.buffer, vec![2u8; PAGE_SIZE]);
    pool.install_page(first.frame_id, 3, first.buffer);
    assert!(!pool.frames()[write_frame].is_dirty);

    let second = match pool.get_frame_for_page(4).unwrap() {
        FrameRequest::Miss(l) => l,
        FrameRequest::Hit(_) => panic!("page 4 was not loaded"),
    };
    assert_eq!(second.frame_id, read_frame);
    assert_eq!(second.old_page_id, 1);
    assert!(!second.write_back);
    assert_eq!(second.buffer, vec![1u8; PAGE_SIZE]);
    pool.install_page(second.frame_id, 4, second.buffer);

    // The evicted pages are gone from the table, the new ones are found.
    assert!(matches!(pool.get_frame_for_page(3), Ok(FrameRequest::Hit(_))));
    assert!(matches!(pool.get_frame_for_page(4), Ok(FrameRequest::Hit(_))));
    assert!(pool.get_frame_for_page(1).is_err());
}

#[test]
fn write_guard_gives_the_frames_for_writing() {
    let mut pool = BufferPoolManager::new(1);
    let mut guard = match pool.fetch_page_mut(0).unwrap() {
        Fetch::Load(l) => pool.finish_fetch_mut(l.frame_id, 0, vec![0u8; PAGE_SIZE]),
        Fetch::Ready(_) => panic!("page 0 was not loaded"),
    };
    let frame = guard.frame_id();
    guard.get_mut(&mut pool)[frame].data[5] = 9;
    guard.release(&mut pool);
    let reader = match pool.fetch_page(0).unwrap() {
        Fetch::Ready(g) => g,
        Fetch::Load(_) => panic!("page 0 is in the pool"),
    };
    assert_eq!(reader.get(&pool)[reader.frame_id()].data[5], 9);
    reader.release(&mut pool);
}

#[test]
fn page_array_copies_a_buffer() {
    let mut buffer = vec![0u8; PAGE_SIZE];
    buffer[0] = 1;
    buffer[PAGE_SIZE - 1] = 2;
    let bytes = ringdb::storage::page::page_array(&buffer);
    assert_eq!(&bytes[..], &buffer[..]);
}

#[test]
fn pool_tells_valid_frames() {
    let mut pool = BufferPoolManager::new(2);
    assert!(pool.frame_is_valid(0));
    assert!(pool.frame_is_valid(1));
    assert!(!pool.frame_is_valid(2));
    // A frame whose buffer is out for loading holds no page image.
    let load = match pool.get_frame_for_page(9).unwrap() {
        FrameRequest::Miss(l) => l,
        FrameRequest::Hit(_) => panic!("page 9 was not loaded"),
    };
    assert!(!pool.frame_is_valid(load.frame_id));
    // A page whose header counts more records than fit is no valid image.
    let mut bad = vec![0u8; PAGE_SIZE];
    bad[1] = 0xFF;
    let frame = pool.install_page(load.frame_id, 9, bad);
    assert!(!pool.frame_is_valid(frame));
}
