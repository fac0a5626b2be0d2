use solo_pc::flash::{FileFlash, FLASH_SIZE};
use solo_pc::littlefs_params::{BLOCK_COUNT, BLOCK_SIZE};
use solo_pc::stream::{read_step, ReadEvent, ReadStep};

#[test]
fn fresh_image_is_zero() {
    let f = FileFlash::new(None);
    assert_eq!(f.contents().len(), FLASH_SIZE);
    assert!(f.contents().iter().all(|b| *b == 0));
    assert_eq!(FLASH_SIZE, BLOCK_SIZE * BLOCK_COUNT);
}

#[test]
fn saved_image_is_loaded() {
    let saved: Vec<u8> = (0..FLASH_SIZE).map(|i| (i % 251) as u8).collect();
    let f = FileFlash::new(Some(&saved));
    assert_eq!(f.contents(), &saved[..]);
}

#[test]
fn saved_image_round_trips() {
    let mut f = FileFlash::new(None);
    f.write(1024, b"credential");
    let saved = f.contents().to_vec();
    let reloaded = FileFlash::new(Some(&saved));
    let mut buf = [0u8; 10];
    reloaded.read(1024, &mut buf);
    assert_eq!(&buf, b"credential");
}

#[test]
fn read_gives_back_what_was_written() {
    let mut f = FileFlash::new(None);
    assert_eq!(f.write(512, &[1, 2, 3, 4]), 4);
    let mut buf = [0xffu8; 6];
    assert_eq!(f.read(511, &mut buf), 6);
    assert_eq!(buf, [0, 1, 2, 3, 4, 0]);
}

#[test]
fn later_disjoint_writes_keep_data() {
    let mut f = FileFlash::new(None);
    f.write(100, &[5, 6, 7]);
    f.write(0, &[1; 100]);
    f.erase(103, 512);
    f.write(2000, &[9; 8]);
    let mut buf = [0u8; 3];
    assert_eq!(f.read(100, &mut buf), 3);
    assert_eq!(buf, [5, 6, 7]);
}

#[test]
fn erase_zeroes_the_range() {
    let mut f = FileFlash::new(None);
    f.write(0, &[9; 16]);
    assert_eq!(f.erase(4, 8), 8);
    let mut buf = [0u8; 16];
    f.read(0, &mut buf);
    assert_eq!(buf, [9, 9, 9, 9, 0, 0, 0, 0, 0, 0, 0, 0, 9, 9, 9, 9]);
}

#[test]
fn last_block_is_writable() {
    let mut f = FileFlash::new(None);
    let data = [7u8; 512];
    f.write(FLASH_SIZE - 512, &data);
    let mut buf = [0u8; 512];
    f.read(FLASH_SIZE - 512, &mut buf);
    assert_eq!(buf, data);
}

#[test]
fn read_steps() {
    assert_eq!(read_step(0, 64, ReadEvent::Read(10)), ReadStep::Continue(10));
    assert_eq!(read_step(10, 64, ReadEvent::Read(54)), ReadStep::Filled);
    assert_eq!(read_step(10, 64, ReadEvent::Read(0)), ReadStep::UnexpectedEof);
    assert_eq!(read_step(10, 64, ReadEvent::Failed), ReadStep::Failed);
    assert_eq!(read_step(0, 64, ReadEvent::Started), ReadStep::Continue(0));
}

#[test]
fn empty_buffer_needs_no_read() {
    assert_eq!(read_step(0, 0, ReadEvent::Started), ReadStep::Filled);
    assert_eq!(read_step(64, 64, ReadEvent::Started), ReadStep::Filled);
}
