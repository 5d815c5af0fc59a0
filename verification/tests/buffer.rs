use avr_boot::order::in_order;
use avr_boot::{Address, BufferCell, DataPage, Device, Operation, PageBuffer, Target};
use std::cell::Cell;
use std::iter;

fn targets() -> Vec<Target> {
    vec![Target::atmega1280(), Target::atmega328p(), Target::attiny85()]
}

fn cells_of(buffer: &PageBuffer) -> Vec<BufferCell> {
    let mut cells = Vec::new();
    let mut it = buffer.iter();
    while let Some(cell) = it.next() {
        cells.push(cell);
    }
    cells
}

fn read(device: &Device, address: u32) -> Option<u16> {
    device.read_word(Address::new(address))
}

#[test]
fn new_aligns_the_address_down_to_its_page() {
    let buffer = PageBuffer::new(Device::new(Target::atmega1280()), 0x101fu16.into());
    assert_eq!(0x1000u16, u16::from(buffer.address()));
    assert_eq!(Address::new(0x1000), buffer.address());

    let buffer = PageBuffer::new(Device::new(Target::atmega328p()), Address::new(0x1705));
    assert_eq!(u32::from(buffer.address()), 0x1700);

    let buffer = PageBuffer::new(Device::new(Target::atmega1280()), Address::new(0x1_0502));
    assert_eq!(u32::from(buffer.address()), 0x1_0500);
}

#[test]
fn new_gives_nothing_to_the_hardware() {
    let target = Target::atmega328p();
    let buffer = PageBuffer::new(Device::new(target), Address::new(0x1705));
    let device = buffer.device();
    assert!(device.trace().is_empty());
    assert_eq!(device.stage(), &vec![0xffff; 64]);
    assert!(!device.is_busy());
    assert!(device.is_readable());
    assert_eq!(buffer.len(), 64);
}

#[test]
fn a_fresh_buffer_yields_each_cell_once_in_order() {
    for target in targets() {
        let buffer = PageBuffer::new(Device::new(target), Address::new(0x700));
        let offsets: Vec<u8> = cells_of(&buffer).iter().map(|c| c.offset()).collect();
        let page = target.page_bytes() as usize;
        assert_eq!(offsets.len(), page / 2);
        let expected: Vec<u8> = (0..page).step_by(2).map(|o| o as u8).collect();
        assert_eq!(offsets, expected);
        assert_eq!(*offsets.first().unwrap(), 0);
        assert_eq!(*offsets.last().unwrap() as usize, page - 2);
    }
}

#[test]
fn the_last_cell_of_the_largest_page_is_at_254() {
    let buffer = PageBuffer::new(Device::new(Target::atmega1280()), Address::new(0));
    let cells = cells_of(&buffer);
    assert_eq!(cells.len(), 128);
    assert_eq!(cells[127].offset(), 254);
}

#[test]
fn an_exhausted_iterator_stays_exhausted() {
    let buffer = PageBuffer::new(Device::new(Target::attiny85()), Address::new(0));
    let mut it = buffer.iter();
    for _ in 0..32 {
        assert!(it.next().is_some());
    }
    assert_eq!(it.next(), None);
    assert_eq!(it.next(), None);
}

#[test]
fn iterating_gives_nothing_to_the_hardware() {
    let buffer = PageBuffer::new(Device::new(Target::attiny85()), Address::new(0));
    let _ = cells_of(&buffer);
    assert!(buffer.device().trace().is_empty());
}

#[test]
fn set_loads_one_cell_at_once() {
    let mut buffer = PageBuffer::new(Device::new(Target::atmega328p()), Address::new(0x1700));
    let cells = cells_of(&buffer);
    cells[3].set(&mut buffer, 0xabcd);
    let device = buffer.device();
    let mut expected = vec![0xffffu16; 64];
    expected[3] = 0xabcd;
    assert_eq!(device.stage(), &expected);
    assert_eq!(
        device.trace(),
        &vec![Operation::Wait, Operation::Fill { z: 6, word: 0xabcd }]
    );
    assert_eq!(read(device, 0x1706), Some(0xffff));
}

#[test]
fn cells_written_in_a_loop_fill_the_page() {
    let mut buffer = PageBuffer::new(Device::new(Target::atmega328p()), Address::new(0x0700));
    let mut it = buffer.iter();
    while let Some(w) = it.next() {
        w.set(&mut buffer, 0x69);
    }
    let device = buffer.store();
    for w in 0..64u32 {
        assert_eq!(read(&device, 0x0700 + 2 * w), Some(0x69));
    }
}

#[test]
fn a_short_source_fills_only_as_many_cells() {
    let mut buffer = PageBuffer::new(Device::new(Target::attiny85()), Address::new(0x700));
    buffer.fill_from_iter(vec![1u16, 2, 3].into_iter());
    let device = buffer.device();
    let mut expected = vec![0xffffu16; 32];
    expected[0] = 1;
    expected[1] = 2;
    expected[2] = 3;
    assert_eq!(device.stage(), &expected);
    assert_eq!(
        device.trace(),
        &vec![
            Operation::Wait,
            Operation::Fill { z: 0, word: 1 },
            Operation::Wait,
            Operation::Fill { z: 2, word: 2 },
            Operation::Wait,
            Operation::Fill { z: 4, word: 3 },
        ]
    );
}

#[test]
fn a_short_source_leaves_the_cells_behind_as_they_were() {
    let mut buffer = PageBuffer::new(Device::new(Target::attiny85()), Address::new(0x700));
    buffer.fill_from_iter(iter::repeat(0x1111));
    buffer.fill_from_iter(vec![7u16, 8].into_iter());
    let mut expected = vec![0x1111u16; 32];
    expected[0] = 7;
    expected[1] = 8;
    assert_eq!(buffer.device().stage(), &expected);
    assert_eq!(buffer.device().trace().len(), 2 * 32 + 2 * 2);
}

#[test]
fn an_empty_source_does_nothing() {
    let mut buffer = PageBuffer::new(Device::new(Target::attiny85()), Address::new(0x700));
    buffer.fill_from_iter(iter::empty());
    assert!(buffer.device().trace().is_empty());
    assert_eq!(buffer.device().stage(), &vec![0xffff; 32]);
}

#[test]
fn an_endless_source_fills_the_page_and_no_more() {
    for target in targets() {
        let words = target.page_words();
        let mut buffer = PageBuffer::new(Device::new(target), Address::new(0x700));
        let pulled = Cell::new(0usize);
        buffer.fill_from_iter(iter::repeat(0x69).inspect(|_| pulled.set(pulled.get() + 1)));
        assert_eq!(pulled.get(), words);
        assert_eq!(buffer.device().stage(), &vec![0x69; words]);
        assert_eq!(buffer.device().trace().len(), 2 * words);
    }
}

#[test]
fn a_longer_source_is_cut_at_the_page_end() {
    let mut buffer = PageBuffer::new(Device::new(Target::attiny85()), Address::new(0x700));
    buffer.fill_from_iter(0u16..1000);
    let expected: Vec<u16> = (0u16..32).collect();
    assert_eq!(buffer.device().stage(), &expected);
}

#[test]
fn fill_from_fn_hands_each_offset_to_the_callback() {
    let mut buffer = PageBuffer::new(Device::new(Target::attiny85()), Address::new(0x700));
    buffer.fill_from_fn(|offset| 0x100 + offset as u16);
    let expected: Vec<u16> = (0..32).map(|k| 0x100 + 2 * k).collect();
    assert_eq!(buffer.device().stage(), &expected);
    let trace = buffer.device().trace();
    assert_eq!(trace.len(), 64);
    assert_eq!(trace[0], Operation::Wait);
    assert_eq!(trace[1], Operation::Fill { z: 0, word: 0x100 });
    assert_eq!(trace[63], Operation::Fill { z: 62, word: 0x13e });
}

#[test]
fn fill_from_fn_calls_once_for_each_cell() {
    for target in targets() {
        let mut buffer = PageBuffer::new(Device::new(target), Address::new(0));
        let calls = Cell::new(0usize);
        buffer.fill_from_fn(|_| {
            calls.set(calls.get() + 1);
            0x1234
        });
        assert_eq!(calls.get(), target.page_words());
        assert_eq!(buffer.device().stage(), &vec![0x1234; target.page_words()]);
    }
}

#[test]
fn copy_from_loads_the_whole_page() {
    let target = Target::atmega1280();
    let mut buffer = PageBuffer::new(Device::new(target), Address::new(0x1_0502));
    let words: Vec<u16> = (0u16..128).collect();
    buffer.copy_from(&DataPage(words.clone()));
    let device = buffer.device();
    assert_eq!(device.stage(), &words);
    assert_eq!(device.extension(), 0);
    let trace = device.trace();
    assert_eq!(trace.len(), 2 + 128);
    assert_eq!(trace[0], Operation::Wait);
    assert_eq!(trace[1], Operation::Extension { ramp: 0 });
    assert_eq!(trace[2], Operation::Fill { z: 0, word: 0 });
    assert_eq!(trace[129], Operation::Fill { z: 254, word: 127 });
    assert_eq!(read(device, 0x1_0502), Some(0xffff));
}

#[test]
fn copy_from_then_store_programs_the_page() {
    let target = Target::atmega328p();
    let mut buffer = PageBuffer::new(Device::new(target), Address::new(0x1000));
    buffer.copy_from(&DataPage(vec![0x69; 64]));
    let device = buffer.store();
    for w in 0..64u32 {
        assert_eq!(read(&device, 0x1000 + 2 * w), Some(0x69));
    }
}

#[test]
fn page_of_64_words_reads_back_after_fill_and_store() {
    let target = Target::atmega328p();
    let mut buffer = PageBuffer::new(Device::new(target), Address::new(0x1705));
    assert_eq!(u32::from(buffer.address()), 0x1700);
    buffer.fill_from_iter(iter::repeat(0x0069));
    let device = buffer.store();

    let mut address = 0x1700u32;
    while address <= 0x173e {
        assert_eq!(read(&device, address), Some(0x0069));
        address += 2;
    }
    while address < 0x1780 {
        assert_eq!(read(&device, address), Some(0x0069));
        address += 2;
    }
    assert_eq!(read(&device, 0x16fe), Some(0xffff));
    assert_eq!(read(&device, 0x1780), Some(0xffff));
    assert!(!device.is_busy());
    assert!(device.is_readable());
}

#[test]
fn store_gives_its_instructions_in_this_order() {
    let target = Target::atmega328p();
    let mut buffer = PageBuffer::new(Device::new(target), Address::new(0x1705));
    buffer.fill_from_iter(vec![0x69u16].into_iter());
    let device = buffer.store();
    assert_eq!(
        device.trace(),
        &vec![
            Operation::Wait,
            Operation::Fill { z: 0, word: 0x69 },
            Operation::Wait,
            Operation::Erase { z: 0x1700 },
            Operation::Wait,
            Operation::Wait,
            Operation::Write { z: 0x1700 },
            Operation::Wait,
            Operation::Wait,
            Operation::RwwEnable,
        ]
    );
}

#[test]
fn store_on_a_target_with_nothing_to_re_enable() {
    let target = Target::attiny85();
    let mut buffer = PageBuffer::new(Device::new(target), Address::new(0x0710));
    buffer.fill_from_iter(iter::repeat(0x69));
    let start = buffer.device().trace().len();
    let device = buffer.store();
    assert_eq!(
        &device.trace()[start..],
        &[
            Operation::Wait,
            Operation::Erase { z: 0x0700 },
            Operation::Wait,
            Operation::Wait,
            Operation::Write { z: 0x0700 },
            Operation::Wait,
        ]
    );
    for w in 0..32u32 {
        assert_eq!(read(&device, 0x0700 + 2 * w), Some(0x69));
    }
}

#[test]
fn extended_page_is_stored_with_the_extension_latched() {
    let target = Target::atmega1280();
    let address = Address::new(0x1_0502);
    assert_eq!(u16::from(address), 0x0502);
    assert_eq!(address.ramp(), 0x01);

    let buffer = PageBuffer::new(Device::new(target), address);
    assert_eq!(u16::from(buffer.address()), 0x0500);
    let words: Vec<u16> = (0u16..128).map(|k| 0x4000 + k).collect();
    let device = buffer.store_from(&DataPage(words.clone()));

    let mut expected = vec![
        Operation::Wait,
        Operation::Extension { ramp: 0x01 },
        Operation::Erase { z: 0x0500 },
        Operation::Wait,
        Operation::Extension { ramp: 0x00 },
    ];
    for k in 0..128u16 {
        expected.push(Operation::Fill { z: 2 * k, word: 0x4000 + k });
    }
    expected.extend([
        Operation::Wait,
        Operation::Wait,
        Operation::Extension { ramp: 0x01 },
        Operation::Write { z: 0x0500 },
        Operation::Wait,
        Operation::Wait,
        Operation::RwwEnable,
    ]);
    assert_eq!(device.trace(), &expected);
    assert_eq!(device.extension(), 0x01);

    for k in 0..128u32 {
        assert_eq!(read(&device, 0x1_0500 + 2 * k), Some(0x4000 + k as u16));
        assert_eq!(read(&device, 0x0500 + 2 * k), Some(0xffff));
    }
    assert_eq!(read(&device, 0x1_04fe), Some(0xffff));
    assert_eq!(read(&device, 0x1_0600), Some(0xffff));
}

#[test]
fn store_leaves_the_other_pages_alone() {
    let target = Target::atmega328p();
    let first = PageBuffer::new(Device::new(target), Address::new(0x0000));
    let device = first.store_from(&DataPage(vec![0x1111; 64]));
    let second = PageBuffer::new(device, Address::new(0x0080));
    let device = second.store_from(&DataPage(vec![0x2222; 64]));
    for w in 0..64u32 {
        assert_eq!(read(&device, 2 * w), Some(0x1111));
        assert_eq!(read(&device, 0x80 + 2 * w), Some(0x2222));
        assert_eq!(read(&device, 0x100 + 2 * w), Some(0xffff));
    }
}

#[test]
fn storing_a_page_again_replaces_what_it_held() {
    let target = Target::attiny85();
    let buffer = PageBuffer::new(Device::new(target), Address::new(0x0040));
    let device = buffer.store_from(&DataPage(vec![0x0f0f; 32]));
    let buffer = PageBuffer::new(device, Address::new(0x0040));
    let device = buffer.store_from(&DataPage(vec![0xf0f0; 32]));
    for w in 0..32u32 {
        assert_eq!(read(&device, 0x40 + 2 * w), Some(0xf0f0));
    }
}

#[test]
fn cells_that_were_not_loaded_store_as_erased() {
    let target = Target::attiny85();
    let mut buffer = PageBuffer::new(Device::new(target), Address::new(0x0040));
    buffer.fill_from_iter(vec![0x0001u16, 0x0002].into_iter());
    let device = buffer.store();
    assert_eq!(read(&device, 0x40), Some(0x0001));
    assert_eq!(read(&device, 0x42), Some(0x0002));
    for w in 2..32u32 {
        assert_eq!(read(&device, 0x40 + 2 * w), Some(0xffff));
    }
}

#[test]
fn the_buffer_is_blank_again_after_a_store() {
    let target = Target::attiny85();
    let buffer = PageBuffer::new(Device::new(target), Address::new(0x0040));
    let device = buffer.store_from(&DataPage(vec![0x1234; 32]));
    assert_eq!(device.stage(), &vec![0xffff; 32]);
    let mut buffer = PageBuffer::new(device, Address::new(0x0080));
    buffer.fill_from_iter(vec![0x0001u16].into_iter());
    let device = buffer.store();
    assert_eq!(read(&device, 0x80), Some(0x0001));
    assert_eq!(read(&device, 0x82), Some(0xffff));
}

#[test]
fn release_gives_the_device_back_readable_and_stores_nothing() {
    let target = Target::atmega328p();
    let mut buffer = PageBuffer::new(Device::new(target), Address::new(0x1700));
    buffer.fill_from_iter(vec![0x69u16, 0x6a].into_iter());
    let device = buffer.release();
    assert!(!device.is_busy());
    assert!(device.is_readable());
    assert_eq!(read(&device, 0x1700), Some(0xffff));
    assert_eq!(
        &device.trace()[4..],
        &[Operation::Wait, Operation::Wait, Operation::RwwEnable]
    );
}

#[test]
fn what_was_staged_is_lost_with_a_re_enabling() {
    let mut buffer = PageBuffer::new(Device::new(Target::atmega328p()), Address::new(0x1700));
    buffer.fill_from_iter(vec![0x69u16, 0x6a].into_iter());
    assert_eq!(buffer.device().stage()[0], 0x69);
    let device = buffer.release();
    assert_eq!(device.stage(), &vec![0xffff; 64]);

    let mut buffer = PageBuffer::new(Device::new(Target::attiny85()), Address::new(0x0700));
    buffer.fill_from_iter(vec![0x69u16, 0x6a].into_iter());
    let device = buffer.release();
    assert_eq!(device.stage()[0], 0x69);
    assert_eq!(device.stage()[1], 0x6a);
    assert_eq!(device.stage()[2], 0xffff);
}

#[test]
fn release_on_a_target_with_nothing_to_re_enable_only_waits() {
    let buffer = PageBuffer::new(Device::new(Target::attiny85()), Address::new(0));
    let device = buffer.release();
    assert_eq!(device.trace(), &vec![Operation::Wait]);
    assert!(device.is_readable());
}

#[test]
fn the_device_comes_back_only_when_the_buffer_is_done() {
    let device = Device::new(Target::atmega328p());
    let buffer = PageBuffer::new(device, Address::new(0x0100));
    let device = buffer.release();
    let buffer = PageBuffer::new(device, Address::new(0x0100));
    let device = buffer.store();
    let buffer = PageBuffer::new(device, Address::new(0x0100));
    let device = buffer.store_from(&DataPage(vec![0; 64]));
    assert!(device.is_readable());
    assert!(!device.is_busy());
    assert_eq!(read(&device, 0x0100), Some(0));
}

#[test]
fn every_way_of_filling_and_storing_keeps_the_order() {
    for target in targets() {
        let words = target.page_words();
        let data = DataPage(vec![0x69; words]);

        let mut buffer = PageBuffer::new(Device::new(target), Address::new(0x700));
        buffer.fill_from_iter(iter::repeat(0x69));
        assert!(in_order(&target, &buffer.store().trace()[..]));

        let mut buffer = PageBuffer::new(Device::new(target), Address::new(0x700));
        buffer.fill_from_iter(vec![1u16, 2, 3].into_iter());
        assert!(in_order(&target, &buffer.store().trace()[..]));

        let mut buffer = PageBuffer::new(Device::new(target), Address::new(0x700));
        buffer.fill_from_fn(|offset| offset as u16);
        assert!(in_order(&target, &buffer.store().trace()[..]));

        let mut buffer = PageBuffer::new(Device::new(target), Address::new(0x700));
        buffer.copy_from(&data);
        assert!(in_order(&target, &buffer.store().trace()[..]));

        let mut buffer = PageBuffer::new(Device::new(target), Address::new(0x700));
        let cells = cells_of(&buffer);
        cells[0].set(&mut buffer, 1);
        cells[1].set(&mut buffer, 2);
        assert!(in_order(&target, &buffer.store().trace()[..]));

        let buffer = PageBuffer::new(Device::new(target), Address::new(0x700));
        assert!(in_order(&target, &buffer.store().trace()[..]));

        let mut buffer = PageBuffer::new(Device::new(target), Address::new(0x700));
        buffer.fill_from_iter(iter::repeat(0x11));
        assert!(in_order(&target, &buffer.store_from(&data).trace()[..]));
    }
}

#[test]
fn the_erase_comes_before_the_write_and_the_re_enable_last() {
    let target = Target::atmega328p();
    let mut buffer = PageBuffer::new(Device::new(target), Address::new(0x700));
    buffer.fill_from_iter(iter::repeat(0x69));
    let device = buffer.store();
    let trace = device.trace();
    let erase = trace.iter().position(|op| matches!(op, Operation::Erase { .. })).unwrap();
    let write = trace.iter().position(|op| matches!(op, Operation::Write { .. })).unwrap();
    let enable = trace.iter().position(|op| matches!(op, Operation::RwwEnable)).unwrap();
    assert!(erase < write);
    assert!(trace[erase + 1..write].contains(&Operation::Wait));
    assert!(trace[write + 1..enable].contains(&Operation::Wait));
    assert_eq!(enable, trace.len() - 1);
    assert_eq!(trace.iter().filter(|op| matches!(op, Operation::Erase { .. })).count(), 1);
    assert_eq!(trace.iter().filter(|op| matches!(op, Operation::Write { .. })).count(), 1);
    let last_fill = trace.iter().rposition(|op| matches!(op, Operation::Fill { .. })).unwrap();
    assert!(last_fill < write);
}

#[test]
fn a_released_buffer_has_not_committed() {
    let target = Target::atmega328p();
    let mut buffer = PageBuffer::new(Device::new(target), Address::new(0x700));
    buffer.fill_from_iter(iter::repeat(0x69));
    let device = buffer.release();
    assert!(!in_order(&target, &device.trace()[..]));
}

#[test]
fn a_page_of_one_word_has_one_cell() {
    let target = Target::new(2, false, true).unwrap();
    let mut buffer = PageBuffer::new(Device::new(target), Address::new(0x0007));
    assert_eq!(u32::from(buffer.address()), 0x0006);
    assert_eq!(buffer.len(), 1);
    let cells = cells_of(&buffer);
    assert_eq!(cells.len(), 1);
    assert_eq!(cells[0].offset(), 0);
    buffer.fill_from_iter(iter::repeat(0x4321));
    let device = buffer.store();
    assert_eq!(read(&device, 0x0004), Some(0xffff));
    assert_eq!(read(&device, 0x0006), Some(0x4321));
    assert_eq!(read(&device, 0x0008), Some(0xffff));
}
