use avr_boot::order::{in_order, next_phase, Phase};
use avr_boot::{spm, Address, DataPage, Device, Operation, PageBuffer, Target};

#[test]
fn a_new_device_is_erased_and_idle() {
    for target in [Target::atmega1280(), Target::atmega328p(), Target::attiny85()] {
        let device = Device::new(target);
        assert_eq!(device.target(), target);
        assert_eq!(device.stage(), &vec![0xffff; target.page_words()]);
        assert!(device.trace().is_empty());
        assert!(!device.is_busy());
        assert!(device.is_readable());
        assert_eq!(device.extension(), 0);
        assert_eq!(device.lock_bits(), 0xff);
        assert_eq!(device.read_word(Address::new(0)), Some(0xffff));
        assert_eq!(device.read_word(Address::new(0xfffe)), Some(0xffff));
        assert_eq!(device.read_word(Address::new(0xff_fffe)), Some(0xffff));
    }
}

#[test]
fn each_instruction_is_recorded_as_it_is_given() {
    let mut device = Device::new(Target::atmega1280());
    let given = vec![
        Operation::Extension { ramp: 3 },
        Operation::Fill { z: 4, word: 0x1234 },
        Operation::Erase { z: 0x0100 },
        Operation::Wait,
        Operation::Write { z: 0x0100 },
        Operation::Wait,
        Operation::LockBits { value: 0xf0 },
        Operation::RwwEnable,
    ];
    for op in &given {
        device.issue(*op);
    }
    assert_eq!(device.trace(), &given);
    assert_eq!(device.extension(), 3);
    assert_eq!(device.lock_bits(), 0xf0);
    assert_eq!(device.read_word(Address::new(0x3_0104)), Some(0x1234));
    assert_eq!(device.read_word(Address::new(0x3_0102)), Some(0xffff));
    assert_eq!(device.read_word(Address::new(0x0104)), Some(0xffff));
}

#[test]
fn reading_takes_the_word_that_holds_the_address() {
    let mut device = Device::new(Target::atmega328p());
    spm::store_page(
        &mut device,
        Address::new(0x0080),
        &DataPage((0u16..64).map(|k| 0x1000 + k).collect()),
    );
    assert_eq!(device.read_word(Address::new(0x0080)), Some(0x1000));
    assert_eq!(device.read_word(Address::new(0x0081)), Some(0x1000));
    assert_eq!(device.read_word(Address::new(0x0082)), Some(0x1001));
    assert_eq!(device.read_word(Address::new(0x00fe)), Some(0x103f));
}

#[test]
fn a_target_without_extension_register_reads_within_one_segment() {
    let mut device = Device::new(Target::atmega328p());
    spm::store_page(&mut device, Address::new(0x1_2300), &DataPage(vec![0x4242; 64]));
    assert_eq!(device.extension(), 0);
    assert_eq!(device.read_word(Address::new(0x2300)), Some(0x4242));
    assert_eq!(device.read_word(Address::new(0x5_2300)), Some(0x4242));
    assert!(!device.trace().iter().any(|op| matches!(op, Operation::Extension { .. })));
}

#[test]
fn the_flash_is_not_read_while_it_is_programmed() {
    let mut device = Device::new(Target::atmega328p());
    device.issue(Operation::Erase { z: 0 });
    assert_eq!(device.read_word(Address::new(0x4000)), None);
    device.issue(Operation::Wait);
    assert_eq!(device.read_word(Address::new(0x4000)), None);
    device.issue(Operation::RwwEnable);
    assert_eq!(device.read_word(Address::new(0x4000)), Some(0xffff));
    device.issue(Operation::Write { z: 0 });
    assert_eq!(device.read_word(Address::new(0x4000)), None);
}

#[test]
fn the_record_gives_the_same_state_to_a_fresh_device() {
    for target in [Target::atmega1280(), Target::atmega328p(), Target::attiny85()] {
        let words = target.page_words();
        let mut buffer = PageBuffer::new(Device::new(target), Address::new(0x0702));
        buffer.fill_from_fn(|offset| 0x2000 + offset as u16);
        let mut device = buffer.store();
        spm::store_page(&mut device, Address::new(0x1_0000), &DataPage(vec![0x0f0f; words]));
        spm::lock_bits_set(&mut device, 0x0c);
        spm::fill_page(&mut device, Address::new(6), 0x7777);

        let mut fresh = Device::new(target);
        for op in device.trace().clone() {
            fresh.issue(op);
        }
        assert_eq!(fresh.trace(), device.trace());
        assert_eq!(fresh.stage(), device.stage());
        assert_eq!(fresh.extension(), device.extension());
        assert_eq!(fresh.lock_bits(), device.lock_bits());
        assert_eq!(fresh.is_busy(), device.is_busy());
        assert_eq!(fresh.is_readable(), device.is_readable());
        for address in [0u32, 0x0700, 0x0702, 0x07fe, 0x1_0000, 0x1_00fe, 0xfffe] {
            assert_eq!(
                fresh.read_word(Address::new(address)),
                device.read_word(Address::new(address))
            );
        }
    }
}

#[test]
fn instructions_out_of_order_are_seen() {
    let rww = Target::atmega328p();
    let erase = Operation::Erase { z: 0 };
    let write = Operation::Write { z: 0 };
    let fill = Operation::Fill { z: 0, word: 1 };
    let wait = Operation::Wait;
    let enable = Operation::RwwEnable;

    assert!(in_order(&rww, &[erase, wait, fill, write, wait, enable]));
    assert!(in_order(&rww, &[fill, wait, erase, wait, write, wait, enable]));

    assert!(!in_order(&rww, &[]));
    assert!(!in_order(&rww, &[write, wait, erase, wait, enable]));
    assert!(!in_order(&rww, &[erase, write, wait, enable]));
    assert!(!in_order(&rww, &[erase, wait, write, enable]));
    assert!(!in_order(&rww, &[erase, wait, write, wait]));
    assert!(!in_order(&rww, &[erase, wait, write, wait, fill, enable]));
    assert!(!in_order(&rww, &[erase, wait, write, wait, enable, wait]));
    assert!(!in_order(&rww, &[erase, wait, erase, wait, write, wait, enable]));
    assert!(!in_order(&rww, &[erase, wait, write, wait, write, wait, enable]));
    assert!(!in_order(&rww, &[erase, fill, wait, write, wait, enable]));
    assert!(!in_order(&rww, &[erase, wait, Operation::LockBits { value: 0 }, write, wait, enable]));

    let halting = Target::attiny85();
    assert!(in_order(&halting, &[erase, write]));
    assert!(in_order(&halting, &[fill, erase, wait, fill, write, wait]));
    assert!(!in_order(&halting, &[erase, write, enable]));
    assert!(!in_order(&halting, &[write]));
}

#[test]
fn phases_follow_one_another() {
    let rww = Target::atmega328p();
    let halting = Target::attiny85();
    let erase = Operation::Erase { z: 0 };
    let write = Operation::Write { z: 0 };
    assert_eq!(next_phase(&rww, Phase::Staging, erase), Phase::Erasing);
    assert_eq!(next_phase(&halting, Phase::Staging, erase), Phase::Erased);
    assert_eq!(next_phase(&rww, Phase::Erasing, Operation::Wait), Phase::Erased);
    assert_eq!(next_phase(&rww, Phase::Erased, write), Phase::Writing);
    assert_eq!(next_phase(&halting, Phase::Erased, write), Phase::Written);
    assert_eq!(next_phase(&rww, Phase::Writing, Operation::Wait), Phase::Written);
    assert_eq!(next_phase(&rww, Phase::Written, Operation::RwwEnable), Phase::Readable);
    assert_eq!(next_phase(&halting, Phase::Written, Operation::RwwEnable), Phase::Broken);
    assert_eq!(next_phase(&rww, Phase::Erasing, write), Phase::Broken);
    assert_eq!(next_phase(&rww, Phase::Readable, Operation::Wait), Phase::Broken);
    assert_eq!(next_phase(&rww, Phase::Broken, Operation::Wait), Phase::Broken);
}
