//! The instructions of the sequencer for targets with more than 64 KiB of
//! flash: each one that takes an address first latches the address's extension
//! byte, and then gives the 16-bit instruction.
//!
//! As in `spm_normal`, nothing here waits. On a target without an extension
//! register nothing is latched, and the functions do what those of
//! `spm_normal` do.
use vstd::prelude::*;
use crate::address::Address;
use crate::device::{
    blank, erased, fills, latch, latched, lemma_program_erased, lemma_same_page, page_of,
    programmed, reenable, reenabled, stored, Device, DeviceState, Operation,
};
use crate::order::{commits_in_order, lemma_store_page_extended_in_order};
use crate::page::DataPage;
use crate::spm_normal;
use crate::target::Target;

verus! {

/// Latches `value` in the extension register, where the target has one.
pub(crate) fn rampz(device: &mut Device, value: u8)
    requires
        old(device).wf(),
    ensures
        final(device).wf(),
        final(device).spec_target() == old(device).spec_target(),
        ({
            let t = old(device).spec_target();
            let s = old(device)@;
            final(device)@ == (DeviceState {
                ramp: latched(t, s.ramp, value),
                trace: s.trace + latch(t, value),
                ..s
            })
        }),
{
    let target = device.target();
    if target.extended() {
        device.issue(Operation::Extension { ramp: value });
        assert(device@.trace =~= old(device)@.trace + latch(target, value));
    } else {
        assert(device@.trace =~= old(device)@.trace + latch(target, value));
    }
}

/// Erases the page that holds `address`.
pub fn erase_page(device: &mut Device, address: Address)
    requires
        old(device).wf(),
        !old(device)@.busy,
    ensures
        final(device).wf(),
        final(device).spec_target() == old(device).spec_target(),
        ({
            let t = old(device).spec_target();
            let s = old(device)@;
            final(device)@ == (DeviceState {
                flash: erased(s.flash, page_of(t, address), t.spec_page_words() as int),
                ramp: latched(t, s.ramp, address.spec_ramp()),
                busy: t.spec_has_rww(),
                readable: !t.spec_has_rww(),
                trace: s.trace + latch(t, address.spec_ramp()) + seq![
                    Operation::Erase { z: address.page_aligned(t.spec_page_bytes()).spec_base() },
                ],
                ..s
            })
        }),
{
    rampz(device, address.ramp());
    spm_normal::erase_page(device, address);
    proof {
        let t = old(device).spec_target();
        let s = old(device)@;
        assert(device@.trace =~= s.trace + latch(t, address.spec_ramp()) + seq![
            Operation::Erase { z: address.page_aligned(t.spec_page_bytes()).spec_base() },
        ]);
    }
}

/// Loads one word into the staging buffer, at the offset that `address` has
/// within its page. The extension byte plays no part in this.
pub fn fill_page(device: &mut Device, address: Address, data: u16)
    requires
        old(device).wf(),
        !old(device)@.busy,
    ensures
        final(device).wf(),
        final(device).spec_target() == old(device).spec_target(),
        ({
            let t = old(device).spec_target();
            let s = old(device)@;
            final(device)@ == (DeviceState {
                stage: s.stage.update((address@ % (t.spec_page_bytes() as int)) / 2, data),
                trace: s.trace.push(
                    Operation::Fill { z: address.page_offset(t.spec_page_bytes()), word: data },
                ),
                ..s
            })
        }),
{
    spm_normal::fill_page(device, address, data);
}

/// Programs the page that holds `address` from the staging buffer, and leaves
/// the buffer blank.
pub fn write_page(device: &mut Device, address: Address)
    requires
        old(device).wf(),
        !old(device)@.busy,
    ensures
        final(device).wf(),
        final(device).spec_target() == old(device).spec_target(),
        ({
            let t = old(device).spec_target();
            let s = old(device)@;
            final(device)@ == (DeviceState {
                flash: programmed(
                    s.flash,
                    s.stage,
                    page_of(t, address),
                    t.spec_page_words() as int,
                ),
                stage: blank(t.spec_page_words() as int),
                ramp: latched(t, s.ramp, address.spec_ramp()),
                busy: t.spec_has_rww(),
                readable: !t.spec_has_rww(),
                trace: s.trace + latch(t, address.spec_ramp()) + seq![
                    Operation::Write { z: address.page_aligned(t.spec_page_bytes()).spec_base() },
                ],
                ..s
            })
        }),
{
    rampz(device, address.ramp());
    spm_normal::write_page(device, address);
    proof {
        let t = old(device).spec_target();
        let s = old(device)@;
        assert(device@.trace =~= s.trace + latch(t, address.spec_ramp()) + seq![
            Operation::Write { z: address.page_aligned(t.spec_page_bytes()).spec_base() },
        ]);
    }
}

/// Loads a whole page into the staging buffer. The loading works within the
/// first segment, so the extension register is set back to zero for it.
pub fn fill_page_buffer(device: &mut Device, address: Address, data: &DataPage)
    requires
        old(device).wf(),
        !old(device)@.busy,
        data@.len() == old(device).spec_target().spec_page_words(),
    ensures
        final(device).wf(),
        final(device).spec_target() == old(device).spec_target(),
        ({
            let t = old(device).spec_target();
            let s = old(device)@;
            final(device)@ == (DeviceState {
                stage: data@,
                ramp: latched(t, s.ramp, 0),
                trace: s.trace + latch(t, 0) + fills(
                    address.page_aligned(t.spec_page_bytes()).spec_base(),
                    data@,
                ),
                ..s
            })
        }),
{
    rampz(device, 0);
    spm_normal::fill_page_buffer(device, address, data);
}

/// Programs the lock bits that are set in `lock_bits`, with the extension
/// register set back to zero.
pub fn lock_bits_set(device: &mut Device, lock_bits: u8)
    requires
        old(device).wf(),
        !old(device)@.busy,
    ensures
        final(device).wf(),
        final(device).spec_target() == old(device).spec_target(),
        ({
            let t = old(device).spec_target();
            let s = old(device)@;
            final(device)@ == (DeviceState {
                lock_bits: s.lock_bits & !lock_bits,
                ramp: latched(t, s.ramp, 0),
                trace: s.trace + latch(t, 0) + seq![Operation::LockBits { value: !lock_bits }],
                ..s
            })
        }),
{
    rampz(device, 0);
    spm_normal::lock_bits_set(device, lock_bits);
    proof {
        let t = old(device).spec_target();
        let s = old(device)@;
        assert(device@.trace =~= s.trace + latch(t, 0) + seq![
            Operation::LockBits { value: !lock_bits },
        ]);
    }
}

/// Makes the flash readable again after it was programmed, on a target that
/// has a section which programming makes unreadable.
pub fn rww_enable(device: &mut Device)
    requires
        old(device).wf(),
        !old(device)@.busy,
    ensures
        final(device).wf(),
        final(device).spec_target() == old(device).spec_target(),
        final(device)@ == (DeviceState {
            stage: reenabled(old(device).spec_target(), old(device)@.stage),
            readable: true,
            trace: old(device)@.trace + reenable(old(device).spec_target()),
            ..old(device)@
        }),
{
    spm_normal::rww_enable(device);
    proof {
        let t = old(device).spec_target();
        assert(device@.trace =~= old(device)@.trace + reenable(t));
    }
}

/// Waits until the erase or write that is going on has completed.
pub fn busy_wait(device: &mut Device)
    requires
        old(device).wf(),
    ensures
        final(device).wf(),
        final(device).spec_target() == old(device).spec_target(),
        final(device)@ == (DeviceState {
            busy: false,
            trace: old(device)@.trace.push(Operation::Wait),
            ..old(device)@
        }),
{
    spm_normal::busy_wait(device)
}

/// The instructions by which `store_page` programs the page at `address` with
/// `words`, in the order in which it gives them.
pub open spec fn store_page_ops(t: Target, address: Address, words: Seq<u16>) -> Seq<Operation> {
    let z = address.page_aligned(t.spec_page_bytes()).spec_base();
    let ramp = address.spec_ramp();
    latch(t, 0) + fills(z, words) + latch(t, ramp) + seq![Operation::Erase { z }, Operation::Wait]
        + latch(t, ramp) + seq![Operation::Write { z }, Operation::Wait] + reenable(t)
}

/// Programs the page that holds `address` with `data`: stages the data,
/// erases the page, waits, writes the page, waits, and makes the flash
/// readable again. Afterwards the page holds the data and every other page
/// what it held before.
pub fn store_page(device: &mut Device, address: Address, data: &DataPage)
    requires
        old(device).wf(),
        !old(device)@.busy,
        data@.len() == old(device).spec_target().spec_page_words(),
    ensures
        final(device).wf(),
        final(device).spec_target() == old(device).spec_target(),
        ({
            let t = old(device).spec_target();
            let s = old(device)@;
            final(device)@ == (DeviceState {
                flash: stored(s.flash, page_of(t, address), data@),
                stage: blank(t.spec_page_words() as int),
                ramp: latched(t, s.ramp, address.spec_ramp()),
                busy: false,
                readable: true,
                trace: s.trace + store_page_ops(t, address, data@),
                ..s
            })
        }),
        commits_in_order(
            old(device).spec_target(),
            store_page_ops(old(device).spec_target(), address, data@),
        ),
{
    let ghost t = device.spec_target();
    let ghost s = device@;
    proof {
        lemma_store_page_extended_in_order(t, address, data@);
        lemma_same_page(t, address.spec_ramp(), address.spec_base());
        lemma_program_erased(s.flash, page_of(t, address), data@);
    }
    fill_page_buffer(device, address, data);
    erase_page(device, address);
    busy_wait(device);
    write_page(device, address);
    busy_wait(device);
    rww_enable(device);
    assert(device@.trace =~= s.trace + store_page_ops(t, address, data@));
}

} // verus!
