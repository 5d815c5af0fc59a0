//! The sequencer: the instructions by which a page is programmed, each one
//! given only once the hardware is ready for it.
//!
//! Every function here that gives an instruction first waits until the work
//! before has completed, so they can be called one after the other in any
//! order. The one exception is `lock_bits_set`.
use vstd::prelude::*;
use crate::address::{lemma_segment_offset, Address};
use crate::device::{
    blank, erased, fills, latch, latched, lemma_program_erased, lemma_same_page, page_of,
    programmed, reenabled, stored, Device, DeviceState, Operation,
};
use crate::order::{commits_in_order, lemma_store_page_in_order};
use crate::page::DataPage;
use crate::spm_extended;
use crate::spm_extended::rampz;
use crate::spm_normal;
use crate::target::Target;

verus! {

/// The instructions by which `store_page` programs the page at `address` with
/// `words`, in the order in which it gives them.
pub open spec fn store_page_ops(t: Target, address: Address, words: Seq<u16>) -> Seq<Operation> {
    erase_page_ops(t, address) + copy_to_buffer_ops(t, words) + write_page_ops(t, address)
        + rww_enable_ops(t)
}

/// The instructions that `erase_page` gives.
pub open spec fn erase_page_ops(t: Target, address: Address) -> Seq<Operation> {
    seq![Operation::Wait] + latch(t, address.spec_ramp()) + seq![
        Operation::Erase { z: address.page_aligned(t.spec_page_bytes()).spec_base() },
    ]
}

/// The instructions that `write_page` gives.
pub open spec fn write_page_ops(t: Target, address: Address) -> Seq<Operation> {
    seq![Operation::Wait] + latch(t, address.spec_ramp()) + seq![
        Operation::Write { z: address.page_aligned(t.spec_page_bytes()).spec_base() },
    ]
}

/// The instructions that `copy_to_buffer` gives.
pub open spec fn copy_to_buffer_ops(t: Target, words: Seq<u16>) -> Seq<Operation> {
    seq![Operation::Wait] + latch(t, 0) + fills(0, words)
}

/// The instructions that `rww_enable` gives.
pub open spec fn rww_enable_ops(t: Target) -> Seq<Operation> {
    if t.spec_has_rww() {
        seq![Operation::Wait, Operation::RwwEnable]
    } else {
        Seq::empty()
    }
}

/// Programs the page that holds `address` with `data`: erases the page, stages
/// the data, writes the page, and makes the flash readable again, waiting
/// before each of these for the one before. Afterwards the page holds the data
/// and every other page what it held before.
pub fn store_page(device: &mut Device, address: Address, data: &DataPage)
    requires
        old(device).wf(),
        data@.len() == old(device).spec_target().spec_page_words(),
    ensures
        final(device).wf(),
        final(device).spec_target() == old(device).spec_target(),
        ({
            let t = old(device).spec_target();
            let s = old(device)@;
            final(device)@ == (DeviceState {
                flash: stored(s.flash, page_of(t, address), data@),
                stage: blank(t.spec_page_words() as int),
                ramp: latched(t, s.ramp, address.spec_ramp()),
                busy: false,
                readable: true,
                trace: s.trace + store_page_ops(t, address, data@),
                ..s
            })
        }),
        commits_in_order(
            old(device).spec_target(),
            store_page_ops(old(device).spec_target(), address, data@),
        ),
{
    let ghost t = device.spec_target();
    let ghost s = device@;
    proof {
        lemma_store_page_in_order(t, address, data@);
        lemma_same_page(t, address.spec_ramp(), address.spec_base());
        lemma_program_erased(s.flash, page_of(t, address), data@);
    }
    erase_page(device, address);
    copy_to_buffer(device, data);
    write_page(device, address);
    rww_enable(device);
    assert(device@.trace =~= s.trace + store_page_ops(t, address, data@));
}

/// Erases the page that holds `address`. The erase is started, not waited for.
pub fn erase_page(device: &mut Device, address: Address)
    requires
        old(device).wf(),
    ensures
        final(device).wf(),
        final(device).spec_target() == old(device).spec_target(),
        ({
            let t = old(device).spec_target();
            let s = old(device)@;
            final(device)@ == (DeviceState {
                flash: erased(s.flash, page_of(t, address), t.spec_page_words() as int),
                ramp: latched(t, s.ramp, address.spec_ramp()),
                busy: t.spec_has_rww(),
                readable: !t.spec_has_rww(),
                trace: s.trace + erase_page_ops(t, address),
                ..s
            })
        }),
{
    busy_wait(device);
    spm_extended::erase_page(device, address);
    proof {
        let t = old(device).spec_target();
        assert(device@.trace =~= old(device)@.trace + erase_page_ops(t, address));
    }
}

/// Loads one word into the staging buffer, at the offset that `address` has
/// within its page. An erase need not have gone before.
pub fn fill_page(device: &mut Device, address: Address, data: u16)
    requires
        old(device).wf(),
    ensures
        final(device).wf(),
        final(device).spec_target() == old(device).spec_target(),
        ({
            let t = old(device).spec_target();
            let s = old(device)@;
            final(device)@ == (DeviceState {
                stage: s.stage.update((address@ % (t.spec_page_bytes() as int)) / 2, data),
                busy: false,
                trace: s.trace + seq![
                    Operation::Wait,
                    Operation::Fill { z: address.spec_base(), word: data },
                ],
                ..s
            })
        }),
{
    let z: u16 = address.into();
    proof {
        let t = device.spec_target();
        lemma_segment_offset(address.spec_ramp(), address.spec_base(), t.spec_page_bytes());
    }
    busy_wait(device);
    device.issue(Operation::Fill { z, word: data });
    proof {
        assert(device@.trace =~= old(device)@.trace + seq![
            Operation::Wait,
            Operation::Fill { z: address.spec_base(), word: data },
        ]);
    }
}

/// Programs the page that holds `address` from the staging buffer, and leaves
/// the buffer blank. The write is started, not waited for.
pub fn write_page(device: &mut Device, address: Address)
    requires
        old(device).wf(),
    ensures
        final(device).wf(),
        final(device).spec_target() == old(device).spec_target(),
        ({
            let t = old(device).spec_target();
            let s = old(device)@;
            final(device)@ == (DeviceState {
                flash: programmed(
                    s.flash,
                    s.stage,
                    page_of(t, address),
                    t.spec_page_words() as int,
                ),
                stage: blank(t.spec_page_words() as int),
                ramp: latched(t, s.ramp, address.spec_ramp()),
                busy: t.spec_has_rww(),
                readable: !t.spec_has_rww(),
                trace: s.trace + write_page_ops(t, address),
                ..s
            })
        }),
{
    busy_wait(device);
    spm_extended::write_page(device, address);
    proof {
        let t = old(device).spec_target();
        assert(device@.trace =~= old(device)@.trace + write_page_ops(t, address));
    }
}

/// Loads a whole page into the staging buffer at once, with the extension
/// register set back to zero.
pub fn copy_to_buffer(device: &mut Device, data: &DataPage)
    requires
        old(device).wf(),
        data@.len() == old(device).spec_target().spec_page_words(),
    ensures
        final(device).wf(),
        final(device).spec_target() == old(device).spec_target(),
        ({
            let t = old(device).spec_target();
            let s = old(device)@;
            final(device)@ == (DeviceState {
                stage: data@,
                ramp: latched(t, s.ramp, 0),
                busy: false,
                trace: s.trace + copy_to_buffer_ops(t, data@),
                ..s
            })
        }),
{
    busy_wait(device);
    rampz(device, 0);
    spm_normal::fill_from(device, 0, data);
    proof {
        let t = old(device).spec_target();
        assert(device@.trace =~= old(device)@.trace + copy_to_buffer_ops(t, data@));
    }
}

/// Programs the lock bits that are set in `lock_bits`, with the extension
/// register set back to zero. This one does not wait first.
pub fn lock_bits_set(device: &mut Device, lock_bits: u8)
    requires
        old(device).wf(),
        !old(device)@.busy,
    ensures
        final(device).wf(),
        final(device).spec_target() == old(device).spec_target(),
        ({
            let t = old(device).spec_target();
            let s = old(device)@;
            final(device)@ == (DeviceState {
                lock_bits: s.lock_bits & !lock_bits,
                ramp: latched(t, s.ramp, 0),
                trace: s.trace + latch(t, 0) + seq![Operation::LockBits { value: !lock_bits }],
                ..s
            })
        }),
{
    spm_extended::lock_bits_set(device, lock_bits);
}

/// Makes the flash readable again after it was programmed, once the
/// programming has completed. On a target without a section that programming
/// makes unreadable nothing is done.
pub fn rww_enable(device: &mut Device)
    requires
        old(device).wf(),
    ensures
        final(device).wf(),
        final(device).spec_target() == old(device).spec_target(),
        final(device)@ == (DeviceState {
            stage: reenabled(old(device).spec_target(), old(device)@.stage),
            busy: false,
            readable: true,
            trace: old(device)@.trace + rww_enable_ops(old(device).spec_target()),
            ..old(device)@
        }),
{
    let target = device.target();
    if target.has_rww() {
        busy_wait(device);
        device.issue(Operation::RwwEnable);
    }
    assert(device@.trace =~= old(device)@.trace + rww_enable_ops(target));
}

/// Waits until the erase or write that is going on has completed.
pub fn busy_wait(device: &mut Device)
    requires
        old(device).wf(),
    ensures
        final(device).wf(),
        final(device).spec_target() == old(device).spec_target(),
        final(device)@ == (DeviceState {
            busy: false,
            trace: old(device)@.trace.push(Operation::Wait),
            ..old(device)@
        }),
{
    spm_normal::busy_wait(device)
}

} // verus!
