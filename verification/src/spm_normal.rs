//! The instructions of the sequencer as they are, for targets whose flash
//! fits into 64 KiB.
//!
//! Nothing here waits and nothing latches the extension register: an
//! instruction that starts work may only be given once the work before has
//! completed, which is for the caller to see to with `busy_wait`.
use vstd::prelude::*;
use crate::address::{lemma_page_bits, Address};
use crate::device::{
    blank, effective, erased, fills, lemma_cell_of_offset, lemma_program_erased, lemma_same_page,
    page_start, programmed, reenable, reenabled, state_wf, stored, Device, DeviceState, Operation,
};
use crate::order::{commits_in_order, lemma_store_page_normal_in_order};
use crate::page::DataPage;
use crate::target::Target;

verus! {

/// Erases the page that holds `address`.
pub fn erase_page(device: &mut Device, address: Address)
    requires
        old(device).wf(),
        !old(device)@.busy,
    ensures
        final(device).wf(),
        final(device).spec_target() == old(device).spec_target(),
        ({
            let t = old(device).spec_target();
            let s = old(device)@;
            final(device)@ == (DeviceState {
                flash: erased(
                    s.flash,
                    page_start(t, effective(t, s.ramp, address.spec_base())),
                    t.spec_page_words() as int,
                ),
                busy: t.spec_has_rww(),
                readable: !t.spec_has_rww(),
                trace: s.trace.push(
                    Operation::Erase { z: address.page_aligned(t.spec_page_bytes()).spec_base() },
                ),
                ..s
            })
        }),
{
    let target = device.target();
    let z: u16 = address.into_page_aligned(&target).into();
    proof {
        lemma_same_page(target, device@.ramp, address.spec_base());
    }
    device.issue(Operation::Erase { z });
}

/// Loads one word into the staging buffer, at the offset that `address` has
/// within its page.
pub fn fill_page(device: &mut Device, address: Address, data: u16)
    requires
        old(device).wf(),
        !old(device)@.busy,
    ensures
        final(device).wf(),
        final(device).spec_target() == old(device).spec_target(),
        ({
            let t = old(device).spec_target();
            let s = old(device)@;
            final(device)@ == (DeviceState {
                stage: s.stage.update((address@ % (t.spec_page_bytes() as int)) / 2, data),
                trace: s.trace.push(
                    Operation::Fill { z: address.page_offset(t.spec_page_bytes()), word: data },
                ),
                ..s
            })
        }),
{
    let target = device.target();
    let z = address.word(&target);
    device.issue(Operation::Fill { z, word: data });
}

/// Programs the page that holds `address` from the staging buffer, and leaves
/// the buffer blank.
pub fn write_page(device: &mut Device, address: Address)
    requires
        old(device).wf(),
        !old(device)@.busy,
    ensures
        final(device).wf(),
        final(device).spec_target() == old(device).spec_target(),
        ({
            let t = old(device).spec_target();
            let s = old(device)@;
            final(device)@ == (DeviceState {
                flash: programmed(
                    s.flash,
                    s.stage,
                    page_start(t, effective(t, s.ramp, address.spec_base())),
                    t.spec_page_words() as int,
                ),
                stage: blank(t.spec_page_words() as int),
                busy: t.spec_has_rww(),
                readable: !t.spec_has_rww(),
                trace: s.trace.push(
                    Operation::Write { z: address.page_aligned(t.spec_page_bytes()).spec_base() },
                ),
                ..s
            })
        }),
{
    let target = device.target();
    let z: u16 = address.into_page_aligned(&target).into();
    proof {
        lemma_same_page(target, device@.ramp, address.spec_base());
    }
    device.issue(Operation::Write { z });
}

/// Loads a whole page into the staging buffer, word after word from the start
/// of the page that holds `address`.
pub fn fill_page_buffer(device: &mut Device, address: Address, data: &DataPage)
    requires
        old(device).wf(),
        !old(device)@.busy,
        data@.len() == old(device).spec_target().spec_page_words(),
    ensures
        final(device).wf(),
        final(device).spec_target() == old(device).spec_target(),
        ({
            let t = old(device).spec_target();
            let s = old(device)@;
            final(device)@ == (DeviceState {
                stage: data@,
                trace: s.trace + fills(address.page_aligned(t.spec_page_bytes()).spec_base(), data@),
                ..s
            })
        }),
{
    let target = device.target();
    let z: u16 = address.into_page_aligned(&target).into();
    proof {
        lemma_page_bits(address.spec_base(), target.spec_page_bytes());
    }
    fill_from(device, z, data);
}

/// Loads a whole page into the staging buffer, the first word at position `z`,
/// which is the start of a page.
pub(crate) fn fill_from(device: &mut Device, z: u16, data: &DataPage)
    requires
        old(device).wf(),
        !old(device)@.busy,
        data@.len() == old(device).spec_target().spec_page_words(),
        z % old(device).spec_target().spec_page_bytes() == 0,
    ensures
        final(device).wf(),
        final(device).spec_target() == old(device).spec_target(),
        final(device)@ == (DeviceState {
            stage: data@,
            trace: old(device)@.trace + fills(z, data@),
            ..old(device)@
        }),
{
    let target = device.target();
    let n = target.page_words();
    let ghost s = device@;
    let mut k: usize = 0;
    assert(s.trace + fills(z, data@.take(0)) =~= s.trace);
    assert(s.stage =~= data@.take(0) + s.stage.skip(0));
    while k < n
        invariant
            k <= n,
            n == target.spec_page_words(),
            n == data@.len(),
            device.wf(),
            device.spec_target() == target,
            z % target.spec_page_bytes() == 0,
            state_wf(target, s),
            !s.busy,
            device@ == (DeviceState {
                stage: data@.take(k as int) + s.stage.skip(k as int),
                trace: s.trace + fills(z, data@.take(k as int)),
                ..s
            }),
        decreases n - k,
    {
        proof {
            lemma_cell_of_offset(target, z, k as int);
        }
        let word = data.words()[k];
        device.issue(Operation::Fill { z: z + 2 * (k as u16), word });
        k = k + 1;
        assert(device@.stage =~= data@.take(k as int) + s.stage.skip(k as int));
        assert(device@.trace =~= s.trace + fills(z, data@.take(k as int)));
    }
    assert(data@.take(n as int) =~= data@);
    assert(device@.stage =~= data@);
}

/// Programs the lock bits that are set in `lock_bits`. The hardware programs
/// the bits that are zero in what it is given, so it is given the complement.
pub fn lock_bits_set(device: &mut Device, lock_bits: u8)
    requires
        old(device).wf(),
        !old(device)@.busy,
    ensures
        final(device).wf(),
        final(device).spec_target() == old(device).spec_target(),
        final(device)@ == (DeviceState {
            lock_bits: old(device)@.lock_bits & !lock_bits,
            trace: old(device)@.trace.push(Operation::LockBits { value: !lock_bits }),
            ..old(device)@
        }),
{
    device.issue(Operation::LockBits { value: !lock_bits });
}

/// Makes the flash readable again after it was programmed, on a target that
/// has a section which programming makes unreadable. On any other target
/// there is nothing to do, and nothing is done.
pub fn rww_enable(device: &mut Device)
    requires
        old(device).wf(),
        !old(device)@.busy,
    ensures
        final(device).wf(),
        final(device).spec_target() == old(device).spec_target(),
        final(device)@ == (DeviceState {
            stage: reenabled(old(device).spec_target(), old(device)@.stage),
            readable: true,
            trace: old(device)@.trace + reenable(old(device).spec_target()),
            ..old(device)@
        }),
{
    let target = device.target();
    if target.has_rww() {
        device.issue(Operation::RwwEnable);
    }
    assert(device@.trace =~= old(device)@.trace + reenable(target));
}

/// Waits until the erase or write that is going on has completed.
pub fn busy_wait(device: &mut Device)
    requires
        old(device).wf(),
    ensures
        final(device).wf(),
        final(device).spec_target() == old(device).spec_target(),
        final(device)@ == (DeviceState {
            busy: false,
            trace: old(device)@.trace.push(Operation::Wait),
            ..old(device)@
        }),
{
    device.issue(Operation::Wait);
}

/// The instructions by which `store_page` programs the page at `address` with
/// `words`, in the order in which it gives them.
pub open spec fn store_page_ops(t: Target, address: Address, words: Seq<u16>) -> Seq<Operation> {
    let z = address.page_aligned(t.spec_page_bytes()).spec_base();
    seq![Operation::Erase { z }, Operation::Wait] + fills(z, words) + seq![
        Operation::Write { z },
        Operation::Wait,
    ] + reenable(t)
}

/// Programs the page that holds `address` with `data`: erases the page, waits,
/// stages the data, writes the page, waits, and makes the flash readable again.
/// Afterwards the page holds the data and every other page what it held
/// before.
pub fn store_page(device: &mut Device, address: Address, data: &DataPage)
    requires
        old(device).wf(),
        !old(device)@.busy,
        data@.len() == old(device).spec_target().spec_page_words(),
    ensures
        final(device).wf(),
        final(device).spec_target() == old(device).spec_target(),
        ({
            let t = old(device).spec_target();
            let s = old(device)@;
            final(device)@ == (DeviceState {
                flash: stored(
                    s.flash,
                    page_start(t, effective(t, s.ramp, address.spec_base())),
                    data@,
                ),
                stage: blank(t.spec_page_words() as int),
                busy: false,
                readable: true,
                trace: s.trace + store_page_ops(t, address, data@),
                ..s
            })
        }),
        commits_in_order(
            old(device).spec_target(),
            store_page_ops(old(device).spec_target(), address, data@),
        ),
{
    let ghost t = device.spec_target();
    let ghost s = device@;
    proof {
        lemma_store_page_normal_in_order(t, address, data@);
        lemma_same_page(t, s.ramp, address.spec_base());
        lemma_program_erased(s.flash, page_start(t, effective(t, s.ramp, address.spec_base())), data@);
    }
    erase_page(device, address);
    busy_wait(device);
    fill_page_buffer(device, address, data);
    write_page(device, address);
    busy_wait(device);
    rww_enable(device);
    assert(device@.trace =~= s.trace + store_page_ops(t, address, data@));
}

} // verus!
