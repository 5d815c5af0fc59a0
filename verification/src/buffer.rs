//! The staging buffer of the hardware as a value that is owned.
//!
//! There is one staging buffer in a microcontroller. `PageBuffer` stands for
//! it: it takes the device when it is made and gives it back when the page is
//! stored or the buffer is released, so that no second buffer can be made for
//! the same device in between, and so that the device never comes back in a
//! state in which its flash cannot be read.
use vstd::prelude::*;
use vstd::std_specs::iter::IteratorSpec;
use crate::address::{lemma_align_idempotent, Address};
use crate::device::{
    blank, latched, lemma_program_erased, lemma_same_page, page_of, reenabled, state_wf, stored,
    Device, DeviceState, Operation,
};
use crate::order::{commits_in_order, lemma_store_from_in_order, lemma_store_in_order};
use crate::page::DataPage;
use crate::spm;
use crate::target::{is_page_size, Target};

verus! {

/// The staging buffer of a device, bound to the page that it will be
/// written to.
pub struct PageBuffer {
    address: Address,
    device: Device,
}

/// One word of the staging buffer. It can be written and not read.
#[derive(Clone, Copy, PartialEq, Eq, Debug, Structural)]
pub struct BufferCell {
    offset: u8,
}

/// The cells of a staging buffer, from the first to the last.
pub struct CellIter {
    offset: u16,
    page_size: u16,
}

/// The offsets in bytes of the cells of a page of `p` bytes that lie at
/// `from` or behind it, in rising order.
pub open spec fn cell_offsets(from: int, p: int) -> Seq<u8> {
    Seq::new(((p - from) / 2) as nat, |k: int| (from + 2 * k) as u8)
}

/// The instructions by which `words` are loaded cell by cell from the first
/// cell on: for each word a wait, and then the fill at the cell's offset.
pub open spec fn cell_fills(words: Seq<u16>) -> Seq<Operation> {
    Seq::new(
        2 * words.len(),
        |j: int|
            if j % 2 == 0 {
                Operation::Wait
            } else {
                Operation::Fill { z: (j - 1) as u16, word: words[j / 2] }
            },
    )
}

/// The state after `words` were loaded cell by cell from the first cell on:
/// the first cells hold the words, the cells behind them what they held
/// before.
pub open spec fn filled(s: DeviceState, words: Seq<u16>) -> DeviceState {
    DeviceState {
        stage: words + s.stage.skip(words.len() as int),
        busy: s.busy && words.len() == 0,
        trace: s.trace + cell_fills(words),
        ..s
    }
}

/// The instructions that give a device back in a state in which it can be
/// read: a wait, and what `spm::rww_enable` gives.
pub open spec fn release_ops(t: Target) -> Seq<Operation> {
    seq![Operation::Wait] + spm::rww_enable_ops(t)
}

/// The instructions by which `PageBuffer::store` commits what is staged to
/// the page at `address`.
pub open spec fn store_ops(t: Target, address: Address) -> Seq<Operation> {
    spm::erase_page_ops(t, address) + seq![Operation::Wait] + spm::write_page_ops(t, address)
        + release_ops(t)
}

/// The instructions by which `PageBuffer::store_from` programs the page at
/// `address` with `words`.
pub open spec fn store_from_ops(t: Target, address: Address, words: Seq<u16>) -> Seq<Operation> {
    spm::erase_page_ops(t, address) + spm::copy_to_buffer_ops(t, words) + seq![Operation::Wait]
        + spm::write_page_ops(t, address) + release_ops(t)
}

impl View for PageBuffer {
    type V = DeviceState;

    /// The state of the device that the buffer holds.
    closed spec fn view(&self) -> DeviceState {
        self.device@
    }
}

impl BufferCell {
    /// Offset in bytes of the cell within the page.
    pub closed spec fn spec_offset(&self) -> u8 {
        self.offset
    }

    /// Offset in bytes of the cell within the page.
    #[verifier::when_used_as_spec(spec_offset)]
    pub fn offset(&self) -> (r: u8)
        ensures
            r == self.spec_offset(),
    {
        self.offset
    }

    /// Loads `w` into this cell of `buffer`, at once: the word goes to the
    /// hardware and nothing is kept here.
    pub fn set(&self, buffer: &mut PageBuffer, w: u16)
        requires
            old(buffer).wf(),
        ensures
            final(buffer).wf(),
            final(buffer).spec_target() == old(buffer).spec_target(),
            final(buffer).spec_address() == old(buffer).spec_address(),
            ({
                let t = old(buffer).spec_target();
                let s = old(buffer)@;
                final(buffer)@ == (DeviceState {
                    stage: s.stage.update(
                        (self.spec_offset() as int % t.spec_page_bytes() as int) / 2,
                        w,
                    ),
                    busy: false,
                    trace: s.trace + seq![
                        Operation::Wait,
                        Operation::Fill { z: self.spec_offset() as u16, word: w },
                    ],
                    ..s
                })
            }),
    {
        let address = Address::new(self.offset as u32);
        spm::fill_page(&mut buffer.device, address, w);
    }
}

impl CellIter {
    /// The offsets of the cells that are still to come.
    pub closed spec fn remaining(&self) -> Seq<u8> {
        cell_offsets(self.offset as int, self.page_size as int)
    }

    #[verifier::type_invariant]
    spec fn inv(&self) -> bool {
        &&& is_page_size(self.page_size)
        &&& self.offset % 2 == 0
        &&& self.offset <= self.page_size
    }

    /// The next cell, or nothing when the last cell has been handed out.
    pub fn next(&mut self) -> (r: Option<BufferCell>)
        ensures
            old(self).remaining().len() > 0 ==> ({
                &&& r matches Some(cell)
                &&& cell.spec_offset() == old(self).remaining()[0]
                &&& final(self).remaining() == old(self).remaining().drop_first()
            }),
            old(self).remaining().len() == 0 ==> ({
                &&& r is None
                &&& final(self).remaining() == old(self).remaining()
            }),
    {
        proof {
            use_type_invariant(&*self);
        }
        let current = self.offset;
        if current >= self.page_size {
            None
        } else {
            self.offset = current + 2;
            assert(self.remaining() =~= old(self).remaining().drop_first());
            Some(BufferCell { offset: current as u8 })
        }
    }
}

impl PageBuffer {
    /// The first address of the page that the buffer will be written to.
    pub closed spec fn spec_address(&self) -> Address {
        self.address
    }

    /// The target of the device that the buffer holds.
    pub closed spec fn spec_target(&self) -> Target {
        self.device.spec_target()
    }

    /// The device is in a state that its target allows, and the address is
    /// the first of a page.
    pub open spec fn wf(&self) -> bool {
        &&& state_wf(self.spec_target(), self@)
        &&& self.spec_address() == self.spec_address().page_aligned(
            self.spec_target().spec_page_bytes(),
        )
    }

    /// Takes the device and binds its staging buffer to the page that holds
    /// `address`. Nothing is given to the hardware yet.
    pub fn new(device: Device, address: Address) -> (b: PageBuffer)
        requires
            device.wf(),
        ensures
            b.wf(),
            b@ == device@,
            b.spec_target() == device.spec_target(),
            b.spec_address() == address.page_aligned(device.spec_target().spec_page_bytes()),
            b.spec_address()@ == address@ - address@ % (device.spec_target().spec_page_bytes() as int),
    {
        let target = device.target();
        let aligned = address.into_page_aligned(&target);
        proof {
            lemma_align_idempotent(address, target.spec_page_bytes());
        }
        PageBuffer { address: aligned, device }
    }

    /// The first address of the page that the buffer will be written to.
    #[verifier::when_used_as_spec(spec_address)]
    pub fn address(&self) -> (r: Address)
        ensures
            r == self.spec_address(),
    {
        self.address
    }

    /// The device that the buffer holds, to look at.
    pub fn device(&self) -> (d: &Device)
        ensures
            d@ == self@,
            d.spec_target() == self.spec_target(),
    {
        &self.device
    }

    /// Number of cells, which is the number of words in a page.
    pub fn len(&self) -> (n: usize)
        ensures
            n == self.spec_target().spec_page_words(),
    {
        self.device.target().page_words()
    }

    /// The cells of the buffer in rising order of their offsets, each one once:
    /// `0, 2, 4, ...` up to the last word of the page.
    pub fn iter(&self) -> (cells: CellIter)
        ensures
            cells.remaining() == cell_offsets(0, self.spec_target().spec_page_bytes() as int),
    {
        let target = self.device.target();
        CellIter { offset: 0, page_size: target.page_bytes() }
    }

    /// Loads a whole page into the buffer at once.
    pub fn copy_from(&mut self, data: &DataPage)
        requires
            old(self).wf(),
            data@.len() == old(self).spec_target().spec_page_words(),
        ensures
            final(self).wf(),
            final(self).spec_target() == old(self).spec_target(),
            final(self).spec_address() == old(self).spec_address(),
            ({
                let t = old(self).spec_target();
                let s = old(self)@;
                final(self)@ == (DeviceState {
                    stage: data@,
                    ramp: latched(t, s.ramp, 0),
                    busy: false,
                    trace: s.trace + spm::copy_to_buffer_ops(t, data@),
                    ..s
                })
            }),
    {
        spm::copy_to_buffer(&mut self.device, data);
    }

    /// Loads a whole page into the buffer and stores it at once: erases the
    /// page, stages the data, waits, writes the page, and gives the device
    /// back readable. The page then holds the data, and every other page what
    /// it held before.
    pub fn store_from(self, data: &DataPage) -> (device: Device)
        requires
            self.wf(),
            data@.len() == self.spec_target().spec_page_words(),
        ensures
            device.wf(),
            device.spec_target() == self.spec_target(),
            ({
                let t = self.spec_target();
                let s = self@;
                device@ == (DeviceState {
                    flash: stored(s.flash, page_of(t, self.spec_address()), data@),
                    stage: blank(t.spec_page_words() as int),
                    ramp: latched(t, s.ramp, self.spec_address().spec_ramp()),
                    busy: false,
                    readable: true,
                    trace: s.trace + store_from_ops(t, self.spec_address(), data@),
                    ..s
                })
            }),
            commits_in_order(
                self.spec_target(),
                store_from_ops(self.spec_target(), self.spec_address(), data@),
            ),
    {
        let ghost t = self.spec_target();
        let ghost s = self@;
        let address = self.address;
        let mut device = self.device;
        proof {
            lemma_store_from_in_order(t, address, data@, Seq::empty());
            assert(Seq::<Operation>::empty() + store_from_ops(t, address, data@) =~= store_from_ops(
                t,
                address,
                data@,
            ));
            lemma_same_page(t, address.spec_ramp(), address.spec_base());
            lemma_program_erased(s.flash, page_of(t, address), data@);
        }
        spm::erase_page(&mut device, address);
        spm::copy_to_buffer(&mut device, data);
        spm::busy_wait(&mut device);
        spm::write_page(&mut device, address);
        finish(&mut device);
        assert(device@.trace =~= s.trace + store_from_ops(t, address, data@));
        device
    }

    /// Loads every cell with what `f` makes of the cell's offset, from the
    /// first cell to the last.
    pub fn fill_from_fn<F: Fn(u8) -> u16>(&mut self, f: F)
        requires
            old(self).wf(),
            forall|offset: u8|
                offset % 2 == 0 && offset < old(self).spec_target().spec_page_bytes()
                    ==> call_requires(f, (offset,)),
        ensures
            final(self).wf(),
            final(self).spec_target() == old(self).spec_target(),
            final(self).spec_address() == old(self).spec_address(),
            final(self)@ == filled(old(self)@, final(self)@.stage),
            forall|k: int|
                0 <= k < old(self).spec_target().spec_page_words() ==> call_ensures(
                    f,
                    ((2 * k) as u8,),
                    #[trigger] final(self)@.stage[k],
                ),
    {
        let ghost t = self.spec_target();
        let ghost s = self@;
        let ghost p = t.spec_page_bytes() as int;
        let ghost mut words: Seq<u16> = Seq::empty();
        let mut cells = self.iter();
        let mut done = false;
        proof {
            assert(cell_fills(words) =~= Seq::<Operation>::empty());
            assert(self@.stage =~= words + s.stage.skip(0));
            assert(self@.trace =~= s.trace + cell_fills(words));
        }
        while !done
            invariant
                self.wf(),
                self.spec_target() == t,
                self.spec_address() == old(self).spec_address(),
                state_wf(t, s),
                p == t.spec_page_bytes(),
                2 * words.len() <= p,
                cells.remaining() == cell_offsets(2 * (words.len() as int), p),
                self@ == filled(s, words),
                forall|offset: u8| offset % 2 == 0 && offset < p ==> call_requires(f, (offset,)),
                forall|k: int|
                    0 <= k < words.len() ==> call_ensures(f, ((2 * k) as u8,), #[trigger] words[k]),
                done ==> 2 * words.len() == p,
            decreases p - 2 * words.len() + (if done { 0int } else { 1int }),
        {
            match cells.next() {
                None => {
                    done = true;
                },
                Some(cell) => {
                    let offset = cell.offset();
                    let value = f(offset);
                    proof {
                        vstd::arithmetic::div_mod::lemma_small_mod(offset as nat, p as nat);
                    }
                    cell.set(self, value);
                    proof {
                        words = words.push(value);
                        assert(self@.stage =~= words + s.stage.skip(words.len() as int));
                        assert(self@.trace =~= s.trace + cell_fills(words));
                    }
                },
            }
        }
        assert(self@.stage =~= words);
    }

    /// Loads the cells, from the first one on, with the values that `i`
    /// yields, until the last cell is loaded or `i` yields no more. Where `i`
    /// ends first, the cells behind keep what they held, and that is no error.
    pub fn fill_from_iter<I: Iterator<Item = u16>>(&mut self, i: I)
        requires
            old(self).wf(),
        ensures
            final(self).wf(),
            final(self).spec_target() == old(self).spec_target(),
            final(self).spec_address() == old(self).spec_address(),
            exists|words: Seq<u16>|
                {
                    &&& words.len() <= old(self).spec_target().spec_page_words()
                    &&& final(self)@ == #[trigger] filled(old(self)@, words)
                    &&& i.obeys_prophetic_iter_laws() ==> words == i.remaining().take(
                        if i.remaining().len() < old(self).spec_target().spec_page_words() {
                            i.remaining().len() as int
                        } else {
                            old(self).spec_target().spec_page_words() as int
                        },
                    )
                },
    {
        let ghost t = self.spec_target();
        let ghost s = self@;
        let ghost p = t.spec_page_bytes() as int;
        let ghost mut words: Seq<u16> = Seq::empty();
        let mut source = i;
        let mut cells = self.iter();
        let mut done = false;
        proof {
            assert(cell_fills(words) =~= Seq::<Operation>::empty());
            assert(self@.stage =~= words + s.stage.skip(0));
            assert(self@.trace =~= s.trace + cell_fills(words));
            assert(i.remaining().skip(0) =~= i.remaining());
            assert(i.remaining().take(0) =~= words);
        }
        while !done
            invariant
                self.wf(),
                self.spec_target() == t,
                self.spec_address() == old(self).spec_address(),
                state_wf(t, s),
                p == t.spec_page_bytes(),
                2 * words.len() <= p,
                !done ==> cells.remaining() == cell_offsets(2 * (words.len() as int), p),
                self@ == filled(s, words),
                source.obeys_prophetic_iter_laws() == i.obeys_prophetic_iter_laws(),
                i.obeys_prophetic_iter_laws() ==> ({
                    &&& words.len() <= i.remaining().len()
                    &&& source.remaining() == i.remaining().skip(words.len() as int)
                    &&& words == i.remaining().take(words.len() as int)
                }),
                done && i.obeys_prophetic_iter_laws() ==> 2 * words.len() == p || words.len()
                    == i.remaining().len(),
            decreases p - 2 * words.len() + (if done { 0int } else { 1int }),
        {
            match cells.next() {
                None => {
                    done = true;
                },
                Some(cell) => {
                    let ghost before = source;
                    match source.next() {
                        None => {
                            done = true;
                        },
                        Some(value) => {
                            proof {
                                vstd::arithmetic::div_mod::lemma_small_mod(
                                    cell.spec_offset() as nat,
                                    p as nat,
                                );
                            }
                            cell.set(self, value);
                            proof {
                                let n = words.len() as int;
                                words = words.push(value);
                                assert(self@.stage =~= words + s.stage.skip(words.len() as int));
                                assert(self@.trace =~= s.trace + cell_fills(words));
                                if i.obeys_prophetic_iter_laws() {
                                    assert(before.remaining().len() > 0);
                                    assert(source.remaining() =~= i.remaining().skip(n + 1));
                                    assert(words =~= i.remaining().take(n + 1));
                                }
                            }
                        },
                    }
                },
            }
        }
        assert(final(self)@ == filled(old(self)@, words));
    }

    /// Commits what is staged: erases the page, waits, writes the buffer to
    /// the page, and gives the device back readable. The page then holds what
    /// was staged, and every other page what it held before.
    pub fn store(self) -> (device: Device)
        requires
            self.wf(),
        ensures
            device.wf(),
            device.spec_target() == self.spec_target(),
            ({
                let t = self.spec_target();
                let s = self@;
                device@ == (DeviceState {
                    flash: stored(s.flash, page_of(t, self.spec_address()), s.stage),
                    stage: blank(t.spec_page_words() as int),
                    ramp: latched(t, s.ramp, self.spec_address().spec_ramp()),
                    busy: false,
                    readable: true,
                    trace: s.trace + store_ops(t, self.spec_address()),
                    ..s
                })
            }),
            commits_in_order(self.spec_target(), store_ops(self.spec_target(), self.spec_address())),
    {
        let ghost t = self.spec_target();
        let ghost s = self@;
        let address = self.address;
        let mut device = self.device;
        proof {
            lemma_store_in_order(t, address, Seq::empty());
            assert(Seq::<Operation>::empty() + store_ops(t, address) =~= store_ops(t, address));
            lemma_same_page(t, address.spec_ramp(), address.spec_base());
            lemma_program_erased(s.flash, page_of(t, address), s.stage);
        }
        spm::erase_page(&mut device, address);
        spm::busy_wait(&mut device);
        spm::write_page(&mut device, address);
        finish(&mut device);
        assert(device@.trace =~= s.trace + store_ops(t, address));
        device
    }

    /// Gives the device back without storing anything: waits for what is
    /// going on and makes the flash readable. Where that takes a re-enabling,
    /// what was staged is lost with it.
    pub fn release(self) -> (device: Device)
        requires
            self.wf(),
        ensures
            device.wf(),
            device.spec_target() == self.spec_target(),
            device@ == (DeviceState {
                stage: reenabled(self.spec_target(), self@.stage),
                busy: false,
                readable: true,
                trace: self@.trace + release_ops(self.spec_target()),
                ..self@
            }),
    {
        let mut device = self.device;
        finish(&mut device);
        device
    }
}

/// What is done whenever a buffer gives its device back: wait for the
/// instruction before, and make the flash readable.
fn finish(device: &mut Device)
    requires
        old(device).wf(),
    ensures
        final(device).wf(),
        final(device).spec_target() == old(device).spec_target(),
        final(device)@ == (DeviceState {
            stage: reenabled(old(device).spec_target(), old(device)@.stage),
            busy: false,
            readable: true,
            trace: old(device)@.trace + release_ops(old(device).spec_target()),
            ..old(device)@
        }),
{
    spm::busy_wait(device);
    spm::rww_enable(device);
    assert(device@.trace =~= old(device)@.trace + release_ops(device.spec_target()));
}

/// The cells of a page come in rising order of their offsets, which are the
/// even numbers below the page size: there are as many cells as the page has
/// words, and no offset comes twice.
pub proof fn lemma_cell_offsets(p: u16)
    requires
        is_page_size(p),
    ensures
        cell_offsets(0, p as int).len() == p / 2,
        forall|k: int| 0 <= k < p / 2 ==> #[trigger] cell_offsets(0, p as int)[k] == 2 * k,
        forall|j: int, k: int|
            0 <= j < k < p / 2 ==> #[trigger] cell_offsets(0, p as int)[j] < #[trigger] cell_offsets(
                0,
                p as int,
            )[k],
{
}

/// Loading fewer words than the buffer has cells loads the first cells and
/// leaves the others as they were, and what is given to the hardware is one
/// fill for each word.
pub proof fn lemma_filled(s: DeviceState, words: Seq<u16>)
    requires
        words.len() <= s.stage.len(),
    ensures
        filled(s, words).stage.len() == s.stage.len(),
        forall|k: int| 0 <= k < words.len() ==> #[trigger] filled(s, words).stage[k] == words[k],
        forall|k: int|
            words.len() <= k < s.stage.len() ==> #[trigger] filled(s, words).stage[k] == s.stage[k],
        filled(s, words).flash == s.flash,
        cell_fills(words).len() == 2 * words.len(),
        forall|k: int|
            0 <= k < words.len() ==> #[trigger] cell_fills(words)[2 * k + 1] == (Operation::Fill {
                z: (2 * k) as u16,
                word: words[k],
            }),
        forall|j: int|
            0 <= j < cell_fills(words).len() && j % 2 == 0 ==> #[trigger] cell_fills(words)[j]
                == Operation::Wait,
{
}

} // verus!
