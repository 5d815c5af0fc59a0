//! A model of the self-programming hardware.
//!
//! The hardware has one staging buffer of a page's size, a flash array, an
//! extension register for the high byte of an address, and a control register
//! through which one instruction at a time is given. `Device` holds these as
//! plain values, carries out each instruction as the hardware would, and keeps a
//! record of the instructions in the order in which they came.
use vstd::prelude::*;
use crate::address::{
    lemma_new_parts, lemma_page_aligned, lemma_page_bits, lemma_segment_offset, Address,
};
use crate::target::Target;

verus! {

/// One instruction given to the self-programming hardware.
#[derive(Clone, Copy, PartialEq, Eq, Debug, Structural)]
pub enum Operation {
    /// Latch `ramp` in the extension register, for the instructions that follow.
    Extension { ramp: u8 },
    /// Erase the page that holds position `z`.
    Erase { z: u16 },
    /// Load `word` into the staging buffer, at the offset that `z` has within
    /// its page.
    Fill { z: u16, word: u16 },
    /// Program the page that holds position `z` from the staging buffer, and
    /// blank the buffer.
    Write { z: u16 },
    /// Program the lock bits; a bit that is zero in `value` is programmed.
    LockBits { value: u8 },
    /// Make the read-while-write section readable again. This blanks the
    /// staging buffer as well.
    RwwEnable,
    /// Poll until the instruction before has completed.
    Wait,
}

/// What a `Device` holds, as mathematical values.
pub struct DeviceState {
    /// The flash array, one entry for each 16-bit word.
    pub flash: Seq<u16>,
    /// The staging buffer, one entry for each word of a page.
    pub stage: Seq<u16>,
    /// The extension register.
    pub ramp: u8,
    /// Whether an erase or a write is still going on.
    pub busy: bool,
    /// Whether the flash can be read.
    pub readable: bool,
    /// The lock bits; a bit that is zero is programmed.
    pub lock_bits: u8,
    /// The instructions given so far, oldest first.
    pub trace: Seq<Operation>,
}

/// The word that an erased cell of the flash or of the staging buffer holds.
pub const ERASED: u16 = 0xffff;

/// The state of a device that was never programmed: the flash erased, nothing
/// staged, no lock bit programmed, no instruction given.
pub open spec fn initial(t: Target) -> DeviceState {
    DeviceState {
        flash: blank(t.spec_flash_words() as int),
        stage: blank(t.spec_page_words() as int),
        ramp: 0,
        busy: false,
        readable: true,
        lock_bits: 0xff,
        trace: Seq::empty(),
    }
}

/// The byte address that an instruction with position `z` works on while `ramp`
/// is latched.
pub open spec fn effective(t: Target, ramp: u8, z: u16) -> int {
    if t.spec_extended() {
        ramp as int * 0x1_0000 + z as int
    } else {
        z as int
    }
}

/// Index, in the flash array, of the first word of the page that holds byte
/// address `a`.
pub open spec fn page_start(t: Target, a: int) -> int {
    (a - a % (t.spec_page_bytes() as int)) / 2
}

/// Index, in the staging buffer, of the word that position `z` selects.
pub open spec fn cell_index(t: Target, z: u16) -> int {
    (z % t.spec_page_bytes()) as int / 2
}

/// A staging buffer of `n` words in which nothing is loaded.
pub open spec fn blank(n: int) -> Seq<u16> {
    Seq::new(n as nat, |i: int| ERASED)
}

/// `flash` with the `n` words from `start` on erased.
pub open spec fn erased(flash: Seq<u16>, start: int, n: int) -> Seq<u16> {
    Seq::new(
        flash.len(),
        |i: int|
            if start <= i < start + n {
                ERASED
            } else {
                flash[i]
            },
    )
}

/// `flash` with the first `n` words of `stage` programmed into the words from
/// `start` on. Programming clears bits and sets none, so a word takes the
/// staged value exactly where it was erased before.
pub open spec fn programmed(flash: Seq<u16>, stage: Seq<u16>, start: int, n: int) -> Seq<u16> {
    Seq::new(
        flash.len(),
        |i: int|
            if start <= i < start + n {
                flash[i] & stage[i - start]
            } else {
                flash[i]
            },
    )
}

/// What one instruction does to the hardware.
pub open spec fn step(t: Target, s: DeviceState, op: Operation) -> DeviceState {
    let trace = s.trace.push(op);
    match op {
        Operation::Extension { ramp } => DeviceState { ramp, trace, ..s },
        Operation::Erase { z } => DeviceState {
            flash: erased(
                s.flash,
                page_start(t, effective(t, s.ramp, z)),
                t.spec_page_words() as int,
            ),
            busy: t.spec_has_rww(),
            readable: !t.spec_has_rww(),
            trace,
            ..s
        },
        Operation::Fill { z, word } => DeviceState {
            stage: s.stage.update(cell_index(t, z), word),
            trace,
            ..s
        },
        Operation::Write { z } => DeviceState {
            flash: programmed(
                s.flash,
                s.stage,
                page_start(t, effective(t, s.ramp, z)),
                t.spec_page_words() as int,
            ),
            stage: blank(t.spec_page_words() as int),
            busy: t.spec_has_rww(),
            readable: !t.spec_has_rww(),
            trace,
            ..s
        },
        Operation::LockBits { value } => DeviceState {
            lock_bits: s.lock_bits & value,
            trace,
            ..s
        },
        Operation::RwwEnable => DeviceState {
            stage: blank(t.spec_page_words() as int),
            readable: true,
            trace,
            ..s
        },
        Operation::Wait => DeviceState { busy: false, trace, ..s },
    }
}

/// Whether the hardware takes `op` in state `s`. An instruction that starts
/// work has to find the work before completed, and only a target with more
/// than 64 KiB of flash has an extension register.
pub open spec fn accepts(t: Target, s: DeviceState, op: Operation) -> bool {
    match op {
        Operation::Extension { .. } => t.spec_extended(),
        Operation::Wait => true,
        _ => !s.busy,
    }
}

/// What the instructions `ops`, given in order, do to the hardware.
#[verifier::opaque]
pub open spec fn run(t: Target, s: DeviceState, ops: Seq<Operation>) -> DeviceState
    decreases ops.len(),
{
    if ops.len() == 0 {
        s
    } else {
        step(t, run(t, s, ops.drop_last()), ops.last())
    }
}

/// What holds of every state of a device of target `t`. The last line says
/// that the record is complete: a device that was never programmed and is given
/// the recorded instructions comes to the same state.
pub open spec fn state_wf(t: Target, s: DeviceState) -> bool {
    &&& t.wf()
    &&& s.flash.len() == t.spec_flash_words()
    &&& s.stage.len() == t.spec_page_words()
    &&& !t.spec_extended() ==> s.ramp == 0
    &&& !t.spec_has_rww() ==> s.readable && !s.busy
    &&& s == run(t, initial(t), s.trace)
}

/// What reading the word at `address` gives in state `s`: the word, or
/// nothing while the flash cannot be read.
pub open spec fn read(t: Target, s: DeviceState, address: Address) -> Option<u16> {
    if s.readable && !s.busy {
        Some(s.flash[effective(t, address.spec_ramp(), address.spec_base()) / 2])
    } else {
        None
    }
}

/// Index, in the flash array, of the first word of the page that holds
/// `address`.
pub open spec fn page_of(t: Target, address: Address) -> int {
    page_start(t, effective(t, address.spec_ramp(), address.spec_base()))
}

/// `flash` with the words from `start` on replaced by `words`.
pub open spec fn stored(flash: Seq<u16>, start: int, words: Seq<u16>) -> Seq<u16> {
    Seq::new(
        flash.len(),
        |i: int|
            if start <= i < start + words.len() {
                words[i - start]
            } else {
                flash[i]
            },
    )
}

/// The instructions that load `words` into the staging buffer one after the
/// other, the first at position `z`.
pub open spec fn fills(z: u16, words: Seq<u16>) -> Seq<Operation> {
    Seq::new(words.len(), |k: int| Operation::Fill { z: (z + 2 * k) as u16, word: words[k] })
}

/// The instruction that latches `ramp`, on a target that has an extension
/// register; on any other target there is nothing to latch.
pub open spec fn latch(t: Target, ramp: u8) -> Seq<Operation> {
    if t.spec_extended() {
        seq![Operation::Extension { ramp }]
    } else {
        Seq::empty()
    }
}

/// What the staging buffer holds after `reenable`, when it held `stage`: the
/// re-enabling blanks it.
pub open spec fn reenabled(t: Target, stage: Seq<u16>) -> Seq<u16> {
    if t.spec_has_rww() {
        blank(t.spec_page_words() as int)
    } else {
        stage
    }
}

/// What the extension register holds after `latch`, when it held `before`.
pub open spec fn latched(t: Target, before: u8, ramp: u8) -> u8 {
    if t.spec_extended() {
        ramp
    } else {
        before
    }
}

/// The instruction that makes the flash readable again, on a target that has
/// a section which programming makes unreadable; on any other target there is
/// none.
pub open spec fn reenable(t: Target) -> Seq<Operation> {
    if t.spec_has_rww() {
        seq![Operation::RwwEnable]
    } else {
        Seq::empty()
    }
}

/// Rounding `a` down to a multiple of the page size `p` stays within the
/// flash, and halves to a word index whose page holds the word of `a`.
proof fn lemma_floor(a: u32, p: u32, limit: u32)
    requires
        p == 2 || p == 4 || p == 8 || p == 16 || p == 32 || p == 64 || p == 128 || p == 256,
        limit == 0x1_0000 || limit == 0x100_0000,
        a < limit,
    ensures
        0 <= a - a % p,
        (a - a % p) % 2 == 0,
        a - a % p + p <= limit,
        (a - a % p) / 2 <= a / 2 < (a - a % p) / 2 + p / 2,
{
    assert((a - a % p) % 2 == 0 && a - a % p + p <= limit && (a - a % p) / 2 <= a / 2 < (a - a % p)
        / 2 + p / 2) by (bit_vector)
        requires
            p == 2 || p == 4 || p == 8 || p == 16 || p == 32 || p == 64 || p == 128 || p == 256,
            limit == 0x1_0000 || limit == 0x100_0000,
            a < limit,
    ;
}

/// The page that holds a byte address lies within the flash.
pub proof fn lemma_page_in_flash(t: Target, a: int)
    requires
        t.wf(),
        0 <= a < t.spec_flash_bytes(),
    ensures
        0 <= page_start(t, a),
        page_start(t, a) + t.spec_page_words() <= t.spec_flash_words(),
        page_start(t, a) <= a / 2 < page_start(t, a) + t.spec_page_words(),
{
    lemma_floor(a as u32, t.spec_page_bytes() as u32, t.spec_flash_bytes() as u32);
}

/// A step keeps a well-formed state well-formed.
pub proof fn lemma_step_wf(t: Target, s: DeviceState, op: Operation)
    requires
        state_wf(t, s),
        accepts(t, s, op),
    ensures
        state_wf(t, step(t, s, op)),
{
    match op {
        Operation::Fill { z, word } => {
            assert(0 <= cell_index(t, z) < t.spec_page_words());
        },
        _ => {},
    }
    let after = step(t, s, op);
    assert(after.trace.drop_last() =~= s.trace);
    reveal(run);
}

/// Programming an erased page leaves exactly the staged words in it.
pub proof fn lemma_program_erased(flash: Seq<u16>, start: int, words: Seq<u16>)
    requires
        0 <= start,
        start + words.len() <= flash.len(),
    ensures
        programmed(erased(flash, start, words.len() as int), words, start, words.len() as int)
            == stored(flash, start, words),
{
    assert forall|w: u16| ERASED & w == w by {
        assert(0xffffu16 & w == w) by (bit_vector);
    }
    assert(programmed(erased(flash, start, words.len() as int), words, start, words.len() as int)
        =~= stored(flash, start, words));
}

/// An address and the first address of its page lie in the same page,
/// whatever is latched.
pub proof fn lemma_same_page(t: Target, ramp: u8, base: u16)
    requires
        t.wf(),
    ensures
        page_start(t, effective(t, ramp, (base - base % t.spec_page_bytes()) as u16))
            == page_start(t, effective(t, ramp, base)),
        0 <= page_start(t, effective(t, ramp, base)),
        page_start(t, effective(t, ramp, base)) + t.spec_page_words() <= t.spec_flash_words(),
{
    let p = t.spec_page_bytes();
    let f = (base - base % p) as u16;
    lemma_page_bits(base, p);
    lemma_segment_offset(ramp, base, p);
    lemma_segment_offset(ramp, f, p);
    let a = effective(t, ramp, base);
    assert(effective(t, ramp, f) % (p as int) == 0);
    assert(a % (p as int) == base % p);
    lemma_page_in_flash(t, a);
}

/// The position `2 * k` bytes into a page selects word `k` of the staging
/// buffer.
pub proof fn lemma_cell_of_offset(t: Target, z: u16, k: int)
    requires
        t.wf(),
        z % t.spec_page_bytes() == 0,
        0 <= k < t.spec_page_words(),
    ensures
        z + 2 * k < 0x1_0000,
        cell_index(t, (z + 2 * k) as u16) == k,
{
    let p = t.spec_page_bytes();
    let j = k as u16;
    assert(z + 2 * j < 0x1_0000 && ((z + 2 * j) as u16 % p) / 2 == j) by (bit_vector)
        requires
            p == 2 || p == 4 || p == 8 || p == 16 || p == 32 || p == 64 || p == 128 || p == 256,
            z % p == 0,
            j < p / 2,
    ;
}

/// The address `j` bytes into the page of `address` lies in that page, at
/// word `j / 2` of it.
pub proof fn lemma_word_of_page(t: Target, address: Address, j: int)
    requires
        t.wf(),
        0 <= j < t.spec_page_bytes(),
    ensures
        ({
            let start = address.page_aligned(t.spec_page_bytes());
            let within = Address::spec_new((start@ + j) as u32);
            &&& 0 <= start@ + j < 0x100_0000
            &&& within@ == start@ + j
            &&& effective(t, within.spec_ramp(), within.spec_base()) / 2 == page_of(t, address) + j
                / 2
            &&& page_of(t, within) == page_of(t, address)
            &&& 0 <= page_of(t, address)
            &&& page_of(t, address) + t.spec_page_words() <= t.spec_flash_words()
        }),
{
    let p = t.spec_page_bytes();
    let ramp = address.spec_ramp();
    let base = address.spec_base();
    let start = address.page_aligned(p);
    let f = start.spec_base();
    lemma_page_aligned(address, p);
    lemma_page_bits(base, p);
    lemma_new_parts((start@ + j) as u32);
    let within = Address::spec_new((start@ + j) as u32);
    assert(within.spec_ramp() == ramp);
    lemma_same_page(t, ramp, within.spec_base());
    lemma_page_bits(within.spec_base(), p);
    let e = effective(t, ramp, f);
    lemma_even_page(e as u32, p as u32);
}

/// A multiple of the page size is even.
proof fn lemma_even_page(a: u32, p: u32)
    requires
        p == 2 || p == 4 || p == 8 || p == 16 || p == 32 || p == 64 || p == 128 || p == 256,
        a % p == 0,
    ensures
        a % 2 == 0,
{
    assert(a % 2 == 0) by (bit_vector)
        requires
            p == 2 || p == 4 || p == 8 || p == 16 || p == 32 || p == 64 || p == 128 || p == 256,
            a % p == 0,
    ;
}

/// A page that was stored reads back word for word: once the flash can be
/// read, the word at `2 * k` bytes from the start of the page of `address` is
/// word `k` of what was stored there.
pub proof fn lemma_stored_reads_back(
    t: Target,
    s: DeviceState,
    address: Address,
    words: Seq<u16>,
    k: int,
)
    requires
        state_wf(t, s),
        s.readable,
        !s.busy,
        words.len() == t.spec_page_words(),
        0 <= k < words.len(),
    ensures
        ({
            let start = address.page_aligned(t.spec_page_bytes());
            let after = DeviceState { flash: stored(s.flash, page_of(t, address), words), ..s };
            &&& 0 <= start@ + 2 * k < 0x100_0000
            &&& read(t, after, Address::spec_new((start@ + 2 * k) as u32)) == Some(words[k])
        }),
{
    lemma_word_of_page(t, address, 2 * k);
}

/// Storing a page leaves the words of every other page as they were.
pub proof fn lemma_stored_elsewhere(
    t: Target,
    s: DeviceState,
    address: Address,
    words: Seq<u16>,
    other: Address,
)
    requires
        state_wf(t, s),
        words.len() == t.spec_page_words(),
        page_of(t, other) != page_of(t, address),
    ensures
        read(
            t,
            DeviceState { flash: stored(s.flash, page_of(t, address), words), ..s },
            other,
        ) == read(t, s, other),
{
    let o = effective(t, other.spec_ramp(), other.spec_base());
    let a = effective(t, address.spec_ramp(), address.spec_base());
    lemma_page_in_flash(t, o);
    lemma_page_in_flash(t, a);
    lemma_apart(o as u32, a as u32, t.spec_page_bytes() as u32);
}

/// Rounding down to a multiple of the page size clears the low bits.
proof fn lemma_floor_bits(x: u32, p: u32)
    requires
        p == 2 || p == 4 || p == 8 || p == 16 || p == 32 || p == 64 || p == 128 || p == 256,
    ensures
        x - x % p == x & !((p - 1) as u32),
{
    let m = (p - 1) as u32;
    assert(x - x % p == x & !m) by (bit_vector)
        requires
            p == 2 || p == 4 || p == 8 || p == 16 || p == 32 || p == 64 || p == 128 || p == 256,
            m == (p - 1) as u32,
    ;
}

/// The word of a byte address lies outside every page but its own.
proof fn lemma_apart(o: u32, a: u32, p: u32)
    requires
        p == 2 || p == 4 || p == 8 || p == 16 || p == 32 || p == 64 || p == 128 || p == 256,
        o < 0x100_0000,
        a < 0x100_0000,
        (o - o % p) / 2 != (a - a % p) / 2,
    ensures
        o / 2 < (a - a % p) / 2 || o / 2 >= (a - a % p) / 2 + p / 2,
{
    let m = (p - 1) as u32;
    let from = o & !m;
    let start = a & !m;
    lemma_floor_bits(o, p);
    lemma_floor_bits(a, p);
    assert(from != start);
    assert(o / 2 < start / 2 || o / 2 >= start / 2 + p / 2) by (bit_vector)
        requires
            p == 2 || p == 4 || p == 8 || p == 16 || p == 32 || p == 64 || p == 128 || p == 256,
            o < 0x100_0000,
            a < 0x100_0000,
            m == (p - 1) as u32,
            from == o & !m,
            start == a & !m,
            from != start,
    ;
}

/// The self-programming hardware of one microcontroller, as plain values.
pub struct Device {
    target: Target,
    flash: Vec<u16>,
    stage: Vec<u16>,
    ramp: u8,
    busy: bool,
    readable: bool,
    lock_bits: u8,
    trace: Vec<Operation>,
}

impl View for Device {
    type V = DeviceState;

    closed spec fn view(&self) -> DeviceState {
        DeviceState {
            flash: self.flash@,
            stage: self.stage@,
            ramp: self.ramp,
            busy: self.busy,
            readable: self.readable,
            lock_bits: self.lock_bits,
            trace: self.trace@,
        }
    }
}

impl Device {
    /// The target that this device is one of.
    pub closed spec fn spec_target(&self) -> Target {
        self.target
    }

    /// The device is in a state that its target allows. A new device is, and
    /// every instruction keeps it so.
    pub open spec fn wf(&self) -> bool {
        state_wf(self.spec_target(), self@)
    }

    /// A device of the given target that was never programmed.
    pub fn new(target: Target) -> (d: Device)
        ensures
            d.spec_target() == target,
            d@ == initial(target),
            d.wf(),
    {
        proof {
            use_type_invariant(&target);
        }
        let flash = vec![ERASED; target.flash_words()];
        let stage = vec![ERASED; target.page_words()];
        assert(flash@ =~= blank(target.spec_flash_words() as int));
        assert(stage@ =~= blank(target.spec_page_words() as int));
        proof {
            reveal(run);
        }
        Device {
            target,
            flash,
            stage,
            ramp: 0,
            busy: false,
            readable: true,
            lock_bits: 0xff,
            trace: Vec::new(),
        }
    }

    /// The target that this device is one of.
    #[verifier::when_used_as_spec(spec_target)]
    pub fn target(&self) -> (t: Target)
        ensures
            t == self.spec_target(),
    {
        self.target
    }

    /// Index in the flash array of the first word of the page that an
    /// instruction with position `z` works on.
    fn page_index(&self, z: u16) -> (r: usize)
        requires
            self.wf(),
        ensures
            r == page_start(self.target, effective(self.target, self.ramp, z)),
            r + self.target.spec_page_words() <= self.flash.len(),
    {
        let p = self.target.page_bytes() as usize;
        let a: usize = if self.target.extended() {
            self.ramp as usize * 0x1_0000 + z as usize
        } else {
            z as usize
        };
        proof {
            lemma_page_in_flash(self.target, a as int);
        }
        (a - a % p) / 2
    }

    fn erase(&mut self, z: u16)
        requires
            old(self).wf(),
        ensures
            final(self).spec_target() == old(self).spec_target(),
            final(self)@ == step(old(self).spec_target(), old(self)@, Operation::Erase { z }),
    {
        let start = self.page_index(z);
        let n = self.target.page_words();
        let ghost before = self@;
        let mut i: usize = 0;
        assert(self.flash@ =~= erased(before.flash, start as int, 0));
        while i < n
            invariant
                i <= n,
                n == self.target.spec_page_words(),
                start + n <= self.flash.len(),
                self.target == old(self).target,
                self@ == (DeviceState {
                    flash: erased(before.flash, start as int, i as int),
                    ..before
                }),
                state_wf(self.target, before),
            decreases n - i,
        {
            self.flash.set(start + i, ERASED);
            i = i + 1;
            assert(self.flash@ =~= erased(before.flash, start as int, i as int));
        }
        self.busy = self.target.has_rww();
        self.readable = !self.target.has_rww();
        self.trace.push(Operation::Erase { z });
    }

    fn write(&mut self, z: u16)
        requires
            old(self).wf(),
        ensures
            final(self).spec_target() == old(self).spec_target(),
            final(self)@ == step(old(self).spec_target(), old(self)@, Operation::Write { z }),
    {
        let start = self.page_index(z);
        let n = self.target.page_words();
        let ghost before = self@;
        let mut i: usize = 0;
        assert(self.flash@ =~= programmed(before.flash, before.stage, start as int, 0));
        while i < n
            invariant
                i <= n,
                n == self.target.spec_page_words(),
                start + n <= self.flash.len(),
                self.target == old(self).target,
                self@ == (DeviceState {
                    flash: programmed(before.flash, before.stage, start as int, i as int),
                    ..before
                }),
                state_wf(self.target, before),
            decreases n - i,
        {
            let word = self.flash[start + i] & self.stage[i];
            self.flash.set(start + i, word);
            i = i + 1;
            assert(self.flash@ =~= programmed(before.flash, before.stage, start as int, i as int));
        }
        self.stage = vec![ERASED; n];
        assert(self.stage@ =~= blank(n as int));
        self.busy = self.target.has_rww();
        self.readable = !self.target.has_rww();
        self.trace.push(Operation::Write { z });
    }

    /// Carries out one instruction and adds it to the record.
    pub fn issue(&mut self, op: Operation)
        requires
            old(self).wf(),
            accepts(old(self).spec_target(), old(self)@, op),
        ensures
            final(self).spec_target() == old(self).spec_target(),
            final(self)@ == step(old(self).spec_target(), old(self)@, op),
            final(self).wf(),
    {
        proof {
            lemma_step_wf(self.target, self@, op);
        }
        match op {
            Operation::Extension { ramp } => {
                self.ramp = ramp;
                self.trace.push(op);
            },
            Operation::Erase { z } => {
                self.erase(z);
            },
            Operation::Fill { z, word } => {
                let p = self.target.page_bytes();
                let index = ((z % p) / 2) as usize;
                self.stage.set(index, word);
                self.trace.push(op);
            },
            Operation::Write { z } => {
                self.write(z);
            },
            Operation::LockBits { value } => {
                self.lock_bits = self.lock_bits & value;
                self.trace.push(op);
            },
            Operation::RwwEnable => {
                let n = self.target.page_words();
                self.stage = vec![ERASED; n];
                assert(self.stage@ =~= blank(n as int));
                self.readable = true;
                self.trace.push(op);
            },
            Operation::Wait => {
                self.busy = false;
                self.trace.push(op);
            },
        }
    }

    /// The word of the flash at `address`, or nothing while the flash cannot
    /// be read: during an erase or a write, and afterwards until the section
    /// is enabled again.
    pub fn read_word(&self, address: Address) -> (w: Option<u16>)
        requires
            self.wf(),
        ensures
            w == read(self.spec_target(), self@, address),
    {
        if self.readable && !self.busy {
            let z: u16 = address.into();
            let a: usize = if self.target.extended() {
                address.ramp() as usize * 0x1_0000 + z as usize
            } else {
                z as usize
            };
            Some(self.flash[a / 2])
        } else {
            None
        }
    }

    /// The staging buffer, which the hardware itself gives no way to read.
    pub fn stage(&self) -> (r: &Vec<u16>)
        ensures
            r@ == self@.stage,
    {
        &self.stage
    }

    /// The instructions given so far, oldest first.
    pub fn trace(&self) -> (r: &Vec<Operation>)
        ensures
            r@ == self@.trace,
    {
        &self.trace
    }

    /// The byte that is latched in the extension register.
    pub fn extension(&self) -> (r: u8)
        ensures
            r == self@.ramp,
    {
        self.ramp
    }

    /// Whether an erase or a write is still going on.
    pub fn is_busy(&self) -> (r: bool)
        ensures
            r == self@.busy,
    {
        self.busy
    }

    /// Whether the flash can be read.
    pub fn is_readable(&self) -> (r: bool)
        ensures
            r == self@.readable,
    {
        self.readable
    }

    /// The lock bits; a bit that is zero is programmed.
    pub fn lock_bits(&self) -> (r: u8)
        ensures
            r == self@.lock_bits,
    {
        self.lock_bits
    }
}

} // verus!
