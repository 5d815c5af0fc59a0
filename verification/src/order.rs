//! The order in which the instructions of a page's programming have to come.
//!
//! A page is erased once and written once, the erase has completed before the
//! write is given, words are staged before the write and not while the erase
//! is going on, and the flash is made readable again only when the write has
//! completed, as the last thing. `commits_in_order` says this of a sequence of
//! instructions, and the lemmas say that every way in which this crate
//! programs a page gives its instructions so.
use vstd::prelude::*;
use crate::address::Address;
use crate::buffer;
use crate::device::{fills, latch, reenable, Operation};
use crate::spm;
use crate::spm_extended;
use crate::spm_normal;
use crate::target::Target;

verus! {

/// How far the programming of a page has come.
#[derive(Clone, Copy, PartialEq, Eq, Debug, Structural)]
pub enum Phase {
    /// Nothing but staging has happened.
    Staging,
    /// The erase was given and has not been waited for.
    Erasing,
    /// The page is erased.
    Erased,
    /// The write was given and has not been waited for.
    Writing,
    /// The page is written.
    Written,
    /// The flash was made readable again.
    Readable,
    /// An instruction came out of order.
    Broken,
}

/// Where one instruction takes the programming of a page. A target without a
/// section that stays readable halts while it erases or writes, so there the
/// work has completed when the next instruction comes.
pub open spec fn advance(t: Target, phase: Phase, op: Operation) -> Phase {
    match (phase, op) {
        (Phase::Staging, Operation::Fill { .. }) => Phase::Staging,
        (Phase::Staging, Operation::Wait) => Phase::Staging,
        (Phase::Staging, Operation::Extension { .. }) => Phase::Staging,
        (Phase::Staging, Operation::Erase { .. }) => if t.spec_has_rww() {
            Phase::Erasing
        } else {
            Phase::Erased
        },
        (Phase::Erasing, Operation::Wait) => Phase::Erased,
        (Phase::Erasing, Operation::Extension { .. }) => Phase::Erasing,
        (Phase::Erased, Operation::Fill { .. }) => Phase::Erased,
        (Phase::Erased, Operation::Wait) => Phase::Erased,
        (Phase::Erased, Operation::Extension { .. }) => Phase::Erased,
        (Phase::Erased, Operation::Write { .. }) => if t.spec_has_rww() {
            Phase::Writing
        } else {
            Phase::Written
        },
        (Phase::Writing, Operation::Wait) => Phase::Written,
        (Phase::Writing, Operation::Extension { .. }) => Phase::Writing,
        (Phase::Written, Operation::Wait) => Phase::Written,
        (Phase::Written, Operation::Extension { .. }) => Phase::Written,
        (Phase::Written, Operation::RwwEnable) => if t.spec_has_rww() {
            Phase::Readable
        } else {
            Phase::Broken
        },
        _ => Phase::Broken,
    }
}

/// Where the instructions `ops`, given in order, take a programming that
/// stands at `start`.
pub open spec fn phase_from(t: Target, start: Phase, ops: Seq<Operation>) -> Phase
    decreases ops.len(),
{
    if ops.len() == 0 {
        start
    } else {
        advance(t, phase_from(t, start, ops.drop_last()), ops.last())
    }
}

/// `ops` programs one page in order: it takes the programming from its
/// beginning to its end, which on a target with a section to re-enable is the
/// re-enabling, and on any other target the write.
pub open spec fn commits_in_order(t: Target, ops: Seq<Operation>) -> bool {
    phase_from(t, Phase::Staging, ops) == if t.spec_has_rww() {
        Phase::Readable
    } else {
        Phase::Written
    }
}

/// Where one instruction takes the programming of a page.
pub fn next_phase(target: &Target, phase: Phase, op: Operation) -> (r: Phase)
    ensures
        r == advance(*target, phase, op),
{
    let rww = target.has_rww();
    match phase {
        Phase::Staging => match op {
            Operation::Fill { .. } => Phase::Staging,
            Operation::Wait => Phase::Staging,
            Operation::Extension { .. } => Phase::Staging,
            Operation::Erase { .. } => if rww {
                Phase::Erasing
            } else {
                Phase::Erased
            },
            _ => Phase::Broken,
        },
        Phase::Erasing => match op {
            Operation::Wait => Phase::Erased,
            Operation::Extension { .. } => Phase::Erasing,
            _ => Phase::Broken,
        },
        Phase::Erased => match op {
            Operation::Fill { .. } => Phase::Erased,
            Operation::Wait => Phase::Erased,
            Operation::Extension { .. } => Phase::Erased,
            Operation::Write { .. } => if rww {
                Phase::Writing
            } else {
                Phase::Written
            },
            _ => Phase::Broken,
        },
        Phase::Writing => match op {
            Operation::Wait => Phase::Written,
            Operation::Extension { .. } => Phase::Writing,
            _ => Phase::Broken,
        },
        Phase::Written => match op {
            Operation::Wait => Phase::Written,
            Operation::Extension { .. } => Phase::Written,
            Operation::RwwEnable => if rww {
                Phase::Readable
            } else {
                Phase::Broken
            },
            _ => Phase::Broken,
        },
        Phase::Readable => Phase::Broken,
        Phase::Broken => Phase::Broken,
    }
}

/// Whether the instructions `ops` program one page in order, from the first
/// staging to the end.
pub fn in_order(target: &Target, ops: &[Operation]) -> (r: bool)
    ensures
        r == commits_in_order(*target, ops@),
{
    let mut phase = Phase::Staging;
    let mut i: usize = 0;
    assert(ops@.take(0) =~= Seq::<Operation>::empty());
    while i < ops.len()
        invariant
            i <= ops.len(),
            phase == phase_from(*target, Phase::Staging, ops@.take(i as int)),
        decreases ops.len() - i,
    {
        assert(ops@.take(i + 1).drop_last() =~= ops@.take(i as int));
        phase = next_phase(target, phase, ops[i]);
        i = i + 1;
    }
    assert(ops@.take(i as int) =~= ops@);
    if target.has_rww() {
        phase == Phase::Readable
    } else {
        phase == Phase::Written
    }
}

/// `ops` holds nothing but what stages words: fills, waits, and latches of the
/// extension register.
pub open spec fn stages_only(ops: Seq<Operation>) -> bool {
    forall|i: int|
        0 <= i < ops.len() ==> (#[trigger] ops[i] is Fill || ops[i] is Wait || ops[i] is Extension)
}

/// One instruction alone takes the programming one step.
pub proof fn lemma_phase_one(t: Target, start: Phase, op: Operation)
    ensures
        phase_from(t, start, seq![op]) == advance(t, start, op),
{
    reveal_with_fuel(phase_from, 2);
    assert(seq![op].drop_last() =~= Seq::<Operation>::empty());
}

/// Instructions given one run after the other take the programming where
/// the second run takes it from where the first run left it.
pub proof fn lemma_phase_concat(t: Target, start: Phase, a: Seq<Operation>, b: Seq<Operation>)
    ensures
        phase_from(t, start, a + b) == phase_from(t, phase_from(t, start, a), b),
    decreases b.len(),
{
    if b.len() == 0 {
        assert(a + b =~= a);
    } else {
        assert((a + b).drop_last() =~= a + b.drop_last());
        lemma_phase_concat(t, start, a, b.drop_last());
    }
}

/// Staging does not move a programming that has not begun, nor one whose page
/// is erased.
pub proof fn lemma_phase_stages(t: Target, start: Phase, ops: Seq<Operation>)
    requires
        start == Phase::Staging || start == Phase::Erased,
        stages_only(ops),
    ensures
        phase_from(t, start, ops) == start,
    decreases ops.len(),
{
    if ops.len() > 0 {
        assert(stages_only(ops.drop_last())) by {
            assert forall|i: int| 0 <= i < ops.drop_last().len() implies (
            #[trigger] ops.drop_last()[i] is Fill || ops.drop_last()[i] is Wait
                || ops.drop_last()[i] is Extension) by {
                assert(ops.drop_last()[i] == ops[i]);
            }
        }
        lemma_phase_stages(t, start, ops.drop_last());
        assert(ops[ops.len() - 1] is Fill || ops[ops.len() - 1] is Wait || ops[ops.len() - 1]
            is Extension);
    }
}

/// A latch of the extension register moves nothing.
pub proof fn lemma_phase_latch(t: Target, start: Phase, ramp: u8)
    requires
        start != Phase::Readable,
    ensures
        phase_from(t, start, latch(t, ramp)) == start,
{
    if t.spec_extended() {
        lemma_phase_one(t, start, Operation::Extension { ramp });
    }
}

/// Where the programming stands once the erase is given.
pub open spec fn after_erase(t: Target) -> Phase {
    if t.spec_has_rww() {
        Phase::Erasing
    } else {
        Phase::Erased
    }
}

/// Where the programming stands once the write is given.
pub open spec fn after_write(t: Target) -> Phase {
    if t.spec_has_rww() {
        Phase::Writing
    } else {
        Phase::Written
    }
}

/// Where the programming of a page ends.
pub open spec fn at_end(t: Target) -> Phase {
    if t.spec_has_rww() {
        Phase::Readable
    } else {
        Phase::Written
    }
}

proof fn lemma_wait_latch_then(t: Target, start: Phase, ramp: u8, op: Operation)
    requires
        start != Phase::Readable,
        start != Phase::Broken,
    ensures
        phase_from(t, start, seq![Operation::Wait] + latch(t, ramp) + seq![op]) == advance(
            t,
            advance(t, start, Operation::Wait),
            op,
        ),
{
    let waited = advance(t, start, Operation::Wait);
    lemma_phase_concat(t, start, seq![Operation::Wait] + latch(t, ramp), seq![op]);
    lemma_phase_concat(t, start, seq![Operation::Wait], latch(t, ramp));
    lemma_phase_one(t, start, Operation::Wait);
    lemma_phase_latch(t, waited, ramp);
    lemma_phase_one(t, waited, op);
}

proof fn lemma_erase_page_ops(t: Target, address: Address)
    ensures
        phase_from(t, Phase::Staging, spm::erase_page_ops(t, address)) == after_erase(t),
{
    lemma_wait_latch_then(
        t,
        Phase::Staging,
        address.spec_ramp(),
        Operation::Erase { z: address.page_aligned(t.spec_page_bytes()).spec_base() },
    );
}

proof fn lemma_write_page_ops(t: Target, start: Phase, address: Address)
    requires
        start == Phase::Erasing || start == Phase::Erased,
    ensures
        phase_from(t, start, spm::write_page_ops(t, address)) == after_write(t),
{
    lemma_wait_latch_then(
        t,
        start,
        address.spec_ramp(),
        Operation::Write { z: address.page_aligned(t.spec_page_bytes()).spec_base() },
    );
}

proof fn lemma_fills_stage(z: u16, words: Seq<u16>)
    ensures
        stages_only(fills(z, words)),
{
}

proof fn lemma_copy_to_buffer_ops(t: Target, start: Phase, words: Seq<u16>)
    requires
        start == Phase::Erasing || start == Phase::Erased,
    ensures
        phase_from(t, start, spm::copy_to_buffer_ops(t, words)) == Phase::Erased,
{
    lemma_phase_concat(t, start, seq![Operation::Wait] + latch(t, 0), fills(0, words));
    lemma_phase_concat(t, start, seq![Operation::Wait], latch(t, 0));
    lemma_phase_one(t, start, Operation::Wait);
    lemma_phase_latch(t, Phase::Erased, 0);
    lemma_fills_stage(0, words);
    lemma_phase_stages(t, Phase::Erased, fills(0, words));
}

proof fn lemma_rww_enable_ops(t: Target, start: Phase)
    requires
        start == after_write(t) || start == Phase::Written,
    ensures
        phase_from(t, start, spm::rww_enable_ops(t)) == at_end(t),
{
    if t.spec_has_rww() {
        let ops = seq![Operation::Wait, Operation::RwwEnable];
        assert(ops =~= seq![Operation::Wait] + seq![Operation::RwwEnable]);
        lemma_phase_concat(t, start, seq![Operation::Wait], seq![Operation::RwwEnable]);
        lemma_phase_one(t, start, Operation::Wait);
        lemma_phase_one(t, Phase::Written, Operation::RwwEnable);
    }
}

proof fn lemma_reenable(t: Target)
    ensures
        phase_from(t, Phase::Written, reenable(t)) == at_end(t),
{
    if t.spec_has_rww() {
        lemma_phase_one(t, Phase::Written, Operation::RwwEnable);
    }
}

proof fn lemma_release_ops(t: Target, start: Phase)
    requires
        start == after_write(t) || start == Phase::Written,
    ensures
        phase_from(t, start, buffer::release_ops(t)) == at_end(t),
{
    lemma_phase_concat(t, start, seq![Operation::Wait], spm::rww_enable_ops(t));
    lemma_phase_one(t, start, Operation::Wait);
    lemma_rww_enable_ops(t, Phase::Written);
}

/// Whatever was staged before, by whatever means, `PageBuffer::store` then
/// commits in order: the erase comes before the write and has completed when
/// the write is given, and the re-enabling comes last, after the write has
/// completed.
pub proof fn lemma_store_in_order(t: Target, address: Address, staged: Seq<Operation>)
    requires
        stages_only(staged),
    ensures
        commits_in_order(t, staged + buffer::store_ops(t, address)),
{
    let erase = spm::erase_page_ops(t, address);
    let wait = seq![Operation::Wait];
    let write = spm::write_page_ops(t, address);
    let release = buffer::release_ops(t);
    lemma_phase_stages(t, Phase::Staging, staged);
    lemma_phase_concat(t, Phase::Staging, staged, buffer::store_ops(t, address));
    lemma_phase_concat(t, Phase::Staging, erase + wait + write, release);
    lemma_phase_concat(t, Phase::Staging, erase + wait, write);
    lemma_phase_concat(t, Phase::Staging, erase, wait);
    lemma_erase_page_ops(t, address);
    lemma_phase_one(t, after_erase(t), Operation::Wait);
    lemma_write_page_ops(t, Phase::Erased, address);
    lemma_release_ops(t, after_write(t));
}

/// Whatever was staged before, `PageBuffer::store_from` then programs the
/// page in order.
pub proof fn lemma_store_from_in_order(
    t: Target,
    address: Address,
    words: Seq<u16>,
    staged: Seq<Operation>,
)
    requires
        stages_only(staged),
    ensures
        commits_in_order(t, staged + buffer::store_from_ops(t, address, words)),
{
    let erase = spm::erase_page_ops(t, address);
    let copy = spm::copy_to_buffer_ops(t, words);
    let wait = seq![Operation::Wait];
    let write = spm::write_page_ops(t, address);
    let release = buffer::release_ops(t);
    lemma_phase_stages(t, Phase::Staging, staged);
    lemma_phase_concat(t, Phase::Staging, staged, buffer::store_from_ops(t, address, words));
    lemma_phase_concat(t, Phase::Staging, erase + copy + wait + write, release);
    lemma_phase_concat(t, Phase::Staging, erase + copy + wait, write);
    lemma_phase_concat(t, Phase::Staging, erase + copy, wait);
    lemma_phase_concat(t, Phase::Staging, erase, copy);
    lemma_erase_page_ops(t, address);
    lemma_copy_to_buffer_ops(t, after_erase(t), words);
    lemma_phase_one(t, Phase::Erased, Operation::Wait);
    lemma_write_page_ops(t, Phase::Erased, address);
    lemma_release_ops(t, after_write(t));
}

/// `spm::store_page` programs the page in order.
pub proof fn lemma_store_page_in_order(t: Target, address: Address, words: Seq<u16>)
    ensures
        commits_in_order(t, spm::store_page_ops(t, address, words)),
{
    let erase = spm::erase_page_ops(t, address);
    let copy = spm::copy_to_buffer_ops(t, words);
    let write = spm::write_page_ops(t, address);
    let enable = spm::rww_enable_ops(t);
    lemma_phase_concat(t, Phase::Staging, erase + copy + write, enable);
    lemma_phase_concat(t, Phase::Staging, erase + copy, write);
    lemma_phase_concat(t, Phase::Staging, erase, copy);
    lemma_erase_page_ops(t, address);
    lemma_copy_to_buffer_ops(t, after_erase(t), words);
    lemma_write_page_ops(t, Phase::Erased, address);
    lemma_rww_enable_ops(t, after_write(t));
}

/// `spm_normal::store_page` programs the page in order.
pub proof fn lemma_store_page_normal_in_order(t: Target, address: Address, words: Seq<u16>)
    ensures
        commits_in_order(t, spm_normal::store_page_ops(t, address, words)),
{
    let z = address.page_aligned(t.spec_page_bytes()).spec_base();
    let erase = seq![Operation::Erase { z }, Operation::Wait];
    let write = seq![Operation::Write { z }, Operation::Wait];
    assert(erase =~= seq![Operation::Erase { z }] + seq![Operation::Wait]);
    assert(write =~= seq![Operation::Write { z }] + seq![Operation::Wait]);
    lemma_phase_concat(t, Phase::Staging, erase + fills(z, words) + write, reenable(t));
    lemma_phase_concat(t, Phase::Staging, erase + fills(z, words), write);
    lemma_phase_concat(t, Phase::Staging, erase, fills(z, words));
    lemma_phase_concat(t, Phase::Staging, seq![Operation::Erase { z }], seq![Operation::Wait]);
    lemma_phase_one(t, Phase::Staging, Operation::Erase { z });
    lemma_phase_one(t, after_erase(t), Operation::Wait);
    lemma_fills_stage(z, words);
    lemma_phase_stages(t, Phase::Erased, fills(z, words));
    lemma_phase_concat(t, Phase::Erased, seq![Operation::Write { z }], seq![Operation::Wait]);
    lemma_phase_one(t, Phase::Erased, Operation::Write { z });
    lemma_phase_one(t, after_write(t), Operation::Wait);
    lemma_reenable(t);
}

/// `spm_extended::store_page` programs the page in order.
pub proof fn lemma_store_page_extended_in_order(t: Target, address: Address, words: Seq<u16>)
    ensures
        commits_in_order(t, spm_extended::store_page_ops(t, address, words)),
{
    let z = address.page_aligned(t.spec_page_bytes()).spec_base();
    let ramp = address.spec_ramp();
    let erase = seq![Operation::Erase { z }, Operation::Wait];
    let write = seq![Operation::Write { z }, Operation::Wait];
    let begin = Phase::Staging;
    assert(erase =~= seq![Operation::Erase { z }] + seq![Operation::Wait]);
    assert(write =~= seq![Operation::Write { z }] + seq![Operation::Wait]);
    lemma_phase_concat(
        t,
        begin,
        latch(t, 0) + fills(z, words) + latch(t, ramp) + erase + latch(t, ramp) + write,
        reenable(t),
    );
    lemma_phase_concat(
        t,
        begin,
        latch(t, 0) + fills(z, words) + latch(t, ramp) + erase + latch(t, ramp),
        write,
    );
    lemma_phase_concat(
        t,
        begin,
        latch(t, 0) + fills(z, words) + latch(t, ramp) + erase,
        latch(t, ramp),
    );
    lemma_phase_concat(t, begin, latch(t, 0) + fills(z, words) + latch(t, ramp), erase);
    lemma_phase_concat(t, begin, latch(t, 0) + fills(z, words), latch(t, ramp));
    lemma_phase_concat(t, begin, latch(t, 0), fills(z, words));
    lemma_phase_latch(t, begin, 0);
    lemma_fills_stage(z, words);
    lemma_phase_stages(t, begin, fills(z, words));
    lemma_phase_latch(t, begin, ramp);
    lemma_phase_concat(t, begin, seq![Operation::Erase { z }], seq![Operation::Wait]);
    lemma_phase_one(t, begin, Operation::Erase { z });
    lemma_phase_one(t, after_erase(t), Operation::Wait);
    lemma_phase_latch(t, Phase::Erased, ramp);
    lemma_phase_concat(t, Phase::Erased, seq![Operation::Write { z }], seq![Operation::Wait]);
    lemma_phase_one(t, Phase::Erased, Operation::Write { z });
    lemma_phase_one(t, after_write(t), Operation::Wait);
    lemma_reenable(t);
}

/// What the fill strategies of a `PageBuffer` give to the hardware is staging
/// and nothing else.
pub proof fn lemma_fill_strategies_stage(t: Target, words: Seq<u16>)
    ensures
        stages_only(buffer::cell_fills(words)),
        stages_only(spm::copy_to_buffer_ops(t, words)),
{
}

/// Where the instructions of a programming stand in a sequence: the erase, a
/// wait for it, the write, and a wait for that.
pub struct Places {
    pub erase: int,
    pub erased: int,
    pub write: int,
    pub written: int,
}

/// `op` stages a word, waits, or latches the extension register.
pub open spec fn stages(op: Operation) -> bool {
    op is Fill || op is Wait || op is Extension
}

/// `op` waits or latches the extension register.
pub open spec fn idles(op: Operation) -> bool {
    op is Wait || op is Extension
}

/// Every instruction of `ops` from `from` up to, but not including, `to`
/// stages, waits or latches.
pub open spec fn stages_between(ops: Seq<Operation>, from: int, to: int) -> bool {
    forall|i: int| from <= i < to ==> stages(#[trigger] ops[i])
}

/// Every instruction of `ops` from `from` up to, but not including, `to`
/// waits or latches.
pub open spec fn idles_between(ops: Seq<Operation>, from: int, to: int) -> bool {
    forall|i: int| from <= i < to ==> idles(#[trigger] ops[i])
}

/// What a programming that has come to `phase` looks like: which
/// instructions `ops` holds, and where.
pub open spec fn laid_out(t: Target, ops: Seq<Operation>, phase: Phase, at: Places) -> bool {
    let n = ops.len() as int;
    let rww = t.spec_has_rww();
    match phase {
        Phase::Staging => stages_between(ops, 0, n),
        Phase::Erasing => {
            &&& rww
            &&& 0 <= at.erase < n
            &&& ops[at.erase] is Erase
            &&& stages_between(ops, 0, at.erase)
            &&& forall|i: int| at.erase < i < n ==> #[trigger] ops[i] is Extension
        },
        Phase::Erased => {
            &&& 0 <= at.erase < n
            &&& ops[at.erase] is Erase
            &&& stages_between(ops, 0, at.erase)
            &&& stages_between(ops, at.erase + 1, n)
            &&& rww ==> at.erase < at.erased < n && ops[at.erased] is Wait
        },
        Phase::Writing => {
            &&& rww
            &&& 0 <= at.erase < at.erased < at.write < n
            &&& ops[at.erase] is Erase
            &&& ops[at.erased] is Wait
            &&& ops[at.write] is Write
            &&& stages_between(ops, 0, at.erase)
            &&& stages_between(ops, at.erase + 1, at.write)
            &&& forall|i: int| at.write < i < n ==> #[trigger] ops[i] is Extension
        },
        Phase::Written => {
            &&& 0 <= at.erase < at.write < n
            &&& ops[at.erase] is Erase
            &&& ops[at.write] is Write
            &&& stages_between(ops, 0, at.erase)
            &&& stages_between(ops, at.erase + 1, at.write)
            &&& idles_between(ops, at.write + 1, n)
            &&& rww ==> at.erase < at.erased < at.write && ops[at.erased] is Wait
            &&& rww ==> at.write < at.written < n && ops[at.written] is Wait
        },
        Phase::Readable => {
            &&& rww
            &&& 0 <= at.erase < at.erased < at.write < at.written < n - 1
            &&& ops[at.erase] is Erase
            &&& ops[at.erased] is Wait
            &&& ops[at.write] is Write
            &&& ops[at.written] is Wait
            &&& ops[n - 1] is RwwEnable
            &&& stages_between(ops, 0, at.erase)
            &&& stages_between(ops, at.erase + 1, at.write)
            &&& idles_between(ops, at.write + 1, n - 1)
        },
        Phase::Broken => true,
    }
}

/// The instructions that take a programming to a phase are laid out as the
/// phase says. The places are those of the erase, of a wait for it, of the
/// write and of a wait for that, as far as the programming has come.
pub proof fn lemma_laid_out(t: Target, ops: Seq<Operation>) -> (at: Places)
    ensures
        laid_out(t, ops, phase_from(t, Phase::Staging, ops), at),
    decreases ops.len(),
{
    let nowhere = Places { erase: 0, erased: 0, write: 0, written: 0 };
    if ops.len() == 0 {
        nowhere
    } else {
        let before = ops.drop_last();
        let op = ops.last();
        let was = lemma_laid_out(t, before);
        let phase = phase_from(t, Phase::Staging, before);
        let last = ops.len() - 1;
        assert forall|i: int| 0 <= i < last implies #[trigger] ops[i] == before[i] by {}
        match phase {
            Phase::Staging => {
                if op is Erase {
                    Places { erase: last, ..was }
                } else {
                    was
                }
            },
            Phase::Erasing => {
                if op is Wait {
                    Places { erased: last, ..was }
                } else {
                    was
                }
            },
            Phase::Erased => {
                if op is Write {
                    Places { write: last, ..was }
                } else {
                    was
                }
            },
            Phase::Writing => {
                if op is Wait {
                    Places { written: last, ..was }
                } else {
                    was
                }
            },
            Phase::Written => was,
            Phase::Readable => was,
            Phase::Broken => was,
        }
    }
}

/// What it means that a page is programmed in order: there is one erase and
/// one write, the erase comes first, every fill comes before the write, and
/// nothing comes after the write but waits, latches and, as the very last,
/// the re-enabling. Where the target goes on while it erases and writes,
/// there is a wait between the erase and the write and another between the
/// write and the re-enabling, and the re-enabling is there.
pub proof fn lemma_in_order_means(t: Target, ops: Seq<Operation>) -> (at: Places)
    requires
        commits_in_order(t, ops),
    ensures
        0 <= at.erase < at.write < ops.len(),
        ops[at.erase] is Erase,
        ops[at.write] is Write,
        forall|i: int| 0 <= i < ops.len() && #[trigger] ops[i] is Erase ==> i == at.erase,
        forall|i: int| 0 <= i < ops.len() && #[trigger] ops[i] is Write ==> i == at.write,
        forall|i: int| 0 <= i < ops.len() && #[trigger] ops[i] is Fill ==> i < at.write,
        forall|i: int|
            0 <= i < ops.len() && #[trigger] ops[i] is RwwEnable ==> t.spec_has_rww() && i
                == ops.len() - 1,
        forall|i: int| 0 <= i < ops.len() ==> !(#[trigger] ops[i] is LockBits),
        t.spec_has_rww() ==> ({
            &&& at.erase < at.erased < at.write < at.written < ops.len() - 1
            &&& ops[at.erased] is Wait
            &&& ops[at.written] is Wait
            &&& ops[ops.len() - 1] is RwwEnable
        }),
{
    let at = lemma_laid_out(t, ops);
    at
}

} // verus!
