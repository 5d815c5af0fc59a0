//! Addresses of program memory and their place within a page.
use vstd::prelude::*;
use crate::target::{is_page_size, Target};

verus! {

/// A 16 or 24 bit address of program memory.
///
/// `base` is the position within a 64 KiB segment and `ramp` selects the
/// segment; on targets whose flash fits into one segment `ramp` is ignored.
#[derive(Copy, Clone, PartialEq, Eq, Debug, Structural)]
pub struct Address {
    base: u16,
    ramp: u8,
}

impl View for Address {
    type V = int;

    /// The address as one number.
    open spec fn view(&self) -> int {
        self.spec_ramp() as int * 0x1_0000 + self.spec_base() as int
    }
}

/// The bits of a 16-bit position that select the byte within a page of `p` bytes.
pub open spec fn word_mask(p: u16) -> u16 {
    (p - 1) as u16
}

/// How the two masks cut a 16-bit position into the start of its page and the
/// offset within the page.
pub proof fn lemma_page_bits(base: u16, p: u16)
    requires
        is_page_size(p),
    ensures
        base & word_mask(p) == base % p,
        base & !word_mask(p) == base - base % p,
        (base & !word_mask(p)) % p == 0,
        (base & !word_mask(p)) + p <= 0x1_0000,
        (base & !word_mask(p)) & !word_mask(p) == base & !word_mask(p),
        (base & !word_mask(p)) & word_mask(p) == 0,
        (base & !word_mask(p)) | (base & word_mask(p)) == base,
        base % 2 == 0 ==> (base & word_mask(p)) % 2 == 0,
{
    let m = word_mask(p);
    assert(base & m == base % p && base & !m == base - base % p && (base & !m) % p == 0 && (base
        & !m) + p <= 0x1_0000 && (base & !m) & !m == base & !m && (base & !m) & m == 0 && (base
        & !m) | (base & m) == base && (base % 2 == 0 ==> (base & m) % 2 == 0)) by (bit_vector)
        requires
            p == 2 || p == 4 || p == 8 || p == 16 || p == 32 || p == 64 || p == 128 || p == 256,
            m == (p - 1) as u16,
    ;
}

/// Within a page, or-ing an offset onto the page's start is adding it.
pub proof fn lemma_offset_bits(base: u16, p: u16, offset: u16)
    requires
        is_page_size(p),
        offset < p,
    ensures
        (base & !word_mask(p)) | offset == (base & !word_mask(p)) + offset,
        ((base & !word_mask(p)) | offset) & !word_mask(p) == base & !word_mask(p),
        ((base & !word_mask(p)) | offset) & word_mask(p) == offset,
{
    let m = word_mask(p);
    assert((base & !m) | offset == (base & !m) + offset && ((base & !m) | offset) & !m == base & !m
        && ((base & !m) | offset) & m == offset) by (bit_vector)
        requires
            p == 2 || p == 4 || p == 8 || p == 16 || p == 32 || p == 64 || p == 128 || p == 256,
            m == (p - 1) as u16,
            offset < p,
    ;
}

/// A segment is a whole number of pages, so the segment does not change the
/// offset within a page.
pub proof fn lemma_segment_offset(ramp: u8, base: u16, p: u16)
    requires
        is_page_size(p),
    ensures
        (ramp as int * 0x1_0000 + base as int) % (p as int) == base % p,
{
    let r = ramp as u32;
    let b = base as u32;
    let q = p as u32;
    let a = (r * 0x1_0000 + b) as u32;
    assert(a % q == b % q) by (bit_vector)
        requires
            q == 2 || q == 4 || q == 8 || q == 16 || q == 32 || q == 64 || q == 128 || q == 256,
            r < 0x100,
            b < 0x1_0000,
            a == (r * 0x1_0000 + b) as u32,
    ;
}

impl Address {
    /// The extension byte: the segment of 64 KiB that the address lies in.
    pub closed spec fn spec_ramp(&self) -> u8 {
        self.ramp
    }

    /// The position within the segment.
    pub closed spec fn spec_base(&self) -> u16 {
        self.base
    }

    /// The address made of the low 16 bits of `raw` as the position and the
    /// next 8 bits as the extension.
    pub closed spec fn spec_new(raw: u32) -> Address {
        Address { base: (raw % 0x1_0000) as u16, ramp: ((raw / 0x1_0000) % 0x100) as u8 }
    }

    /// The first address of the page of `p` bytes that holds this address.
    pub closed spec fn page_aligned(self, p: u16) -> Address {
        Address { base: self.base & !word_mask(p), ramp: self.ramp }
    }

    /// The offset in bytes of this address within its page of `p` bytes.
    pub closed spec fn page_offset(self, p: u16) -> u16 {
        self.base & word_mask(p)
    }

    /// The start of this address's page with the bits of `offset` set.
    pub closed spec fn offset_by(self, p: u16, offset: u8) -> Address {
        Address { base: (self.base & !word_mask(p)) | (offset as u16), ramp: self.ramp }
    }

    /// The address that `raw` names: its low 16 bits are the position and the
    /// next 8 bits the extension. Bits above these name nothing and are dropped.
    pub fn new(raw: u32) -> (r: Address)
        ensures
            r == Address::spec_new(raw),
            r.spec_base() == raw % 0x1_0000,
            r.spec_ramp() == (raw / 0x1_0000) % 0x100,
            r@ == raw % 0x100_0000,
    {
        assert(raw & 0xffff == raw % 0x1_0000) by (bit_vector);
        assert((raw >> 16) & 0xff == (raw / 0x1_0000) % 0x100) by (bit_vector);
        Address { base: (raw & 0xffff) as u16, ramp: ((raw >> 16) & 0xff) as u8 }
    }

    /// Mask off the offset within the page, leaving the address of the page's
    /// first byte.
    pub fn into_page_aligned(self, target: &Target) -> (r: Address)
        ensures
            r == self.page_aligned(target.page_bytes()),
            r.spec_ramp() == self.spec_ramp(),
            r.spec_base() == self.spec_base() - self.spec_base() % target.page_bytes(),
            r@ == self@ - self@ % (target.page_bytes() as int),
            r@ % (target.page_bytes() as int) == 0,
    {
        let p = target.page_bytes();
        proof {
            lemma_page_bits(self.base, p);
            lemma_segment_offset(self.ramp, self.base, p);
            lemma_segment_offset(self.ramp, (self.base & !word_mask(p)), p);
        }
        Address { base: self.base & !(p - 1), ramp: self.ramp }
    }

    /// The offset in bytes of the address within its page.
    pub fn word(&self, target: &Target) -> (r: u16)
        ensures
            r == self.page_offset(target.page_bytes()),
            r == self@ % (target.page_bytes() as int),
            r < target.page_bytes(),
    {
        let p = target.page_bytes();
        proof {
            lemma_page_bits(self.base, p);
            lemma_segment_offset(self.ramp, self.base, p);
        }
        self.base & (p - 1)
    }

    /// The address at `offset` bytes from the start of this address's page.
    ///
    /// An offset that does not lie within the page is not rejected: its bits
    /// are set in the position all the same.
    pub fn with_offset(&self, target: &Target, offset: u8) -> (r: Address)
        ensures
            r == self.offset_by(target.page_bytes(), offset),
            r.spec_ramp() == self.spec_ramp(),
            r.spec_base() == self.page_aligned(target.page_bytes()).spec_base() | (offset as u16),
            offset < target.page_bytes() ==> r@ == self@ - self@ % (target.page_bytes() as int)
                + offset,
    {
        let p = target.page_bytes();
        let aligned = self.into_page_aligned(target);
        proof {
            if offset < p {
                lemma_offset_bits(self.base, p, offset as u16);
            }
        }
        Address { base: aligned.base | (offset as u16), ramp: self.ramp }
    }

    /// The extension byte of the address, which targets with more than 64 KiB
    /// of flash latch before an instruction uses the address.
    #[verifier::when_used_as_spec(spec_ramp)]
    pub fn ramp(&self) -> (r: u8)
        ensures
            r == self.spec_ramp(),
            r == self@ / 0x1_0000,
    {
        self.ramp
    }
}

impl From<u32> for Address {
    fn from(raw: u32) -> (r: Address) {
        Address::new(raw)
    }
}

impl vstd::std_specs::convert::FromSpecImpl<u32> for Address {
    open spec fn obeys_from_spec() -> bool {
        true
    }

    open spec fn from_spec(raw: u32) -> Address {
        Address::spec_new(raw)
    }
}

impl From<u16> for Address {
    fn from(raw: u16) -> (r: Address) {
        Address::new(raw as u32)
    }
}

impl vstd::std_specs::convert::FromSpecImpl<u16> for Address {
    open spec fn obeys_from_spec() -> bool {
        true
    }

    open spec fn from_spec(raw: u16) -> Address {
        Address::spec_new(raw as u32)
    }
}

impl From<u8> for Address {
    fn from(raw: u8) -> (r: Address) {
        Address::new(raw as u32)
    }
}

impl vstd::std_specs::convert::FromSpecImpl<u8> for Address {
    open spec fn obeys_from_spec() -> bool {
        true
    }

    open spec fn from_spec(raw: u8) -> Address {
        Address::spec_new(raw as u32)
    }
}

impl From<Address> for u32 {
    fn from(address: Address) -> (r: u32) {
        let ramp = address.ramp as u32;
        assert(ramp << 16 == ramp * 0x1_0000) by (bit_vector)
            requires
                ramp < 0x100,
        ;
        address.base as u32 + (ramp << 16)
    }
}

impl vstd::std_specs::convert::FromSpecImpl<Address> for u32 {
    open spec fn obeys_from_spec() -> bool {
        true
    }

    open spec fn from_spec(address: Address) -> u32 {
        address@ as u32
    }
}

impl From<Address> for u16 {
    fn from(address: Address) -> (r: u16) {
        address.base
    }
}

impl vstd::std_specs::convert::FromSpecImpl<Address> for u16 {
    open spec fn obeys_from_spec() -> bool {
        true
    }

    open spec fn from_spec(address: Address) -> u16 {
        address.spec_base()
    }
}

/// A number that fits into 24 bits names the address whose position is its
/// low 16 bits and whose extension is the 8 bits above.
pub proof fn lemma_new_parts(raw: u32)
    requires
        raw < 0x100_0000,
    ensures
        Address::spec_new(raw).spec_base() == raw % 0x1_0000,
        Address::spec_new(raw).spec_ramp() == raw / 0x1_0000,
        Address::spec_new(raw)@ == raw,
{
}

/// Splitting a number that an address of the target can hold into position
/// and extension, and putting the two together again, gives the number back.
/// On a target whose flash fits into one segment the extension is zero.
pub proof fn lemma_round_trip(target: Target, raw: u32)
    requires
        raw < target.spec_flash_bytes(),
    ensures
        Address::spec_new(raw).spec_base() == raw % 0x1_0000,
        Address::spec_new(raw).spec_ramp() == raw / 0x1_0000,
        Address::spec_new(raw)@ == raw,
        <u32 as vstd::std_specs::convert::FromSpec<Address>>::from_spec(
            <Address as vstd::std_specs::convert::FromSpec<u32>>::from_spec(raw),
        ) == raw,
        !target.spec_extended() ==> Address::spec_new(raw).spec_ramp() == 0,
{
}

/// The first address of a page is the address less its offset within the
/// page, in the same segment.
pub proof fn lemma_page_aligned(a: Address, p: u16)
    requires
        is_page_size(p),
    ensures
        a.page_aligned(p).spec_ramp() == a.spec_ramp(),
        a.page_aligned(p).spec_base() == a.spec_base() - a.spec_base() % p,
        a.page_aligned(p)@ == a@ - a@ % (p as int),
        a.page_aligned(p)@ % (p as int) == 0,
        a.page_aligned(p).page_offset(p) == 0,
{
    lemma_page_bits(a.base, p);
    lemma_segment_offset(a.ramp, a.base, p);
    lemma_segment_offset(a.ramp, (a.base & !word_mask(p)), p);
}

/// An offset within the page is added to the start of the page; any offset
/// has its bits set in the position.
pub proof fn lemma_offset_by(a: Address, p: u16, offset: u8)
    requires
        is_page_size(p),
    ensures
        a.offset_by(p, offset).spec_ramp() == a.spec_ramp(),
        a.offset_by(p, offset).spec_base() == a.page_aligned(p).spec_base() | (offset as u16),
        offset < p ==> a.offset_by(p, offset)@ == a@ - a@ % (p as int) + offset,
        offset < p ==> a.offset_by(p, offset).page_aligned(p) == a.page_aligned(p),
        offset < p ==> a.offset_by(p, offset).page_offset(p) == offset,
{
    lemma_page_bits(a.base, p);
    lemma_segment_offset(a.ramp, a.base, p);
    if offset < p {
        lemma_offset_bits(a.base, p, offset as u16);
    }
}

/// Aligning an address that is aligned already changes nothing.
pub proof fn lemma_align_idempotent(a: Address, p: u16)
    requires
        is_page_size(p),
    ensures
        a.page_aligned(p).page_aligned(p) == a.page_aligned(p),
{
    lemma_page_bits(a.base, p);
}

/// The offset within the page is the address modulo the page size. An even
/// address has an even offset.
pub proof fn lemma_page_offset(a: Address, p: u16)
    requires
        is_page_size(p),
    ensures
        a.page_offset(p) == a@ % (p as int),
        a.page_offset(p) < p,
        a@ % 2 == 0 ==> a.page_offset(p) % 2 == 0,
{
    lemma_page_bits(a.base, p);
    lemma_segment_offset(a.ramp, a.base, p);
}

/// The start of a page and the offset of an address within it give the
/// address back: setting the offset's bits in the start is the bitwise or of the
/// two, and that is the address.
pub proof fn lemma_offset_rebuilds(a: Address, p: u16)
    requires
        is_page_size(p),
    ensures
        a.page_aligned(p).offset_by(p, a.page_offset(p) as u8).spec_base() == a.page_aligned(
            p,
        ).spec_base() | a.page_offset(p),
        a.page_aligned(p).offset_by(p, a.page_offset(p) as u8).spec_ramp() == a.page_aligned(
            p,
        ).spec_ramp(),
        a.page_aligned(p).offset_by(p, a.page_offset(p) as u8) == a,
{
    lemma_page_bits(a.base, p);
    let w = a.base & word_mask(p);
    assert(w as u8 as u16 == w);
}

} // verus!
