//! What the engine has to know about the microcontroller it runs on.
use vstd::prelude::*;

verus! {

/// The page sizes, in bytes, that a target may have: the powers of two from
/// one word up to 128 words.
pub open spec fn is_page_size(p: u16) -> bool {
    p == 2 || p == 4 || p == 8 || p == 16 || p == 32 || p == 64 || p == 128 || p == 256
}

/// The properties of a microcontroller that decide how its flash is programmed.
///
/// A value is fixed when it is made and never changes afterwards.
#[derive(Clone, Copy, PartialEq, Eq, Debug, Structural)]
pub struct Target {
    page_size: u16,
    extended: bool,
    rww: bool,
}

impl Target {
    /// Size of a flash page in bytes.
    pub closed spec fn spec_page_bytes(&self) -> u16 {
        self.page_size
    }

    /// Whether the flash is larger than 64 KiB, so that an address has an
    /// extension byte which is latched before an instruction uses it.
    pub closed spec fn spec_extended(&self) -> bool {
        self.extended
    }

    /// Whether a section of the flash has to be re-enabled for reading after
    /// it was programmed.
    pub closed spec fn spec_has_rww(&self) -> bool {
        self.rww
    }

    /// The page size is one that a target may have.
    #[verifier::type_invariant]
    pub open spec fn wf(&self) -> bool {
        is_page_size(self.spec_page_bytes())
    }

    /// Number of 16-bit words in a page.
    pub open spec fn spec_page_words(&self) -> usize {
        (self.spec_page_bytes() / 2) as usize
    }

    /// Number of bytes an address of this target can reach.
    pub open spec fn spec_flash_bytes(&self) -> nat {
        if self.spec_extended() {
            0x100_0000
        } else {
            0x1_0000
        }
    }

    /// Number of 16-bit words an address of this target can reach.
    pub open spec fn spec_flash_words(&self) -> usize {
        if self.spec_extended() {
            0x80_0000
        } else {
            0x8000
        }
    }

    /// Describes a target with pages of `page_bytes` bytes. The size has to
    /// be a power of two between 2 and 256.
    pub fn new(page_bytes: usize, extended: bool, rww: bool) -> (r: Option<Target>)
        ensures
            r is Some <==> page_bytes <= 256 && is_page_size(page_bytes as u16),
            r matches Some(t) ==> t.spec_page_bytes() == page_bytes && t.spec_extended() == extended
                && t.spec_has_rww() == rww,
    {
        if page_bytes == 2 || page_bytes == 4 || page_bytes == 8 || page_bytes == 16 || page_bytes
            == 32 || page_bytes == 64 || page_bytes == 128 || page_bytes == 256 {
            Some(Target { page_size: page_bytes as u16, extended, rww })
        } else {
            None
        }
    }

    /// The ATmega1280: pages of 128 words, 128 KiB of flash behind an extension
    /// register, and a section that has to be re-enabled.
    pub fn atmega1280() -> (t: Target)
        ensures
            t.spec_page_bytes() == 256,
            t.spec_extended(),
            t.spec_has_rww(),
    {
        Target { page_size: 256, extended: true, rww: true }
    }

    /// The ATmega328P: pages of 64 words, 32 KiB of flash, and a section that
    /// has to be re-enabled.
    pub fn atmega328p() -> (t: Target)
        ensures
            t.spec_page_bytes() == 128,
            !t.spec_extended(),
            t.spec_has_rww(),
    {
        Target { page_size: 128, extended: false, rww: true }
    }

    /// The ATtiny85: pages of 32 words, 8 KiB of flash, and nothing to
    /// re-enable.
    pub fn attiny85() -> (t: Target)
        ensures
            t.spec_page_bytes() == 64,
            !t.spec_extended(),
            !t.spec_has_rww(),
    {
        Target { page_size: 64, extended: false, rww: false }
    }

    /// Size of a flash page in bytes.
    #[verifier::when_used_as_spec(spec_page_bytes)]
    pub fn page_bytes(&self) -> (r: u16)
        ensures
            r == self.spec_page_bytes(),
            is_page_size(r),
    {
        proof {
            use_type_invariant(self);
        }
        self.page_size
    }

    /// Number of 16-bit words in a page.
    #[verifier::when_used_as_spec(spec_page_words)]
    pub fn page_words(&self) -> (r: usize)
        ensures
            r == self.spec_page_words(),
            1 <= r <= 128,
    {
        proof {
            use_type_invariant(self);
        }
        (self.page_size / 2) as usize
    }

    /// Number of 16-bit words an address of this target can reach.
    #[verifier::when_used_as_spec(spec_flash_words)]
    pub fn flash_words(&self) -> (r: usize)
        ensures
            r == self.spec_flash_words(),
    {
        if self.extended {
            0x80_0000
        } else {
            0x8000
        }
    }

    /// Whether the flash is larger than 64 KiB, so that an address has an
    /// extension byte which is latched before an instruction uses it.
    #[verifier::when_used_as_spec(spec_extended)]
    pub fn extended(&self) -> (r: bool)
        ensures
            r == self.spec_extended(),
    {
        self.extended
    }

    /// Whether a section of the flash has to be re-enabled for reading after
    /// it was programmed.
    #[verifier::when_used_as_spec(spec_has_rww)]
    pub fn has_rww(&self) -> (r: bool)
        ensures
            r == self.spec_has_rww(),
    {
        self.rww
    }
}

} // verus!
