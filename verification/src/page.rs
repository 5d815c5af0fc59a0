//! A page's worth of data, held in memory before it is staged.
use vstd::prelude::*;

verus! {

/// The words of one page, in the order in which they go into the flash.
#[derive(Debug, PartialEq, Eq)]
pub struct DataPage(pub Vec<u16>);

impl View for DataPage {
    type V = Seq<u16>;

    open spec fn view(&self) -> Seq<u16> {
        self.0@
    }
}

/// The word that two bytes make, the first byte being the low one.
pub open spec fn word_of(low: u8, high: u8) -> u16 {
    (low as int + 0x100 * high as int) as u16
}

/// The words that a run of bytes makes, two bytes to a word and the low byte
/// first. A last byte without a partner makes no word.
pub open spec fn words_of(bytes: Seq<u8>) -> Seq<u16> {
    Seq::new(bytes.len() / 2, |k: int| word_of(bytes[2 * k], bytes[2 * k + 1]))
}

impl DataPage {
    /// Reads a page that is laid out byte by byte as words, as a target that
    /// stores the low byte of a word first has it in memory.
    pub fn from_bytes(bytes: &[u8]) -> (r: DataPage)
        ensures
            r@ == words_of(bytes@),
    {
        let n = bytes.len() / 2;
        let mut words: Vec<u16> = Vec::new();
        let mut k: usize = 0;
        while k < n
            invariant
                k <= n,
                n == bytes@.len() / 2,
                bytes@.len() <= usize::MAX,
                words@ == words_of(bytes@).take(k as int),
            decreases n - k,
        {
            let low = bytes[2 * k];
            let high = bytes[2 * k + 1];
            assert((low as u16) | ((high as u16) << 8) == (low as int + 0x100 * high as int) as u16)
                by (bit_vector);
            words.push((low as u16) | ((high as u16) << 8));
            k = k + 1;
            assert(words@ =~= words_of(bytes@).take(k as int));
        }
        assert(words@ =~= words_of(bytes@));
        DataPage(words)
    }

    /// Number of words.
    pub fn len(&self) -> (n: usize)
        ensures
            n == self@.len(),
    {
        self.0.len()
    }

    /// The words.
    pub fn words(&self) -> (w: &Vec<u16>)
        ensures
            w@ == self@,
    {
        &self.0
    }
}

impl From<Vec<u16>> for DataPage {
    fn from(words: Vec<u16>) -> (r: DataPage) {
        DataPage(words)
    }
}

impl vstd::std_specs::convert::FromSpecImpl<Vec<u16>> for DataPage {
    open spec fn obeys_from_spec() -> bool {
        true
    }

    open spec fn from_spec(words: Vec<u16>) -> DataPage {
        DataPage(words)
    }
}

} // verus!
