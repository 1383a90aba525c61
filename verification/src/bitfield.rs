//! Given-flag storage: one bit per parameter, packed into 32-bit words.

use vstd::prelude::*;

verus! {

/// Bit `b` of the word `w`.
pub open spec fn bit_of(w: u32, b: u32) -> bool {
    (w >> b) & 1 == 1
}

/// A set of given flags, one bit for each parameter identity below `len`.
pub struct GivenFlags {
    pub words: Vec<u32>,
    pub len: u32,
}

impl GivenFlags {
    /// There are exactly as many words as `len` bits need.
    pub open spec fn wf(&self) -> bool {
        self.words@.len() == (self.len as int + 31) / 32
    }

    /// Whether the flag of the parameter `pos` is set; a position outside
    /// the set has no flag.
    pub open spec fn spec_is_set(&self, pos: u32) -> bool {
        pos < self.len && bit_of(self.words@[(pos / 32) as int], pos % 32)
    }

    /// The flags as a sequence of `len` booleans.
    pub open spec fn view(&self) -> Seq<bool> {
        Seq::new(self.len as nat, |i: int| self.spec_is_set(i as u32))
    }

    /// Checks that the words fit the number of flags.
    pub fn validate(&self) -> (ok: bool)
        ensures
            ok == self.wf(),
    {
        self.words.len() as u64 == (self.len as u64 + 31) / 32
    }

    /// A set of `len` flags, none of them set.
    pub fn new(len: u32) -> (flags: GivenFlags)
        ensures
            flags.wf(),
            flags.len == len,
            flags@ == Seq::new(len as nat, |i: int| false),
    {
        let n_words: usize = ((len as u64 + 31) / 32) as usize;
        let mut words: Vec<u32> = Vec::new();
        let mut i: usize = 0;
        while i < n_words
            invariant
                i <= n_words,
                words@.len() == i,
                forall|k: int| 0 <= k < i ==> words@[k] == 0u32,
            decreases n_words - i,
        {
            words.push(0u32);
            i = i + 1;
        }
        let flags = GivenFlags { words, len };
        proof {
            assert forall|p: u32| p < len implies !flags.spec_is_set(p) by {
                let b = p % 32;
                assert(!bit_of(0u32, b)) by (bit_vector)
                    requires
                        b < 32,
                ;
            }
            assert(flags@ =~= Seq::new(len as nat, |i: int| false));
        }
        flags
    }

    /// Sets the flag of the parameter `pos` and leaves every other flag as
    /// it is.
    pub fn set(&mut self, pos: u32)
        requires
            old(self).wf(),
            pos < old(self).len,
        ensures
            final(self).wf(),
            final(self).len == old(self).len,
            final(self)@ == old(self)@.update(pos as int, true),
    {
        let idx: usize = (pos / 32) as usize;
        let b: u32 = pos % 32;
        let w: u32 = self.words[idx];
        let nw: u32 = w | (1u32 << b);
        proof {
            assert(forall|c: u32| c < 32 ==> (#[trigger] bit_of(nw, c) == (c == b || bit_of(w, c))))
                by (bit_vector)
                requires
                    b < 32,
                    nw == w | (1u32 << b),
            ;
        }
        self.words.set(idx, nw);
        proof {
            assert forall|p: u32| p < self.len implies self.spec_is_set(p) == (p == pos || old(self).spec_is_set(p)) by {
                if (p / 32) as int == idx as int {
                    assert(bit_of(nw, p % 32) == (p % 32 == b || bit_of(w, p % 32)));
                }
            }
            assert(self@ =~= old(self)@.update(pos as int, true));
        }
    }

    /// Whether the flag of the parameter `pos` is set.
    #[verifier::when_used_as_spec(spec_is_set)]
    pub fn is_set(&self, pos: u32) -> (r: bool)
        requires
            self.wf(),
        ensures
            r == self.spec_is_set(pos),
            pos < self.len ==> r == self@[pos as int],
    {
        if pos >= self.len {
            return false;
        }
        let w: u32 = self.words[(pos / 32) as usize];
        let b: u32 = pos % 32;
        ((w >> b) & 1) == 1
    }
}

} // verus!
