//! Byte offsets and half-open byte ranges into the input text.

use vstd::prelude::*;

verus! {

/// An offset into the text, in bytes.
#[derive(Debug, Copy, Clone, Ord, PartialOrd, Eq, PartialEq, Hash, Structural, Default)]
pub struct TextSize {
    pub raw: u32,
}

impl TextSize {
    pub fn new(raw: u32) -> (r: Self)
        ensures
            r.raw == raw,
    {
        TextSize { raw }
    }
}

impl From<u32> for TextSize {
    fn from(raw: u32) -> (r: Self) {
        TextSize { raw }
    }
}

impl vstd::std_specs::convert::FromSpecImpl<u32> for TextSize {
    open spec fn obeys_from_spec() -> bool {
        true
    }

    open spec fn from_spec(raw: u32) -> Self {
        TextSize { raw }
    }
}

impl From<TextSize> for u32 {
    fn from(size: TextSize) -> (r: Self) {
        size.raw
    }
}

impl vstd::std_specs::convert::FromSpecImpl<TextSize> for u32 {
    open spec fn obeys_from_spec() -> bool {
        true
    }

    open spec fn from_spec(size: TextSize) -> Self {
        size.raw
    }
}

/// The bytes from `start` up to, not including, `end`.
#[derive(Debug, Copy, Clone, Eq, PartialEq, Hash, Structural)]
pub struct TextRange {
    start: TextSize,
    end: TextSize,
}

impl TextRange {
    #[verifier::type_invariant]
    spec fn ordered(self) -> bool {
        self.start.raw <= self.end.raw
    }

    /// The range between two offsets.
    pub closed spec fn spec_new(start: TextSize, end: TextSize) -> TextRange {
        TextRange { start, end }
    }

    pub closed spec fn spec_start(self) -> TextSize {
        self.start
    }

    pub closed spec fn spec_end(self) -> TextSize {
        self.end
    }

    /// The range between two offsets, the first not after the second.
    #[verifier::when_used_as_spec(spec_new)]
    pub fn new(start: TextSize, end: TextSize) -> (r: Self)
        requires
            start.raw <= end.raw,
        ensures
            r == Self::spec_new(start, end),
            r.spec_start() == start,
            r.spec_end() == end,
    {
        TextRange { start, end }
    }

    #[verifier::when_used_as_spec(spec_start)]
    pub fn start(self) -> (r: TextSize)
        ensures
            r == self.spec_start(),
            r.raw <= self.spec_end().raw,
    {
        proof {
            use_type_invariant(&self);
        }
        self.start
    }

    #[verifier::when_used_as_spec(spec_end)]
    pub fn end(self) -> (r: TextSize)
        ensures
            r == self.spec_end(),
            self.spec_start().raw <= r.raw,
    {
        proof {
            use_type_invariant(&self);
        }
        self.end
    }

    /// The number of bytes in the range.
    pub fn len(self) -> (r: TextSize)
        ensures
            r.raw == self.spec_end().raw - self.spec_start().raw,
    {
        proof {
            use_type_invariant(&self);
        }
        TextSize { raw: self.end.raw - self.start.raw }
    }
}

/// A range is known by its two ends.
pub proof fn lemma_range_ends(start: TextSize, end: TextSize)
    ensures
        TextRange::spec_new(start, end).spec_start() == start,
        TextRange::spec_new(start, end).spec_end() == end,
{
}

} // verus!
