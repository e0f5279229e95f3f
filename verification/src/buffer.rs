//! Buffers that an operation reads from and writes to.
use vstd::prelude::*;

use crate::error::Error;

verus! {

/// An input slice and an output slice of the same length.
///
/// The two are either one and the same slice, which is then transformed in
/// place, or two slices that do not overlap.
pub struct InOutBuf<'inp, 'out> {
    /// The input, where it is not the output slice itself.
    input: Option<&'inp [u8]>,
    output: &'out mut [u8],
}

impl<'inp, 'out> InOutBuf<'inp, 'out> {
    /// The reference through which the output is written. What it holds once
    /// the buffer is given up is `final(self.out())@`.
    pub closed spec fn out(self) -> &'out mut [u8] {
        self.output
    }

    /// The bytes to read.
    pub closed spec fn in_bytes(self) -> Seq<u8> {
        match self.input {
            Some(input) => input@,
            None => self.output@,
        }
    }

    /// The bytes that the output holds now.
    pub open spec fn out_bytes(self) -> Seq<u8> {
        self.out()@
    }

    /// Whether input and output are the same slice.
    pub closed spec fn is_in_place(self) -> bool {
        self.input is None
    }

    /// Input and output have the same length, and agree where they are the
    /// same slice.
    pub open spec fn wf(self) -> bool {
        &&& self.in_bytes().len() == self.out_bytes().len()
        &&& self.is_in_place() ==> self.in_bytes() == self.out_bytes()
    }

    /// A buffer that is transformed in place.
    pub fn from_mut(buffer: &'out mut [u8]) -> (r: Self)
        ensures
            r.wf(),
            r.is_in_place(),
            r.in_bytes() == old(buffer)@,
            r.out_bytes() == old(buffer)@,
            final(r.out())@ == final(buffer)@,
    {
        InOutBuf { input: None, output: buffer }
    }

    /// A buffer that reads `input` and writes `output`.
    ///
    /// Fails where the two lengths differ.
    pub fn new(input: &'inp [u8], output: &'out mut [u8]) -> (r: Result<Self, Error>)
        ensures
            r is Ok <==> input@.len() == old(output)@.len(),
            r is Err ==> final(output)@ == old(output)@,
            r matches Ok(b) ==> {
                &&& b.wf()
                &&& !b.is_in_place()
                &&& b.in_bytes() == input@
                &&& b.out_bytes() == old(output)@
                &&& final(b.out())@ == final(output)@
            },
    {
        if input.len() != output.len() {
            return Err(Error);
        }
        Ok(InOutBuf { input: Some(input), output })
    }

    /// The number of bytes to transform.
    pub fn len(&self) -> (n: usize)
        requires
            self.wf(),
        ensures
            n == self.in_bytes().len(),
    {
        self.output.len()
    }

    /// The input.
    pub fn get_in(&self) -> (s: &[u8])
        ensures
            s@ == self.in_bytes(),
    {
        match self.input {
            Some(input) => input,
            None => &*self.output,
        }
    }

    /// What the output holds now.
    pub fn get_out(&self) -> (s: &[u8])
        ensures
            s@ == self.out_bytes(),
    {
        &*self.output
    }

    /// Lends the buffer: what the borrower leaves in the output is found there
    /// afterwards.
    pub fn reborrow(&mut self) -> (r: InOutBuf<'_, '_>)
        requires
            old(self).wf(),
        ensures
            r.wf(),
            r.is_in_place() == old(self).is_in_place(),
            r.in_bytes() == old(self).in_bytes(),
            r.out_bytes() == old(self).out_bytes(),
            final(self).is_in_place() == old(self).is_in_place(),
            final(self).out_bytes() == final(r.out())@,
            final(self).in_bytes() == if old(self).is_in_place() {
                final(r.out())@
            } else {
                old(self).in_bytes()
            },
            final(final(self).out())@ == final(old(self).out())@,
    {
        InOutBuf { input: self.input, output: &mut *self.output }
    }

    /// The input, where it is a slice of its own, and the output.
    pub fn into_parts(self) -> (r: (Option<&'inp [u8]>, &'out mut [u8]))
        ensures
            r.0 is None <==> self.is_in_place(),
            r.0 matches Some(input) ==> input@ == self.in_bytes(),
            r.1@ == self.out_bytes(),
            final(r.1)@ == final(self.out())@,
    {
        (self.input, self.output)
    }
}

/// A buffer that is no longer used leaves its output as it stands.
pub proof fn lemma_given_up(buffer: InOutBuf<'_, '_>)
    requires
        has_resolved(buffer),
    ensures
        final(buffer.out())@ == buffer.out_bytes(),
{
}

} // verus!
