use vstd::prelude::*;

verus! {

/// A single subtitle entry: a header (index, timings, settings) and a body (the text).
#[derive(Debug, Clone, PartialEq, Eq)]
pub struct Entry<H, T> {
    header: H,
    body: T,
}

impl<H, T> Entry<H, T> {
    /// The header of this entry.
    pub closed spec fn header_spec(&self) -> H {
        self.header
    }

    /// The body of this entry.
    pub closed spec fn body_spec(&self) -> T {
        self.body
    }

    /// Create a new `Entry` with the given header and body.
    pub fn new(header: H, body: T) -> (e: Self)
        ensures
            e.header_spec() == header,
            e.body_spec() == body,
    {
        Entry { header, body }
    }

    /// Returns the header of this subtitle entry.
    pub fn header(&self) -> (h: H)
        where H: Copy,
        ensures
            h == self.header_spec(),
    {
        self.header
    }

    /// Returns a reference to the header of this subtitle entry.
    pub fn header_ref(&self) -> (h: &H)
        ensures
            *h == self.header_spec(),
    {
        &self.header
    }

    /// Returns a mutable reference to the header of this subtitle entry.
    pub fn header_mut(&mut self) -> (h: &mut H)
        ensures
            *h == old(self).header_spec(),
            final(self).header_spec() == *final(h),
            final(self).body_spec() == old(self).body_spec(),
    {
        &mut self.header
    }

    /// Returns this entry with the header replaced.
    pub fn with_header(self, header: H) -> (e: Self)
        ensures
            e.header_spec() == header,
            e.body_spec() == self.body_spec(),
    {
        let mut s = self;
        s.set_header(header);
        s
    }

    /// Replaces the header of this subtitle entry.
    pub fn set_header(&mut self, header: H) -> (r: &mut Self)
        ensures
            r.header_spec() == header,
            r.body_spec() == old(self).body_spec(),
            *final(self) == *final(r),
    {
        self.header = header;
        self
    }

    /// Returns the body of this subtitle entry.
    pub fn body(&self) -> (b: T)
        where T: Copy,
        ensures
            b == self.body_spec(),
    {
        self.body
    }

    /// Returns a reference to the body of this subtitle entry.
    pub fn body_ref(&self) -> (b: &T)
        ensures
            *b == self.body_spec(),
    {
        &self.body
    }

    /// Returns a mutable reference to the body of this subtitle entry.
    pub fn body_mut(&mut self) -> (b: &mut T)
        ensures
            *b == old(self).body_spec(),
            final(self).body_spec() == *final(b),
            final(self).header_spec() == old(self).header_spec(),
    {
        &mut self.body
    }

    /// Returns this entry with the body replaced.
    pub fn with_body(self, body: T) -> (e: Self)
        ensures
            e.body_spec() == body,
            e.header_spec() == self.header_spec(),
    {
        let mut s = self;
        s.set_body(body);
        s
    }

    /// Replaces the body of this subtitle entry.
    pub fn set_body(&mut self, body: T) -> (r: &mut Self)
        ensures
            r.body_spec() == body,
            r.header_spec() == old(self).header_spec(),
            *final(self) == *final(r),
    {
        self.body = body;
        self
    }
}

} // verus!
