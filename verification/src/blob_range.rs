//! A range of bytes within a blob: a start and an optional length.
use vstd::prelude::*;

verus! {

/// Why a range was refused.
#[derive(Debug, Clone, Copy, PartialEq, Eq, Structural)]
pub enum BlobRangeError {
    /// A range of zero bytes.
    ZeroLength,
}

/// The bytes from `start`, `length` of them, or all to the end of the blob.
#[derive(Debug, Clone, Copy, PartialEq, Eq, Hash)]
pub struct BlobRange {
    start: u64,
    length: Option<u64>,
}

impl BlobRange {
    #[verifier::type_invariant]
    spec fn inv(self) -> bool {
        self.length != Some(0u64)
    }

    pub closed spec fn start_spec(self) -> u64 {
        self.start
    }

    pub closed spec fn length_spec(self) -> Option<u64> {
        self.length
    }

    /// The range of `length` bytes from `start`; a length of zero is refused.
    pub fn new(start: u64, length: Option<u64>) -> (r: Result<BlobRange, BlobRangeError>)
        ensures
            length == Some(0u64) <==> r is Err,
            r matches Ok(b) ==> b.start_spec() == start && b.length_spec() == length,
            r matches Err(e) ==> e == BlobRangeError::ZeroLength,
    {
        match length {
            Some(0) => Err(BlobRangeError::ZeroLength),
            _ => Ok(BlobRange { start, length }),
        }
    }

    /// The whole blob.
    pub fn full() -> (r: BlobRange)
        ensures
            r.start_spec() == 0,
            r.length_spec() == None::<u64>,
    {
        BlobRange { start: 0, length: None }
    }

    pub fn start(&self) -> (r: u64)
        ensures
            r == self.start_spec(),
    {
        self.start
    }

    pub fn length(&self) -> (r: Option<u64>)
        ensures
            r == self.length_spec(),
    {
        self.length
    }

    /// One past the last byte, when the range has a length.
    pub fn end(&self) -> (r: Option<u64>)
        requires
            self.length_spec() matches Some(l) ==> self.start_spec() + l <= u64::MAX,
        ensures
            r == match self.length_spec() {
                Some(l) => Some((self.start_spec() + l) as u64),
                None => None::<u64>,
            },
    {
        match self.length {
            Some(l) => Some(self.start + l),
            None => None,
        }
    }

    /// Whether the range reaches past a blob of `size` bytes.
    pub fn is_out_of(&self, size: u64) -> (r: bool)
        ensures
            r == match self.length_spec() {
                Some(l) => self.start_spec() + l > size,
                None => self.start_spec() > size,
            },
    {
        match self.length {
            Some(l) => self.start > size || l > size - self.start,
            None => self.start > size,
        }
    }

    /// The offset and the number of bytes to read from a blob of `size` bytes, or
    /// `None` when the range reaches past it.
    pub fn span_in(&self, size: u64) -> (r: Option<(u64, u64)>)
        ensures
            r == if (match self.length_spec() {
                Some(l) => self.start_spec() + l > size,
                None => self.start_spec() > size,
            }) {
                None::<(u64, u64)>
            } else {
                Some(
                    (
                        self.start_spec(),
                        match self.length_spec() {
                            Some(l) => l,
                            None => (size - self.start_spec()) as u64,
                        },
                    ),
                )
            },
    {
        if self.is_out_of(size) {
            None
        } else {
            match self.length {
                Some(l) => Some((self.start, l)),
                None => Some((self.start, size - self.start)),
            }
        }
    }
}

} // verus!
