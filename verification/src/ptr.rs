//! Pointers as values: an address that is never null, and for a buffer the
//! address of its start, if it has one, with the number of its elements.
//! None of them reads or writes what it points at.

use core::marker::PhantomData;
use vstd::prelude::*;

verus! {

/// A raw pointer for accessing untyped data.
#[derive(Copy, Clone, Debug, Ord, PartialOrd, Eq, PartialEq, Hash)]
pub struct UnsafeRawPointer(usize);

impl View for UnsafeRawPointer {
    type V = usize;

    closed spec fn view(&self) -> usize {
        self.0
    }
}

impl UnsafeRawPointer {
    #[verifier::type_invariant]
    spec fn non_null(self) -> bool {
        self.0 != 0
    }

    /// Creates a pointer from an address, or nothing from the null address.
    pub fn new(address: usize) -> (pointer: Option<Self>)
        ensures
            pointer is Some <==> address != 0,
            pointer matches Some(p) ==> p@ == address,
    {
        if address == 0 {
            None
        } else {
            Some(UnsafeRawPointer(address))
        }
    }

    /// Returns the address, which is never null.
    pub fn as_ptr(&self) -> (address: usize)
        ensures
            address == self@,
            address != 0,
    {
        proof {
            use_type_invariant(self);
        }
        self.0
    }
}

/// A raw pointer for accessing and manipulating untyped data.
#[derive(Copy, Clone, Debug, Ord, PartialOrd, Eq, PartialEq, Hash)]
pub struct UnsafeMutableRawPointer(usize);

impl View for UnsafeMutableRawPointer {
    type V = usize;

    closed spec fn view(&self) -> usize {
        self.0
    }
}

impl UnsafeMutableRawPointer {
    #[verifier::type_invariant]
    spec fn non_null(self) -> bool {
        self.0 != 0
    }

    /// Creates a pointer from an address, or nothing from the null address.
    pub fn new(address: usize) -> (pointer: Option<Self>)
        ensures
            pointer is Some <==> address != 0,
            pointer matches Some(p) ==> p@ == address,
    {
        if address == 0 {
            None
        } else {
            Some(UnsafeMutableRawPointer(address))
        }
    }

    /// Returns the address, which is never null.
    pub fn as_ptr(&self) -> (address: usize)
        ensures
            address == self@,
            address != 0,
    {
        proof {
            use_type_invariant(self);
        }
        self.0
    }
}

/// A nonowning collection interface to the bytes in a region of memory.
#[derive(Copy, Clone, Debug)]
pub struct UnsafeRawBufferPointer {
    start: Option<UnsafeRawPointer>,
    count: isize,
}

impl UnsafeRawBufferPointer {
    /// The start of the region, if it has one.
    pub closed spec fn spec_start(self) -> Option<UnsafeRawPointer> {
        self.start
    }

    /// The number of bytes in the region.
    pub closed spec fn spec_count(self) -> isize {
        self.count
    }

    /// Creates a buffer pointer from the start of a region and the number
    /// of its bytes.
    pub fn new(start: Option<UnsafeRawPointer>, count: isize) -> (buffer: Self)
        ensures
            buffer.spec_start() == start,
            buffer.spec_count() == count,
    {
        UnsafeRawBufferPointer { start, count }
    }

    /// Returns the start of the region, if it has one.
    pub fn start(&self) -> (start: Option<UnsafeRawPointer>)
        ensures
            start == self.spec_start(),
    {
        self.start
    }

    /// Returns the number of bytes in the region.
    pub fn count(&self) -> (count: isize)
        ensures
            count == self.spec_count(),
    {
        self.count
    }
}

/// A mutable nonowning collection interface to the bytes in a region of
/// memory.
#[derive(Copy, Clone, Debug)]
pub struct UnsafeMutableRawBufferPointer {
    start: Option<UnsafeMutableRawPointer>,
    count: isize,
}

impl UnsafeMutableRawBufferPointer {
    /// The start of the region, if it has one.
    pub closed spec fn spec_start(self) -> Option<UnsafeMutableRawPointer> {
        self.start
    }

    /// The number of bytes in the region.
    pub closed spec fn spec_count(self) -> isize {
        self.count
    }

    /// Creates a buffer pointer from the start of a region and the number
    /// of its bytes.
    pub fn new(start: Option<UnsafeMutableRawPointer>, count: isize) -> (buffer: Self)
        ensures
            buffer.spec_start() == start,
            buffer.spec_count() == count,
    {
        UnsafeMutableRawBufferPointer { start, count }
    }

    /// Returns the start of the region, if it has one.
    pub fn start(&self) -> (start: Option<UnsafeMutableRawPointer>)
        ensures
            start == self.spec_start(),
    {
        self.start
    }

    /// Returns the number of bytes in the region.
    pub fn count(&self) -> (count: isize)
        ensures
            count == self.spec_count(),
    {
        self.count
    }
}

/// A pointer for accessing data of a specific type.
#[derive(Debug, Ord, PartialOrd, Eq, PartialEq)]
pub struct UnsafePointer<T> {
    address: usize,
    pointee: PhantomData<T>,
}

impl<T> View for UnsafePointer<T> {
    type V = usize;

    closed spec fn view(&self) -> usize {
        self.address
    }
}

impl<T> UnsafePointer<T> {
    #[verifier::type_invariant]
    spec fn non_null(self) -> bool {
        self.address != 0
    }

    /// Creates a pointer from an address, or nothing from the null address.
    pub fn new(address: usize) -> (pointer: Option<Self>)
        ensures
            pointer is Some <==> address != 0,
            pointer matches Some(p) ==> p@ == address,
    {
        if address == 0 {
            None
        } else {
            Some(UnsafePointer { address, pointee: PhantomData })
        }
    }

    /// Returns the address, which is never null.
    pub fn as_ptr(&self) -> (address: usize)
        ensures
            address == self@,
            address != 0,
    {
        proof {
            use_type_invariant(self);
        }
        self.address
    }
}

/// A pointer for accessing and manipulating data of a specific type.
#[derive(Debug, Ord, PartialOrd, Eq, PartialEq)]
pub struct UnsafeMutablePointer<T> {
    address: usize,
    pointee: PhantomData<T>,
}

impl<T> View for UnsafeMutablePointer<T> {
    type V = usize;

    closed spec fn view(&self) -> usize {
        self.address
    }
}

impl<T> UnsafeMutablePointer<T> {
    #[verifier::type_invariant]
    spec fn non_null(self) -> bool {
        self.address != 0
    }

    /// Creates a pointer from an address, or nothing from the null address.
    pub fn new(address: usize) -> (pointer: Option<Self>)
        ensures
            pointer is Some <==> address != 0,
            pointer matches Some(p) ==> p@ == address,
    {
        if address == 0 {
            None
        } else {
            Some(UnsafeMutablePointer { address, pointee: PhantomData })
        }
    }

    /// Returns the address, which is never null.
    pub fn as_ptr(&self) -> (address: usize)
        ensures
            address == self@,
            address != 0,
    {
        proof {
            use_type_invariant(self);
        }
        self.address
    }
}

/// A nonowning collection interface to a buffer of elements stored
/// contiguously in memory.
#[derive(Debug)]
pub struct UnsafeBufferPointer<T> {
    start: Option<UnsafePointer<T>>,
    count: isize,
}

impl<T> UnsafeBufferPointer<T> {
    /// The address of the first element, or zero if the buffer has no
    /// start.
    pub closed spec fn spec_start(self) -> usize {
        match self.start {
            Some(pointer) => pointer@,
            None => 0,
        }
    }

    /// The number of elements in the buffer.
    pub closed spec fn spec_count(self) -> isize {
        self.count
    }

    /// Creates a buffer pointer from the start of a buffer and the number
    /// of its elements.
    pub fn new(start: Option<UnsafePointer<T>>, count: isize) -> (buffer: Self)
        ensures
            buffer.spec_start() == (match start {
                Some(pointer) => pointer@,
                None => 0,
            }),
            buffer.spec_count() == count,
    {
        UnsafeBufferPointer { start, count }
    }

    /// Returns the address of the first element, or zero if the buffer
    /// has no start.
    pub fn start(&self) -> (address: usize)
        ensures
            address == self.spec_start(),
    {
        match &self.start {
            Some(pointer) => pointer.as_ptr(),
            None => 0,
        }
    }

    /// Returns the number of elements in the buffer.
    pub fn count(&self) -> (count: isize)
        ensures
            count == self.spec_count(),
    {
        self.count
    }
}

/// A nonowning collection interface to a buffer of mutable elements
/// stored contiguously in memory.
#[derive(Debug)]
pub struct UnsafeMutableBufferPointer<T> {
    start: Option<UnsafeMutablePointer<T>>,
    count: isize,
}

impl<T> UnsafeMutableBufferPointer<T> {
    /// The address of the first element, or zero if the buffer has no
    /// start.
    pub closed spec fn spec_start(self) -> usize {
        match self.start {
            Some(pointer) => pointer@,
            None => 0,
        }
    }

    /// The number of elements in the buffer.
    pub closed spec fn spec_count(self) -> isize {
        self.count
    }

    /// Creates a buffer pointer from the start of a buffer and the number
    /// of its elements.
    pub fn new(start: Option<UnsafeMutablePointer<T>>, count: isize) -> (buffer: Self)
        ensures
            buffer.spec_start() == (match start {
                Some(pointer) => pointer@,
                None => 0,
            }),
            buffer.spec_count() == count,
    {
        UnsafeMutableBufferPointer { start, count }
    }

    /// Returns the address of the first element, or zero if the buffer
    /// has no start.
    pub fn start(&self) -> (address: usize)
        ensures
            address == self.spec_start(),
    {
        match &self.start {
            Some(pointer) => pointer.as_ptr(),
            None => 0,
        }
    }

    /// Returns the number of elements in the buffer.
    pub fn count(&self) -> (count: isize)
        ensures
            count == self.spec_count(),
    {
        self.count
    }
}

} // verus!
