//! The variadic arguments of one call, as a list that is read front to back.

use cstr_core::CStr;
use cty::{c_int, c_long, c_longlong};
use vstd::prelude::*;

verus! {

/// One variadic argument, as the C calling convention passes it.
///
/// Integer arguments narrower than `int` arrive as `int`, and an unsigned argument arrives as
/// the signed number with the same bits.
#[derive(Clone, Copy, Debug, PartialEq)]
pub enum VarArg<'a> {
    /// An `int` or `unsigned int`.
    Int(c_int),
    /// A `long` or `unsigned long`.
    Long(c_long),
    /// A `long long` or `unsigned long long`.
    LongLong(c_longlong),
    /// A `size_t`, `ssize_t` or `ptrdiff_t`.
    Size(usize),
    /// A `double`: the bits of the IEEE 754 binary64 number.
    Double(u64),
    /// A pointer to a null-terminated string.
    Str(&'a CStr),
    /// Any other pointer: its address, 0 for the null pointer.
    Pointer(usize),
}

/// The `int` at place `i` of `args`, if there is one.
pub open spec fn int_at(args: Seq<VarArg<'_>>, i: int) -> Option<c_int> {
    if 0 <= i < args.len() {
        match args[i] {
            VarArg::Int(x) => Some(x),
            _ => None,
        }
    } else {
        None
    }
}

/// The `long` at place `i` of `args`, if there is one.
pub open spec fn long_at(args: Seq<VarArg<'_>>, i: int) -> Option<c_long> {
    if 0 <= i < args.len() {
        match args[i] {
            VarArg::Long(x) => Some(x),
            _ => None,
        }
    } else {
        None
    }
}

/// The `long long` at place `i` of `args`, if there is one.
pub open spec fn long_long_at(args: Seq<VarArg<'_>>, i: int) -> Option<c_longlong> {
    if 0 <= i < args.len() {
        match args[i] {
            VarArg::LongLong(x) => Some(x),
            _ => None,
        }
    } else {
        None
    }
}

/// The `size_t` at place `i` of `args`, if there is one.
pub open spec fn usize_at(args: Seq<VarArg<'_>>, i: int) -> Option<usize> {
    if 0 <= i < args.len() {
        match args[i] {
            VarArg::Size(x) => Some(x),
            _ => None,
        }
    } else {
        None
    }
}

/// The bits of the `double` at place `i` of `args`, if there is one.
pub open spec fn double_at(args: Seq<VarArg<'_>>, i: int) -> Option<u64> {
    if 0 <= i < args.len() {
        match args[i] {
            VarArg::Double(x) => Some(x),
            _ => None,
        }
    } else {
        None
    }
}

/// The address at place `i` of `args`, if a pointer that is not a string stands there.
pub open spec fn ptr_at(args: Seq<VarArg<'_>>, i: int) -> Option<usize> {
    if 0 <= i < args.len() {
        match args[i] {
            VarArg::Pointer(x) => Some(x),
            _ => None,
        }
    } else {
        None
    }
}

/// The string at place `i` of `args`: `Some(Some(s))` for a string, `Some(None)` for the null
/// pointer, `None` for anything else.
pub open spec fn str_at<'a>(args: Seq<VarArg<'a>>, i: int) -> Option<Option<&'a CStr>> {
    if 0 <= i < args.len() {
        match args[i] {
            VarArg::Str(s) => Some(Some(s)),
            VarArg::Pointer(p) => if p == 0 {
                Some(None)
            } else {
                None
            },
            _ => None,
        }
    } else {
        None
    }
}

/// A cursor over the variadic arguments of one call.
///
/// Each typed fetch hands out the argument under the cursor and moves on, if that argument has
/// the type asked for. Otherwise the fetch fails and the cursor stays.
#[derive(Clone, Copy, Debug)]
pub struct VaList<'a> {
    items: &'a [VarArg<'a>],
    next: usize,
}

impl<'a> VaList<'a> {
    #[verifier::type_invariant]
    spec fn in_bounds(self) -> bool {
        self.next <= self.items@.len()
    }

    /// All arguments of the call.
    pub closed spec fn items(self) -> Seq<VarArg<'a>> {
        self.items@
    }

    /// How many arguments have been fetched.
    pub closed spec fn position(self) -> int {
        self.next as int
    }

    /// The cursor that is `n` arguments further on.
    pub open spec fn moved_to(self, other: VaList<'a>, n: int) -> bool {
        &&& other.items() == self.items()
        &&& other.position() == self.position() + n
    }

    /// A cursor in front of the first of `items`.
    pub fn new(items: &'a [VarArg<'a>]) -> (list: VaList<'a>)
        ensures
            list.items() == items@,
            list.position() == 0,
    {
        VaList { items, next: 0 }
    }

    /// Fetches an `int`.
    pub fn fetch_int(&mut self) -> (value: Option<c_int>)
        ensures
            value == int_at(old(self).items(), old(self).position()),
            old(self).moved_to(*final(self), if value is Some { 1 } else { 0 }),
    {
        proof {
            use_type_invariant(&*self);
        }
        if self.next < self.items.len() {
            if let VarArg::Int(x) = self.items[self.next] {
                self.next = self.next + 1;
                return Some(x);
            }
        }
        None
    }

    /// Fetches a `long`.
    pub fn fetch_long(&mut self) -> (value: Option<c_long>)
        ensures
            value == long_at(old(self).items(), old(self).position()),
            old(self).moved_to(*final(self), if value is Some { 1 } else { 0 }),
    {
        proof {
            use_type_invariant(&*self);
        }
        if self.next < self.items.len() {
            if let VarArg::Long(x) = self.items[self.next] {
                self.next = self.next + 1;
                return Some(x);
            }
        }
        None
    }

    /// Fetches a `long long`.
    pub fn fetch_long_long(&mut self) -> (value: Option<c_longlong>)
        ensures
            value == long_long_at(old(self).items(), old(self).position()),
            old(self).moved_to(*final(self), if value is Some { 1 } else { 0 }),
    {
        proof {
            use_type_invariant(&*self);
        }
        if self.next < self.items.len() {
            if let VarArg::LongLong(x) = self.items[self.next] {
                self.next = self.next + 1;
                return Some(x);
            }
        }
        None
    }

    /// Fetches a `size_t`.
    pub fn fetch_usize(&mut self) -> (value: Option<usize>)
        ensures
            value == usize_at(old(self).items(), old(self).position()),
            old(self).moved_to(*final(self), if value is Some { 1 } else { 0 }),
    {
        proof {
            use_type_invariant(&*self);
        }
        if self.next < self.items.len() {
            if let VarArg::Size(x) = self.items[self.next] {
                self.next = self.next + 1;
                return Some(x);
            }
        }
        None
    }

    /// Fetches a `double`, as its bits.
    pub fn fetch_double(&mut self) -> (value: Option<u64>)
        ensures
            value == double_at(old(self).items(), old(self).position()),
            old(self).moved_to(*final(self), if value is Some { 1 } else { 0 }),
    {
        proof {
            use_type_invariant(&*self);
        }
        if self.next < self.items.len() {
            if let VarArg::Double(x) = self.items[self.next] {
                self.next = self.next + 1;
                return Some(x);
            }
        }
        None
    }

    /// Fetches a pointer that is not a string, as its address.
    pub fn fetch_ptr(&mut self) -> (value: Option<usize>)
        ensures
            value == ptr_at(old(self).items(), old(self).position()),
            old(self).moved_to(*final(self), if value is Some { 1 } else { 0 }),
    {
        proof {
            use_type_invariant(&*self);
        }
        if self.next < self.items.len() {
            if let VarArg::Pointer(x) = self.items[self.next] {
                self.next = self.next + 1;
                return Some(x);
            }
        }
        None
    }

    /// Fetches a pointer to a string: the string, or `None` for the null pointer.
    pub fn fetch_str(&mut self) -> (value: Option<Option<&'a CStr>>)
        ensures
            value == str_at(old(self).items(), old(self).position()),
            old(self).moved_to(*final(self), if value is Some { 1 } else { 0 }),
    {
        proof {
            use_type_invariant(&*self);
        }
        if self.next < self.items.len() {
            match self.items[self.next] {
                VarArg::Str(s) => {
                    self.next = self.next + 1;
                    return Some(Some(s));
                },
                VarArg::Pointer(p) => {
                    if p == 0 {
                        self.next = self.next + 1;
                        return Some(None);
                    }
                },
                _ => {},
            }
        }
        None
    }
}

} // verus!
