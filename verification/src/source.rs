//! Buffer handling for the line source.
//!
//! The reader that yields one line of a file at a time keeps a single
//! shared buffer and reuses it from line to line; only when the previous
//! line is still held elsewhere does it switch to a fresh buffer, so that
//! a line handed out is never mutated behind its holder's back. `new_buf`
//! makes such a buffer. The reader itself performs file I/O and therefore
//! lives with the caller that drives the split.

use std::rc::Rc;
use vstd::prelude::*;

verus! {

/// A fresh, empty shared line buffer.
pub fn new_buf() -> (r: Rc<String>)
    ensures
        r@ == Seq::<char>::empty(),
{
    Rc::new(String::new())
}

} // verus!
