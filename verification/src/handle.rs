//! References to glyphs, by index or by name.
use vstd::prelude::*;

verus! {

/// How a glyph reference is currently resolved.
#[derive(Copy, Clone, PartialEq, Eq, Structural, Debug)]
pub enum HandleState {
    Empty,
    Index,
    Name,
    Consolidated,
}

/// A reference to a glyph: by index, by name, or to nothing.
#[derive(Clone, Debug)]
pub struct Handle {
    pub state: HandleState,
    pub index: u16,
    pub name: Vec<u8>,
}

pub type GlyphHandle = Handle;

/// The handle that refers to no glyph.
pub open spec fn is_empty_handle(h: Handle) -> bool {
    h.state == HandleState::Empty && h.index == 0 && h.name@.len() == 0
}

/// The handle that refers to glyph `i` by index.
pub open spec fn is_index_handle(h: Handle, i: u16) -> bool {
    h.state == HandleState::Index && h.index == i && h.name@.len() == 0
}

/// A handle that refers to no glyph.
pub fn otfcc_handle_empty() -> (h: Handle)
    ensures
        is_empty_handle(h),
{
    Handle { state: HandleState::Empty, index: 0, name: Vec::new() }
}

/// A handle that refers to glyph `i` by its index.
pub fn handle_from_index(i: u16) -> (h: Handle)
    ensures
        is_index_handle(h, i),
{
    Handle { state: HandleState::Index, index: i, name: Vec::new() }
}

/// A handle that refers to a glyph by its name.
pub fn handle_from_name(name: Vec<u8>) -> (h: Handle)
    ensures
        h.state == HandleState::Name,
        h.index == 0,
        h.name@ == name@,
{
    Handle { state: HandleState::Name, index: 0, name }
}

/// `a` and `b` refer to the same glyph in the same way.
pub open spec fn same_handle(a: Handle, b: Handle) -> bool {
    a.state == b.state && a.index == b.index && a.name@ == b.name@
}

/// An independent copy of `h`.
pub fn otfcc_handle_dup(h: &Handle) -> (r: Handle)
    ensures
        same_handle(r, *h),
{
    let mut name: Vec<u8> = Vec::with_capacity(h.name.len());
    let mut i: usize = 0;
    while i < h.name.len()
        invariant
            i <= h.name@.len(),
            name@ == h.name@.subrange(0, i as int),
        decreases h.name@.len() - i,
    {
        name.push(h.name[i]);
        i = i + 1;
        assert(name@ =~= h.name@.subrange(0, i as int));
    }
    assert(h.name@.subrange(0, h.name@.len() as int) =~= h.name@);
    Handle { state: h.state, index: h.index, name }
}

} // verus!
