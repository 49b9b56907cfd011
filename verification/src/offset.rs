//! The offset resolver: pure arithmetic turning an annotated page number and
//! a signed page offset into a (logical, physical) pair, or a fatal
//! configuration failure.

use vstd::prelude::*;

verus! {

use crate::records::ParseError;

/// What resolving page `n` under `off` yields. With offset zero the pair is
/// `(n, n)`. With a positive offset the annotation carries the logical page
/// and the offset is added to obtain the physical page. With a negative
/// offset the annotation carries the physical page and the offset is added
/// to obtain the logical page, which must stay positive.
pub open spec fn spec_resolve(n: u32, off: i32) -> Result<(u32, u32), ParseError> {
    if off == 0 {
        Ok((n, n))
    } else if off > 0 {
        if n + off <= u32::MAX {
            Ok((n, (n + off) as u32))
        } else {
            Err(ParseError::PhysicalPageTooLarge { page: n, offset: off })
        }
    } else {
        if n + off > 0 {
            Ok(((n + off) as u32, n))
        } else {
            Err(ParseError::NonPositiveLogicalPage { page: n, offset: off })
        }
    }
}

/// Resolves an annotated page number against the configured offset.
pub fn resolve_page(n: u32, page_offset: i32) -> (r: Result<(u32, u32), ParseError>)
    ensures
        r == spec_resolve(n, page_offset),
{
    if page_offset == 0 {
        Ok((n, n))
    } else if page_offset > 0 {
        let off: u32 = page_offset as u32;
        if n <= u32::MAX - off {
            Ok((n, n + off))
        } else {
            Err(ParseError::PhysicalPageTooLarge { page: n, offset: page_offset })
        }
    } else {
        let k: u32 = (-(page_offset as i64)) as u32;
        if n > k {
            Ok((n - k, n))
        } else {
            Err(ParseError::NonPositiveLogicalPage { page: n, offset: page_offset })
        }
    }
}

} // verus!
