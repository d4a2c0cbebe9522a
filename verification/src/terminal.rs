use vstd::prelude::*;

use crate::error::Error;
use crate::geometry::Size;

verus! {

/// The size of the terminal from the columns and rows that asking the
/// terminal gave, or an error when asking failed (`None`).
pub fn size(queried: Option<(u16, u16)>) -> (r: Result<Size, Error>)
    ensures
        match queried {
            Some((columns, rows)) => r matches Ok(s) && s == (Size { height: rows, width: columns }),
            None => r matches Err(Error::Crossterm(msg)) && msg@ == "size failed"@,
        },
{
    match queried {
        Some((columns, rows)) => Ok(Size { height: rows, width: columns }),
        None => Err(Error::Crossterm(String::from_str("size failed"))),
    }
}

} // verus!
