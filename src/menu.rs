//! Errors of the paginated menus.

use vstd::prelude::*;

verus! {

/// Why a menu could not be shown or run, as text.
#[derive(Debug)]
pub struct MenuError(pub String);

impl MenuError {
    /// The error with message `text`.
    pub fn new(text: &str) -> (r: MenuError)
        ensures
            r.0@ == text@,
    {
        MenuError(text.to_owned())
    }
}

/// The page after `page` among `count` pages, wrapping to the first.
pub fn next_page(page: usize, count: usize) -> (r: usize)
    requires
        page < count,
    ensures
        r == if page + 1 == count {
            0
        } else {
            page + 1
        },
{
    if page == count - 1 {
        0
    } else {
        page + 1
    }
}

/// The page before `page` among `count` pages, wrapping to the last.
pub fn prev_page(page: usize, count: usize) -> (r: usize)
    requires
        page < count,
    ensures
        r == if page == 0 {
            count - 1
        } else {
            page - 1
        },
{
    if page == 0 {
        count - 1
    } else {
        page - 1
    }
}

} // verus!
