//! Choosing the URL to show: with no URL there is nothing to choose, with one
//! it is taken at once, with several the user must pick one.
use vstd::prelude::*;

verus! {

/// Why no URL could be chosen without asking.
#[derive(Debug, Clone, Copy, PartialEq, Eq, Structural)]
pub enum SelectError {
    /// The list of URLs is empty.
    NoUrls,
    /// There are several URLs, so the user has to pick one.
    MultipleUrls,
}

impl SelectError {
    /// A message for the user.
    pub fn to_string(&self) -> (r: String)
        ensures
            r@ == match *self {
                SelectError::NoUrls => "No URLs found in input"@,
                SelectError::MultipleUrls => "Several URLs found; one has to be chosen"@,
            },
    {
        match self {
            SelectError::NoUrls => String::from_str("No URLs found in input"),
            SelectError::MultipleUrls => String::from_str("Several URLs found; one has to be chosen"),
        }
    }
}

/// The URL to show when it needs no choice: an error for no URL, the URL
/// itself when there is exactly one, and `MultipleUrls` when the user has to
/// pick among several (see `pick_url`).
pub fn select_url(urls: &[String]) -> (r: Result<String, SelectError>)
    ensures
        urls@.len() == 0 ==> r == Err::<String, SelectError>(SelectError::NoUrls),
        urls@.len() == 1 ==> r == Ok::<String, SelectError>(urls@[0]),
        urls@.len() > 1 ==> r == Err::<String, SelectError>(SelectError::MultipleUrls),
{
    match urls.len() {
        0 => Err(SelectError::NoUrls),
        1 => Ok(urls[0].clone()),
        _ => Err(SelectError::MultipleUrls),
    }
}

/// The URL at position `index` of the list that the user picked from, if
/// there is one.
pub fn pick_url(urls: &[String], index: usize) -> (r: Option<String>)
    ensures
        index < urls@.len() ==> r == Some(urls@[index as int]),
        index >= urls@.len() ==> r is None,
{
    if index < urls.len() {
        Some(urls[index].clone())
    } else {
        None
    }
}

} // verus!
