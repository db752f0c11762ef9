//! The data model of an interactive session's tabs and pages. The
//! terminal rendering and the input widget live outside the library.

use vstd::prelude::*;
use vstd::string::StringExecFns;

verus! {

/// One page of session output.
#[derive(Debug)]
pub struct PageState {
    pub content: String,
}

/// One tab: a title and its page.
#[derive(Debug)]
pub struct TabState {
    pub title: String,
    pub page: PageState,
}

impl Default for PageState {
    /// A fresh page holds no output.
    fn default() -> (r: Self)
        ensures
            r.content@ == Seq::<char>::empty(),
    {
        PageState { content: String::new() }
    }
}

impl Default for TabState {
    /// A fresh tab carries the placeholder title and an empty page.
    fn default() -> (r: Self)
        ensures
            r.title@ == "<Unamed session>"@,
            r.page.content@ == Seq::<char>::empty(),
    {
        TabState { title: String::from_str("<Unamed session>"), page: PageState::default() }
    }
}

} // verus!
