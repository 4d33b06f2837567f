//! Handles to a browser's navigation state.

use vstd::prelude::*;

verus! {

/// A handle to the navigation state of one native browser.
///
/// `instance` tells one browser from another: identifiers are reused by CEF
/// while a browser is replaced, instances never are. `browser_id` is the
/// identifier that the browser has at the moment, if it was created already.
#[derive(Clone, Copy, Debug)]
pub struct FrameNavigationState {
    pub instance: u64,
    pub browser_id: Option<i32>,
}

impl FrameNavigationState {
    /// The state of a browser that has not been created yet.
    pub fn new(instance: u64) -> (state: Self)
        ensures
            state.instance == instance,
            state.browser_id is None,
    {
        FrameNavigationState { instance, browser_id: None }
    }

    /// The same state once its browser was created under `browser_id`.
    pub fn created(&self, browser_id: i32) -> (state: Self)
        ensures
            state.instance == self.instance,
            state.browser_id == Some(browser_id),
    {
        FrameNavigationState { instance: self.instance, browser_id: Some(browser_id) }
    }

    /// Whether the browser was created and has the identifier `browser_id`.
    pub fn has_browser_id(&self, browser_id: i32) -> (r: bool)
        ensures
            r == (self.browser_id == Some(browser_id)),
    {
        match self.browser_id {
            Some(id) => id == browser_id,
            None => false,
        }
    }

    /// Whether both handles belong to one and the same browser, whatever its
    /// identifier.
    pub fn is_same_browser(&self, other: &FrameNavigationState) -> (r: bool)
        ensures
            r == (self.instance == other.instance),
    {
        self.instance == other.instance
    }
}

} // verus!
