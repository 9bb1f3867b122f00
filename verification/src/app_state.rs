//! Which screen the app shows, and how the user moves between screens.

use vstd::prelude::*;

verus! {

/// The screen on display; kept between runs.
#[derive(PartialEq, Eq, Structural, Clone, Copy, Debug)]
pub enum AppState {
    Home,
    Piano,
    Guitar,
}

/// A click that changes screens: an instrument button on the home screen, or
/// the home button of the navigation bar.
#[derive(PartialEq, Eq, Structural, Clone, Copy, Debug)]
pub enum Navigation {
    OpenPiano,
    OpenGuitar,
    BackHome,
}

/// The screen a navigation click leads to.
pub open spec fn spec_destination(nav: Navigation) -> AppState {
    match nav {
        Navigation::OpenPiano => AppState::Piano,
        Navigation::OpenGuitar => AppState::Guitar,
        Navigation::BackHome => AppState::Home,
    }
}

impl AppState {
    /// The screen the app starts on when nothing was saved.
    pub fn initial() -> (s: AppState)
        ensures
            s == AppState::Home,
    {
        AppState::Home
    }

    /// The screen shown after the navigation click `nav`, from any screen.
    pub fn navigate(self, nav: Navigation) -> (s: AppState)
        ensures
            s == spec_destination(nav),
    {
        match nav {
            Navigation::OpenPiano => AppState::Piano,
            Navigation::OpenGuitar => AppState::Guitar,
            Navigation::BackHome => AppState::Home,
        }
    }
}

} // verus!
