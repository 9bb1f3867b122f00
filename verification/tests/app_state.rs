use harmony_lab::app_state::{AppState, Navigation};

#[test]
fn navigation_between_screens() {
    let s = AppState::initial();
    assert_eq!(s, AppState::Home);
    let s = s.navigate(Navigation::OpenPiano);
    assert_eq!(s, AppState::Piano);
    let s = s.navigate(Navigation::BackHome);
    assert_eq!(s, AppState::Home);
    assert_eq!(s.navigate(Navigation::OpenGuitar), AppState::Guitar);
    assert_eq!(AppState::Guitar.navigate(Navigation::OpenPiano), AppState::Piano);
}
