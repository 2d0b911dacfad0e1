use hyper_loader::watch::{watch_step, WatchAction, WatchEvent};

#[test]
fn a_missing_file_is_waited_for() {
    assert_eq!(watch_step(WatchEvent::Absent), WatchAction::LookAgain);
}

#[test]
fn a_backdrop_is_shown_and_its_file_removed() {
    assert_eq!(watch_step(WatchEvent::Decoded), WatchAction::ShowRemoveAndStop);
}

#[test]
fn a_bad_file_ends_the_watch_and_stays() {
    assert_eq!(watch_step(WatchEvent::Unreadable), WatchAction::Stop);
    assert_eq!(watch_step(WatchEvent::NoPicture), WatchAction::Stop);
}
