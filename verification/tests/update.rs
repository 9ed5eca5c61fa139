use flowmux::update::{banner_props, BannerState, Event, Stage, Version};

const V1: Version = Version(0, 7, 1);
const V2: Version = Version(0, 8, 0);
const V: Version = Version(0, 8, 0);

#[test]
fn available_shows_the_offer() {
    assert_eq!(BannerState::Hidden.apply(Event::Available(V1)), BannerState::Available(V1));
}

#[test]
fn a_newer_release_during_the_offer_updates_the_offer() {
    assert_eq!(
        BannerState::Available(V1).apply(Event::Available(V2)),
        BannerState::Available(V2)
    );
}

#[test]
fn periodic_check_does_not_disturb_a_running_install() {
    let running = BannerState::Running(Stage::Installing, V1);
    assert_eq!(running.clone().apply(Event::Available(V2)), running);
}

#[test]
fn stages_progress_while_running() {
    assert_eq!(
        BannerState::Available(V1).apply(Event::Stage(Stage::Fetching)),
        BannerState::Running(Stage::Fetching, V1)
    );
    assert_eq!(
        BannerState::Running(Stage::Fetching, V1).apply(Event::Stage(Stage::Installing)),
        BannerState::Running(Stage::Installing, V1)
    );
}

#[test]
fn done_and_failed_terminate_a_run() {
    assert_eq!(
        BannerState::Running(Stage::Installing, V1).apply(Event::Done(V1)),
        BannerState::Done(V1)
    );
    assert_eq!(
        BannerState::Running(Stage::Fetching, V1).apply(Event::Failed("boom".into())),
        BannerState::Failed("boom".into(), V1)
    );
}

#[test]
fn done_ignores_re_announcement_of_the_installed_release() {
    assert_eq!(BannerState::Done(V1).apply(Event::Available(V1)), BannerState::Done(V1));
    assert_eq!(BannerState::Done(V1).apply(Event::Available(V2)), BannerState::Available(V2));
}

#[test]
fn only_available_and_failed_are_actionable() {
    assert_eq!(BannerState::Available(V1).actionable_version(), Some(V1));
    assert_eq!(BannerState::Failed("e".into(), V1).actionable_version(), Some(V1));
    assert_eq!(BannerState::Hidden.actionable_version(), None);
    assert_eq!(BannerState::Running(Stage::Fetching, V1).actionable_version(), None);
    assert_eq!(BannerState::Done(V1).actionable_version(), None);
}

#[test]
fn hidden_state_reveals_nothing() {
    assert_eq!(banner_props(&BannerState::Hidden), (String::new(), None, false));
}

#[test]
fn available_offers_the_update_button() {
    let (title, button, revealed) = banner_props(&BannerState::Available(V));
    assert!(title.contains("0.8.0"), "title should name the release: {title}");
    assert_eq!(button, Some("Update"));
    assert!(revealed);
}

#[test]
fn running_shows_the_stage_and_no_button() {
    for (stage, needle) in [(Stage::Fetching, "downloading"), (Stage::Installing, "installing")] {
        let (title, button, revealed) = banner_props(&BannerState::Running(stage, V));
        assert!(title.contains(needle), "{title} should mention {needle}");
        assert_eq!(button, None, "no button while running");
        assert!(revealed);
    }
}

#[test]
fn done_announces_next_launch_and_dismisses() {
    let (title, button, revealed) = banner_props(&BannerState::Done(V));
    assert!(title.contains("next launch"), "{title}");
    assert_eq!(button, Some("Dismiss"));
    assert!(revealed);
}

#[test]
fn failed_offers_retry_and_points_at_the_log() {
    let (title, button, revealed) =
        banner_props(&BannerState::Failed("git fetch exited with 128".into(), V));
    assert!(title.contains("git fetch exited with 128"), "{title}");
    assert!(title.contains("update.log"), "{title} should point at the log");
    assert_eq!(button, Some("Retry"));
    assert!(revealed);
}

#[test]
fn titles_are_exact() {
    assert_eq!(banner_props(&BannerState::Available(V)).0, "FlowMux 0.8.0 is available");
    assert_eq!(
        banner_props(&BannerState::Running(Stage::Fetching, Version(1, 20, 3))).0,
        "Updating to 1.20.3 — downloading…"
    );
    assert_eq!(
        banner_props(&BannerState::Done(V1)).0,
        "FlowMux 0.7.1 installed — takes effect on next launch"
    );
    assert_eq!(
        banner_props(&BannerState::Failed("x".into(), V1)).0,
        "Update to 0.7.1 failed: x (see ~/.cache/flowmux/update.log)"
    );
}

#[test]
fn versions_compare_field_by_field() {
    assert!(Version(0, 9, 9).at_most(&Version(1, 0, 0)));
    assert!(Version(1, 2, 3).at_most(&Version(1, 2, 3)));
    assert!(!Version(1, 3, 0).at_most(&Version(1, 2, 9)));
    assert_eq!(Version(10, 0, 42).to_string(), "10.0.42");
    assert_eq!(
        BannerState::Done(V2).apply(Event::Available(V1)),
        BannerState::Done(V2)
    );
}

#[test]
fn progress_and_failure_do_not_reveal_a_hidden_banner() {
    assert_eq!(BannerState::Hidden.apply(Event::Stage(Stage::Fetching)), BannerState::Hidden);
    assert_eq!(BannerState::Hidden.apply(Event::Failed("e".into())), BannerState::Hidden);
    assert_eq!(BannerState::Hidden.apply(Event::Done(V1)), BannerState::Done(V1));
    assert_eq!(
        BannerState::Failed("e".into(), V1).apply(Event::Stage(Stage::Fetching)),
        BannerState::Running(Stage::Fetching, V1)
    );
}
