use flowmux::notify::{expire_for, parse_level, urgency_for, NotificationLevel, DESKTOP_FILE_BASENAME};

#[test]
fn desktop_file_basename_matches_installed_desktop_file() {
    assert_eq!(
        DESKTOP_FILE_BASENAME, "com.flowmux.App",
        "DESKTOP_FILE_BASENAME must match resources/desktop/<basename>.desktop \
         and the GApplication application_id; otherwise the dock badge survives ack",
    );
}

#[test]
fn urgency_for_levels_maps_to_fdo_codes() {
    assert_eq!(urgency_for(NotificationLevel::Info), 0);
    assert_eq!(urgency_for(NotificationLevel::AttentionNeeded), 1);
    assert_eq!(urgency_for(NotificationLevel::Error), 2);
}

#[test]
fn expire_for_attention_and_error_returns_zero_so_caller_must_close_explicitly() {
    assert_eq!(expire_for(NotificationLevel::AttentionNeeded), 0);
    assert_eq!(expire_for(NotificationLevel::Error), 0);
    assert_eq!(expire_for(NotificationLevel::Info), -1);
}

#[test]
fn command_line_levels_default_to_info() {
    assert_eq!(parse_level("attention"), NotificationLevel::AttentionNeeded);
    assert_eq!(parse_level("error"), NotificationLevel::Error);
    assert_eq!(parse_level("info"), NotificationLevel::Info);
    assert_eq!(parse_level("Error"), NotificationLevel::Info);
    assert_eq!(parse_level(""), NotificationLevel::Info);
}
