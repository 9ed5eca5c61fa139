use flowmux::platform::{env_flag_value_enabled, linux_release_indicates_wsl};

#[test]
fn env_flags_require_truthy_values() {
    for value in ["1", "true", "TRUE", "yes", "on", " On "] {
        assert!(env_flag_value_enabled(value), "{value:?} should enable a flag");
    }
    for value in ["", "0", "false", "no", "off", "disabled"] {
        assert!(!env_flag_value_enabled(value), "{value:?} should leave a flag disabled");
    }
}

#[test]
fn linux_release_probe_matches_wsl_kernels() {
    assert!(linux_release_indicates_wsl("5.15.167.4-microsoft-standard-WSL2"));
    assert!(linux_release_indicates_wsl("4.19.128-microsoft-standard"));
    assert!(!linux_release_indicates_wsl("6.8.0-90-generic"));
}

#[test]
fn flag_values_are_trimmed_of_unicode_space_and_case_folded() {
    assert!(env_flag_value_enabled("\t YeS\n"));
    assert!(env_flag_value_enabled("\u{3000}on\u{a0}"));
    assert!(!env_flag_value_enabled("1 1"));
    assert!(!env_flag_value_enabled("onn"));
    assert!(!env_flag_value_enabled("   "));
    assert!(!env_flag_value_enabled("tru"));
}

#[test]
fn wsl_probe_is_case_insensitive_and_needs_the_whole_word() {
    assert!(linux_release_indicates_wsl("MICROSOFT"));
    assert!(linux_release_indicates_wsl("xMicroSoft"));
    assert!(!linux_release_indicates_wsl("microsof"));
    assert!(!linux_release_indicates_wsl(""));
}
