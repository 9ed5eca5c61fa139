use flowmux::asr::{
    check_digest, download_total, effective_threads, entries, find, finished_text, is_blank_text, preview,
    progress_due, recommended_default, sanitize_for_pty, PREVIEW_CHARS, AsrEngineConfig, DownloadError, Language, MockEngine, ModelId,
    ModelLanguages, ModelStore, SessionConfig, PROGRESS_STEP_BYTES,
};
use flowmux::asr::{
    transcription_outcome, AsrEngineError, DownloadEvent, DownloadTracker, PttControl, PttOutcome,
    PttStep,
};
use std::path::PathBuf;

#[test]
fn catalog_is_non_empty_and_unique() {
    let rows = entries();
    assert!(!rows.is_empty());
    let mut ids: Vec<_> = rows.iter().map(|r| r.id.as_str().to_string()).collect();
    ids.sort();
    let original_len = ids.len();
    ids.dedup();
    assert_eq!(ids.len(), original_len, "duplicate model ids in catalog");
}

#[test]
fn every_url_is_https_huggingface() {
    for entry in entries() {
        assert!(
            entry.url.starts_with("https://huggingface.co/"),
            "non-trusted host in catalog: {}",
            entry.url
        );
    }
}

#[test]
fn sha256_strings_are_either_empty_or_64_lowercase_hex() {
    for entry in entries() {
        if entry.sha256.is_empty() {
            continue;
        }
        assert_eq!(entry.sha256.len(), 64, "bad sha256 length on {:?}", entry.id);
        assert!(
            entry
                .sha256
                .chars()
                .all(|c| c.is_ascii_hexdigit() && !c.is_ascii_uppercase()),
            "sha256 must be lowercase hex: {}",
            entry.sha256
        );
    }
}

#[test]
fn recommended_default_is_in_catalog() {
    let recommended = recommended_default();
    assert!(entries().iter().any(|e| e.id == recommended.id));
}

#[test]
fn filename_uses_id_with_bin_extension() {
    let entry = recommended_default();
    assert_eq!(entry.filename(), format!("{}.bin", entry.id.as_str()));
}

#[test]
fn whisper_code_maps_auto_and_codes() {
    assert_eq!(Language::Auto.whisper_code(), "auto");
    assert_eq!(Language::Code("ko".into()).whisper_code(), "ko");
}

#[test]
fn engine_config_clamps_threads_at_zero() {
    let cfg = AsrEngineConfig::new(PathBuf::from("/tmp/m.bin"), ModelLanguages::Multilingual)
        .with_threads(-4);
    assert_eq!(cfg.threads, 0);
}

#[test]
fn sanitize_drops_escape_and_keeps_tab_newline() {
    let raw = "hello\t world\nrm -rf /\x1b]0;evil\x07";
    let out = sanitize_for_pty(raw);
    assert!(!out.contains('\x1b'));
    assert!(!out.contains('\x07'));
    assert!(out.contains('\t'));
    assert!(out.contains('\n'));
}

#[test]
fn sanitize_passes_korean_through_unchanged() {
    let raw = "안녕하세요 flowmux";
    assert_eq!(sanitize_for_pty(raw), raw);
}

#[test]
fn partial_path_appends_partial_suffix_to_final_path() {
    let store = ModelStore::new("/tmp/flowmux-store-test/models");
    let entry = recommended_default();
    let final_path = store.model_path(&entry);
    let partial = store.partial_path(&entry);
    let expected_partial = format!("{}.partial", final_path);
    assert_eq!(partial, expected_partial);
    assert!(partial.ends_with(".bin.partial"));
}

#[test]
fn model_path_joins_root_and_file_name() {
    let store = ModelStore::new("/data/models");
    let entry = recommended_default();
    assert_eq!(store.model_path(&entry), "/data/models/ggml-small-q5_1.bin");
    assert_eq!(store.root(), "/data/models");
}

#[test]
fn recommended_default_is_small_q5() {
    let entry = recommended_default();
    assert_eq!(entry.id.as_str(), "ggml-small-q5_1");
    assert_eq!(entry.size_bytes, 190_000_000);
    assert_eq!(entries().len(), 4);
}

#[test]
fn find_locates_known_ids_and_rejects_unknown() {
    let found = find(&ModelId("ggml-medium-q5_0".to_string())).unwrap();
    assert_eq!(found.id.as_str(), "ggml-medium-q5_0");
    assert!(found.url.ends_with("ggml-medium-q5_0.bin"));
    assert!(find(&ModelId("ggml-large".to_string())).is_none());
}

#[test]
fn installed_id_strips_bin_suffix_only() {
    assert_eq!(
        ModelStore::installed_id("ggml-tiny-q5_1.bin"),
        Some(ModelId("ggml-tiny-q5_1".to_string()))
    );
    assert_eq!(ModelStore::installed_id("README.md"), None);
    assert_eq!(ModelStore::installed_id("ggml-tiny-q5_1.bin.partial"), None);
    assert_eq!(ModelStore::installed_id(".bin"), Some(ModelId(String::new())));
    assert_eq!(ModelStore::installed_id("bin"), None);
}

#[test]
fn digest_check_skips_empty_and_reports_mismatch() {
    assert!(check_digest("", "abc").is_ok());
    assert!(check_digest("abc", "abc").is_ok());
    match check_digest("abc", "abd") {
        Err(DownloadError::HashMismatch { expected, actual }) => {
            assert_eq!(expected, "abc");
            assert_eq!(actual, "abd");
        }
        other => panic!("unexpected {:?}", other),
    }
}

#[test]
fn download_total_prefers_announced_length() {
    assert_eq!(download_total(Some(10), 99), Some(10));
    assert_eq!(download_total(None, 99), Some(99));
}

#[test]
fn progress_is_due_every_step() {
    assert_eq!(PROGRESS_STEP_BYTES, 256 * 1024);
    assert!(!progress_due(PROGRESS_STEP_BYTES - 1, 0));
    assert!(progress_due(PROGRESS_STEP_BYTES, 0));
    assert!(progress_due(3 * PROGRESS_STEP_BYTES, 2 * PROGRESS_STEP_BYTES));
}

#[test]
fn sanitize_drops_del_and_c0_controls() {
    assert_eq!(sanitize_for_pty("a\x7fb\x00c\rd"), "abcd");
    assert_eq!(sanitize_for_pty(""), "");
}

#[test]
fn engine_config_builders_and_defaults() {
    let cfg = AsrEngineConfig::new(PathBuf::from("/m.bin"), ModelLanguages::English)
        .with_language(Language::Code("en".into()))
        .with_threads(3)
        .with_translate(true);
    assert_eq!(cfg.threads, 3);
    assert!(cfg.translate_to_english);
    assert_eq!(cfg.language.whisper_code(), "en");
    assert_eq!(cfg.languages, ModelLanguages::English);
    let engine = MockEngine::new(cfg);
    assert_eq!(engine.name(), "mock");
    assert_eq!(Language::default(), Language::Auto);
    let session = SessionConfig::default();
    assert_eq!(session.max_duration_ms, 30_000);
    assert_eq!(session.min_duration_ms, 200);
    assert!(!session.auto_enter);
    assert!(session.device_name.is_none());
}

#[test]
fn transcription_is_blank_when_text_is_whitespace() {
    assert!(is_blank_text("   \n  "));
    assert!(!is_blank_text("hello"));
    assert!(is_blank_text(""));
}

#[test]
fn finished_text_drops_blank_and_appends_enter() {
    assert_eq!(finished_text("  \t".into(), true), None);
    assert_eq!(finished_text("ls".into(), false), Some("ls".to_string()));
    assert_eq!(finished_text("ls".into(), true), Some("ls\r".to_string()));
    assert_eq!(finished_text("ls\n".into(), true), Some("ls\n".to_string()));
}

#[test]
fn preview_truncates_long_text_with_an_ellipsis() {
    assert_eq!(PREVIEW_CHARS, 60);
    assert_eq!(preview("짧은 문장"), "짧은 문장");
    let long: String = "가".repeat(61);
    let p = preview(&long);
    assert_eq!(p.chars().count(), 61);
    assert!(p.ends_with('…'));
    assert!(p.starts_with(&"가".repeat(60)));
    let exact: String = "a".repeat(60);
    assert_eq!(preview(&exact), exact);
}

#[test]
fn default_store_lives_under_the_data_directory() {
    assert_eq!(ModelStore::under("/home/u/.local/share").root(), "/home/u/.local/share/flowmux/asr/models");
    if let Some(store) = ModelStore::xdg_default() {
        assert!(store.root().ends_with("/flowmux/asr/models"));
    }
}

#[test]
fn thread_count_prefers_configuration_then_machine() {
    assert_eq!(effective_threads(3, Some(64)), 3);
    assert_eq!(effective_threads(0, Some(64)), 8);
    assert_eq!(effective_threads(0, Some(7)), 5);
    assert_eq!(effective_threads(0, Some(3)), 1);
    assert_eq!(effective_threads(0, Some(4)), 2);
    assert_eq!(effective_threads(-1, Some(2)), 2);
    assert_eq!(effective_threads(-1, Some(1)), 2);
    assert_eq!(effective_threads(0, None), 2);
    assert_eq!(effective_threads(0, Some(10)), 8);
}

#[test]
fn download_tracker_reports_steps_and_checks_the_digest() {
    let (mut t, started) = DownloadTracker::start(None, 99);
    assert!(matches!(started, DownloadEvent::Started { total: Some(99) }));
    assert!(t.on_chunk(b"a").is_none());
    let big = vec![0u8; PROGRESS_STEP_BYTES as usize];
    match t.on_chunk(&big) {
        Some(DownloadEvent::Progress(p)) => {
            assert_eq!(p.bytes_received, PROGRESS_STEP_BYTES + 1);
            assert_eq!(p.total, Some(99));
        }
        other => panic!("unexpected {:?}", other),
    }
    assert!(t.on_chunk(b"bc").is_none());
    assert!(t.finish("").is_ok());

    let (mut t, _) = DownloadTracker::start(Some(3), 99);
    t.on_chunk(b"a");
    t.on_chunk(b"bc");
    assert!(t.finish("ba7816bf8f01cfea414140de5dae2223b00361a396177a9cb410ff61f20015ad").is_ok());

    let (mut t, _) = DownloadTracker::start(Some(3), 99);
    t.on_chunk(b"abd");
    match t.finish("ba7816bf8f01cfea414140de5dae2223b00361a396177a9cb410ff61f20015ad") {
        Err(DownloadError::HashMismatch { expected, actual }) => {
            assert_eq!(expected, "ba7816bf8f01cfea414140de5dae2223b00361a396177a9cb410ff61f20015ad");
            assert_eq!(actual.len(), 64);
            assert_ne!(actual, expected);
        }
        other => panic!("unexpected {:?}", other),
    }
}

#[test]
fn usage_counts_verified_model_files_only() {
    let files = vec![
        ("a.bin".to_string(), 1024u64),
        ("b.bin".to_string(), 256),
        ("b.bin.partial".to_string(), 99),
        ("README.md".to_string(), 7),
    ];
    assert_eq!(ModelStore::usage_of(&files), 1024 + 256);
    assert_eq!(ModelStore::usage_of(&Vec::new()), 0);
}

#[test]
fn session_returns_failed_when_finishing_without_start() {
    let mut session = PttControl::new();
    let step = session.finish();
    assert!(matches!(step, PttStep::Fail(_)));
    assert!(!session.is_recording());
}

#[test]
fn session_is_recording_flag_tracks_capture_state() {
    let session = PttControl::new();
    assert!(!session.is_recording());
}

#[test]
fn session_steps_through_start_finish_and_cancel() {
    let mut session = PttControl::new();
    assert_eq!(session.start(), PttStep::StartCapture);
    session.capture_started();
    assert!(session.is_recording());
    assert_eq!(session.start(), PttStep::Fail("이미 녹음 중입니다".to_string()));
    assert_eq!(session.finish(), PttStep::StopAndTranscribe);
    assert!(!session.is_recording());
    assert_eq!(session.finish(), PttStep::Fail("녹음이 시작되지 않았습니다".to_string()));
    session.capture_started();
    assert!(session.cancel());
    assert!(session.cancel_requested());
    assert!(!session.is_recording());
    assert!(!session.cancel());
    session.capture_started();
    assert!(!session.cancel_requested());
}

#[test]
fn transcription_results_map_to_reports() {
    assert_eq!(transcription_outcome(Ok("ls".into()), true), PttOutcome::Done("ls\r".into()));
    assert_eq!(transcription_outcome(Ok(" \n".into()), true), PttOutcome::DroppedBlank);
    assert_eq!(transcription_outcome(Err(AsrEngineError::Cancelled), false), PttOutcome::Cancelled);
    assert_eq!(
        transcription_outcome(Err(AsrEngineError::Inference("boom".into())), false),
        PttOutcome::Failed("inference failed: boom".into())
    );
    assert_eq!(AsrEngineError::ModelMissing("/m.bin".into()).message(), "model file not found: /m.bin");
    assert_eq!(AsrEngineError::ModelLoad("x".into()).message(), "model load failed: x");
    assert_eq!(AsrEngineError::Cancelled.message(), "cancelled");
}
