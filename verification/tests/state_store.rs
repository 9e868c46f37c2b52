use voice_trunk::codec::{encode_app_state, parse_app_state};
use voice_trunk::config::{default_auto_import, default_ffmpeg_path, default_max_storage_gb,
    default_watch_interval_ms, get_config_path, get_inbox_path, get_state_path, AppConfig};
use voice_trunk::error::AppError;
use voice_trunk::events::phase_name;
use voice_trunk::importer::{build_batch_id, fits_quota, rand_char, staging_dest, ImportDriver,
    ImportPhase, ImportRegistry};
use voice_trunk::api_client::{PreflightResult, PreflightStatus};
use voice_trunk::importer::apply_preflight_results;
use voice_trunk::state::{new_managed_state, AppState, BatchState, BatchStatus, FileStatus};
use voice_trunk::volumes::{build_recorder_identifier, diff_mounts, is_system_volume, volume_path};

#[test]
fn defaults() {
    let c = AppConfig::default();
    assert_eq!(c.server_url, "http://localhost:8787");
    assert_eq!(c.max_storage_gb, 50);
    assert_eq!(c.ffmpeg_path, "ffmpeg");
    assert!(c.auto_import);
    assert!(!c.auto_start);
    assert_eq!(c.watch_interval_ms, 3000);
    assert_eq!(default_max_storage_gb(), 50);
    assert_eq!(default_ffmpeg_path(), "ffmpeg");
    assert!(default_auto_import());
    assert_eq!(default_watch_interval_ms(), 3000);
}

#[test]
fn well_known_paths() {
    assert_eq!(get_config_path("/base"), "/base/config.json");
    assert_eq!(get_state_path("/base"), "/base/state.json");
    assert_eq!(get_inbox_path("/base"), "/base/inbox");
}

#[test]
fn staging_layout() {
    assert_eq!(
        staging_dest("/base/inbox", "batch-1", "dev-7", "a.wav"),
        "/base/inbox/batch-1/dev-7/a.wav"
    );
}

#[test]
fn batch_status_lifecycle() {
    let mut b = BatchState::new_open("dev".to_string());
    assert_eq!(b.status, BatchStatus::Open);
    assert_eq!(b.derive_status(), BatchStatus::Completed);

    b.record_staged("h1".to_string());
    b.record_staged("h2".to_string());
    assert_eq!(b.derive_status(), BatchStatus::Uploading);

    assert!(b.mark_uploaded("h1"));
    assert_eq!(b.derive_status(), BatchStatus::Uploading);

    assert!(b.set_error("h2", "presign failed".to_string()));
    assert_eq!(b.derive_status(), BatchStatus::PartialError);

    assert!(b.mark_uploaded("h2"));
    assert_eq!(b.derive_status(), BatchStatus::Completed);
}

#[test]
fn staging_collapses_identical_content() {
    let mut b = BatchState::new_open("dev".to_string());
    b.record_staged("same".to_string());
    assert!(b.mark_uploaded("same"));
    b.record_staged("same".to_string());
    assert_eq!(b.files.len(), 1);
    assert!(!b.files[0].status.uploaded);
}

#[test]
fn preflight_merge() {
    let mut b = BatchState::new_open("dev".to_string());
    b.record_staged("h1".to_string());
    assert!(b.set_preflight(
        "h1",
        "r1".to_string(),
        Some("u1".to_string()),
        Some("k1".to_string()),
        true,
    ));
    let st = b.status_of("h1").unwrap();
    assert_eq!(st.recording_id, "r1");
    assert!(st.uploaded);
    assert_eq!(st.upload_id.as_deref(), Some("u1"));
    assert_eq!(st.raw_r2_key.as_deref(), Some("k1"));
    assert!(!b.set_preflight("missing", "r".to_string(), None, None, false));
}

#[test]
fn completed_parts_grow_without_duplicates() {
    let mut b = BatchState::new_open("dev".to_string());
    b.record_staged("h1".to_string());
    assert!(b.set_multipart_upload_id("h1", "mu-1".to_string()));
    assert!(b.set_multipart_upload_id("h1", "mu-2".to_string()));
    assert!(b.append_completed_part("h1", 2));
    assert!(b.append_completed_part("h1", 1));
    assert!(b.append_completed_part("h1", 2));
    let st = b.status_of("h1").unwrap();
    assert_eq!(st.multipart_upload_id.as_deref(), Some("mu-1"));
    assert_eq!(st.completed_parts, Some(vec![2, 1]));
}

#[test]
fn app_state_batches() {
    let mut app = AppState::new_empty();
    app.insert_open_batch("b1".to_string(), "dev".to_string());
    app.insert_open_batch("b2".to_string(), "dev".to_string());
    assert!(app.has_batch("b1"));
    assert!(!app.has_batch("b3"));

    assert!(app.set_batch_status("b1", BatchStatus::Completed));
    assert_eq!(app.batch_derived_status("b1"), Some(BatchStatus::Completed));
    assert!(app.batch_derived_status("nope").is_none());

    let done = app.completed_batch_ids();
    assert_eq!(done.len(), 2);

    assert!(app.remove_batch("b1"));
    assert!(!app.remove_batch("b1"));
    assert!(!app.has_batch("b1"));
    assert!(app.has_batch("b2"));
}

#[test]
fn snapshot_is_deep() {
    let mut app = AppState::new_empty();
    app.insert_open_batch("b1".to_string(), "dev".to_string());
    let snap = app.snapshot();
    assert!(app.set_batch_status("b1", BatchStatus::Completed));
    assert_eq!(snap.batches[0].state.status, BatchStatus::Open);
    let managed = new_managed_state(snap);
    assert!(managed.inner.has_batch("b1"));
}

#[test]
fn batch_id_shape() {
    let entropy = vec![0u64, 1, 2, 3, 35, 36];
    let id = build_batch_id("20260101093000", &entropy).unwrap();
    assert_eq!(id.len(), 27);
    assert!(id.starts_with("batch-20260101093000-"));
    assert_eq!(&id[21..], "abcd9a");
    assert!(build_batch_id("2026", &entropy).is_none());
    assert!(build_batch_id("2026010109300x", &entropy).is_none());
    assert!(build_batch_id("20260101093000", &vec![1, 2]).is_none());
}

#[test]
fn rand_char_alphabet() {
    assert_eq!(rand_char(0), 'a');
    assert_eq!(rand_char(25), 'z');
    assert_eq!(rand_char(26), '0');
    assert_eq!(rand_char(35), '9');
    assert_eq!(rand_char(36), 'a');
}

#[test]
fn registry_uniqueness_and_cancel() {
    let mut reg = ImportRegistry::new();
    let id = "batch-20260101093000-abc123".to_string();
    assert!(reg.register(id.clone()));
    assert!(!reg.register(id.clone()));
    assert!(!reg.register("not-a-batch-id".to_string()));

    assert!(!reg.is_cancelled(&id));
    assert!(reg.cancel_import(&id).is_ok());
    assert!(reg.is_cancelled(&id));
    match reg.cancel_import("batch-20260101093000-zzz999") {
        Err(AppError::NotFound(_)) => {},
        _ => panic!("cancel of unknown batch must be NotFound"),
    }
    assert!(reg.remove(&id));
    assert!(!reg.remove(&id));
}

#[test]
fn generated_ids_register_and_validate() {
    let mut reg = ImportRegistry::new();
    let a = reg.generate_batch_id(&vec![1, 2, 3, 4, 5, 6]).unwrap();
    let b = reg.generate_batch_id(&vec![7, 8, 9, 10, 11, 12]).unwrap();
    assert_ne!(a, b);
    for id in [&a, &b] {
        assert_eq!(id.len(), 27);
        assert!(id.starts_with("batch-"));
        assert!(id.as_bytes()[6..20].iter().all(|c| c.is_ascii_digit()));
        assert_eq!(id.as_bytes()[20], b'-');
        assert!(id.as_bytes()[21..].iter().all(|c| c.is_ascii_lowercase()
            || c.is_ascii_digit()));
        assert!(reg.is_cancelled(id) == false);
    }
}

#[test]
fn generated_ids_stay_reserved_after_remove() {
    let mut reg = ImportRegistry::new();
    let a = reg.generate_batch_id(&vec![1, 2, 3, 4, 5, 6]).unwrap();
    assert!(reg.remove(&a));
    // With the same entropy the candidate repeats the issued id until the
    // clock second changes; the generator refuses it instead of reissuing.
    // Whenever it does hand out an id again, it is a fresh one.
    for _ in 0..64 {
        if let Some(b) = reg.generate_batch_id(&vec![1, 2, 3, 4, 5, 6]) {
            assert_ne!(a, b);
            return;
        }
    }
}

#[test]
fn quota_check() {
    assert!(fits_quota(0, 1 << 30, 1));
    assert!(!fits_quota(1, 1 << 30, 1));
    assert!(fits_quota(u64::MAX - 1, 1, u64::MAX));
    assert!(!fits_quota(u64::MAX, u64::MAX, 1));
}

#[test]
fn driver_happy_path() {
    let mut d = ImportDriver::new();
    assert_eq!(d.phase, ImportPhase::Scanning);
    d.begin_staging(2);
    d.staged_one();
    d.staged_one();
    d.begin_preflight();
    d.begin_uploading(1);
    d.upload_settled();
    d.finish();
    assert!(d.is_finished());
    assert_eq!(d.phase, ImportPhase::Done);
}

#[test]
fn driver_cancellation_stops_at_boundary() {
    let mut d = ImportDriver::new();
    d.begin_staging(3);
    d.staged_one();
    assert!(!d.poll_cancel(false));
    assert_eq!(d.phase, ImportPhase::Staging);
    assert!(d.poll_cancel(true));
    assert_eq!(d.phase, ImportPhase::Cancelled);
    assert!(d.is_finished());
    assert!(!d.poll_cancel(true));
    assert_eq!(d.phase, ImportPhase::Cancelled);
}

#[test]
fn driver_empty_scan() {
    let mut d = ImportDriver::new();
    d.scan_empty();
    assert_eq!(d.phase, ImportPhase::Done);
}

#[test]
fn phase_names() {
    assert_eq!(phase_name(ImportPhase::Scanning), "scanning");
    assert_eq!(phase_name(ImportPhase::Staging), "copying");
    assert_eq!(phase_name(ImportPhase::Preflight), "preflight");
    assert_eq!(phase_name(ImportPhase::Uploading), "uploading");
    assert_eq!(phase_name(ImportPhase::Done), "done");
    assert_eq!(phase_name(ImportPhase::Failed), "error");
}

fn sample_state() -> AppState {
    let mut app = AppState::new_empty();
    app.insert_open_batch("batch-20260101093000-abc123".to_string(), "dev-1".to_string());
    let mut b = BatchState::new_open("dev-2".to_string());
    b.record_staged("aa11".to_string());
    assert!(b.set_preflight(
        "aa11",
        "rec-9".to_string(),
        Some("up-9".to_string()),
        Some("key/9".to_string()),
        false,
    ));
    assert!(b.set_multipart_upload_id("aa11", "mu-9".to_string()));
    assert!(b.append_completed_part("aa11", 1));
    assert!(b.append_completed_part("aa11", 3));
    assert!(b.set_error("aa11", "part 2 failed".to_string()));
    b.record_staged("bb22".to_string());
    assert!(b.mark_uploaded("bb22"));
    b.status = BatchStatus::PartialError;
    app.batches.push(voice_trunk::state::BatchEntry {
        batch_id: "batch-20260101093000-zzz999".to_string(),
        state: b,
    });
    app
}

#[test]
fn preflight_results_merge_into_state() {
    let mut app = AppState::new_empty();
    app.insert_open_batch("b1".to_string(), "dev".to_string());
    {
        let b = &mut app.batches[0].state;
        b.record_staged("h1".to_string());
        b.record_staged("h2".to_string());
    }
    let results = vec![
        PreflightResult {
            sha256: "h1".to_string(),
            status: PreflightStatus::AlreadyExists,
            recording_id: "r1".to_string(),
            upload_id: None,
            raw_r2_key: None,
        },
        PreflightResult {
            sha256: "h2".to_string(),
            status: PreflightStatus::New,
            recording_id: "r2".to_string(),
            upload_id: Some("u2".to_string()),
            raw_r2_key: Some("k2".to_string()),
        },
    ];
    assert!(apply_preflight_results(&mut app, "b1", &results));
    let b = &app.batches[0].state;
    let s1 = b.status_of("h1").unwrap();
    assert!(s1.uploaded);
    assert_eq!(s1.recording_id, "r1");
    let s2 = b.status_of("h2").unwrap();
    assert!(!s2.uploaded);
    assert_eq!(s2.upload_id.as_deref(), Some("u2"));
    assert!(!apply_preflight_results(&mut app, "missing", &results));
}

#[test]
fn state_round_trips_through_disk_form() {
    let app = sample_state();
    let bytes = encode_app_state(&app);
    let text = String::from_utf8(bytes.clone()).expect("snapshot is ASCII");
    assert!(text.starts_with("{\"batches\":{"));
    assert!(text.contains("\"status\":\"PARTIAL_ERROR\""));
    assert!(text.contains("\"uploaded\":true"));
    assert!(text.contains("\"completedParts\":\"0000000100000003\""));

    let back = parse_app_state(&bytes).expect("canonical snapshot parses");
    assert_eq!(back.batches.len(), app.batches.len());
    for (a, b) in app.batches.iter().zip(back.batches.iter()) {
        assert_eq!(a.batch_id, b.batch_id);
        assert_eq!(a.state.status, b.state.status);
        assert_eq!(a.state.device_id, b.state.device_id);
        assert_eq!(a.state.files.len(), b.state.files.len());
        for (x, y) in a.state.files.iter().zip(b.state.files.iter()) {
            assert_eq!(x.sha256, y.sha256);
            assert_eq!(x.status.recording_id, y.status.recording_id);
            assert_eq!(x.status.uploaded, y.status.uploaded);
            assert_eq!(x.status.error, y.status.error);
            assert_eq!(x.status.upload_id, y.status.upload_id);
            assert_eq!(x.status.raw_r2_key, y.status.raw_r2_key);
            assert_eq!(x.status.completed_parts, y.status.completed_parts);
            assert_eq!(x.status.multipart_upload_id, y.status.multipart_upload_id);
        }
    }
}

#[test]
fn empty_state_round_trips() {
    let app = AppState::new_empty();
    let bytes = encode_app_state(&app);
    assert_eq!(String::from_utf8(bytes.clone()).unwrap(), "{\"batches\":{}}");
    let back = parse_app_state(&bytes).expect("parses");
    assert!(back.batches.is_empty());
}

#[test]
fn special_characters_are_escaped_and_round_trip() {
    let mut app = AppState::new_empty();
    app.insert_open_batch("b1".to_string(), "dev \"quoted\" back\\slash".to_string());
    let bytes = encode_app_state(&app);
    let text = String::from_utf8(bytes.clone()).unwrap();
    assert!(text.contains("dev \\u0022quoted\\u0022 back\\u005cslash"));
    let back = parse_app_state(&bytes).expect("escaped snapshot parses");
    assert_eq!(back.batches[0].state.device_id, "dev \"quoted\" back\\slash");
}

#[test]
fn non_ascii_strings_round_trip() {
    let mut app = AppState::new_empty();
    app.insert_open_batch("b1".to_string(), "unit\u{00e9} caf\u{00e9}".to_string());
    app.insert_open_batch("b2".to_string(), "newline\nand tab\t".to_string());
    app.insert_open_batch("b3".to_string(), "astral \u{1F3B5} note".to_string());
    let bytes = encode_app_state(&app);
    let text = String::from_utf8(bytes.clone()).unwrap();
    assert!(text.is_ascii());
    assert!(text.contains("unit\\u00e9 caf\\u00e9"));
    assert!(text.contains("newline\\u000aand tab\\u0009"));
    assert!(text.contains("astral \\ud83c\\udfb5 note"));
    let back = parse_app_state(&bytes).expect("escaped snapshot parses");
    assert_eq!(back.batches[0].state.device_id, "unit\u{00e9} caf\u{00e9}");
    assert_eq!(back.batches[1].state.device_id, "newline\nand tab\t");
    assert_eq!(back.batches[2].state.device_id, "astral \u{1F3B5} note");
}

#[test]
fn error_text_with_embedded_json_round_trips() {
    let mut app = AppState::new_empty();
    app.insert_open_batch("b1".to_string(), "dev".to_string());
    app.batches[0].state.record_staged("h1".to_string());
    app.batches[0]
        .state
        .set_error("h1", "upload failed: Api { status: 500, message: \"{\\\"err\\\":1}\" }".to_string());
    let bytes = encode_app_state(&app);
    let back = parse_app_state(&bytes).expect("escaped snapshot parses");
    let st = back.batches[0].state.status_of("h1").unwrap();
    assert_eq!(
        st.error.as_deref(),
        Some("upload failed: Api { status: 500, message: \"{\\\"err\\\":1}\" }")
    );
}

#[test]
fn garbage_does_not_parse() {
    assert!(parse_app_state(b"").is_none());
    assert!(parse_app_state(b"{\"batches\":{").is_none());
    assert!(parse_app_state(b"{\"batches\":{}} trailing").is_none());
    assert!(parse_app_state(b"[1,2,3]").is_none());
}

#[test]
fn error_kinds() {
    let e = AppError::Cancelled;
    assert!(e.is_cancelled());
    let io = AppError::Io("disk gone".to_string());
    assert!(!io.is_cancelled());
}

#[test]
fn system_volumes() {
    for name in ["Macintosh HD", "Macintosh HD - Data", "Recovery", "Preboot", "VM", "Update",
        ".vol", ".hidden"] {
        assert!(is_system_volume(name), "{name} is a system volume");
    }
    assert!(!is_system_volume("RECORDER01"));
    assert_eq!(volume_path("SD01"), "/Volumes/SD01");
}

#[test]
fn mount_reconciliation() {
    let known = vec!["Macintosh HD".to_string(), "OLDCARD".to_string(), "KEEP".to_string()];
    let current = vec!["Macintosh HD".to_string(), "KEEP".to_string(), "NEWCARD".to_string(),
        "Preboot".to_string()];
    let (detected, removed) = diff_mounts(&known, &current);
    assert_eq!(detected, vec!["NEWCARD".to_string()]);
    assert_eq!(removed, vec!["OLDCARD".to_string()]);
}

#[test]
fn recorder_identifier_fields() {
    let id = build_recorder_identifier(
        Some("dev-1".to_string()),
        Some("Ward 3 recorder".to_string()),
        Some("org-9".to_string()),
        None,
    )
    .unwrap();
    assert_eq!(id.device_id, "dev-1");
    assert_eq!(id.label, "Ward 3 recorder");
    assert_eq!(id.org_id_hint.as_deref(), Some("org-9"));
    assert!(id.notes.is_none());

    match build_recorder_identifier(None, Some("x".to_string()), None, None) {
        Err(AppError::InvalidInput(_)) => {},
        _ => panic!("missing deviceId must be InvalidInput"),
    }
    match build_recorder_identifier(Some("d".to_string()), None, None, None) {
        Err(AppError::InvalidInput(_)) => {},
        _ => panic!("missing label must be InvalidInput"),
    }
}

#[test]
fn file_status_defaults() {
    let st = FileStatus::new_pending();
    assert_eq!(st.recording_id, "");
    assert!(!st.uploaded);
    assert!(st.error.is_none());
    assert!(st.upload_id.is_none());
    assert!(st.raw_r2_key.is_none());
    assert!(st.completed_parts.is_none());
    assert!(st.multipart_upload_id.is_none());
}

#[test]
fn dedup_skip_completes_without_upload() {
    let mut app = AppState::new_empty();
    app.insert_open_batch("b1".to_string(), "dev".to_string());
    app.batches[0].state.record_staged("h-a-wav".to_string());
    let results = vec![PreflightResult {
        sha256: "h-a-wav".to_string(),
        status: PreflightStatus::AlreadyExists,
        recording_id: "r1".to_string(),
        upload_id: None,
        raw_r2_key: None,
    }];
    assert!(apply_preflight_results(&mut app, "b1", &results));
    let new_count =
        results.iter().filter(|r| r.status == PreflightStatus::New).count();
    assert_eq!(new_count, 0, "nothing to presign or upload");
    let st = app.batches[0].state.status_of("h-a-wav").unwrap();
    assert_eq!(st.recording_id, "r1");
    assert!(st.uploaded);
    assert_eq!(app.batch_derived_status("b1"), Some(BatchStatus::Completed));
}

#[test]
fn cancellation_mid_staging_keeps_partial_batch() {
    let mut reg = ImportRegistry::new();
    let id = reg.generate_batch_id(&vec![1, 2, 3, 4, 5, 6]).unwrap();
    let mut app = AppState::new_empty();
    app.insert_open_batch(id.clone(), "dev".to_string());

    let mut d = ImportDriver::new();
    d.begin_staging(3);
    app.batches[0].state.record_staged("h1".to_string());
    d.staged_one();

    assert!(reg.cancel_import(&id).is_ok());
    assert!(d.poll_cancel(reg.is_cancelled(&id)));
    assert_eq!(d.phase, ImportPhase::Cancelled);

    assert_eq!(app.batches[0].state.files.len(), 1);
    assert_ne!(app.batch_derived_status(&id), Some(BatchStatus::Completed));
    assert!(reg.remove(&id));
}

#[test]
fn partial_error_isolates_failed_file() {
    let mut app = AppState::new_empty();
    app.insert_open_batch("b1".to_string(), "dev".to_string());
    {
        let b = &mut app.batches[0].state;
        b.record_staged("h1".to_string());
        b.record_staged("h2".to_string());
        assert!(b.mark_uploaded("h1"));
        assert!(b.set_error("h2", "presign answered 500".to_string()));
    }
    let derived = app.batch_derived_status("b1").unwrap();
    assert_eq!(derived, BatchStatus::PartialError);
    assert!(app.set_batch_status("b1", derived));
    let h1 = app.batches[0].state.status_of("h1").unwrap();
    assert!(h1.uploaded && h1.error.is_none());
    let h2 = app.batches[0].state.status_of("h2").unwrap();
    assert!(!h2.uploaded && h2.error.is_some());
}
