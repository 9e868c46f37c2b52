use voice_trunk::api_client::{auth_header_pairs, parse_preflight_status, preflight_url,
    presign_part_url, presign_url, complete_multipart_url, AuthHeaders, CompletedPart,
    PreflightStatus};
use voice_trunk::converter::{ffmpeg_args, needs_conversion, LARGE_WAV_THRESHOLD};
use voice_trunk::filename::{eq_ignore_case, extension_of, mp3_sibling, starts_with_dot};
use voice_trunk::hasher::{hash_chunks, progress_due, to_hex, ChunkAccumulator};
use voice_trunk::scanner::{audio_name, select_audio_files, ScanEntry};
use voice_trunk::uploader::{is_success_status, part_range, pending_parts, total_parts,
    MultipartSession, MAX_CONCURRENT, MULTIPART_THRESHOLD, PART_SIZE};

const MIB: u64 = 1024 * 1024;

#[test]
fn conversion_rules() {
    assert!(needs_conversion("talk.wma", 1));
    assert!(needs_conversion("TALK.WMA", 1));
    assert!(!needs_conversion("talk.wav", 50 * MIB));
    assert!(needs_conversion("talk.wav", 50 * MIB + 1));
    assert!(needs_conversion("talk.WAV", LARGE_WAV_THRESHOLD + 1));
    assert!(!needs_conversion("talk.mp3", u64::MAX));
    assert!(!needs_conversion("noextension", 1 << 40));
    assert!(!needs_conversion(".wav", 1 << 40));
}

#[test]
fn extension_and_stem() {
    assert_eq!(extension_of("a.WAV").unwrap(), "WAV");
    assert_eq!(extension_of("archive.tar.gz").unwrap(), "gz");
    assert!(extension_of("noext").is_none());
    assert!(extension_of(".hidden").is_none());
    assert_eq!(mp3_sibling("rec.wav"), "rec.mp3");
    assert_eq!(mp3_sibling("noext"), "noext.mp3");
    assert_eq!(mp3_sibling("a.b.c"), "a.b.mp3");
    assert!(eq_ignore_case("FLAc", "flac"));
    assert!(!eq_ignore_case("flak", "flac"));
    assert!(starts_with_dot(".git"));
    assert!(!starts_with_dot("git"));
}

#[test]
fn hash_known_digest() {
    let chunks = vec![b"abc".to_vec()];
    let d = hash_chunks(&chunks);
    assert_eq!(d, "ba7816bf8f01cfea414140de5dae2223b00361a396177a9cb410ff61f20015ad");
}

#[test]
fn hash_empty_digest() {
    let chunks: Vec<Vec<u8>> = Vec::new();
    let d = hash_chunks(&chunks);
    assert_eq!(d, "e3b0c44298fc1c149afbf4c8996fb92427ae41e4649b934ca495991b7852b855");
}

#[test]
fn hash_chunking_is_irrelevant() {
    let one = vec![b"hello world".to_vec()];
    let split = vec![b"hello ".to_vec(), b"wor".to_vec(), b"ld".to_vec()];
    assert_eq!(hash_chunks(&one), hash_chunks(&split));
}

#[test]
fn accumulator_matches_hash_chunks() {
    let mut acc = ChunkAccumulator::new();
    acc.update(b"he");
    acc.update(b"llo");
    assert_eq!(acc.len(), 5);
    let whole = vec![b"hello".to_vec()];
    assert_eq!(acc.hex_digest(), hash_chunks(&whole));
}

#[test]
fn hex_encoding() {
    let bytes = vec![0x00u8, 0xff, 0x1a];
    assert_eq!(to_hex(&bytes), "00ff1a");
}

#[test]
fn progress_interval() {
    assert!(!progress_due(5 * MIB - 1, 0));
    assert!(progress_due(5 * MIB, 0));
    assert!(!progress_due(9 * MIB, 5 * MIB));
    assert!(progress_due(10 * MIB, 5 * MIB));
}

#[test]
fn multipart_constants() {
    assert_eq!(MULTIPART_THRESHOLD, 100 * MIB);
    assert_eq!(PART_SIZE, 10 * MIB);
    assert_eq!(MAX_CONCURRENT, 4);
}

#[test]
fn part_count_of_25_mib() {
    let size = 25 * MIB;
    assert_eq!(total_parts(size), 3);
    assert_eq!(part_range(size, 1), (0, 10 * MIB));
    assert_eq!(part_range(size, 2), (10 * MIB, 10 * MIB));
    assert_eq!(part_range(size, 3), (20 * MIB, 5 * MIB));
}

#[test]
fn part_count_boundaries() {
    assert_eq!(total_parts(1), 1);
    assert_eq!(total_parts(10 * MIB), 1);
    assert_eq!(total_parts(10 * MIB + 1), 2);
}

#[test]
fn pending_parts_resume() {
    let completed = vec![1u32, 3];
    assert_eq!(pending_parts(3, &completed), vec![2u32]);
    let none_done: Vec<u32> = Vec::new();
    assert_eq!(pending_parts(3, &none_done), vec![1u32, 2, 3]);
    assert_eq!(pending_parts(0, &none_done), Vec::<u32>::new());
}

#[test]
fn multipart_session_fresh() {
    let mut session = MultipartSession::new(3, Vec::new());
    assert_eq!(session.pending(), vec![1u32, 2, 3]);
    assert!(session.record(CompletedPart { part_number: 1, etag: "e1".to_string() }));
    assert!(session.record(CompletedPart { part_number: 2, etag: "e2".to_string() }));
    assert!(session.finish().is_none());
    assert!(session.record(CompletedPart { part_number: 3, etag: "e3".to_string() }));
    let list = session.finish().expect("all parts recorded");
    assert_eq!(list.len(), 3);
    assert_eq!(list[0].part_number, 1);
    assert_eq!(list[0].etag, "e1");
    assert_eq!(list[1].part_number, 2);
    assert_eq!(list[1].etag, "e2");
    assert_eq!(list[2].part_number, 3);
    assert_eq!(list[2].etag, "e3");
}

#[test]
fn multipart_session_resume() {
    let prior = vec![
        CompletedPart { part_number: 1, etag: "e1".to_string() },
        CompletedPart { part_number: 3, etag: "e3".to_string() },
    ];
    let mut session = MultipartSession::new(3, prior);
    assert_eq!(session.pending(), vec![2u32]);
    assert!(session.record(CompletedPart { part_number: 2, etag: "e2".to_string() }));
    let list = session.finish().expect("all parts present");
    let numbers: Vec<u32> = list.iter().map(|p| p.part_number).collect();
    let etags: Vec<&str> = list.iter().map(|p| p.etag.as_str()).collect();
    assert_eq!(numbers, vec![1, 2, 3]);
    assert_eq!(etags, vec!["e1", "e2", "e3"]);
}

#[test]
fn multipart_session_rejects_bad_parts() {
    let mut session = MultipartSession::new(2, Vec::new());
    assert!(!session.record(CompletedPart { part_number: 0, etag: "x".to_string() }));
    assert!(!session.record(CompletedPart { part_number: 3, etag: "x".to_string() }));
    assert!(session.record(CompletedPart { part_number: 1, etag: "a".to_string() }));
    assert!(!session.record(CompletedPart { part_number: 1, etag: "b".to_string() }));
    assert_eq!(session.pending(), vec![2u32]);
}

#[test]
fn success_status_codes() {
    assert!(is_success_status(200));
    assert!(is_success_status(204));
    assert!(is_success_status(299));
    assert!(!is_success_status(199));
    assert!(!is_success_status(300));
    assert!(!is_success_status(500));
}

#[test]
fn api_urls() {
    assert_eq!(
        preflight_url("http://localhost:8787/"),
        "http://localhost:8787/api/v1/recordings/preflight-batch"
    );
    assert_eq!(
        preflight_url("https://api.example.com"),
        "https://api.example.com/api/v1/recordings/preflight-batch"
    );
    assert_eq!(presign_url("http://s//", "r1"), "http://s/api/v1/recordings/r1/presign");
    assert_eq!(presign_part_url("http://s", "r1"), "http://s/api/v1/recordings/r1/presign-part");
    assert_eq!(
        complete_multipart_url("http://s", "r1"),
        "http://s/api/v1/recordings/r1/complete-multipart"
    );
}

#[test]
fn preflight_status_tags() {
    assert_eq!(parse_preflight_status("NEW"), Some(PreflightStatus::New));
    assert_eq!(parse_preflight_status("ALREADY_EXISTS"), Some(PreflightStatus::AlreadyExists));
    assert_eq!(parse_preflight_status("new"), None);
    assert_eq!(parse_preflight_status(""), None);
}

#[test]
fn encoder_arguments() {
    let args = ffmpeg_args("/in/a.wav", "/out/a.mp3");
    let expect = vec!["-y", "-i", "/in/a.wav", "-ac", "1", "-ar", "16000", "-b:a", "64k",
        "/out/a.mp3"];
    let got: Vec<&str> = args.iter().map(|a| a.as_str()).collect();
    assert_eq!(got, expect);
}

fn entry(path: &str, name: &str, dirs: &[&str], size: u64, modified: u64) -> ScanEntry {
    ScanEntry {
        path: path.to_string(),
        name: name.to_string(),
        dir_names: dirs.iter().map(|d| d.to_string()).collect(),
        size,
        modified,
    }
}

#[test]
fn scan_selects_audio_sorted() {
    let entries = vec![
        entry("/v/a.wav", "a.wav", &[], 10, 100),
        entry("/v/b.txt", "b.txt", &[], 10, 500),
        entry("/v/sub/c.MP3", "c.MP3", &["sub"], 10, 300),
        entry("/v/.trash/d.mp3", "d.mp3", &[".trash"], 10, 900),
        entry("/v/e.flac", "e.flac", &["music", "live"], 10, 200),
    ];
    let out = select_audio_files(&entries);
    let names: Vec<&str> = out.iter().map(|f| f.name.as_str()).collect();
    assert_eq!(names, vec!["c.MP3", "e.flac", "a.wav"]);
    assert!(out.windows(2).all(|w| w[0].modified >= w[1].modified));
}

#[test]
fn scan_empty_dir() {
    let entries: Vec<ScanEntry> = Vec::new();
    assert!(select_audio_files(&entries).is_empty());
}

#[test]
fn audio_names() {
    for ok in ["x.wav", "x.mp3", "x.wma", "x.m4a", "x.flac", "x.ogg", "x.OGG"] {
        assert!(audio_name(ok), "{ok} should be audio");
    }
    for bad in ["x.txt", "x", ".wav", "x.aiff"] {
        assert!(!audio_name(bad), "{bad} should not be audio");
    }
}

#[test]
fn auth_headers_injected_iff_client_id_present() {
    let pairs = auth_header_pairs(&AuthHeaders {
        client_id: "id-1".to_string(),
        client_secret: "client-secret-value".to_string(),
    });
    assert_eq!(pairs.len(), 2);
    assert_eq!(pairs[0].0, "Cf-Access-Client-Id");
    assert_eq!(pairs[0].1, "id-1");
    assert_eq!(pairs[1].0, "Cf-Access-Client-Secret");
    assert_eq!(pairs[1].1, "client-secret-value");

    let none = auth_header_pairs(&AuthHeaders {
        client_id: String::new(),
        client_secret: "unused".to_string(),
    });
    assert!(none.is_empty());
}
