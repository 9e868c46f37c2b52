use vstd::prelude::*;
use crate::importer::ImportPhase;

verus! {

/// Announcement of a volume that appeared under the mount root.
#[derive(Debug)]
pub struct MountDetected {
    pub path: String,
    pub name: String,
    pub has_recorder_id: bool,
}

/// Announcement of a volume that disappeared from the mount root.
#[derive(Debug)]
pub struct MountRemoved {
    pub path: String,
    pub name: String,
}

/// Progress of one import, emitted once per phase step.
#[derive(Debug)]
pub struct ImportProgress {
    pub batch_id: String,
    pub phase: String,
    pub current: u32,
    pub total: u32,
    pub file_name: Option<String>,
    pub message: Option<String>,
}

/// Progress of one hash or hash-copy pass, emitted at least every five
/// mebibytes and at completion.
#[derive(Debug)]
pub struct HashProgress {
    pub file_name: String,
    pub bytes_hashed: u64,
    pub total_bytes: u64,
}

/// Progress of one upload; part fields are set for multipart transfers.
#[derive(Debug)]
pub struct UploadProgress {
    pub recording_id: String,
    pub file_name: String,
    pub bytes_uploaded: u64,
    pub total_bytes: u64,
    pub part_number: Option<u32>,
    pub total_parts: Option<u32>,
}

/// The phase tag an import progress event carries for each driver phase.
pub open spec fn spec_phase_name(p: ImportPhase) -> Seq<char> {
    match p {
        ImportPhase::Scanning => "scanning"@,
        ImportPhase::Staging => "copying"@,
        ImportPhase::Preflight => "preflight"@,
        ImportPhase::Uploading => "uploading"@,
        ImportPhase::Done => "done"@,
        ImportPhase::Cancelled => "error"@,
        ImportPhase::Failed => "error"@,
    }
}

/// The phase tag of an import progress event.
pub fn phase_name(p: ImportPhase) -> (r: String)
    ensures
        r@ == spec_phase_name(p),
{
    match p {
        ImportPhase::Scanning => String::from_str("scanning"),
        ImportPhase::Staging => String::from_str("copying"),
        ImportPhase::Preflight => String::from_str("preflight"),
        ImportPhase::Uploading => String::from_str("uploading"),
        ImportPhase::Done => String::from_str("done"),
        ImportPhase::Cancelled => String::from_str("error"),
        ImportPhase::Failed => String::from_str("error"),
    }
}

} // verus!
