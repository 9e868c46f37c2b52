use vstd::prelude::*;
use crate::filename::{eq_ignore_ascii_case, eq_ignore_case, extension_of, spec_extension};

verus! {

/// WAV files above this size (50 MiB) are transcoded before upload.
pub const LARGE_WAV_THRESHOLD: u64 = 50 * 1024 * 1024;

/// A file needs transcoding exactly when its extension is `wma`, or is `wav`
/// and the file is larger than [`LARGE_WAV_THRESHOLD`]. Extensions compare
/// ignoring ASCII case.
pub open spec fn spec_needs_conversion(name: Seq<char>, size: u64) -> bool {
    match spec_extension(name) {
        Some(e) => eq_ignore_ascii_case(e, "wma"@) || (eq_ignore_ascii_case(e, "wav"@)
            && size > LARGE_WAV_THRESHOLD),
        None => false,
    }
}

/// Decides whether a recording must run through the external encoder before
/// it is uploaded.
pub fn needs_conversion(file_name: &str, file_size: u64) -> (r: bool)
    ensures
        r == spec_needs_conversion(file_name@, file_size),
{
    match extension_of(file_name) {
        Some(e) => {
            if eq_ignore_case(e.as_str(), "wma") {
                true
            } else if eq_ignore_case(e.as_str(), "wav") {
                file_size > LARGE_WAV_THRESHOLD
            } else {
                false
            }
        },
        None => false,
    }
}

/// The argument list handed to the external encoder: force overwrite, one
/// channel, 16 kHz sample rate, 64 kbps bitrate, then the output path.
pub fn ffmpeg_args(input: &str, output: &str) -> (r: Vec<String>)
    ensures
        r@.len() == 10,
        r@[0]@ == "-y"@,
        r@[1]@ == "-i"@,
        r@[2]@ == input@,
        r@[3]@ == "-ac"@,
        r@[4]@ == "1"@,
        r@[5]@ == "-ar"@,
        r@[6]@ == "16000"@,
        r@[7]@ == "-b:a"@,
        r@[8]@ == "64k"@,
        r@[9]@ == output@,
{
    let mut args: Vec<String> = Vec::new();
    args.push(String::from_str("-y"));
    args.push(String::from_str("-i"));
    args.push(String::from_str(input));
    args.push(String::from_str("-ac"));
    args.push(String::from_str("1"));
    args.push(String::from_str("-ar"));
    args.push(String::from_str("16000"));
    args.push(String::from_str("-b:a"));
    args.push(String::from_str("64k"));
    args.push(String::from_str(output));
    args
}

} // verus!
