use vstd::prelude::*;
use crate::state::{AppStateV, BatchStateV, BatchStatus, FileStatusV};

verus! {

// The persisted state file is JSON with a fixed, canonical layout:
//
//   {"batches":{"<id>":{"status":"OPEN","deviceId":"<d>","files":{
//       "<sha>":{"recordingId":"<r>","uploaded":true,
//                "error":"<e>","uploadId":"<u>","rawR2Key":"<k>",
//                "completedParts":"<8 hex digits per part>",
//                "multipartUploadId":"<m>"}}}}}
//
// Every field is present, unset ones as `null`, always in the order above.
// Strings store printable ASCII verbatim; a quote, a backslash or any other
// character is stored as a JSON `\uXXXX` escape, as a surrogate pair above
// the basic plane, so every state can be written. The parser reads exactly
// this canonical form back — a file in any other layout does not parse, and
// the store then starts over from an empty state — and the round-trip law
// below proves that a written snapshot always reads back as an equal state.

/// A character the canonical encoding stores verbatim: printable ASCII, no
/// quote, no backslash.
pub open spec fn json_safe_char(c: char) -> bool {
    32 <= c as u32 <= 126 && c as u32 != 34 && c as u32 != 92
}

/// Safe ASCII characters, one byte each.
pub open spec fn ascii_bytes(s: Seq<char>) -> Seq<u8> {
    Seq::new(s.len(), |i: int| s[i] as u8)
}

/// A byte the canonical encoding stores inside a string: printable ASCII,
/// no quote, no backslash.
pub open spec fn json_safe_byte(b: u8) -> bool {
    32 <= b <= 126 && b != 34 && b != 92
}

/// The bytes of `{"batches":{`.
pub open spec fn lit_app_open() -> Seq<u8> {
    seq![123u8, 34, 98, 97, 116, 99, 104, 101, 115, 34, 58, 123]
}

/// The bytes of `{"status":"`.
pub open spec fn lit_status_open() -> Seq<u8> {
    seq![123u8, 34, 115, 116, 97, 116, 117, 115, 34, 58, 34]
}

/// The bytes of `,"deviceId":"`.
pub open spec fn lit_device() -> Seq<u8> {
    seq![44u8, 34, 100, 101, 118, 105, 99, 101, 73, 100, 34, 58, 34]
}

/// The bytes of `,"files":{`.
pub open spec fn lit_files() -> Seq<u8> {
    seq![44u8, 34, 102, 105, 108, 101, 115, 34, 58, 123]
}

/// The bytes of `{"recordingId":"`.
pub open spec fn lit_rec_open() -> Seq<u8> {
    seq![123u8, 34, 114, 101, 99, 111, 114, 100, 105, 110, 103, 73, 100, 34, 58, 34]
}

/// The bytes of `,"uploaded":`.
pub open spec fn lit_uploaded() -> Seq<u8> {
    seq![44u8, 34, 117, 112, 108, 111, 97, 100, 101, 100, 34, 58]
}

/// The bytes of `true`.
pub open spec fn lit_true() -> Seq<u8> {
    seq![116u8, 114, 117, 101]
}

/// The bytes of `false`.
pub open spec fn lit_false() -> Seq<u8> {
    seq![102u8, 97, 108, 115, 101]
}

/// The bytes of `,"error":`.
pub open spec fn lit_error() -> Seq<u8> {
    seq![44u8, 34, 101, 114, 114, 111, 114, 34, 58]
}

/// The bytes of `,"uploadId":`.
pub open spec fn lit_upload_id() -> Seq<u8> {
    seq![44u8, 34, 117, 112, 108, 111, 97, 100, 73, 100, 34, 58]
}

/// The bytes of `,"rawR2Key":`.
pub open spec fn lit_raw_key() -> Seq<u8> {
    seq![44u8, 34, 114, 97, 119, 82, 50, 75, 101, 121, 34, 58]
}

/// The bytes of `,"completedParts":`.
pub open spec fn lit_parts() -> Seq<u8> {
    seq![44u8, 34, 99, 111, 109, 112, 108, 101, 116, 101, 100, 80, 97, 114, 116, 115, 34, 58]
}

/// The bytes of `,"multipartUploadId":`.
pub open spec fn lit_mp_id() -> Seq<u8> {
    seq![44u8, 34, 109, 117, 108, 116, 105, 112, 97, 114, 116, 85, 112, 108, 111, 97, 100, 73,
        100, 34, 58]
}

/// The bytes of `OPEN`.
pub open spec fn lit_open() -> Seq<u8> {
    seq![79u8, 80, 69, 78]
}

/// The bytes of `UPLOADING`.
pub open spec fn lit_uploading() -> Seq<u8> {
    seq![85u8, 80, 76, 79, 65, 68, 73, 78, 71]
}

/// The bytes of `COMPLETED`.
pub open spec fn lit_completed() -> Seq<u8> {
    seq![67u8, 79, 77, 80, 76, 69, 84, 69, 68]
}

/// The bytes of `PARTIAL_ERROR`.
pub open spec fn lit_partial_error() -> Seq<u8> {
    seq![80u8, 65, 82, 84, 73, 65, 76, 95, 69, 82, 82, 79, 82]
}

/// The bytes of `null`.
pub open spec fn lit_null() -> Seq<u8> {
    seq![110u8, 117, 108, 108]
}

/// The bytes of `\u`, opening one escape.
pub open spec fn lit_esc() -> Seq<u8> {
    seq![92u8, 117]
}

/// One nibble of a value below 0x10000, high first of four.
pub open spec fn nib4(v: u32, i: int) -> u8 {
    ((v >> ((12 - 4 * i) as u32)) & 0xf) as u8
}

/// A value below 0x10000 as 4 lowercase hex digit bytes, high nibble first.
pub open spec fn hex4(v: u32) -> Seq<u8> {
    Seq::new(4, |i: int| hexb(nib4(v, i)))
}

/// The high surrogate of a scalar above the basic plane.
pub open spec fn hi_surrogate(v: u32) -> u32
    recommends
        0x10000 <= v <= 0x10FFFF,
{
    (0xD800 + (v - 0x10000) / 0x400) as u32
}

/// The low surrogate of a scalar above the basic plane.
pub open spec fn lo_surrogate(v: u32) -> u32
    recommends
        0x10000 <= v <= 0x10FFFF,
{
    (0xDC00 + (v - 0x10000) % 0x400) as u32
}

/// The stored bytes of one character: itself when safe to store verbatim,
/// else a `\uXXXX` escape, with a surrogate pair above the basic plane.
#[verifier::opaque]
pub open spec fn enc_char(c: char) -> Seq<u8> {
    if json_safe_char(c) {
        seq![c as u8]
    } else if (c as u32) < 0x10000 {
        lit_esc() + hex4(c as u32)
    } else {
        lit_esc() + hex4(hi_surrogate(c as u32)) + lit_esc() + hex4(lo_surrogate(c as u32))
    }
}

/// A quoted-string tail: each character's stored bytes, then the closing
/// quote.
#[verifier::opaque]
pub open spec fn enc_str_tail(s: Seq<char>) -> Seq<u8>
    decreases s.len(),
{
    if s.len() == 0 {
        seq![34u8]
    } else {
        enc_char(s.first()) + enc_str_tail(s.drop_first())
    }
}

/// The status tag, quote-closed.
pub open spec fn enc_status_name(st: BatchStatus) -> Seq<u8> {
    (match st {
        BatchStatus::Open => lit_open(),
        BatchStatus::Uploading => lit_uploading(),
        BatchStatus::Completed => lit_completed(),
        BatchStatus::PartialError => lit_partial_error(),
    }) + seq![34u8]
}

/// The hex digit byte (lowercase) for a value below 16.
pub open spec fn hexb(d: u8) -> u8 {
    if d < 10 {
        (48 + d) as u8
    } else {
        (87 + d) as u8
    }
}

/// One nibble of a part number, high first.
pub open spec fn nibble(n: u32, i: int) -> u8 {
    ((n >> ((28 - 4 * i) as u32)) & 0xf) as u8
}

/// A part number as 8 lowercase hex digit bytes, high nibble first.
pub open spec fn enc_u32(n: u32) -> Seq<u8> {
    Seq::new(8, |i: int| hexb(nibble(n, i)))
}

/// The acknowledged parts, 8 hex digits each, then the closing quote.
pub open spec fn enc_parts_tail(ps: Seq<u32>) -> Seq<u8>
    decreases ps.len(),
{
    if ps.len() == 0 {
        seq![34u8]
    } else {
        enc_u32(ps.first()) + enc_parts_tail(ps.drop_first())
    }
}

/// An optional string value: `null`, or the string in quotes.
pub open spec fn enc_opt_str(o: Option<Seq<char>>) -> Seq<u8> {
    match o {
        Some(s) => seq![34u8] + enc_str_tail(s),
        None => lit_null(),
    }
}

/// The optional part list: `null`, or the hex groups in quotes.
pub open spec fn enc_parts_value(o: Option<Seq<u32>>) -> Seq<u8> {
    match o {
        Some(ps) => seq![34u8] + enc_parts_tail(ps),
        None => lit_null(),
    }
}

/// The uploaded flag's bytes.
pub open spec fn enc_bool(b: bool) -> Seq<u8> {
    if b {
        lit_true()
    } else {
        lit_false()
    }
}

/// One file's status object; every field is present, unset ones as `null`.
#[verifier::opaque]
pub open spec fn enc_status(st: FileStatusV) -> Seq<u8> {
    lit_rec_open() + (enc_str_tail(st.recording_id) + (lit_uploaded() + (enc_bool(st.uploaded) + (
    lit_error() + (enc_opt_str(st.error) + (lit_upload_id() + (enc_opt_str(st.upload_id) + (
    lit_raw_key() + (enc_opt_str(st.raw_r2_key) + (lit_parts() + (enc_parts_value(
        st.completed_parts,
    ) + (lit_mp_id() + (enc_opt_str(st.multipart_upload_id) + seq![125u8])))))))))))))
}

/// The entries of a keyed object from index `i` on, comma-separated.
pub open spec fn enc_files_from(fs: Seq<(Seq<char>, FileStatusV)>, i: int) -> Seq<u8>
    decreases fs.len() - i,
{
    if i < 0 || i >= fs.len() {
        Seq::<u8>::empty()
    } else {
        (if i > 0 {
            seq![44u8]
        } else {
            Seq::<u8>::empty()
        }) + (seq![34u8] + (enc_str_tail(fs[i].0) + (seq![58u8] + (enc_status(fs[i].1)
            + enc_files_from(fs, i + 1)))))
    }
}

/// One batch object.
#[verifier::opaque]
pub open spec fn enc_batch(b: BatchStateV) -> Seq<u8> {
    lit_status_open() + (enc_status_name(b.status) + (lit_device() + (enc_str_tail(b.device_id)
        + (lit_files() + (enc_files_from(b.files, 0) + seq![125u8, 125])))))
}

/// The batch entries from index `i` on, comma-separated.
pub open spec fn enc_batches_from(bs: Seq<(Seq<char>, BatchStateV)>, i: int) -> Seq<u8>
    decreases bs.len() - i,
{
    if i < 0 || i >= bs.len() {
        Seq::<u8>::empty()
    } else {
        (if i > 0 {
            seq![44u8]
        } else {
            Seq::<u8>::empty()
        }) + (seq![34u8] + (enc_str_tail(bs[i].0) + (seq![58u8] + (enc_batch(bs[i].1)
            + enc_batches_from(bs, i + 1)))))
    }
}

/// The whole persisted state.
pub open spec fn enc_app(s: AppStateV) -> Seq<u8> {
    lit_app_open() + (enc_batches_from(s.batches, 0) + seq![125u8, 125])
}

/// Drops a required literal prefix.
pub open spec fn sp_lit(s: Seq<u8>, lit: Seq<u8>) -> Option<Seq<u8>> {
    if s.len() >= lit.len() && s.subrange(0, lit.len() as int) == lit {
        Some(s.skip(lit.len() as int))
    } else {
        None
    }
}

/// Four hex digit bytes open the sequence.
pub open spec fn four_hex(s: Seq<u8>) -> bool {
    s.len() >= 4 && (forall|i: int| 0 <= i < 4 ==> hexval(#[trigger] s[i]) < 16)
}

/// The value four hex digit bytes name, high nibble first.
pub open spec fn hex4val(s: Seq<u8>) -> u32
    recommends
        four_hex(s),
{
    ((hexval(s[0]) as u32) << 12u32) | ((hexval(s[1]) as u32) << 8u32) | ((hexval(
        s[2],
    ) as u32) << 4u32) | (hexval(s[3]) as u32)
}

/// The scalar a surrogate pair names.
pub open spec fn surrogate_combine(hi: u32, lo: u32) -> u32
    recommends
        0xD800 <= hi <= 0xDBFF,
        0xDC00 <= lo <= 0xDFFF,
{
    (0x10000 + (hi - 0xD800) * 0x400 + (lo - 0xDC00)) as u32
}

/// Reads one `\uXXXX` escape at the head of the bytes: the character it
/// names and how many bytes it takes — 6, or 12 for a surrogate pair.
#[verifier::opaque]
pub open spec fn sp_escape(s: Seq<u8>) -> Option<(char, int)> {
    if s.len() >= 6 && s[0] == 92 && s[1] == 117 && four_hex(s.skip(2)) {
        let v = hex4val(s.skip(2));
        if 0xD800 <= v <= 0xDBFF {
            if s.len() >= 12 && s[6] == 92 && s[7] == 117 && four_hex(s.skip(8)) && 0xDC00
                <= hex4val(s.skip(8)) <= 0xDFFF {
                Some((surrogate_combine(v, hex4val(s.skip(8))) as char, 12))
            } else {
                None
            }
        } else if 0xDC00 <= v <= 0xDFFF {
            None
        } else {
            Some((v as char, 6))
        }
    } else {
        None
    }
}

/// Reads a quoted string's tail up to and including the closing quote:
/// safe bytes verbatim, `\uXXXX` escapes decoded.
#[verifier::opaque]
pub open spec fn sp_str_tail(s: Seq<u8>) -> Option<(Seq<char>, Seq<u8>)>
    decreases s.len(),
{
    if s.len() == 0 {
        None
    } else if s.first() == 34 {
        Some((Seq::<char>::empty(), s.drop_first()))
    } else if s.first() == 92 {
        match sp_escape(s) {
            Some((c, k)) => if 1 <= k <= s.len() {
                match sp_str_tail(s.skip(k)) {
                    Some((t, r)) => Some((seq![c] + t, r)),
                    None => None,
                }
            } else {
                None
            },
            None => None,
        }
    } else if !json_safe_byte(s.first()) {
        None
    } else {
        match sp_str_tail(s.drop_first()) {
            Some((t, r)) => Some((seq![s.first() as char] + t, r)),
            None => None,
        }
    }
}

/// Reads the status tag with its closing quote.
pub open spec fn sp_status_name(s: Seq<u8>) -> Option<(BatchStatus, Seq<u8>)> {
    match sp_lit(s, lit_open() + seq![34u8]) {
        Some(r) => Some((BatchStatus::Open, r)),
        None => match sp_lit(s, lit_uploading() + seq![34u8]) {
            Some(r) => Some((BatchStatus::Uploading, r)),
            None => match sp_lit(s, lit_completed() + seq![34u8]) {
                Some(r) => Some((BatchStatus::Completed, r)),
                None => match sp_lit(s, lit_partial_error() + seq![34u8]) {
                    Some(r) => Some((BatchStatus::PartialError, r)),
                    None => None,
                },
            },
        },
    }
}

/// Reads the uploaded flag.
pub open spec fn sp_bool(s: Seq<u8>) -> Option<(bool, Seq<u8>)> {
    match sp_lit(s, lit_true()) {
        Some(r) => Some((true, r)),
        None => match sp_lit(s, lit_false()) {
            Some(r) => Some((false, r)),
            None => None,
        },
    }
}

/// Value of a lowercase hex digit byte; 16 marks every other byte.
pub open spec fn hexval(b: u8) -> u8 {
    if 48 <= b <= 57 {
        (b - 48) as u8
    } else if 97 <= b <= 102 {
        (b - 87) as u8
    } else {
        16
    }
}

/// Reads one part number: exactly 8 hex digit bytes, high nibble first.
pub open spec fn sp_u32(s: Seq<u8>) -> Option<(u32, Seq<u8>)> {
    if s.len() >= 8 && (forall|i: int| 0 <= i < 8 ==> hexval(#[trigger] s[i]) < 16) {
        Some(
            (
                ((hexval(s[0]) as u32) << 28u32) | ((hexval(s[1]) as u32) << 24u32) | ((hexval(
                    s[2],
                ) as u32) << 20u32) | ((hexval(s[3]) as u32) << 16u32) | ((hexval(s[4]) as u32)
                    << 12u32) | ((hexval(s[5]) as u32) << 8u32) | ((hexval(s[6]) as u32) << 4u32)
                    | (hexval(s[7]) as u32),
                s.skip(8),
            ),
        )
    } else {
        None
    }
}

/// Reads part numbers until the closing quote.
pub open spec fn sp_parts_tail(s: Seq<u8>) -> Option<(Seq<u32>, Seq<u8>)>
    decreases s.len(),
{
    if s.len() == 0 {
        None
    } else if s.first() == 34 {
        Some((Seq::<u32>::empty(), s.drop_first()))
    } else {
        match sp_u32(s) {
            Some((n, _)) => match sp_parts_tail(s.skip(8)) {
                Some((ps, r)) => Some((seq![n] + ps, r)),
                None => None,
            },
            None => None,
        }
    }
}

/// Reads an optional string value: `null`, or a quoted string.
pub open spec fn sp_opt_str(s: Seq<u8>) -> Option<(Option<Seq<char>>, Seq<u8>)> {
    match sp_lit(s, lit_null()) {
        Some(r) => Some((None, r)),
        None => if s.len() > 0 && s.first() == 34 {
            match sp_str_tail(s.drop_first()) {
                Some((t, r)) => Some((Some(t), r)),
                None => None,
            }
        } else {
            None
        },
    }
}

/// Reads the optional part list: `null`, or quoted hex groups.
pub open spec fn sp_parts_value(s: Seq<u8>) -> Option<(Option<Seq<u32>>, Seq<u8>)> {
    match sp_lit(s, lit_null()) {
        Some(r) => Some((None, r)),
        None => if s.len() > 0 && s.first() == 34 {
            match sp_parts_tail(s.drop_first()) {
                Some((ps, r)) => Some((Some(ps), r)),
                None => None,
            }
        } else {
            None
        },
    }
}

/// Reads one file's status object.
#[verifier::opaque]
pub open spec fn sp_status(s: Seq<u8>) -> Option<(FileStatusV, Seq<u8>)> {
    match sp_lit(s, lit_rec_open()) {
        Some(r1) => match sp_str_tail(r1) {
            Some((rid, r2)) => match sp_lit(r2, lit_uploaded()) {
                Some(r3) => match sp_bool(r3) {
                    Some((up, r4)) => match sp_lit(r4, lit_error()) {
                        Some(r5) => match sp_opt_str(r5) {
                            Some((err, r6)) => match sp_lit(r6, lit_upload_id()) {
                                Some(r7) => match sp_opt_str(r7) {
                                    Some((uid, r8)) => match sp_lit(r8, lit_raw_key()) {
                                        Some(r9) => match sp_opt_str(r9) {
                                            Some((key, r10)) => match sp_lit(r10, lit_parts()) {
                                                Some(r11) => match sp_parts_value(r11) {
                                                    Some((ps, r12)) => match sp_lit(
                                                        r12,
                                                        lit_mp_id(),
                                                    ) {
                                                        Some(r13) => match sp_opt_str(r13) {
                                                            Some((mp, r14)) => match sp_lit(
                                                                r14,
                                                                seq![125u8],
                                                            ) {
                                                                Some(r15) => Some(
                                                                    (
                                                                        FileStatusV {
                                                                            recording_id: rid,
                                                                            uploaded: up,
                                                                            error: err,
                                                                            upload_id: uid,
                                                                            raw_r2_key: key,
                                                                            completed_parts: ps,
                                                                            multipart_upload_id: mp,
                                                                        },
                                                                        r15,
                                                                    ),
                                                                ),
                                                                None => None,
                                                            },
                                                            None => None,
                                                        },
                                                        None => None,
                                                    },
                                                    None => None,
                                                },
                                                None => None,
                                            },
                                            None => None,
                                        },
                                        None => None,
                                    },
                                    None => None,
                                },
                                None => None,
                            },
                            None => None,
                        },
                        None => None,
                    },
                    None => None,
                },
                None => None,
            },
            None => None,
        },
        None => None,
    }
}

/// Reads the entries of the files object up to and including its closing
/// brace.
pub open spec fn sp_files_entries(s: Seq<u8>, first: bool, fuel: nat) -> Option<
    (Seq<(Seq<char>, FileStatusV)>, Seq<u8>),
>
    decreases fuel,
{
    if s.len() == 0 {
        None
    } else if s.first() == 125 {
        Some((Seq::<(Seq<char>, FileStatusV)>::empty(), s.drop_first()))
    } else if fuel == 0 {
        None
    } else {
        let s0 = if first {
            Some(s)
        } else {
            sp_lit(s, seq![44u8])
        };
        match s0 {
            Some(s1) => match sp_lit(s1, seq![34u8]) {
                Some(s2) => match sp_str_tail(s2) {
                    Some((k, s3)) => match sp_lit(s3, seq![58u8]) {
                        Some(s4) => match sp_status(s4) {
                            Some((st, s5)) => match sp_files_entries(s5, false, (fuel - 1) as nat) {
                                Some((es, r)) => Some((seq![(k, st)] + es, r)),
                                None => None,
                            },
                            None => None,
                        },
                        None => None,
                    },
                    None => None,
                },
                None => None,
            },
            None => None,
        }
    }
}

/// Reads one batch object.
#[verifier::opaque]
pub open spec fn sp_batch(s: Seq<u8>, fuel: nat) -> Option<(BatchStateV, Seq<u8>)> {
    match sp_lit(s, lit_status_open()) {
        Some(r1) => match sp_status_name(r1) {
            Some((st, r2)) => match sp_lit(r2, lit_device()) {
                Some(r3) => match sp_str_tail(r3) {
                    Some((dev, r4)) => match sp_lit(r4, lit_files()) {
                        Some(r5) => match sp_files_entries(r5, true, fuel) {
                            Some((fs, r6)) => match sp_lit(r6, seq![125u8]) {
                                Some(r7) => Some(
                                    (BatchStateV { status: st, device_id: dev, files: fs }, r7),
                                ),
                                None => None,
                            },
                            None => None,
                        },
                        None => None,
                    },
                    None => None,
                },
                None => None,
            },
            None => None,
        },
        None => None,
    }
}

/// Reads the entries of the batches object up to and including its closing
/// brace.
pub open spec fn sp_batches_entries(s: Seq<u8>, first: bool, fuel: nat) -> Option<
    (Seq<(Seq<char>, BatchStateV)>, Seq<u8>),
>
    decreases fuel,
{
    if s.len() == 0 {
        None
    } else if s.first() == 125 {
        Some((Seq::<(Seq<char>, BatchStateV)>::empty(), s.drop_first()))
    } else if fuel == 0 {
        None
    } else {
        let s0 = if first {
            Some(s)
        } else {
            sp_lit(s, seq![44u8])
        };
        match s0 {
            Some(s1) => match sp_lit(s1, seq![34u8]) {
                Some(s2) => match sp_str_tail(s2) {
                    Some((k, s3)) => match sp_lit(s3, seq![58u8]) {
                        Some(s4) => match sp_batch(s4, fuel) {
                            Some((b, s5)) => match sp_batches_entries(
                                s5,
                                false,
                                (fuel - 1) as nat,
                            ) {
                                Some((es, r)) => Some((seq![(k, b)] + es, r)),
                                None => None,
                            },
                            None => None,
                        },
                        None => None,
                    },
                    None => None,
                },
                None => None,
            },
            None => None,
        }
    }
}

/// A written literal reads back, leaving the rest.
proof fn lemma_sp_lit(lit: Seq<u8>, rest: Seq<u8>)
    ensures
        sp_lit(lit + rest, lit) == Some(rest),
{
    let s = lit + rest;
    assert(s.subrange(0, lit.len() as int) =~= lit);
    assert(s.skip(lit.len() as int) =~= rest);
}

/// Written hex digits of a value below 0x10000 read back as that value,
/// whatever follows them.
proof fn lemma_rt_hex4(v: u32, rest: Seq<u8>)
    requires
        v < 0x10000,
    ensures
        four_hex(hex4(v) + rest),
        hex4val(hex4(v) + rest) == v,
{
    let s = hex4(v) + rest;
    let b0 = nib4(v, 0);
    let b1 = nib4(v, 1);
    let b2 = nib4(v, 2);
    let b3 = nib4(v, 3);
    assert(b0 == ((v >> 12u32) & 0xf) as u8);
    assert(b1 == ((v >> 8u32) & 0xf) as u8);
    assert(b2 == ((v >> 4u32) & 0xf) as u8);
    assert(b3 == ((v >> 0u32) & 0xf) as u8);
    assert(b0 < 16 && b1 < 16 && b2 < 16 && b3 < 16) by (bit_vector)
        requires
            b0 == ((v >> 12u32) & 0xf) as u8,
            b1 == ((v >> 8u32) & 0xf) as u8,
            b2 == ((v >> 4u32) & 0xf) as u8,
            b3 == ((v >> 0u32) & 0xf) as u8,
    ;
    assert forall|i: int| 0 <= i < 4 implies nib4(v, i) < 16 by {
        if i == 0 {
        } else if i == 1 {
        } else if i == 2 {
        } else {
            assert(i == 3);
        }
    }
    assert forall|i: int| 0 <= i < 4 implies hexval(#[trigger] s[i]) == nib4(v, i) && hexval(
        s[i],
    ) < 16 by {
        assert(s[i] == hexb(nib4(v, i)));
        lemma_hexval_hexb(nib4(v, i));
    }
    assert(((b0 as u32) << 12u32) | ((b1 as u32) << 8u32) | ((b2 as u32) << 4u32) | (b3 as u32)
        == v) by (bit_vector)
        requires
            v < 0x10000,
            b0 == ((v >> 12u32) & 0xf) as u8,
            b1 == ((v >> 8u32) & 0xf) as u8,
            b2 == ((v >> 4u32) & 0xf) as u8,
            b3 == ((v >> 0u32) & 0xf) as u8,
    ;
    assert((hexval(s[0]) as u32) == b0 as u32 && (hexval(s[1]) as u32) == b1 as u32 && (hexval(
        s[2],
    ) as u32) == b2 as u32 && (hexval(s[3]) as u32) == b3 as u32);
}

/// A scalar above the basic plane splits into its surrogate pair and the
/// pair names it back.
proof fn lemma_surrogates(v: u32)
    requires
        0x10000 <= v <= 0x10FFFF,
    ensures
        0xD800 <= hi_surrogate(v) <= 0xDBFF,
        0xDC00 <= lo_surrogate(v) <= 0xDFFF,
        surrogate_combine(hi_surrogate(v), lo_surrogate(v)) == v,
{
    let d = v - 0x10000;
    vstd::arithmetic::div_mod::lemma_fundamental_div_mod(d as int, 0x400);
    assert(0 <= d % 0x400 < 0x400) by {
        vstd::arithmetic::div_mod::lemma_mod_bound(d as int, 0x400);
    }
    assert(0 <= d / 0x400 <= 0x3FF) by {
        vstd::arithmetic::div_mod::lemma_div_pos_is_pos(d as int, 0x400);
        if d / 0x400 > 0x3FF {
            vstd::arithmetic::div_mod::lemma_fundamental_div_mod(d as int, 0x400);
        }
    }
}

/// A written string reads back, leaving the rest: every string round-trips,
/// whatever characters it holds.
proof fn lemma_rt_str_tail(t: Seq<char>, rest: Seq<u8>)
    ensures
        sp_str_tail(enc_str_tail(t) + rest) == Some((t, rest)),
    decreases t.len(),
{
    reveal_with_fuel(enc_str_tail, 1);
    reveal_with_fuel(sp_str_tail, 1);
    let s = enc_str_tail(t) + rest;
    if t.len() == 0 {
        assert(s.first() == 34);
        assert(s.drop_first() =~= rest);
        assert(Seq::<char>::empty() =~= t);
    } else {
        let c = t[0];
        let v = c as u32;
        let tail = enc_str_tail(t.drop_first()) + rest;
        assert(s =~= enc_char(c) + tail) by {
            seq_assoc(enc_char(c), enc_str_tail(t.drop_first()), rest);
        }
        lemma_rt_str_tail(t.drop_first(), rest);
        vstd::utf8::char_is_scalar(c);
        vstd::utf8::char_u32_cast(c, v);
        reveal(enc_char);
        if json_safe_char(c) {
            assert(s.first() == c as u8);
            assert(v != 34 && v != 92);
            assert(s.first() != 34 && s.first() != 92);
            assert(json_safe_byte(s.first()));
            assert(s.drop_first() =~= tail);
            assert(seq![s.first() as char] + t.drop_first() =~= t) by {
                assert((c as u8) as char == c) by {
                    assert(v <= 126);
                }
            }
        } else if v < 0x10000 {
            assert(enc_char(c) == lit_esc() + hex4(v));
            assert(s.first() == 92 && s[0] == 92 && s[1] == 117);
            assert(s.len() >= 6);
            assert(s.skip(2) =~= hex4(v) + tail);
            lemma_rt_hex4(v, tail);
            assert(vstd::utf8::is_scalar(v));
            assert(!(0xD800 <= v <= 0xDFFF));
            assert(sp_escape(s) == Some(((v as char), 6int))) by {
                reveal(sp_escape);
            }
            assert(s.skip(6) =~= tail);
            assert((v as char) == c);
            assert(seq![(v as char)] + t.drop_first() =~= t);
        } else {
            assert(v <= 0x10FFFF) by {
                assert(vstd::utf8::is_scalar(v));
            }
            let hi = hi_surrogate(v);
            let lo = lo_surrogate(v);
            lemma_surrogates(v);
            assert(enc_char(c) == lit_esc() + hex4(hi) + lit_esc() + hex4(lo));
            assert(s.first() == 92 && s[0] == 92 && s[1] == 117);
            assert(s.len() >= 12);
            assert(s.skip(2) =~= hex4(hi) + (lit_esc() + (hex4(lo) + tail)));
            lemma_rt_hex4(hi, lit_esc() + (hex4(lo) + tail));
            assert(four_hex(s.skip(2)) && hex4val(s.skip(2)) == hi);
            assert(s[6] == 92 && s[7] == 117);
            assert(s.skip(8) =~= hex4(lo) + tail);
            lemma_rt_hex4(lo, tail);
            assert(four_hex(s.skip(8)) && hex4val(s.skip(8)) == lo);
            assert(surrogate_combine(hi, lo) == v);
            assert(sp_escape(s) == Some(((v as char), 12int))) by {
                reveal(sp_escape);
            }
            assert(s.skip(12) =~= tail);
            assert((v as char) == c);
            assert(seq![(v as char)] + t.drop_first() =~= t);
        }
    }
}

/// A literal that differs at some index does not read.
proof fn lemma_sp_lit_mismatch(s: Seq<u8>, lit: Seq<u8>, i: int)
    requires
        0 <= i < lit.len(),
        i < s.len(),
        s[i] != lit[i],
    ensures
        sp_lit(s, lit) is None,
{
    if s.len() >= lit.len() && s.subrange(0, lit.len() as int) == lit {
        assert(s.subrange(0, lit.len() as int)[i] == s[i]);
    }
}

/// A written status tag reads back, leaving the rest.
proof fn lemma_rt_status_name(st: BatchStatus, rest: Seq<u8>)
    ensures
        sp_status_name(enc_status_name(st) + rest) == Some((st, rest)),
{
    let s = enc_status_name(st) + rest;
    match st {
        BatchStatus::Open => {
            lemma_sp_lit(lit_open() + seq![34u8], rest);
            assert(s =~= (lit_open() + seq![34u8]) + rest);
        },
        BatchStatus::Uploading => {
            lemma_sp_lit(lit_uploading() + seq![34u8], rest);
            assert(s =~= (lit_uploading() + seq![34u8]) + rest);
            assert(s[0] == 85);
            lemma_sp_lit_mismatch(s, lit_open() + seq![34u8], 0);
        },
        BatchStatus::Completed => {
            lemma_sp_lit(lit_completed() + seq![34u8], rest);
            assert(s =~= (lit_completed() + seq![34u8]) + rest);
            assert(s[0] == 67);
            lemma_sp_lit_mismatch(s, lit_open() + seq![34u8], 0);
            lemma_sp_lit_mismatch(s, lit_uploading() + seq![34u8], 0);
        },
        BatchStatus::PartialError => {
            lemma_sp_lit(lit_partial_error() + seq![34u8], rest);
            assert(s =~= (lit_partial_error() + seq![34u8]) + rest);
            assert(s[0] == 80);
            lemma_sp_lit_mismatch(s, lit_open() + seq![34u8], 0);
            lemma_sp_lit_mismatch(s, lit_uploading() + seq![34u8], 0);
            lemma_sp_lit_mismatch(s, lit_completed() + seq![34u8], 0);
        },
    }
}

/// Concatenation reassociates.
proof fn seq_assoc(a: Seq<u8>, b: Seq<u8>, c: Seq<u8>)
    ensures
        (a + b) + c == a + (b + c),
{
    assert((a + b) + c =~= a + (b + c));
}

/// A written flag reads back, leaving the rest.
proof fn lemma_rt_bool(b: bool, rest: Seq<u8>)
    ensures
        sp_bool(enc_bool(b) + rest) == Some((b, rest)),
{
    if b {
        lemma_sp_lit(lit_true(), rest);
    } else {
        lemma_sp_lit(lit_false(), rest);
        assert((lit_false() + rest)[0] == 102);
        lemma_sp_lit_mismatch(lit_false() + rest, lit_true(), 0);
    }
}

/// Hex digits of a nibble read back as that nibble.
proof fn lemma_hexval_hexb(d: u8)
    requires
        d < 16,
    ensures
        hexval(hexb(d)) == d,
        hexval(hexb(d)) < 16,
        hexb(d) != 34,
        hexb(d) != 125,
{
}

/// A written part number reads back, leaving the rest.
proof fn lemma_rt_u32(n: u32, rest: Seq<u8>)
    ensures
        sp_u32(enc_u32(n) + rest) == Some((n, rest)),
        (enc_u32(n) + rest).first() != 34,
        (enc_u32(n) + rest).len() >= 8,
{
    let s = enc_u32(n) + rest;
    let b0 = nibble(n, 0);
    let b1 = nibble(n, 1);
    let b2 = nibble(n, 2);
    let b3 = nibble(n, 3);
    let b4 = nibble(n, 4);
    let b5 = nibble(n, 5);
    let b6 = nibble(n, 6);
    let b7 = nibble(n, 7);
    assert(b0 == ((n >> 28u32) & 0xf) as u8);
    assert(b1 == ((n >> 24u32) & 0xf) as u8);
    assert(b2 == ((n >> 20u32) & 0xf) as u8);
    assert(b3 == ((n >> 16u32) & 0xf) as u8);
    assert(b4 == ((n >> 12u32) & 0xf) as u8);
    assert(b5 == ((n >> 8u32) & 0xf) as u8);
    assert(b6 == ((n >> 4u32) & 0xf) as u8);
    assert(b7 == ((n >> 0u32) & 0xf) as u8);
    assert(b0 < 16 && b1 < 16 && b2 < 16 && b3 < 16 && b4 < 16 && b5 < 16 && b6 < 16 && b7 < 16)
        by (bit_vector)
        requires
            b0 == ((n >> 28u32) & 0xf) as u8,
            b1 == ((n >> 24u32) & 0xf) as u8,
            b2 == ((n >> 20u32) & 0xf) as u8,
            b3 == ((n >> 16u32) & 0xf) as u8,
            b4 == ((n >> 12u32) & 0xf) as u8,
            b5 == ((n >> 8u32) & 0xf) as u8,
            b6 == ((n >> 4u32) & 0xf) as u8,
            b7 == ((n >> 0u32) & 0xf) as u8,
    ;
    assert forall|i: int| 0 <= i < 8 implies nibble(n, i) < 16 by {
        if i == 0 {
        } else if i == 1 {
        } else if i == 2 {
        } else if i == 3 {
        } else if i == 4 {
        } else if i == 5 {
        } else if i == 6 {
        } else {
            assert(i == 7);
        }
    }
    assert forall|i: int| 0 <= i < 8 implies hexval(#[trigger] s[i]) == nibble(n, i) && hexval(
        s[i],
    ) < 16 by {
        assert(s[i] == hexb(nibble(n, i)));
        lemma_hexval_hexb(nibble(n, i));
    }
    assert(s[0] == hexb(b0));
    lemma_hexval_hexb(b0);
    assert(((b0 as u32) << 28u32) | ((b1 as u32) << 24u32) | ((b2 as u32) << 20u32) | ((b3 as u32)
        << 16u32) | ((b4 as u32) << 12u32) | ((b5 as u32) << 8u32) | ((b6 as u32) << 4u32) | (
    b7 as u32) == n) by (bit_vector)
        requires
            b0 == ((n >> 28u32) & 0xf) as u8,
            b1 == ((n >> 24u32) & 0xf) as u8,
            b2 == ((n >> 20u32) & 0xf) as u8,
            b3 == ((n >> 16u32) & 0xf) as u8,
            b4 == ((n >> 12u32) & 0xf) as u8,
            b5 == ((n >> 8u32) & 0xf) as u8,
            b6 == ((n >> 4u32) & 0xf) as u8,
            b7 == ((n >> 0u32) & 0xf) as u8,
    ;
    assert((hexval(s[0]) as u32) == b0 as u32 && (hexval(s[1]) as u32) == b1 as u32 && (hexval(
        s[2],
    ) as u32) == b2 as u32 && (hexval(s[3]) as u32) == b3 as u32 && (hexval(s[4]) as u32) == b4
        as u32 && (hexval(s[5]) as u32) == b5 as u32 && (hexval(s[6]) as u32) == b6 as u32 && (
    hexval(s[7]) as u32) == b7 as u32);
    assert(s.skip(8) =~= rest);
}

/// A written part list reads back, leaving the rest.
proof fn lemma_rt_parts_tail(ps: Seq<u32>, rest: Seq<u8>)
    ensures
        sp_parts_tail(enc_parts_tail(ps) + rest) == Some((ps, rest)),
    decreases ps.len(),
{
    let s = enc_parts_tail(ps) + rest;
    if ps.len() == 0 {
        assert(s.first() == 34);
        assert(s.drop_first() =~= rest);
        assert(Seq::<u32>::empty() =~= ps);
    } else {
        let tail = enc_parts_tail(ps.drop_first()) + rest;
        assert(s =~= enc_u32(ps.first()) + tail);
        lemma_rt_u32(ps.first(), tail);
        assert(s.first() != 34);
        assert(s.skip(8) =~= tail);
        lemma_rt_parts_tail(ps.drop_first(), rest);
        assert(seq![ps.first()] + ps.drop_first() =~= ps);
    }
}

/// A written optional string reads back, leaving the rest.
proof fn lemma_rt_opt_str(o: Option<Seq<char>>, rest: Seq<u8>)
    ensures
        sp_opt_str(enc_opt_str(o) + rest) == Some((o, rest)),
{
    let s = enc_opt_str(o) + rest;
    match o {
        None => {
            lemma_sp_lit(lit_null(), rest);
        },
        Some(t) => {
            assert(s.first() == 34);
            lemma_sp_lit_mismatch(s, lit_null(), 0);
            assert(s.drop_first() =~= enc_str_tail(t) + rest);
            lemma_rt_str_tail(t, rest);
        },
    }
}

/// A written optional part list reads back, leaving the rest.
proof fn lemma_rt_parts_value(o: Option<Seq<u32>>, rest: Seq<u8>)
    ensures
        sp_parts_value(enc_parts_value(o) + rest) == Some((o, rest)),
{
    let s = enc_parts_value(o) + rest;
    match o {
        None => {
            lemma_sp_lit(lit_null(), rest);
        },
        Some(ps) => {
            assert(s.first() == 34);
            lemma_sp_lit_mismatch(s, lit_null(), 0);
            assert(s.drop_first() =~= enc_parts_tail(ps) + rest);
            lemma_rt_parts_tail(ps, rest);
        },
    }
}

/// A written status object reads back, leaving the rest.
proof fn lemma_rt_status(st: FileStatusV, rest: Seq<u8>)
    ensures
        sp_status(enc_status(st) + rest) == Some((st, rest)),
{
    reveal(enc_status);
    reveal(sp_status);
    let t14 = enc_opt_str(st.multipart_upload_id) + seq![125u8];
    let t13 = lit_mp_id() + t14;
    let t12 = enc_parts_value(st.completed_parts) + t13;
    let t11 = lit_parts() + t12;
    let t10 = enc_opt_str(st.raw_r2_key) + t11;
    let t9 = lit_raw_key() + t10;
    let t8 = enc_opt_str(st.upload_id) + t9;
    let t7 = lit_upload_id() + t8;
    let t6 = enc_opt_str(st.error) + t7;
    let t5 = lit_error() + t6;
    let t4 = enc_bool(st.uploaded) + t5;
    let t3 = lit_uploaded() + t4;
    let t2 = enc_str_tail(st.recording_id) + t3;
    assert(enc_status(st) == lit_rec_open() + t2);
    seq_assoc(lit_rec_open(), t2, rest);
    lemma_sp_lit(lit_rec_open(), t2 + rest);
    seq_assoc(enc_str_tail(st.recording_id), t3, rest);
    lemma_rt_str_tail(st.recording_id, t3 + rest);
    seq_assoc(lit_uploaded(), t4, rest);
    lemma_sp_lit(lit_uploaded(), t4 + rest);
    seq_assoc(enc_bool(st.uploaded), t5, rest);
    lemma_rt_bool(st.uploaded, t5 + rest);
    seq_assoc(lit_error(), t6, rest);
    lemma_sp_lit(lit_error(), t6 + rest);
    seq_assoc(enc_opt_str(st.error), t7, rest);
    lemma_rt_opt_str(st.error, t7 + rest);
    seq_assoc(lit_upload_id(), t8, rest);
    lemma_sp_lit(lit_upload_id(), t8 + rest);
    seq_assoc(enc_opt_str(st.upload_id), t9, rest);
    lemma_rt_opt_str(st.upload_id, t9 + rest);
    seq_assoc(lit_raw_key(), t10, rest);
    lemma_sp_lit(lit_raw_key(), t10 + rest);
    seq_assoc(enc_opt_str(st.raw_r2_key), t11, rest);
    lemma_rt_opt_str(st.raw_r2_key, t11 + rest);
    seq_assoc(lit_parts(), t12, rest);
    lemma_sp_lit(lit_parts(), t12 + rest);
    seq_assoc(enc_parts_value(st.completed_parts), t13, rest);
    lemma_rt_parts_value(st.completed_parts, t13 + rest);
    seq_assoc(lit_mp_id(), t14, rest);
    lemma_sp_lit(lit_mp_id(), t14 + rest);
    seq_assoc(enc_opt_str(st.multipart_upload_id), seq![125u8], rest);
    lemma_rt_opt_str(st.multipart_upload_id, seq![125u8] + rest);
    lemma_sp_lit(seq![125u8], rest);
}

/// The number of files a batch stores never exceeds its encoding's length.
proof fn lemma_enc_files_len(fs: Seq<(Seq<char>, FileStatusV)>, i: int)
    requires
        0 <= i <= fs.len(),
    ensures
        enc_files_from(fs, i).len() >= fs.len() - i,
    decreases fs.len() - i,
{
    if i < fs.len() {
        lemma_enc_files_len(fs, i + 1);
    }
}

/// Written file entries read back, leaving the rest after the closing brace.
#[verifier::rlimit(100)]
#[verifier::spinoff_prover]
proof fn lemma_rt_files(fs: Seq<(Seq<char>, FileStatusV)>, i: int, rest: Seq<u8>, fuel: nat)
    requires
        0 <= i <= fs.len(),
        fuel >= fs.len() - i,
    ensures
        sp_files_entries(enc_files_from(fs, i) + (seq![125u8] + rest), i == 0, fuel) == Some(
            (fs.skip(i), rest),
        ),
    decreases fs.len() - i,
{
    let c = seq![125u8] + rest;
    let s = enc_files_from(fs, i) + c;
    if i == fs.len() {
        assert(s =~= seq![125u8] + rest);
        assert(s.first() == 125);
        assert(s.drop_first() =~= rest);
        assert(fs.skip(i) =~= Seq::<(Seq<char>, FileStatusV)>::empty());
    } else {
        let comma: Seq<u8> = if i > 0 {
            seq![44u8]
        } else {
            Seq::<u8>::empty()
        };
        let u4 = enc_status(fs[i].1) + enc_files_from(fs, i + 1);
        let u3 = seq![58u8] + u4;
        let u2 = enc_str_tail(fs[i].0) + u3;
        let u1 = seq![34u8] + u2;
        assert(enc_files_from(fs, i) == comma + u1);
        seq_assoc(comma, u1, c);
        if i > 0 {
            assert(s[0] == 44);
            assert(s.first() != 125);
            lemma_sp_lit(seq![44u8], u1 + c);
            assert(s == seq![44u8] + (u1 + c));
        } else {
            assert(s =~= u1 + c);
            assert(s.first() == 34);
            assert(s.first() != 125);
        }
        seq_assoc(seq![34u8], u2, c);
        lemma_sp_lit(seq![34u8], u2 + c);
        seq_assoc(enc_str_tail(fs[i].0), u3, c);
        lemma_rt_str_tail(fs[i].0, u3 + c);
        seq_assoc(seq![58u8], u4, c);
        lemma_sp_lit(seq![58u8], u4 + c);
        seq_assoc(enc_status(fs[i].1), enc_files_from(fs, i + 1), c);
        lemma_rt_status(fs[i].1, enc_files_from(fs, i + 1) + c);
        lemma_rt_files(fs, i + 1, rest, (fuel - 1) as nat);
        assert(seq![(fs[i].0, fs[i].1)] + fs.skip(i + 1) =~= fs.skip(i));
    }
}

/// A written batch object reads back, leaving the rest: every batch in a
/// snapshot round-trips to an equal structure after write-then-read.
#[verifier::rlimit(100)]
pub proof fn lemma_rt_batch(b: BatchStateV, rest: Seq<u8>, fuel: nat)
    requires
        fuel >= b.files.len(),
    ensures
        sp_batch(enc_batch(b) + rest, fuel) == Some((b, rest)),
{
    reveal(enc_batch);
    reveal(sp_batch);
    let c = rest;
    let v5 = enc_files_from(b.files, 0) + seq![125u8, 125];
    let v4 = lit_files() + v5;
    let v3 = enc_str_tail(b.device_id) + v4;
    let v2 = lit_device() + v3;
    let v1 = enc_status_name(b.status) + v2;
    assert(enc_batch(b) == lit_status_open() + v1);
    seq_assoc(lit_status_open(), v1, c);
    lemma_sp_lit(lit_status_open(), v1 + c);
    seq_assoc(enc_status_name(b.status), v2, c);
    lemma_rt_status_name(b.status, v2 + c);
    seq_assoc(lit_device(), v3, c);
    lemma_sp_lit(lit_device(), v3 + c);
    seq_assoc(enc_str_tail(b.device_id), v4, c);
    lemma_rt_str_tail(b.device_id, v4 + c);
    seq_assoc(lit_files(), v5, c);
    lemma_sp_lit(lit_files(), v5 + c);
    seq_assoc(enc_files_from(b.files, 0), seq![125u8, 125], c);
    assert(seq![125u8, 125] + c =~= seq![125u8] + (seq![125u8] + rest));
    assert(v5 + c == enc_files_from(b.files, 0) + (seq![125u8] + (seq![125u8] + rest)));
    lemma_rt_files(b.files, 0, seq![125u8] + rest, fuel);
    assert(b.files.skip(0) =~= b.files);
    lemma_sp_lit(seq![125u8], rest);
    assert((BatchStateV { status: b.status, device_id: b.device_id, files: b.files.skip(0) })
        == b);
}

/// Entries take at least one byte each, and a batch's encoding also covers
/// its file count: enough input is always enough fuel.
proof fn lemma_enc_batches_len(bs: Seq<(Seq<char>, BatchStateV)>, i: int)
    requires
        0 <= i <= bs.len(),
    ensures
        enc_batches_from(bs, i).len() >= (bs.len() - i) + batches_files_total(bs, i),
    decreases bs.len() - i,
{
    reveal(enc_batch);
    if i < bs.len() {
        lemma_enc_batches_len(bs, i + 1);
        lemma_enc_files_len(bs[i].1.files, 0);
    }
}

/// The file entries carried by the batches from index `i` on.
pub open spec fn batches_files_total(bs: Seq<(Seq<char>, BatchStateV)>, i: int) -> int
    decreases bs.len() - i,
{
    if i < 0 || i >= bs.len() {
        0
    } else {
        bs[i].1.files.len() + batches_files_total(bs, i + 1)
    }
}

/// The file totals are never negative.
proof fn lemma_total_nonneg(bs: Seq<(Seq<char>, BatchStateV)>, i: int)
    ensures
        batches_files_total(bs, i) >= 0,
    decreases bs.len() - i,
{
    if 0 <= i < bs.len() {
        lemma_total_nonneg(bs, i + 1);
    }
}

/// Written batch entries read back, leaving the rest after the closing
/// brace.
#[verifier::rlimit(100)]
#[verifier::spinoff_prover]
proof fn lemma_rt_batches(bs: Seq<(Seq<char>, BatchStateV)>, i: int, rest: Seq<u8>, fuel: nat)
    requires
        0 <= i <= bs.len(),
        fuel >= (bs.len() - i) + batches_files_total(bs, i),
    ensures
        sp_batches_entries(enc_batches_from(bs, i) + (seq![125u8] + rest), i == 0, fuel) == Some(
            (bs.skip(i), rest),
        ),
    decreases bs.len() - i,
{
    let c = seq![125u8] + rest;
    let s = enc_batches_from(bs, i) + c;
    if i == bs.len() {
        assert(s =~= seq![125u8] + rest);
        assert(s.first() == 125);
        assert(s.drop_first() =~= rest);
        assert(bs.skip(i) =~= Seq::<(Seq<char>, BatchStateV)>::empty());
    } else {
        lemma_total_nonneg(bs, i + 1);
        let comma: Seq<u8> = if i > 0 {
            seq![44u8]
        } else {
            Seq::<u8>::empty()
        };
        let u4 = enc_batch(bs[i].1) + enc_batches_from(bs, i + 1);
        let u3 = seq![58u8] + u4;
        let u2 = enc_str_tail(bs[i].0) + u3;
        let u1 = seq![34u8] + u2;
        assert(enc_batches_from(bs, i) == comma + u1);
        seq_assoc(comma, u1, c);
        if i > 0 {
            assert(s[0] == 44);
            assert(s.first() != 125);
            lemma_sp_lit(seq![44u8], u1 + c);
            assert(s == seq![44u8] + (u1 + c));
        } else {
            assert(s =~= u1 + c);
            assert(s.first() == 34);
            assert(s.first() != 125);
        }
        seq_assoc(seq![34u8], u2, c);
        lemma_sp_lit(seq![34u8], u2 + c);
        seq_assoc(enc_str_tail(bs[i].0), u3, c);
        lemma_rt_str_tail(bs[i].0, u3 + c);
        seq_assoc(seq![58u8], u4, c);
        lemma_sp_lit(seq![58u8], u4 + c);
        seq_assoc(enc_batch(bs[i].1), enc_batches_from(bs, i + 1), c);
        lemma_rt_batch(bs[i].1, enc_batches_from(bs, i + 1) + c, fuel);
        lemma_rt_batches(bs, i + 1, rest, (fuel - 1) as nat);
        assert(seq![(bs[i].0, bs[i].1)] + bs.skip(i + 1) =~= bs.skip(i));
    }
}

/// Round trip of the persisted state: a snapshot written in the canonical
/// form always reads back as an equal state — in particular, every batch in
/// it round-trips to an equal structure after write-then-read.
pub proof fn lemma_state_round_trip(s: AppStateV)
    ensures
        sp_app(enc_app(s)) == Some((s, Seq::<u8>::empty())),
{
    let bs = s.batches;
    let w1 = enc_batches_from(bs, 0) + seq![125u8, 125];
    assert(enc_app(s) == lit_app_open() + w1);
    lemma_sp_lit(lit_app_open(), w1);
    lemma_enc_batches_len(bs, 0);
    assert(w1 =~= enc_batches_from(bs, 0) + (seq![125u8] + seq![125u8]));
    lemma_rt_batches(bs, 0, seq![125u8], w1.len() as nat);
    assert(sp_batches_entries(w1, true, w1.len() as nat) == Some((bs.skip(0), seq![125u8])));
    assert(bs.skip(0) =~= bs);
    lemma_sp_lit(seq![125u8], Seq::<u8>::empty());
    assert(seq![125u8] =~= seq![125u8] + Seq::<u8>::empty());
    assert((AppStateV { batches: bs.skip(0) }) == s);
}

/// Reads the whole persisted state.
pub open spec fn sp_app(s: Seq<u8>) -> Option<(AppStateV, Seq<u8>)> {
    match sp_lit(s, lit_app_open()) {
        Some(r) => match sp_batches_entries(r, true, r.len()) {
            Some((bs, r2)) => match sp_lit(r2, seq![125u8]) {
                Some(r3) => Some((AppStateV { batches: bs }, r3)),
                None => None,
            },
            None => None,
        },
        None => None,
    }
}

/// Relies on char::from_u32: it answers `Some` exactly for Unicode scalar
/// values, and the character returned is that scalar.
#[verifier::external_body]
fn char_from_u32(v: u32) -> (r: Option<char>)
    ensures
        r is Some <==> vstd::utf8::is_scalar(v),
        r matches Some(c) ==> c as u32 == v,
{
    char::from_u32(v)
}

/// Relies on String's FromIterator over char: collecting characters yields
/// the string of exactly those characters, in order.
#[verifier::external_body]
fn string_from_chars(chars: Vec<char>) -> (r: String)
    ensures
        r@ == chars@,
{
    String::from_iter(chars)
}

/// The byte view of an ASCII string slice.
fn lit_bytes<'a>(s: &'a str) -> (r: &'a [u8])
    requires
        vstd::string::is_ascii(s),
    ensures
        r@ == ascii_bytes(s@),
{
    let b = s.as_bytes();
    proof {
        vstd::string::is_ascii_spec_bytes(s);
        assert(b@ =~= ascii_bytes(s@));
    }
    b
}

/// Reads a required literal prefix.
fn p_lit<'a>(s: &'a [u8], lit: &[u8]) -> (r: Option<&'a [u8]>)
    ensures
        match r {
            Some(rest) => sp_lit(s@, lit@) == Some(rest@) && rest@.len() == s@.len() - lit@.len(),
            None => sp_lit(s@, lit@) is None,
        },
{
    if s.len() < lit.len() {
        return None;
    }
    let mut i: usize = 0;
    while i < lit.len()
        invariant
            i <= lit.len(),
            lit@.len() <= s@.len(),
            forall|k: int| 0 <= k < i ==> s@[k] == lit@[k],
        decreases lit.len() - i,
    {
        if s[i] != lit[i] {
            proof {
                assert(s@.subrange(0, lit@.len() as int)[i as int] == s@[i as int]);
            }
            return None;
        }
        i = i + 1;
    }
    let rest = vstd::slice::slice_subrange(s, lit.len(), s.len());
    proof {
        assert(s@.subrange(0, lit@.len() as int) =~= lit@);
        assert(s@.skip(lit@.len() as int) =~= rest@);
    }
    Some(rest)
}

/// Reads a quoted string's tail.
fn p_str_tail<'a>(s: &'a [u8]) -> (r: Option<(String, &'a [u8])>)
    ensures
        match r {
            Some((t, rest)) => sp_str_tail(s@) == Some((t@, rest@)) && rest@.len() < s@.len(),
            None => sp_str_tail(s@) is None,
        },
{
    let mut acc: Vec<char> = Vec::new();
    let mut cur: &[u8] = s;
    let ghost s0 = s@;
    proof {
        reveal_with_fuel(sp_str_tail, 1);
        assert(acc@ =~= Seq::<char>::empty());
        assert(sp_str_tail(s0) == (match sp_str_tail(cur@) {
            Some((t, r)) => Some((acc@ + t, r)),
            None => None,
        })) by {
            match sp_str_tail(cur@) {
                Some(pr) => {
                    assert(acc@ + pr.0 =~= pr.0);
                },
                None => {},
            }
        }
    }
    loop
        invariant
            s0 == s@,
            cur@.len() <= s0.len(),
            sp_str_tail(s0) == (match sp_str_tail(cur@) {
                Some((t, r)) => Some((acc@ + t, r)),
                None => None,
            }),
        decreases cur@.len(),
    {
        proof {
            reveal_with_fuel(sp_str_tail, 1);
        }
        if cur.len() == 0 {
            proof {
                assert(sp_str_tail(cur@) is None);
            }
            return None;
        }
        let b = cur[0];
        if b == 34 {
            let rest = vstd::slice::slice_subrange(cur, 1, cur.len());
            let t = string_from_chars(acc);
            proof {
                assert(cur@.drop_first() =~= rest@);
                assert(sp_str_tail(cur@) == Some((Seq::<char>::empty(), rest@)));
                assert(t@ + Seq::<char>::empty() =~= t@);
            }
            return Some((t, rest));
        }
        if b == 92 {
            let ghost prev = cur@;
            proof {
                assert(prev[0] == 92 && prev.first() == 92);
            }
            if cur.len() < 6 || cur[1] != 117 {
                proof {
                    assert(sp_escape(prev) is None) by {
                        reveal(sp_escape);
                    }
                    assert(sp_str_tail(prev) is None);
                }
                return None;
            }
            let v0 = p_hexval(cur[2]);
            let v1 = p_hexval(cur[3]);
            let v2 = p_hexval(cur[4]);
            let v3 = p_hexval(cur[5]);
            proof {
                assert(prev.skip(2)[0] == prev[2] && prev.skip(2)[1] == prev[3] && prev.skip(
                    2,
                )[2] == prev[4] && prev.skip(2)[3] == prev[5]);
            }
            if v0 == 16 || v1 == 16 || v2 == 16 || v3 == 16 {
                proof {
                    assert(!four_hex(prev.skip(2)));
                    assert(sp_escape(prev) is None) by {
                        reveal(sp_escape);
                    }
                    assert(sp_str_tail(prev) is None);
                }
                return None;
            }
            let v: u32 = ((v0 as u32) << 12u32) | ((v1 as u32) << 8u32) | ((v2 as u32) << 4u32)
                | (v3 as u32);
            proof {
                assert(four_hex(prev.skip(2)));
                assert(v == hex4val(prev.skip(2)));
                assert(v < 0x10000) by (bit_vector)
                    requires
                        v == ((v0 as u32) << 12u32) | ((v1 as u32) << 8u32) | ((v2 as u32)
                            << 4u32) | (v3 as u32),
                        v0 < 16,
                        v1 < 16,
                        v2 < 16,
                        v3 < 16,
                ;
            }
            if 0xD800 <= v && v <= 0xDBFF {
                if cur.len() < 12 || cur[6] != 92 || cur[7] != 117 {
                    proof {
                        assert(sp_escape(prev) is None) by {
                            reveal(sp_escape);
                        }
                        assert(sp_str_tail(prev) is None);
                    }
                    return None;
                }
                let w0 = p_hexval(cur[8]);
                let w1 = p_hexval(cur[9]);
                let w2 = p_hexval(cur[10]);
                let w3 = p_hexval(cur[11]);
                proof {
                    assert(prev.skip(8)[0] == prev[8] && prev.skip(8)[1] == prev[9] && prev.skip(
                        8,
                    )[2] == prev[10] && prev.skip(8)[3] == prev[11]);
                }
                if w0 == 16 || w1 == 16 || w2 == 16 || w3 == 16 {
                    proof {
                        assert(!four_hex(prev.skip(8)));
                        assert(sp_escape(prev) is None) by {
                            reveal(sp_escape);
                        }
                        assert(sp_str_tail(prev) is None);
                    }
                    return None;
                }
                let w: u32 = ((w0 as u32) << 12u32) | ((w1 as u32) << 8u32) | ((w2 as u32)
                    << 4u32) | (w3 as u32);
                proof {
                    assert(four_hex(prev.skip(8)));
                    assert(w == hex4val(prev.skip(8)));
                }
                if !(0xDC00 <= w && w <= 0xDFFF) {
                    proof {
                        assert(sp_escape(prev) is None) by {
                            reveal(sp_escape);
                        }
                        assert(sp_str_tail(prev) is None);
                    }
                    return None;
                }
                let combined: u32 = 0x10000 + (v - 0xD800) * 0x400 + (w - 0xDC00);
                proof {
                    assert(combined == surrogate_combine(v, w));
                    assert(vstd::utf8::is_scalar(combined));
                }
                let c = match char_from_u32(combined) {
                    Some(c) => c,
                    None => {
                        proof {
                            assert(false);
                        }
                        ' '
                    },
                };
                let rest = vstd::slice::slice_subrange(cur, 12, cur.len());
                let ghost acc_before = acc@;
                acc.push(c);
                proof {
                    assert(prev.skip(12) =~= rest@);
                    vstd::utf8::char_u32_cast(c, combined);
                    assert((surrogate_combine(v, w) as char) == c);
                    assert(sp_escape(prev) == Some((c, 12int))) by {
                        reveal(sp_escape);
                    }
                    match sp_str_tail(rest@) {
                        Some(pr) => {
                            assert(sp_str_tail(prev) == Some((seq![c] + pr.0, pr.1)));
                            assert(acc_before + (seq![c] + pr.0) =~= acc@ + pr.0);
                        },
                        None => {
                            assert(sp_str_tail(prev) is None);
                        },
                    }
                }
                cur = rest;
            } else if 0xDC00 <= v && v <= 0xDFFF {
                proof {
                    assert(sp_escape(prev) is None) by {
                        reveal(sp_escape);
                    }
                    assert(sp_str_tail(prev) is None);
                }
                return None;
            } else {
                proof {
                    assert(vstd::utf8::is_scalar(v));
                }
                let c = match char_from_u32(v) {
                    Some(c) => c,
                    None => {
                        proof {
                            assert(false);
                        }
                        ' '
                    },
                };
                let rest = vstd::slice::slice_subrange(cur, 6, cur.len());
                let ghost acc_before = acc@;
                acc.push(c);
                proof {
                    assert(prev.skip(6) =~= rest@);
                    vstd::utf8::char_u32_cast(c, v);
                    assert((v as char) == c);
                    assert(sp_escape(prev) == Some((c, 6int))) by {
                        reveal(sp_escape);
                    }
                    match sp_str_tail(rest@) {
                        Some(pr) => {
                            assert(sp_str_tail(prev) == Some((seq![c] + pr.0, pr.1)));
                            assert(acc_before + (seq![c] + pr.0) =~= acc@ + pr.0);
                        },
                        None => {
                            assert(sp_str_tail(prev) is None);
                        },
                    }
                }
                cur = rest;
            }
        } else if 32 <= b && b <= 126 && b != 34 && b != 92 {
            let ghost prev = cur@;
            let rest = vstd::slice::slice_subrange(cur, 1, cur.len());
            let c = match char_from_u32(b as u32) {
                Some(c) => c,
                None => {
                    proof {
                        assert(false);
                    }
                    ' '
                },
            };
            let ghost acc_before = acc@;
            acc.push(c);
            proof {
                assert(json_safe_byte(prev.first()));
                assert(prev.drop_first() =~= rest@);
                vstd::utf8::char_u32_cast(c, b as u32);
                assert((prev.first() as u32) as char == c);
                assert(prev.first() as char == c);
                match sp_str_tail(rest@) {
                    Some(pr) => {
                        assert(sp_str_tail(prev) == Some((seq![c] + pr.0, pr.1)));
                        assert(acc_before + (seq![c] + pr.0) =~= acc@ + pr.0);
                    },
                    None => {
                        assert(sp_str_tail(prev) is None);
                    },
                }
            }
            cur = rest;
        } else {
            proof {
                assert(!json_safe_byte(cur@.first()));
                assert(sp_str_tail(cur@) is None);
            }
            return None;
        }
    }
}

/// Reads the uploaded flag.
fn p_bool<'a>(s: &'a [u8]) -> (r: Option<(bool, &'a [u8])>)
    ensures
        match r {
            Some((b, rest)) => sp_bool(s@) == Some((b, rest@)) && rest@.len() <= s@.len(),
            None => sp_bool(s@) is None,
        },
{
    proof {
        reveal_strlit("true");
        reveal_strlit("false");
        assert(vstd::string::is_ascii("true"));
        assert(vstd::string::is_ascii("false"));
        assert(ascii_bytes("true"@) =~= lit_true());
        assert(ascii_bytes("false"@) =~= lit_false());
    }
    match p_lit(s, lit_bytes("true")) {
        Some(rest) => Some((true, rest)),
        None => match p_lit(s, lit_bytes("false")) {
            Some(rest) => Some((false, rest)),
            None => None,
        },
    }
}

/// The value of a hex digit byte; 16 for every other byte.
fn p_hexval(b: u8) -> (r: u8)
    ensures
        r == hexval(b),
{
    if 48 <= b && b <= 57 {
        b - 48
    } else if 97 <= b && b <= 102 {
        b - 87
    } else {
        16
    }
}

/// Reads one part number: exactly 8 hex digit bytes.
fn p_u32<'a>(s: &'a [u8]) -> (r: Option<(u32, &'a [u8])>)
    ensures
        match r {
            Some((n, rest)) => sp_u32(s@) == Some((n, rest@)),
            None => sp_u32(s@) is None,
        },
{
    if s.len() < 8 {
        return None;
    }
    let v0 = p_hexval(s[0]);
    let v1 = p_hexval(s[1]);
    let v2 = p_hexval(s[2]);
    let v3 = p_hexval(s[3]);
    let v4 = p_hexval(s[4]);
    let v5 = p_hexval(s[5]);
    let v6 = p_hexval(s[6]);
    let v7 = p_hexval(s[7]);
    if v0 == 16 || v1 == 16 || v2 == 16 || v3 == 16 || v4 == 16 || v5 == 16 || v6 == 16 || v7
        == 16 {
        proof {
            assert(!(forall|i: int| 0 <= i < 8 ==> hexval(#[trigger] s@[i]) < 16)) by {
                if v0 == 16 {
                    assert(hexval(s@[0]) >= 16);
                } else if v1 == 16 {
                    assert(hexval(s@[1]) >= 16);
                } else if v2 == 16 {
                    assert(hexval(s@[2]) >= 16);
                } else if v3 == 16 {
                    assert(hexval(s@[3]) >= 16);
                } else if v4 == 16 {
                    assert(hexval(s@[4]) >= 16);
                } else if v5 == 16 {
                    assert(hexval(s@[5]) >= 16);
                } else if v6 == 16 {
                    assert(hexval(s@[6]) >= 16);
                } else {
                    assert(hexval(s@[7]) >= 16);
                }
            }
        }
        return None;
    }
    let n: u32 = ((v0 as u32) << 28u32) | ((v1 as u32) << 24u32) | ((v2 as u32) << 20u32) | ((
    v3 as u32) << 16u32) | ((v4 as u32) << 12u32) | ((v5 as u32) << 8u32) | ((v6 as u32) << 4u32)
        | (v7 as u32);
    let rest = vstd::slice::slice_subrange(s, 8, s.len());
    proof {
        assert(s@.skip(8) =~= rest@);
    }
    Some((n, rest))
}

proof fn lemma_sp_parts_tail_len(s: Seq<u8>)
    ensures
        sp_parts_tail(s) matches Some((ps, rest)) ==> rest.len() < s.len(),
    decreases s.len(),
{
    if s.len() == 0 {
    } else if s.first() == 34 {
    } else {
        match sp_u32(s) {
            Some(_) => {
                lemma_sp_parts_tail_len(s.skip(8));
            },
            None => {},
        }
    }
}

/// Reads part numbers until the closing quote.
fn p_parts_tail<'a>(s: &'a [u8]) -> (r: Option<(Vec<u32>, &'a [u8])>)
    ensures
        match r {
            Some((ps, rest)) => sp_parts_tail(s@) == Some((ps@, rest@)) && rest@.len() < s@.len(),
            None => sp_parts_tail(s@) is None,
        },
{
    let mut acc: Vec<u32> = Vec::new();
    let mut cur: &[u8] = s;
    let ghost s0 = s@;
    proof {
        assert(acc@ =~= Seq::<u32>::empty());
        assert(sp_parts_tail(s0) == (match sp_parts_tail(cur@) {
            Some((ps, rest)) => Some((acc@ + ps, rest)),
            None => None,
        })) by {
            match sp_parts_tail(cur@) {
                Some(pr) => {
                    assert(acc@ + pr.0 =~= pr.0);
                },
                None => {},
            }
        }
        lemma_sp_parts_tail_len(s0);
    }
    loop
        invariant
            s0 == s@,
            cur@.len() <= s0.len(),
            sp_parts_tail(s0) == (match sp_parts_tail(cur@) {
                Some((ps, rest)) => Some((acc@ + ps, rest)),
                None => None,
            }),
            sp_parts_tail(cur@) matches Some((ps, rest)) ==> rest.len() < s0.len(),
        decreases cur@.len(),
    {
        if cur.len() == 0 {
            proof {
                assert(sp_parts_tail(cur@) is None);
                assert(sp_parts_tail(s0) is None);
            }
            return None;
        }
        let b = cur[0];
        if b == 34 {
            let rest = vstd::slice::slice_subrange(cur, 1, cur.len());
            proof {
                assert(cur@.drop_first() =~= rest@);
                assert(sp_parts_tail(cur@) == Some((Seq::<u32>::empty(), rest@)));
                assert(acc@ + Seq::<u32>::empty() =~= acc@);
            }
            return Some((acc, rest));
        }
        match p_u32(cur) {
            Some((n, r1)) => {
                let ghost acc_before = acc@;
                let ghost cur_before = cur@;
                acc.push(n);
                proof {
                    assert(cur_before.skip(8) =~= r1@);
                    match sp_parts_tail(r1@) {
                        Some(pr) => {
                            assert(sp_parts_tail(cur_before) == Some(
                                (seq![n] + pr.0, pr.1),
                            ));
                            assert(acc_before + (seq![n] + pr.0) =~= acc@ + pr.0);
                        },
                        None => {
                            assert(sp_parts_tail(cur_before) is None);
                        },
                    }
                }
                cur = r1;
            },
            None => {
                proof {
                    assert(sp_parts_tail(cur@) is None);
                    assert(sp_parts_tail(s0) is None);
                }
                return None;
            },
        }
    }
}

/// Reads an optional string value.
fn p_opt_str<'a>(s: &'a [u8]) -> (r: Option<(Option<String>, &'a [u8])>)
    ensures
        match r {
            Some((o, rest)) => sp_opt_str(s@) == Some((crate::state::opt_str_view(o), rest@))
                && rest@.len() <= s@.len(),
            None => sp_opt_str(s@) is None,
        },
{
    proof {
        reveal_strlit("null");
        assert(vstd::string::is_ascii("null"));
        assert(ascii_bytes("null"@) =~= lit_null());
    }
    match p_lit(s, lit_bytes("null")) {
        Some(rest) => Some((None, rest)),
        None => {
            if s.len() > 0 && s[0] == 34 {
                let tail = vstd::slice::slice_subrange(s, 1, s.len());
                proof {
                    assert(s@.drop_first() =~= tail@);
                }
                match p_str_tail(tail) {
                    Some((t, rest)) => Some((Some(t), rest)),
                    None => None,
                }
            } else {
                None
            }
        },
    }
}

/// Reads the optional part list.
fn p_parts_value<'a>(s: &'a [u8]) -> (r: Option<(Option<Vec<u32>>, &'a [u8])>)
    ensures
        match r {
            Some((o, rest)) => sp_parts_value(s@) == Some(
                (crate::state::opt_parts_view(o), rest@),
            ) && rest@.len() <= s@.len(),
            None => sp_parts_value(s@) is None,
        },
{
    proof {
        reveal_strlit("null");
        assert(vstd::string::is_ascii("null"));
        assert(ascii_bytes("null"@) =~= lit_null());
    }
    match p_lit(s, lit_bytes("null")) {
        Some(rest) => Some((None, rest)),
        None => {
            if s.len() > 0 && s[0] == 34 {
                let tail = vstd::slice::slice_subrange(s, 1, s.len());
                proof {
                    assert(s@.drop_first() =~= tail@);
                }
                match p_parts_tail(tail) {
                    Some((ps, rest)) => Some((Some(ps), rest)),
                    None => None,
                }
            } else {
                None
            }
        },
    }
}

/// Reads the status tag with its closing quote.
fn p_status_name<'a>(s: &'a [u8]) -> (r: Option<(BatchStatus, &'a [u8])>)
    ensures
        match r {
            Some((st, rest)) => sp_status_name(s@) == Some((st, rest@)) && rest@.len()
                <= s@.len(),
            None => sp_status_name(s@) is None,
        },
{
    proof {
        reveal_strlit("OPEN\"");
        reveal_strlit("UPLOADING\"");
        reveal_strlit("COMPLETED\"");
        reveal_strlit("PARTIAL_ERROR\"");
        assert(vstd::string::is_ascii("OPEN\""));
        assert(vstd::string::is_ascii("UPLOADING\""));
        assert(vstd::string::is_ascii("COMPLETED\""));
        assert(vstd::string::is_ascii("PARTIAL_ERROR\""));
        assert(ascii_bytes("OPEN\""@) =~= lit_open() + seq![34u8]);
        assert(ascii_bytes("UPLOADING\""@) =~= lit_uploading() + seq![34u8]);
        assert(ascii_bytes("COMPLETED\""@) =~= lit_completed() + seq![34u8]);
        assert(ascii_bytes("PARTIAL_ERROR\""@) =~= lit_partial_error() + seq![34u8]);
    }
    match p_lit(s, lit_bytes("OPEN\"")) {
        Some(rest) => Some((BatchStatus::Open, rest)),
        None => match p_lit(s, lit_bytes("UPLOADING\"")) {
            Some(rest) => Some((BatchStatus::Uploading, rest)),
            None => match p_lit(s, lit_bytes("COMPLETED\"")) {
                Some(rest) => Some((BatchStatus::Completed, rest)),
                None => match p_lit(s, lit_bytes("PARTIAL_ERROR\"")) {
                    Some(rest) => Some((BatchStatus::PartialError, rest)),
                    None => None,
                },
            },
        },
    }
}

/// Reads one file's status object.
fn p_status<'a>(s: &'a [u8]) -> (r: Option<(crate::state::FileStatus, &'a [u8])>)
    ensures
        match r {
            Some((st, rest)) => sp_status(s@) == Some((st@, rest@)) && rest@.len() < s@.len(),
            None => sp_status(s@) is None,
        },
{
    proof {
        reveal(sp_status);
        reveal_strlit("{\"recordingId\":\"");
        reveal_strlit(",\"uploaded\":");
        reveal_strlit(",\"error\":");
        reveal_strlit(",\"uploadId\":");
        reveal_strlit(",\"rawR2Key\":");
        reveal_strlit(",\"completedParts\":");
        reveal_strlit(",\"multipartUploadId\":");
        reveal_strlit("}");
        assert(vstd::string::is_ascii("{\"recordingId\":\""));
        assert(vstd::string::is_ascii(",\"uploaded\":"));
        assert(vstd::string::is_ascii(",\"error\":"));
        assert(vstd::string::is_ascii(",\"uploadId\":"));
        assert(vstd::string::is_ascii(",\"rawR2Key\":"));
        assert(vstd::string::is_ascii(",\"completedParts\":"));
        assert(vstd::string::is_ascii(",\"multipartUploadId\":"));
        assert(vstd::string::is_ascii("}"));
        assert(ascii_bytes("{\"recordingId\":\""@) =~= lit_rec_open());
        assert(ascii_bytes(",\"uploaded\":"@) =~= lit_uploaded());
        assert(ascii_bytes(",\"error\":"@) =~= lit_error());
        assert(ascii_bytes(",\"uploadId\":"@) =~= lit_upload_id());
        assert(ascii_bytes(",\"rawR2Key\":"@) =~= lit_raw_key());
        assert(ascii_bytes(",\"completedParts\":"@) =~= lit_parts());
        assert(ascii_bytes(",\"multipartUploadId\":"@) =~= lit_mp_id());
        assert(ascii_bytes("}"@) =~= seq![125u8]);
    }
    let r1 = match p_lit(s, lit_bytes("{\"recordingId\":\"")) {
        Some(x) => x,
        None => {
            return None;
        },
    };
    let (rid, r2) = match p_str_tail(r1) {
        Some(x) => x,
        None => {
            return None;
        },
    };
    let r3 = match p_lit(r2, lit_bytes(",\"uploaded\":")) {
        Some(x) => x,
        None => {
            return None;
        },
    };
    let (up, r4) = match p_bool(r3) {
        Some(x) => x,
        None => {
            return None;
        },
    };
    let r5 = match p_lit(r4, lit_bytes(",\"error\":")) {
        Some(x) => x,
        None => {
            return None;
        },
    };
    let (err, r6) = match p_opt_str(r5) {
        Some(x) => x,
        None => {
            return None;
        },
    };
    let r7 = match p_lit(r6, lit_bytes(",\"uploadId\":")) {
        Some(x) => x,
        None => {
            return None;
        },
    };
    let (uid, r8) = match p_opt_str(r7) {
        Some(x) => x,
        None => {
            return None;
        },
    };
    let r9 = match p_lit(r8, lit_bytes(",\"rawR2Key\":")) {
        Some(x) => x,
        None => {
            return None;
        },
    };
    let (key, r10) = match p_opt_str(r9) {
        Some(x) => x,
        None => {
            return None;
        },
    };
    let r11 = match p_lit(r10, lit_bytes(",\"completedParts\":")) {
        Some(x) => x,
        None => {
            return None;
        },
    };
    let (ps, r12) = match p_parts_value(r11) {
        Some(x) => x,
        None => {
            return None;
        },
    };
    let r13 = match p_lit(r12, lit_bytes(",\"multipartUploadId\":")) {
        Some(x) => x,
        None => {
            return None;
        },
    };
    let (mp, r14) = match p_opt_str(r13) {
        Some(x) => x,
        None => {
            return None;
        },
    };
    let r15 = match p_lit(r14, lit_bytes("}")) {
        Some(x) => x,
        None => {
            return None;
        },
    };
    let st = crate::state::FileStatus {
        recording_id: rid,
        uploaded: up,
        error: err,
        upload_id: uid,
        raw_r2_key: key,
        completed_parts: ps,
        multipart_upload_id: mp,
    };
    Some((st, r15))
}

/// Reads the entries of the files object up to and including its closing
/// brace.
fn p_files_entries<'a>(s: &'a [u8], first: bool, fuel: usize) -> (r: Option<
    (Vec<crate::state::FileEntry>, &'a [u8]),
>)
    ensures
        match r {
            Some((es, rest)) => sp_files_entries(s@, first, fuel as nat) == Some(
                (
                    es@.map_values(|e: crate::state::FileEntry| (e.sha256@, e.status@)),
                    rest@,
                ),
            ),
            None => sp_files_entries(s@, first, fuel as nat) is None,
        },
    decreases fuel,
{
    proof {
        reveal_strlit(",");
        reveal_strlit("\"");
        reveal_strlit(":");
        assert(vstd::string::is_ascii(","));
        assert(vstd::string::is_ascii("\""));
        assert(vstd::string::is_ascii(":"));
        assert(ascii_bytes(","@) =~= seq![44u8]);
        assert(ascii_bytes("\""@) =~= seq![34u8]);
        assert(ascii_bytes(":"@) =~= seq![58u8]);
    }
    if s.len() == 0 {
        return None;
    }
    if s[0] == 125 {
        let rest = vstd::slice::slice_subrange(s, 1, s.len());
        let es: Vec<crate::state::FileEntry> = Vec::new();
        proof {
            assert(s@.drop_first() =~= rest@);
            assert(es@.map_values(|e: crate::state::FileEntry| (e.sha256@, e.status@)) =~= Seq::<
                (Seq<char>, crate::state::FileStatusV),
            >::empty());
        }
        return Some((es, rest));
    }
    if fuel == 0 {
        return None;
    }
    let s1 = if first {
        s
    } else {
        match p_lit(s, lit_bytes(",")) {
            Some(x) => x,
            None => {
                return None;
            },
        }
    };
    let s2 = match p_lit(s1, lit_bytes("\"")) {
        Some(x) => x,
        None => {
            return None;
        },
    };
    let (k, s3) = match p_str_tail(s2) {
        Some(x) => x,
        None => {
            return None;
        },
    };
    let s4 = match p_lit(s3, lit_bytes(":")) {
        Some(x) => x,
        None => {
            return None;
        },
    };
    let (st, s5) = match p_status(s4) {
        Some(x) => x,
        None => {
            return None;
        },
    };
    let (es, rest) = match p_files_entries(s5, false, fuel - 1) {
        Some(x) => x,
        None => {
            return None;
        },
    };
    let mut out: Vec<crate::state::FileEntry> = Vec::new();
    let ghost kv = k@;
    let ghost stv = st@;
    out.push(crate::state::FileEntry { sha256: k, status: st });
    let mut es = es;
    let ghost esv = es@.map_values(|e: crate::state::FileEntry| (e.sha256@, e.status@));
    out.append(&mut es);
    proof {
        assert(out@.map_values(|e: crate::state::FileEntry| (e.sha256@, e.status@)) =~= seq![
            (kv, stv),
        ] + esv);
    }
    Some((out, rest))
}

/// Reads one batch object.
fn p_batch<'a>(s: &'a [u8], fuel: usize) -> (r: Option<(crate::state::BatchState, &'a [u8])>)
    ensures
        match r {
            Some((b, rest)) => sp_batch(s@, fuel as nat) == Some((b@, rest@)),
            None => sp_batch(s@, fuel as nat) is None,
        },
{
    proof {
        reveal(sp_batch);
        reveal_strlit("{\"status\":\"");
        reveal_strlit(",\"deviceId\":\"");
        reveal_strlit(",\"files\":{");
        reveal_strlit("}");
        assert(vstd::string::is_ascii("{\"status\":\""));
        assert(vstd::string::is_ascii(",\"deviceId\":\""));
        assert(vstd::string::is_ascii(",\"files\":{"));
        assert(vstd::string::is_ascii("}"));
        assert(ascii_bytes("{\"status\":\""@) =~= lit_status_open());
        assert(ascii_bytes(",\"deviceId\":\""@) =~= lit_device());
        assert(ascii_bytes(",\"files\":{"@) =~= lit_files());
        assert(ascii_bytes("}"@) =~= seq![125u8]);
    }
    let r1 = match p_lit(s, lit_bytes("{\"status\":\"")) {
        Some(x) => x,
        None => {
            return None;
        },
    };
    let (st, r2) = match p_status_name(r1) {
        Some(x) => x,
        None => {
            return None;
        },
    };
    let r3 = match p_lit(r2, lit_bytes(",\"deviceId\":\"")) {
        Some(x) => x,
        None => {
            return None;
        },
    };
    let (dev, r4) = match p_str_tail(r3) {
        Some(x) => x,
        None => {
            return None;
        },
    };
    let r5 = match p_lit(r4, lit_bytes(",\"files\":{")) {
        Some(x) => x,
        None => {
            return None;
        },
    };
    let (fs, r6) = match p_files_entries(r5, true, fuel) {
        Some(x) => x,
        None => {
            return None;
        },
    };
    let r7 = match p_lit(r6, lit_bytes("}")) {
        Some(x) => x,
        None => {
            return None;
        },
    };
    let b = crate::state::BatchState { status: st, device_id: dev, files: fs };
    Some((b, r7))
}

/// Reads the entries of the batches object up to and including its closing
/// brace.
fn p_batches_entries<'a>(s: &'a [u8], first: bool, fuel: usize) -> (r: Option<
    (Vec<crate::state::BatchEntry>, &'a [u8]),
>)
    ensures
        match r {
            Some((es, rest)) => sp_batches_entries(s@, first, fuel as nat) == Some(
                (
                    es@.map_values(|e: crate::state::BatchEntry| (e.batch_id@, e.state@)),
                    rest@,
                ),
            ),
            None => sp_batches_entries(s@, first, fuel as nat) is None,
        },
    decreases fuel,
{
    proof {
        reveal_strlit(",");
        reveal_strlit("\"");
        reveal_strlit(":");
        assert(vstd::string::is_ascii(","));
        assert(vstd::string::is_ascii("\""));
        assert(vstd::string::is_ascii(":"));
        assert(ascii_bytes(","@) =~= seq![44u8]);
        assert(ascii_bytes("\""@) =~= seq![34u8]);
        assert(ascii_bytes(":"@) =~= seq![58u8]);
    }
    if s.len() == 0 {
        return None;
    }
    if s[0] == 125 {
        let rest = vstd::slice::slice_subrange(s, 1, s.len());
        let es: Vec<crate::state::BatchEntry> = Vec::new();
        proof {
            assert(s@.drop_first() =~= rest@);
            assert(es@.map_values(|e: crate::state::BatchEntry| (e.batch_id@, e.state@)) =~= Seq::<
                (Seq<char>, BatchStateV),
            >::empty());
        }
        return Some((es, rest));
    }
    if fuel == 0 {
        return None;
    }
    let s1 = if first {
        s
    } else {
        match p_lit(s, lit_bytes(",")) {
            Some(x) => x,
            None => {
                return None;
            },
        }
    };
    let s2 = match p_lit(s1, lit_bytes("\"")) {
        Some(x) => x,
        None => {
            return None;
        },
    };
    let (k, s3) = match p_str_tail(s2) {
        Some(x) => x,
        None => {
            return None;
        },
    };
    let s4 = match p_lit(s3, lit_bytes(":")) {
        Some(x) => x,
        None => {
            return None;
        },
    };
    let (b, s5) = match p_batch(s4, fuel) {
        Some(x) => x,
        None => {
            return None;
        },
    };
    let (es, rest) = match p_batches_entries(s5, false, fuel - 1) {
        Some(x) => x,
        None => {
            return None;
        },
    };
    let mut out: Vec<crate::state::BatchEntry> = Vec::new();
    let ghost kv = k@;
    let ghost bv = b@;
    out.push(crate::state::BatchEntry { batch_id: k, state: b });
    let mut es = es;
    let ghost esv = es@.map_values(|e: crate::state::BatchEntry| (e.batch_id@, e.state@));
    out.append(&mut es);
    proof {
        assert(out@.map_values(|e: crate::state::BatchEntry| (e.batch_id@, e.state@)) =~= seq![
            (kv, bv),
        ] + esv);
    }
    Some((out, rest))
}

/// Reads a whole persisted snapshot back. Succeeds exactly when the bytes
/// are one canonical snapshot with nothing trailing.
pub fn parse_app_state(data: &[u8]) -> (r: Option<crate::state::AppState>)
    ensures
        match r {
            Some(st) => sp_app(data@) == Some((st@, Seq::<u8>::empty())),
            None => !(sp_app(data@) matches Some(p) && p.1.len() == 0),
        },
{
    proof {
        reveal_strlit("{\"batches\":{");
        reveal_strlit("}");
        assert(vstd::string::is_ascii("{\"batches\":{"));
        assert(vstd::string::is_ascii("}"));
        assert(ascii_bytes("{\"batches\":{"@) =~= lit_app_open());
        assert(ascii_bytes("}"@) =~= seq![125u8]);
    }
    let r1 = match p_lit(data, lit_bytes("{\"batches\":{")) {
        Some(x) => x,
        None => {
            return None;
        },
    };
    let (bs, r2) = match p_batches_entries(r1, true, r1.len()) {
        Some(x) => x,
        None => {
            return None;
        },
    };
    let r3 = match p_lit(r2, lit_bytes("}")) {
        Some(x) => x,
        None => {
            return None;
        },
    };
    if r3.len() == 0 {
        proof {
            assert(r3@ =~= Seq::<u8>::empty());
        }
        Some(crate::state::AppState { batches: bs })
    } else {
        None
    }
}

/// Appends a string's characters as single bytes.
fn append_chars(out: &mut Vec<u8>, s: &str)
    ensures
        final(out)@ == old(out)@ + ascii_bytes(s@),
{
    let n = s.unicode_len();
    let mut i: usize = 0;
    while i < n
        invariant
            i <= n,
            n == s@.len(),
            out@ == old(out)@ + ascii_bytes(s@).subrange(0, i as int),
        decreases n - i,
    {
        let c = s.get_char(i);
        out.push(#[verifier::truncate] (c as u8));
        proof {
            assert(out@ =~= old(out)@ + ascii_bytes(s@).subrange(0, i + 1));
        }
        i = i + 1;
    }
    proof {
        assert(ascii_bytes(s@).subrange(0, n as int) =~= ascii_bytes(s@));
    }
}

/// Appends one `\uXXXX` escape.
fn append_escape(out: &mut Vec<u8>, v: u32)
    requires
        v < 0x10000,
    ensures
        final(out)@ == old(out)@ + (lit_esc() + hex4(v)),
{
    out.push(92);
    out.push(117);
    proof {
        assert(out@ =~= old(out)@ + lit_esc());
        assert(out@ =~= old(out)@ + lit_esc() + hex4(v).subrange(0, 0));
    }
    let mut i: u32 = 0;
    while i < 4
        invariant
            i <= 4,
            v < 0x10000,
            out@ == old(out)@ + lit_esc() + hex4(v).subrange(0, i as int),
        decreases 4 - i,
    {
        let sh: u32 = 12 - 4 * i;
        let d: u8 = #[verifier::truncate] (((v >> sh) & 0xf) as u8);
        let hb: u8 = if d < 10 {
            48 + d
        } else {
            proof {
                assert((v >> sh) & 0xf < 16) by (bit_vector);
            }
            87 + d
        };
        proof {
            assert((v >> sh) & 0xf < 16) by (bit_vector);
            assert(nib4(v, i as int) == d);
            assert(hb == hexb(nib4(v, i as int)));
            assert(hex4(v)[i as int] == hb);
        }
        out.push(hb);
        proof {
            assert(out@ =~= old(out)@ + lit_esc() + hex4(v).subrange(0, i + 1));
        }
        i = i + 1;
    }
    proof {
        assert(hex4(v).subrange(0, 4) =~= hex4(v));
        assert(old(out)@ + lit_esc() + hex4(v) =~= old(out)@ + (lit_esc() + hex4(v)));
    }
}

/// Appends a quoted string's tail: each character's stored bytes and the
/// closing quote.
fn append_str_tail(out: &mut Vec<u8>, s: &str)
    ensures
        final(out)@ == old(out)@ + enc_str_tail(s@),
{
    let n = s.unicode_len();
    let mut i: usize = 0;
    proof {
        assert(s@.skip(0) =~= s@);
    }
    while i < n
        invariant
            i <= n,
            n == s@.len(),
            out@ + enc_str_tail(s@.skip(i as int)) == old(out)@ + enc_str_tail(s@),
        decreases n - i,
    {
        let ghost before = out@;
        let c = s.get_char(i);
        proof {
            reveal_with_fuel(enc_str_tail, 1);
            assert(s@.skip(i as int).first() == s@[i as int]);
            assert(s@.skip(i as int).drop_first() =~= s@.skip(i + 1));
            assert(enc_str_tail(s@.skip(i as int)) == enc_char(c) + enc_str_tail(
                s@.skip(i + 1),
            ));
            vstd::utf8::char_is_scalar(c);
        }
        let u = c as u32;
        if 32 <= u && u <= 126 && u != 34 && u != 92 {
            out.push(#[verifier::truncate] (c as u8));
            proof {
                reveal(enc_char);
                assert(json_safe_char(c));
                assert(out@ =~= before + enc_char(c));
            }
        } else if u < 0x10000 {
            append_escape(out, u);
            proof {
                reveal(enc_char);
                assert(!json_safe_char(c));
                assert(out@ =~= before + enc_char(c));
            }
        } else {
            let d = u - 0x10000;
            let hi = 0xD800 + d / 0x400;
            let lo = 0xDC00 + d % 0x400;
            proof {
                assert(vstd::utf8::is_scalar(u));
                assert(u <= 0x10FFFF);
                lemma_surrogates(u);
                assert(hi == hi_surrogate(u));
                assert(lo == lo_surrogate(u));
            }
            let ghost mid = before + (lit_esc() + hex4(hi));
            append_escape(out, hi);
            append_escape(out, lo);
            proof {
                reveal(enc_char);
                assert(!json_safe_char(c));
                assert(out@ =~= mid + (lit_esc() + hex4(lo)));
                assert(out@ =~= before + enc_char(c)) by {
                    assert(enc_char(c) =~= (lit_esc() + hex4(hi)) + (lit_esc() + hex4(lo)));
                }
            }
        }
        proof {
            seq_assoc(before, enc_char(c), enc_str_tail(s@.skip(i + 1)));
        }
        i = i + 1;
    }
    proof {
        assert(s@.skip(n as int) =~= Seq::<char>::empty());
    }
    out.push(34);
    proof {
        reveal_with_fuel(enc_str_tail, 1);
        assert(out@ =~= old(out)@ + enc_str_tail(s@));
    }
}

/// Appends one part number as 8 hex digit bytes.
fn append_u32(out: &mut Vec<u8>, n: u32)
    ensures
        final(out)@ == old(out)@ + enc_u32(n),
{
    let mut i: u32 = 0;
    while i < 8
        invariant
            i <= 8,
            out@ == old(out)@ + enc_u32(n).subrange(0, i as int),
        decreases 8 - i,
    {
        let sh: u32 = 28 - 4 * i;
        let d: u8 = #[verifier::truncate] (((n >> sh) & 0xf) as u8);
        let hb: u8 = if d < 10 {
            48 + d
        } else {
            proof {
                assert((n >> sh) & 0xf < 16 && d == ((n >> sh) & 0xf) as u8 ==> d < 16)
                    by (bit_vector);
                assert((n >> sh) & 0xf < 16) by (bit_vector);
            }
            87 + d
        };
        proof {
            assert((n >> sh) & 0xf < 16) by (bit_vector);
            assert(nibble(n, i as int) == d);
            assert(hb == hexb(nibble(n, i as int)));
            assert(enc_u32(n)[i as int] == hb);
        }
        out.push(hb);
        proof {
            assert(out@ =~= old(out)@ + enc_u32(n).subrange(0, i + 1));
        }
        i = i + 1;
    }
    proof {
        assert(enc_u32(n).subrange(0, 8) =~= enc_u32(n));
    }
}

/// Appends the part numbers and the closing quote.
fn append_parts_tail(out: &mut Vec<u8>, ps: &Vec<u32>)
    ensures
        final(out)@ == old(out)@ + enc_parts_tail(ps@),
{
    let mut i: usize = 0;
    proof {
        assert(ps@.skip(0) =~= ps@);
    }
    while i < ps.len()
        invariant
            i <= ps.len(),
            out@ + enc_parts_tail(ps@.skip(i as int)) == old(out)@ + enc_parts_tail(ps@),
        decreases ps.len() - i,
    {
        let ghost before = out@;
        proof {
            assert(ps@.skip(i as int).first() == ps@[i as int]);
            assert(ps@.skip(i as int).drop_first() =~= ps@.skip(i + 1));
            assert(enc_parts_tail(ps@.skip(i as int)) == enc_u32(ps@[i as int]) + enc_parts_tail(
                ps@.skip(i + 1),
            ));
        }
        append_u32(out, ps[i]);
        proof {
            seq_assoc(before, enc_u32(ps@[i as int]), enc_parts_tail(ps@.skip(i + 1)));
        }
        i = i + 1;
    }
    proof {
        assert(ps@.skip(ps@.len() as int) =~= Seq::<u32>::empty());
    }
    out.push(34);
    proof {
        assert(out@ =~= old(out)@ + enc_parts_tail(ps@));
    }
}

/// Appends an optional string value, `null` when unset.
fn append_opt_str(out: &mut Vec<u8>, o: &Option<String>)
    ensures
        final(out)@ == old(out)@ + enc_opt_str(crate::state::opt_str_view(*o)),
{
    match o {
        Some(s) => {
            out.push(34);
            append_str_tail(out, s.as_str());
            proof {
                assert(out@ =~= old(out)@ + enc_opt_str(crate::state::opt_str_view(*o)));
            }
        },
        None => {
            append_chars(out, "null");
            proof {
                reveal_strlit("null");
                assert(ascii_bytes("null"@) =~= lit_null());
            }
        },
    }
}

/// Appends the optional part list, `null` when unset.
fn append_parts_value(out: &mut Vec<u8>, o: &Option<Vec<u32>>)
    ensures
        final(out)@ == old(out)@ + enc_parts_value(crate::state::opt_parts_view(*o)),
{
    match o {
        Some(ps) => {
            out.push(34);
            append_parts_tail(out, ps);
            proof {
                assert(out@ =~= old(out)@ + enc_parts_value(crate::state::opt_parts_view(*o)));
            }
        },
        None => {
            append_chars(out, "null");
            proof {
                reveal_strlit("null");
                assert(ascii_bytes("null"@) =~= lit_null());
            }
        },
    }
}

/// Appends one file's status object.
fn append_status(out: &mut Vec<u8>, st: &crate::state::FileStatus)
    ensures
        final(out)@ == old(out)@ + enc_status(st@),
{
    proof {
        reveal(enc_status);
        reveal_strlit("{\"recordingId\":\"");
        reveal_strlit(",\"uploaded\":");
        reveal_strlit("true");
        reveal_strlit("false");
        reveal_strlit(",\"error\":");
        reveal_strlit(",\"uploadId\":");
        reveal_strlit(",\"rawR2Key\":");
        reveal_strlit(",\"completedParts\":");
        reveal_strlit(",\"multipartUploadId\":");
        assert(ascii_bytes("{\"recordingId\":\""@) =~= lit_rec_open());
        assert(ascii_bytes(",\"uploaded\":"@) =~= lit_uploaded());
        assert(ascii_bytes("true"@) =~= lit_true());
        assert(ascii_bytes("false"@) =~= lit_false());
        assert(ascii_bytes(",\"error\":"@) =~= lit_error());
        assert(ascii_bytes(",\"uploadId\":"@) =~= lit_upload_id());
        assert(ascii_bytes(",\"rawR2Key\":"@) =~= lit_raw_key());
        assert(ascii_bytes(",\"completedParts\":"@) =~= lit_parts());
        assert(ascii_bytes(",\"multipartUploadId\":"@) =~= lit_mp_id());
    }
    let ghost o0 = out@;
    append_chars(out, "{\"recordingId\":\"");
    let ghost o1 = out@;
    append_str_tail(out, st.recording_id.as_str());
    let ghost o2 = out@;
    append_chars(out, ",\"uploaded\":");
    let ghost o3 = out@;
    if st.uploaded {
        append_chars(out, "true");
    } else {
        append_chars(out, "false");
    }
    let ghost o4 = out@;
    append_chars(out, ",\"error\":");
    let ghost o5 = out@;
    append_opt_str(out, &st.error);
    let ghost o6 = out@;
    append_chars(out, ",\"uploadId\":");
    let ghost o7 = out@;
    append_opt_str(out, &st.upload_id);
    let ghost o8 = out@;
    append_chars(out, ",\"rawR2Key\":");
    let ghost o9 = out@;
    append_opt_str(out, &st.raw_r2_key);
    let ghost o10 = out@;
    append_chars(out, ",\"completedParts\":");
    let ghost o11 = out@;
    append_parts_value(out, &st.completed_parts);
    let ghost o12 = out@;
    append_chars(out, ",\"multipartUploadId\":");
    let ghost o13 = out@;
    append_opt_str(out, &st.multipart_upload_id);
    let ghost o14 = out@;
    out.push(125);
    proof {
        let a1 = lit_rec_open();
        let a2 = enc_str_tail(st@.recording_id);
        let a3 = lit_uploaded();
        let a4 = enc_bool(st@.uploaded);
        let a5 = lit_error();
        let a6 = enc_opt_str(st@.error);
        let a7 = lit_upload_id();
        let a8 = enc_opt_str(st@.upload_id);
        let a9 = lit_raw_key();
        let a10 = enc_opt_str(st@.raw_r2_key);
        let a11 = lit_parts();
        let a12 = enc_parts_value(st@.completed_parts);
        let a13 = lit_mp_id();
        let a14 = enc_opt_str(st@.multipart_upload_id);
        let a15 = seq![125u8];
        let r15 = a15;
        let r14 = a14 + r15;
        let r13 = a13 + r14;
        let r12 = a12 + r13;
        let r11 = a11 + r12;
        let r10 = a10 + r11;
        let r9 = a9 + r10;
        let r8 = a8 + r9;
        let r7 = a7 + r8;
        let r6 = a6 + r7;
        let r5 = a5 + r6;
        let r4 = a4 + r5;
        let r3 = a3 + r4;
        let r2 = a2 + r3;
        assert(out@ =~= o14 + a15);
        seq_assoc(o13, a14, r15);
        seq_assoc(o12, a13, r14);
        seq_assoc(o11, a12, r13);
        seq_assoc(o10, a11, r12);
        seq_assoc(o9, a10, r11);
        seq_assoc(o8, a9, r10);
        seq_assoc(o7, a8, r9);
        seq_assoc(o6, a7, r8);
        seq_assoc(o5, a6, r7);
        seq_assoc(o4, a5, r6);
        seq_assoc(o3, a4, r5);
        seq_assoc(o2, a3, r4);
        seq_assoc(o1, a2, r3);
        seq_assoc(o0, a1, r2);
        assert(enc_status(st@) == a1 + r2);
    }
}

/// Appends one batch object.
fn append_batch(out: &mut Vec<u8>, b: &crate::state::BatchState)
    ensures
        final(out)@ == old(out)@ + enc_batch(b@),
{
    proof {
        reveal(enc_batch);
        reveal_strlit("{\"status\":\"");
        reveal_strlit("OPEN");
        reveal_strlit("UPLOADING");
        reveal_strlit("COMPLETED");
        reveal_strlit("PARTIAL_ERROR");
        reveal_strlit(",\"deviceId\":\"");
        reveal_strlit(",\"files\":{");
        assert(ascii_bytes("{\"status\":\""@) =~= lit_status_open());
        assert(ascii_bytes("OPEN"@) =~= lit_open());
        assert(ascii_bytes("UPLOADING"@) =~= lit_uploading());
        assert(ascii_bytes("COMPLETED"@) =~= lit_completed());
        assert(ascii_bytes("PARTIAL_ERROR"@) =~= lit_partial_error());
        assert(ascii_bytes(",\"deviceId\":\""@) =~= lit_device());
        assert(ascii_bytes(",\"files\":{"@) =~= lit_files());
    }
    let ghost o0 = out@;
    append_chars(out, "{\"status\":\"");
    let ghost o1 = out@;
    match b.status {
        BatchStatus::Open => append_chars(out, "OPEN"),
        BatchStatus::Uploading => append_chars(out, "UPLOADING"),
        BatchStatus::Completed => append_chars(out, "COMPLETED"),
        BatchStatus::PartialError => append_chars(out, "PARTIAL_ERROR"),
    }
    out.push(34);
    let ghost o2 = out@;
    proof {
        assert(o2 =~= o1 + enc_status_name(b@.status));
    }
    append_chars(out, ",\"deviceId\":\"");
    let ghost o3 = out@;
    append_str_tail(out, b.device_id.as_str());
    let ghost o4 = out@;
    append_chars(out, ",\"files\":{");
    let ghost base = out@;
    let mut i: usize = 0;
    while i < b.files.len()
        invariant
            i <= b.files.len(),
            b@.files.len() == b.files.len(),
            out@ + enc_files_from(b@.files, i as int) == base + enc_files_from(b@.files, 0),
        decreases b.files.len() - i,
    {
        let ghost before = out@;
        let ghost fs = b@.files;
        proof {
            assert(fs[i as int] == (b.files@[i as int].sha256@, b.files@[i as int].status@));
        }
        if i > 0 {
            out.push(44);
        }
        let ghost p1 = out@;
        out.push(34);
        let ghost p2 = out@;
        append_str_tail(out, b.files[i].sha256.as_str());
        let ghost p3 = out@;
        out.push(58);
        let ghost p4 = out@;
        append_status(out, &b.files[i].status);
        proof {
            let comma: Seq<u8> = if i > 0 {
                seq![44u8]
            } else {
                Seq::<u8>::empty()
            };
            let a2 = seq![34u8];
            let a3 = enc_str_tail(fs[i as int].0);
            let a4 = seq![58u8];
            let a5 = enc_status(fs[i as int].1);
            let tail = enc_files_from(fs, i + 1);
            let r5 = a5 + tail;
            let r4 = a4 + r5;
            let r3 = a3 + r4;
            let r2 = a2 + r3;
            assert(enc_files_from(fs, i as int) == comma + r2);
            assert(p1 =~= before + comma);
            assert(p2 =~= p1 + a2);
            assert(p3 =~= p2 + a3);
            assert(p4 =~= p3 + a4);
            assert(out@ =~= p4 + a5);
            seq_assoc(p4, a5, tail);
            seq_assoc(p3, a4, r5);
            seq_assoc(p2, a3, r4);
            seq_assoc(p1, a2, r3);
            seq_assoc(before, comma, r2);
        }
        i = i + 1;
    }
    proof {
        assert(enc_files_from(b@.files, b@.files.len() as int) =~= Seq::<u8>::empty());
        assert(out@ + Seq::<u8>::empty() =~= out@);
    }
    out.push(125);
    out.push(125);
    proof {
        let a1 = lit_status_open();
        let a2 = enc_status_name(b@.status);
        let a3 = lit_device();
        let a4 = enc_str_tail(b@.device_id);
        let a5 = lit_files();
        let a6 = enc_files_from(b@.files, 0);
        let a7 = seq![125u8, 125];
        let r7 = a7;
        let r6 = a6 + r7;
        let r5 = a5 + r6;
        let r4 = a4 + r5;
        let r3 = a3 + r4;
        let r2 = a2 + r3;
        assert(out@ =~= (base + a6) + a7);
        seq_assoc(base, a6, r7);
        seq_assoc(o4, a5, r6);
        seq_assoc(o3, a4, r5);
        seq_assoc(o2, a3, r4);
        seq_assoc(o1, a2, r3);
        seq_assoc(o0, a1, r2);
        assert(enc_batch(b@) == a1 + r2);
    }
}

/// Writes the whole state in the canonical persisted form; the escape
/// scheme makes every state writable.
pub fn encode_app_state(s: &crate::state::AppState) -> (r: Vec<u8>)
    ensures
        r@ == enc_app(s@),
{
    proof {
        reveal_strlit("{\"batches\":{");
        assert(ascii_bytes("{\"batches\":{"@) =~= lit_app_open());
    }
    let mut out: Vec<u8> = Vec::new();
    append_chars(&mut out, "{\"batches\":{");
    let ghost base = out@;
    let mut i: usize = 0;
    while i < s.batches.len()
        invariant
            i <= s.batches.len(),
            s@.batches.len() == s.batches.len(),
            out@ + enc_batches_from(s@.batches, i as int) == base + enc_batches_from(
                s@.batches,
                0,
            ),
        decreases s.batches.len() - i,
    {
        let ghost before = out@;
        let ghost bs = s@.batches;
        proof {
            assert(bs[i as int] == (s.batches@[i as int].batch_id@,
            s.batches@[i as int].state@));
        }
        if i > 0 {
            out.push(44);
        }
        let ghost p1 = out@;
        out.push(34);
        let ghost p2 = out@;
        append_str_tail(&mut out, s.batches[i].batch_id.as_str());
        let ghost p3 = out@;
        out.push(58);
        let ghost p4 = out@;
        append_batch(&mut out, &s.batches[i].state);
        proof {
            let comma: Seq<u8> = if i > 0 {
                seq![44u8]
            } else {
                Seq::<u8>::empty()
            };
            let a2 = seq![34u8];
            let a3 = enc_str_tail(bs[i as int].0);
            let a4 = seq![58u8];
            let a5 = enc_batch(bs[i as int].1);
            let tail = enc_batches_from(bs, i + 1);
            let r5 = a5 + tail;
            let r4 = a4 + r5;
            let r3 = a3 + r4;
            let r2 = a2 + r3;
            assert(enc_batches_from(bs, i as int) == comma + r2);
            assert(p1 =~= before + comma);
            assert(p2 =~= p1 + a2);
            assert(p3 =~= p2 + a3);
            assert(p4 =~= p3 + a4);
            assert(out@ =~= p4 + a5);
            seq_assoc(p4, a5, tail);
            seq_assoc(p3, a4, r5);
            seq_assoc(p2, a3, r4);
            seq_assoc(p1, a2, r3);
            seq_assoc(before, comma, r2);
        }
        i = i + 1;
    }
    proof {
        assert(enc_batches_from(s@.batches, s@.batches.len() as int) =~= Seq::<u8>::empty());
        assert(out@ + Seq::<u8>::empty() =~= out@);
    }
    out.push(125);
    out.push(125);
    proof {
        assert(out@ =~= enc_app(s@));
    }
    out
}

} // verus!
