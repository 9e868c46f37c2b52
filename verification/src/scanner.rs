use vstd::prelude::*;
use vstd::multiset::Multiset;
use crate::filename::{eq_ignore_ascii_case, eq_ignore_case, extension_of, spec_extension,
    starts_with_dot};

verus! {

/// One audio file found on a volume, as reported to the host.
#[derive(Debug)]
pub struct FileInfo {
    pub path: String,
    pub name: String,
    pub size: u64,
    /// Modification time in Unix milliseconds.
    pub modified: u64,
}

/// Mathematical image of a [`FileInfo`].
pub struct FileInfoV {
    pub path: Seq<char>,
    pub name: Seq<char>,
    pub size: u64,
    pub modified: u64,
}

impl View for FileInfo {
    type V = FileInfoV;

    open spec fn view(&self) -> FileInfoV {
        FileInfoV { path: self.path@, name: self.name@, size: self.size, modified: self.modified }
    }
}

/// One regular file as the host's directory walk reports it: where it is,
/// what it is called, the names of the directories between the scan root and
/// it, and its metadata.
#[derive(Debug)]
pub struct ScanEntry {
    pub path: String,
    pub name: String,
    pub dir_names: Vec<String>,
    pub size: u64,
    pub modified: u64,
}

/// Mathematical image of a [`ScanEntry`].
pub struct ScanEntryV {
    pub path: Seq<char>,
    pub name: Seq<char>,
    pub dir_names: Seq<Seq<char>>,
    pub size: u64,
    pub modified: u64,
}

impl View for ScanEntry {
    type V = ScanEntryV;

    open spec fn view(&self) -> ScanEntryV {
        ScanEntryV {
            path: self.path@,
            name: self.name@,
            dir_names: self.dir_names@.map_values(|s: String| s@),
            size: self.size,
            modified: self.modified,
        }
    }
}

/// The recognized audio extensions, compared ignoring ASCII case.
pub open spec fn is_audio_extension(e: Seq<char>) -> bool {
    ||| eq_ignore_ascii_case(e, "wav"@)
    ||| eq_ignore_ascii_case(e, "mp3"@)
    ||| eq_ignore_ascii_case(e, "wma"@)
    ||| eq_ignore_ascii_case(e, "m4a"@)
    ||| eq_ignore_ascii_case(e, "flac"@)
    ||| eq_ignore_ascii_case(e, "ogg"@)
}

/// A file name with a recognized audio extension.
pub open spec fn is_audio_name(name: Seq<char>) -> bool {
    match spec_extension(name) {
        Some(e) => is_audio_extension(e),
        None => false,
    }
}

/// Decides whether a file name carries a recognized audio extension.
pub fn audio_name(name: &str) -> (r: bool)
    ensures
        r == is_audio_name(name@),
{
    match extension_of(name) {
        Some(e) => {
            if eq_ignore_case(e.as_str(), "wav") {
                true
            } else if eq_ignore_case(e.as_str(), "mp3") {
                true
            } else if eq_ignore_case(e.as_str(), "wma") {
                true
            } else if eq_ignore_case(e.as_str(), "m4a") {
                true
            } else if eq_ignore_case(e.as_str(), "flac") {
                true
            } else {
                eq_ignore_case(e.as_str(), "ogg")
            }
        },
        None => false,
    }
}

/// No directory on the way to the file is hidden (dot-prefixed).
pub open spec fn no_hidden_dir(dirs: Seq<Seq<char>>) -> bool {
    forall|i: int|
        0 <= i < dirs.len() ==> !((#[trigger] dirs[i]).len() > 0 && dirs[i][0] == '.')
}

/// Decides whether a walked file lies outside every hidden directory.
pub fn entry_visible(dir_names: &Vec<String>) -> (r: bool)
    ensures
        r == no_hidden_dir(dir_names@.map_values(|s: String| s@)),
{
    let ghost dirs = dir_names@.map_values(|s: String| s@);
    let mut i: usize = 0;
    while i < dir_names.len()
        invariant
            i <= dir_names.len(),
            dirs == dir_names@.map_values(|s: String| s@),
            dirs.len() == dir_names.len(),
            forall|k: int|
                0 <= k < i ==> !((#[trigger] dirs[k]).len() > 0 && dirs[k][0] == '.'),
        decreases dir_names.len() - i,
    {
        proof {
            assert(dirs[i as int] == dir_names@[i as int]@);
        }
        if starts_with_dot(dir_names[i].as_str()) {
            return false;
        }
        i = i + 1;
    }
    true
}

/// A walked file belongs in the scan result: an audio extension, and no
/// hidden directory above it.
pub open spec fn qualifies(e: ScanEntryV) -> bool {
    is_audio_name(e.name) && no_hidden_dir(e.dir_names)
}

/// The file record a qualifying entry yields.
pub open spec fn info_of(e: ScanEntryV) -> FileInfoV {
    FileInfoV { path: e.path, name: e.name, size: e.size, modified: e.modified }
}

/// The qualifying entries of a walk, in walk order.
pub open spec fn audio_selection(entries: Seq<ScanEntryV>) -> Seq<FileInfoV>
    decreases entries.len(),
{
    if entries.len() == 0 {
        Seq::<FileInfoV>::empty()
    } else if qualifies(entries.last()) {
        audio_selection(entries.drop_last()).push(info_of(entries.last()))
    } else {
        audio_selection(entries.drop_last())
    }
}

/// The record comes from some qualifying entry of the walk.
pub open spec fn from_walk(entries: Seq<ScanEntryV>, f: FileInfoV) -> bool {
    exists|j: int|
        0 <= j < entries.len() && qualifies(#[trigger] entries[j]) && f == info_of(entries[j])
}

/// Everything selected comes from a qualifying entry.
pub proof fn lemma_audio_selection_sound(entries: Seq<ScanEntryV>, f: FileInfoV)
    requires
        audio_selection(entries).contains(f),
    ensures
        from_walk(entries, f),
    decreases entries.len(),
{
    if entries.len() > 0 {
        let prefix = audio_selection(entries.drop_last());
        if qualifies(entries.last()) && f == info_of(entries.last()) {
            assert(qualifies(entries[entries.len() - 1]));
        } else {
            assert(prefix.contains(f));
            lemma_audio_selection_sound(entries.drop_last(), f);
            let j = choose|j: int|
                0 <= j < entries.drop_last().len() && qualifies(
                    #[trigger] entries.drop_last()[j],
                ) && f == info_of(entries.drop_last()[j]);
            assert(entries[j] == entries.drop_last()[j]);
            assert(0 <= j < entries.len() && qualifies(entries[j]) && f == info_of(entries[j]));
        }
    }
}

/// Every qualifying entry is selected.
pub proof fn lemma_audio_selection_complete(entries: Seq<ScanEntryV>, j: int)
    requires
        0 <= j < entries.len(),
        qualifies(entries[j]),
    ensures
        audio_selection(entries).contains(info_of(entries[j])),
    decreases entries.len(),
{
    if j == entries.len() - 1 {
        let s = audio_selection(entries);
        assert(s == audio_selection(entries.drop_last()).push(info_of(entries.last())));
        assert(s[s.len() - 1] == info_of(entries[j]));
    } else {
        assert(entries.drop_last()[j] == entries[j]);
        lemma_audio_selection_complete(entries.drop_last(), j);
        let prefix = audio_selection(entries.drop_last());
        let k = choose|k: int| 0 <= k < prefix.len() && prefix[k] == info_of(entries[j]);
        if qualifies(entries.last()) {
            assert(audio_selection(entries)[k] == info_of(entries[j]));
        } else {
            assert(audio_selection(entries)[k] == info_of(entries[j]));
        }
    }
}

/// Sorted newest first by modification time.
pub open spec fn sorted_desc(s: Seq<FileInfoV>) -> bool {
    forall|a: int, b: int| 0 <= a < b < s.len() ==> (#[trigger] s[a]).modified >= (
    #[trigger] s[b]).modified
}

impl FileInfo {
    /// A field-for-field copy.
    pub fn duplicate(&self) -> (r: FileInfo)
        ensures
            r@ == self@,
    {
        FileInfo {
            path: self.path.clone(),
            name: self.name.clone(),
            size: self.size,
            modified: self.modified,
        }
    }
}

/// Selects the audio files of a directory walk and orders them newest
/// first: exactly the walked regular files with a recognized audio
/// extension and no hidden directory above them, as a sorted list.
pub fn select_audio_files(entries: &Vec<ScanEntry>) -> (r: Vec<FileInfo>)
    ensures
        r@.map_values(|f: FileInfo| f@).to_multiset() == audio_selection(
            entries@.map_values(|e: ScanEntry| e@),
        ).to_multiset(),
        sorted_desc(r@.map_values(|f: FileInfo| f@)),
        forall|k: int|
            0 <= k < r@.len() ==> is_audio_name((#[trigger] r@[k])@.name),
        forall|k: int|
            0 <= k < r@.len() ==> from_walk(
                entries@.map_values(|e: ScanEntry| e@),
                (#[trigger] r@[k])@,
            ),
        forall|j: int|
            0 <= j < entries@.len() && qualifies((#[trigger] entries@[j])@)
                ==> r@.map_values(|f: FileInfo| f@).contains(info_of(entries@[j]@)),
{
    broadcast use vstd::seq_lib::group_to_multiset_ensures;

    let ghost eviews = entries@.map_values(|e: ScanEntry| e@);
    let ghost target = audio_selection(eviews);

    // Keep the qualifying entries, in walk order.
    let mut kept: Vec<FileInfo> = Vec::new();
    let mut i: usize = 0;
    proof {
        assert(eviews.subrange(0, 0) =~= Seq::<ScanEntryV>::empty());
        assert(kept@.map_values(|f: FileInfo| f@) =~= audio_selection(eviews.subrange(0, 0)));
    }
    while i < entries.len()
        invariant
            i <= entries.len(),
            eviews == entries@.map_values(|e: ScanEntry| e@),
            eviews.len() == entries.len(),
            kept@.map_values(|f: FileInfo| f@) == audio_selection(eviews.subrange(0, i as int)),
        decreases entries.len() - i,
    {
        proof {
            assert(eviews[i as int] == entries@[i as int]@);
            assert(eviews.subrange(0, i + 1).drop_last() =~= eviews.subrange(0, i as int));
            assert(eviews.subrange(0, i + 1).last() == eviews[i as int]);
        }
        let ok_name = audio_name(entries[i].name.as_str());
        let ok_dirs = entry_visible(&entries[i].dir_names);
        if ok_name && ok_dirs {
            kept.push(
                FileInfo {
                    path: entries[i].path.clone(),
                    name: entries[i].name.clone(),
                    size: entries[i].size,
                    modified: entries[i].modified,
                },
            );
            proof {
                assert(kept@.map_values(|f: FileInfo| f@) =~= audio_selection(
                    eviews.subrange(0, i + 1),
                ));
            }
        }
        i = i + 1;
    }
    proof {
        assert(eviews.subrange(0, eviews.len() as int) =~= eviews);
    }

    // Selection sort: repeatedly move the newest remaining file over.
    let mut out: Vec<FileInfo> = Vec::new();
    while kept.len() > 0
        invariant
            out@.map_values(|f: FileInfo| f@).to_multiset().add(
                kept@.map_values(|f: FileInfo| f@).to_multiset(),
            ) == target.to_multiset(),
            sorted_desc(out@.map_values(|f: FileInfo| f@)),
            forall|k: int|
                0 <= k < kept@.len() ==> out@.len() == 0 || (#[trigger] kept@[k]).modified
                    <= out@[out@.len() - 1].modified,
        decreases kept.len(),
    {
        let ghost out_ms = out@.map_values(|f: FileInfo| f@).to_multiset();
        let ghost kept_vs = kept@.map_values(|f: FileInfo| f@);

        // Find the newest remaining file.
        let mut best: usize = 0;
        let mut j: usize = 1;
        while j < kept.len()
            invariant
                best < kept.len(),
                j <= kept.len(),
                forall|k: int| 0 <= k < j ==> (#[trigger] kept@[k]).modified <= kept@[
                    best as int].modified,
            decreases kept.len() - j,
        {
            if kept[j].modified > kept[best].modified {
                best = j;
            }
            j = j + 1;
        }
        let ghost prev_out = out@;
        let x = kept.remove(best);
        out.push(x);
        proof {
            let ovs = out@.map_values(|f: FileInfo| f@);
            let pvs = prev_out.map_values(|f: FileInfo| f@);
            let nkept = kept@.map_values(|f: FileInfo| f@);
            let picked = kept_vs[best as int];
            pvs.to_multiset_ensures();
            kept_vs.to_multiset_ensures();
            assert(nkept =~= kept_vs.remove(best as int));
            assert(ovs =~= pvs.push(picked));
            assert(pvs.push(picked).to_multiset() =~= pvs.to_multiset().insert(picked));
            assert(kept_vs.remove(best as int).to_multiset() =~= kept_vs.to_multiset().remove(
                kept_vs[best as int],
            ));
            assert(ovs.to_multiset() =~= out_ms.insert(picked));
            assert(nkept.to_multiset() =~= kept_vs.to_multiset().remove(picked));
            assert(kept_vs.to_multiset().contains(picked));
            assert(ovs.to_multiset().add(nkept.to_multiset()) =~= target.to_multiset());
            assert forall|a: int, b: int|
                0 <= a < b < ovs.len() implies (#[trigger] ovs[a]).modified >= (
            #[trigger] ovs[b]).modified by {
                if b < ovs.len() - 1 {
                    assert(pvs[a].modified >= pvs[b].modified);
                } else {
                    assert(ovs[b] == picked);
                    assert(picked.modified == kept_vs[best as int].modified);
                    if pvs.len() > 0 {
                        assert(kept_vs[best as int].modified <= pvs[pvs.len() - 1].modified);
                        assert(pvs[a].modified >= pvs[pvs.len() - 1].modified);
                    }
                }
            }
            assert forall|k: int|
                0 <= k < nkept.len() implies (#[trigger] kept@[k]).modified <= out@[out@.len()
                - 1].modified by {
                let ok: int = if k < best as int {
                    k
                } else {
                    k + 1
                };
                assert(kept@[k]@ == kept_vs[ok]);
                assert(kept_vs[ok].modified <= picked.modified);
                assert(out@[out@.len() - 1]@ == picked);
            }
        }
    }
    proof {
        let out_vs = out@.map_values(|f: FileInfo| f@);
        assert(kept@.map_values(|f: FileInfo| f@) =~= Seq::<FileInfoV>::empty());
        assert(out_vs.to_multiset().add(Multiset::<FileInfoV>::empty()) =~= out_vs.to_multiset());
        assert(out_vs.to_multiset() =~= target.to_multiset());
        assert forall|k: int| 0 <= k < out@.len() implies is_audio_name(
            (#[trigger] out@[k])@.name,
        ) by {
            assert(out_vs[k] == out@[k]@);
            assert(out_vs.to_multiset().contains(out_vs[k]));
            assert(target.to_multiset().contains(out_vs[k]));
            assert(target.contains(out_vs[k]));
            lemma_audio_selection_sound(eviews, out_vs[k]);
        }
        assert forall|k: int| 0 <= k < out@.len() implies from_walk(
            eviews,
            (#[trigger] out@[k])@,
        ) by {
            assert(out_vs[k] == out@[k]@);
            assert(out_vs.to_multiset().contains(out_vs[k]));
            assert(target.contains(out_vs[k]));
            lemma_audio_selection_sound(eviews, out_vs[k]);
        }
        assert forall|j: int|
            0 <= j < entries@.len() && qualifies((#[trigger] entries@[j])@) implies out_vs.contains(
            info_of(entries@[j]@),
        ) by {
            assert(eviews[j] == entries@[j]@);
            lemma_audio_selection_complete(eviews, j);
            assert(target.to_multiset().contains(info_of(eviews[j])));
            assert(out_vs.to_multiset().contains(info_of(eviews[j])));
        }
    }
    out
}

} // verus!
