use vstd::prelude::*;
use crate::error::AppError;
use crate::state::str_eq;

verus! {

/// One volume under the mount root, as reported to the host.
#[derive(Debug)]
pub struct VolumeInfo {
    pub name: String,
    pub path: String,
    pub has_recorder_id: bool,
}

/// The contents of a recorder's identifier file: the device it marks and a
/// human label, with optional organization hint and notes.
#[derive(Debug)]
pub struct RecorderIdentifier {
    pub device_id: String,
    pub label: String,
    pub org_id_hint: Option<String>,
    pub notes: Option<String>,
}

/// A volume excluded from recorder detection: an OS or recovery volume by
/// name, or any dot-prefixed entry.
pub open spec fn spec_is_system_volume(name: Seq<char>) -> bool {
    ||| name == "Macintosh HD"@
    ||| name == "Macintosh HD - Data"@
    ||| name == "Recovery"@
    ||| name == "Preboot"@
    ||| name == "VM"@
    ||| name == "Update"@
    ||| (name.len() > 0 && name[0] == '.')
}

/// Decides whether a volume name is on the system deny list.
pub fn is_system_volume(name: &str) -> (r: bool)
    ensures
        r == spec_is_system_volume(name@),
{
    if name.unicode_len() > 0 && name.get_char(0) == '.' {
        return true;
    }
    if str_eq(name, "Macintosh HD") {
        return true;
    }
    if str_eq(name, "Macintosh HD - Data") {
        return true;
    }
    if str_eq(name, "Recovery") {
        return true;
    }
    if str_eq(name, "Preboot") {
        return true;
    }
    if str_eq(name, "VM") {
        return true;
    }
    str_eq(name, "Update")
}

/// The mount path of a volume name.
pub fn volume_path(name: &str) -> (r: String)
    ensures
        r@ == "/Volumes/"@ + name@,
{
    let mut s = String::from_str("/Volumes/");
    s.append(name);
    s
}

/// The name occurs in the list.
pub open spec fn name_listed(names: Seq<String>, n: Seq<char>) -> bool {
    exists|i: int| 0 <= i < names.len() && (#[trigger] names[i])@ == n
}

/// A non-system volume present in `current` but not in `known`: one to
/// announce as mounted.
pub open spec fn newly_mounted(known: Seq<String>, current: Seq<String>, n: Seq<char>) -> bool {
    name_listed(current, n) && !name_listed(known, n) && !spec_is_system_volume(n)
}

/// A non-system volume present in `known` but not in `current`: one to
/// announce as removed.
pub open spec fn newly_removed(known: Seq<String>, current: Seq<String>, n: Seq<char>) -> bool {
    name_listed(known, n) && !name_listed(current, n) && !spec_is_system_volume(n)
}

/// Linear membership test for a volume name.
fn contains_name(names: &Vec<String>, n: &str) -> (r: bool)
    ensures
        r == name_listed(names@, n@),
{
    let mut i: usize = 0;
    while i < names.len()
        invariant
            i <= names.len(),
            forall|k: int| 0 <= k < i ==> (#[trigger] names@[k])@ != n@,
        decreases names.len() - i,
    {
        if str_eq(names[i].as_str(), n) {
            proof {
                assert(name_listed(names@, n@));
            }
            return true;
        }
        i = i + 1;
    }
    false
}

proof fn lemma_name_listed_push(names: Seq<String>, x: String, n: Seq<char>)
    requires
        name_listed(names, n),
    ensures
        name_listed(names.push(x), n),
{
    let i = choose|i: int| 0 <= i < names.len() && (#[trigger] names[i])@ == n;
    assert(names.push(x)[i]@ == n);
}

/// One reconciliation pass over the mount root: the non-system names that
/// appeared since the last pass and those that disappeared. The caller then
/// announces each and takes `current` as the new known set.
pub fn diff_mounts(known: &Vec<String>, current: &Vec<String>) -> (r: (Vec<String>, Vec<String>))
    ensures
        forall|k: int|
            0 <= k < r.0@.len() ==> newly_mounted(known@, current@, (#[trigger] r.0@[k])@),
        forall|i: int|
            0 <= i < current@.len() && newly_mounted(known@, current@, (#[trigger] current@[i])@)
                ==> name_listed(r.0@, current@[i]@),
        forall|k: int|
            0 <= k < r.1@.len() ==> newly_removed(known@, current@, (#[trigger] r.1@[k])@),
        forall|i: int|
            0 <= i < known@.len() && newly_removed(known@, current@, (#[trigger] known@[i])@)
                ==> name_listed(r.1@, known@[i]@),
{
    let mut detected: Vec<String> = Vec::new();
    let mut i: usize = 0;
    while i < current.len()
        invariant
            i <= current.len(),
            forall|k: int|
                0 <= k < detected@.len() ==> newly_mounted(
                    known@,
                    current@,
                    (#[trigger] detected@[k])@,
                ),
            forall|j: int|
                0 <= j < i && newly_mounted(known@, current@, (#[trigger] current@[j])@)
                    ==> name_listed(detected@, current@[j]@),
        decreases current.len() - i,
    {
        let ghost before = detected@;
        let name = current[i].as_str();
        if !contains_name(known, name) && !is_system_volume(name) {
            proof {
                assert(current@[i as int]@ == name@);
                assert(name_listed(current@, name@));
            }
            detected.push(current[i].clone());
            proof {
                assert(detected@[detected@.len() - 1]@ == current@[i as int]@);
                assert forall|j: int|
                    0 <= j < i + 1 && newly_mounted(
                        known@,
                        current@,
                        (#[trigger] current@[j])@,
                    ) implies name_listed(detected@, current@[j]@) by {
                    if j < i {
                        lemma_name_listed_push(before, detected@[detected@.len() - 1], current@[j]@);
                    } else {
                        assert(name_listed(detected@, current@[j]@));
                    }
                }
            }
        } else {
            proof {
                assert(current@[i as int]@ == name@);
            }
        }
        i = i + 1;
    }
    let mut removed: Vec<String> = Vec::new();
    let mut j: usize = 0;
    while j < known.len()
        invariant
            j <= known.len(),
            forall|k: int|
                0 <= k < detected@.len() ==> newly_mounted(
                    known@,
                    current@,
                    (#[trigger] detected@[k])@,
                ),
            forall|a: int|
                0 <= a < current@.len() && newly_mounted(known@, current@, (#[trigger] current@[a])@)
                    ==> name_listed(detected@, current@[a]@),
            forall|k: int|
                0 <= k < removed@.len() ==> newly_removed(
                    known@,
                    current@,
                    (#[trigger] removed@[k])@,
                ),
            forall|a: int|
                0 <= a < j && newly_removed(known@, current@, (#[trigger] known@[a])@)
                    ==> name_listed(removed@, known@[a]@),
        decreases known.len() - j,
    {
        let ghost before = removed@;
        let name = known[j].as_str();
        if !contains_name(current, name) && !is_system_volume(name) {
            proof {
                assert(known@[j as int]@ == name@);
                assert(name_listed(known@, name@));
            }
            removed.push(known[j].clone());
            proof {
                assert(removed@[removed@.len() - 1]@ == known@[j as int]@);
                assert forall|a: int|
                    0 <= a < j + 1 && newly_removed(
                        known@,
                        current@,
                        (#[trigger] known@[a])@,
                    ) implies name_listed(removed@, known@[a]@) by {
                    if a < j {
                        lemma_name_listed_push(before, removed@[removed@.len() - 1], known@[a]@);
                    } else {
                        assert(name_listed(removed@, known@[a]@));
                    }
                }
            }
        } else {
            proof {
                assert(known@[j as int]@ == name@);
            }
        }
        j = j + 1;
    }
    (detected, removed)
}

/// Builds a recorder identity from the fields read out of the identifier
/// file. Succeeds exactly when the two required fields are present.
pub fn build_recorder_identifier(
    device_id: Option<String>,
    label: Option<String>,
    org_id_hint: Option<String>,
    notes: Option<String>,
) -> (r: Result<RecorderIdentifier, AppError>)
    ensures
        r is Ok <==> (device_id is Some && label is Some),
        r is Err ==> (r matches Err(AppError::InvalidInput(_))),
        match r {
            Ok(id) => {
                &&& Some(id.device_id@) == crate::state::opt_str_view(device_id)
                &&& Some(id.label@) == crate::state::opt_str_view(label)
                &&& crate::state::opt_str_view(id.org_id_hint) == crate::state::opt_str_view(
                    org_id_hint,
                )
                &&& crate::state::opt_str_view(id.notes) == crate::state::opt_str_view(notes)
            },
            Err(_) => true,
        },
{
    match (device_id, label) {
        (Some(d), Some(l)) => Ok(
            RecorderIdentifier { device_id: d, label: l, org_id_hint, notes },
        ),
        (d, _) => {
            if d.is_none() {
                Err(AppError::InvalidInput(String::from_str("Missing deviceId in RECORDER_ID.json")))
            } else {
                Err(AppError::InvalidInput(String::from_str("Missing label in RECORDER_ID.json")))
            }
        },
    }
}

} // verus!
