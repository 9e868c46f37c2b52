use vstd::prelude::*;

verus! {

/// Lowercases an ASCII uppercase code point; every other code point is kept.
pub open spec fn lower_code(u: u32) -> u32 {
    if 65 <= u <= 90 {
        (u + 32) as u32
    } else {
        u
    }
}

/// Equality between a name fragment and an all-lowercase ASCII pattern,
/// ignoring ASCII case in the fragment.
pub open spec fn eq_ignore_ascii_case(a: Seq<char>, b: Seq<char>) -> bool {
    &&& a.len() == b.len()
    &&& forall|i: int| 0 <= i < a.len() ==> lower_code(#[trigger] (a[i] as u32)) == b[i] as u32
}

/// Index of the last `.` in a name, if there is one.
pub open spec fn last_dot(s: Seq<char>) -> Option<int>
    decreases s.len(),
{
    if s.len() == 0 {
        None
    } else if s[s.len() - 1] == '.' {
        Some(s.len() - 1)
    } else {
        last_dot(s.drop_last())
    }
}

/// The extension of a file name: the part after the last dot, where a dot in
/// first position (a hidden file's leading dot) does not start an extension.
pub open spec fn spec_extension(s: Seq<char>) -> Option<Seq<char>> {
    match last_dot(s) {
        Some(j) => if j >= 1 {
            Some(s.subrange(j + 1, s.len() as int))
        } else {
            None
        },
        None => None,
    }
}

/// The stem of a file name: everything before the dot that starts its
/// extension, or the whole name when it has no extension.
pub open spec fn spec_stem(s: Seq<char>) -> Seq<char> {
    match last_dot(s) {
        Some(j) => if j >= 1 {
            s.subrange(0, j)
        } else {
            s
        },
        None => s,
    }
}

proof fn lemma_last_dot_at(s: Seq<char>, j: int)
    requires
        0 <= j < s.len(),
        s[j] == '.',
        forall|k: int| j < k < s.len() ==> s[k] != '.',
    ensures
        last_dot(s) == Some(j),
    decreases s.len(),
{
    if j < s.len() - 1 {
        lemma_last_dot_at(s.drop_last(), j);
    }
}

proof fn lemma_no_dot(s: Seq<char>)
    requires
        forall|k: int| 0 <= k < s.len() ==> s[k] != '.',
    ensures
        last_dot(s) is None,
    decreases s.len(),
{
    if s.len() > 0 {
        lemma_no_dot(s.drop_last());
    }
}

/// Position of the character after the last `.` of the name, or 0 when the
/// name holds no dot at all.
fn scan_last_dot(name: &str) -> (r: usize)
    ensures
        r == 0 ==> last_dot(name@) is None,
        r > 0 ==> r <= name@.len() && last_dot(name@) == Some(r - 1int),
{
    let n = name.unicode_len();
    let mut i = n;
    while i > 0
        invariant
            i <= n,
            n == name@.len(),
            forall|k: int| i <= k < n ==> name@[k] != '.',
        decreases i,
    {
        let c = name.get_char(i - 1);
        if c == '.' {
            proof {
                lemma_last_dot_at(name@, i - 1);
            }
            return i;
        }
        i = i - 1;
    }
    proof {
        lemma_no_dot(name@);
    }
    0
}

/// Hands back the extension characters of a file name, if it has any.
pub fn extension_of(name: &str) -> (r: Option<String>)
    ensures
        match r {
            Some(e) => spec_extension(name@) == Some(e@),
            None => spec_extension(name@) is None,
        },
{
    let n = name.unicode_len();
    let d = scan_last_dot(name);
    if d >= 2 {
        let e = name.substring_char(d, n);
        Some(String::from_str(e))
    } else {
        None
    }
}

/// Replaces a file name's extension with `.mp3` (appends it when there is
/// none): the name a transcoded sibling gets in the staging directory.
pub fn mp3_sibling(name: &str) -> (r: String)
    ensures
        r@ == spec_stem(name@) + ".mp3"@,
{
    let n = name.unicode_len();
    let d = scan_last_dot(name);
    let mut s = if d >= 2 {
        String::from_str(name.substring_char(0, d - 1))
    } else {
        String::from_str(name)
    };
    s.append(".mp3");
    s
}

/// True when `frag` equals the all-lowercase ASCII pattern `pat`, ignoring
/// ASCII case in `frag`.
pub fn eq_ignore_case(frag: &str, pat: &str) -> (r: bool)
    ensures
        r == eq_ignore_ascii_case(frag@, pat@),
{
    let nf = frag.unicode_len();
    let np = pat.unicode_len();
    if nf != np {
        return false;
    }
    let mut i: usize = 0;
    while i < nf
        invariant
            i <= nf,
            nf == frag@.len(),
            nf == pat@.len(),
            forall|k: int|
                0 <= k < i ==> lower_code(#[trigger] (frag@[k] as u32)) == pat@[k] as u32,
        decreases nf - i,
    {
        let cu = frag.get_char(i) as u32;
        let cl = if 65 <= cu && cu <= 90 {
            cu + 32
        } else {
            cu
        };
        if cl != pat.get_char(i) as u32 {
            return false;
        }
        i = i + 1;
    }
    true
}

/// True when the name starts with a `.`, as hidden directories do.
pub fn starts_with_dot(name: &str) -> (r: bool)
    ensures
        r == (name@.len() > 0 && name@[0] == '.'),
{
    if name.unicode_len() == 0 {
        return false;
    }
    name.get_char(0) == '.'
}

} // verus!
