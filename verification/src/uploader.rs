use vstd::prelude::*;
use vstd::arithmetic::div_mod::{lemma_fundamental_div_mod, lemma_mod_division_less_than_divisor};
use crate::api_client::CompletedPart;
use crate::state::contains_part;

verus! {

/// Files above this size (100 MiB) upload in parts.
pub const MULTIPART_THRESHOLD: u64 = 100 * 1024 * 1024;

/// Size of every part but possibly the last (10 MiB).
pub const PART_SIZE: u64 = 10 * 1024 * 1024;

/// Bound on concurrently running part transfers.
pub const MAX_CONCURRENT: usize = 4;

/// Largest file size the part arithmetic covers while the part count still
/// fits in 32 bits.
pub const MAX_MULTIPART_SIZE: u64 = 4294967295 * 10485760;

/// Only 2xx responses from the store or the server count as success.
pub open spec fn spec_is_success_status(code: u16) -> bool {
    200 <= code < 300
}

/// Classifies an HTTP status code the way the upload pipeline does.
pub fn is_success_status(code: u16) -> (r: bool)
    ensures
        r == spec_is_success_status(code),
{
    200 <= code && code < 300
}

/// Number of parts a file of this size splits into: size over part size,
/// rounded up.
pub open spec fn spec_total_parts(size: u64) -> int {
    (size + PART_SIZE - 1) / (PART_SIZE as int)
}

/// The part count is at least one, covers the file, and wastes less than one
/// part of slack.
pub proof fn lemma_total_parts_bounds(size: u64)
    requires
        1 <= size <= MAX_MULTIPART_SIZE,
    ensures
        1 <= spec_total_parts(size) <= u32::MAX,
        (spec_total_parts(size) - 1) * PART_SIZE < size,
        size <= spec_total_parts(size) * PART_SIZE,
{
    let p = PART_SIZE as int;
    let x = size + p - 1;
    let q = spec_total_parts(size);
    lemma_fundamental_div_mod(x, p);
    lemma_mod_division_less_than_divisor(x, p);
    let rem = x % p;
    assert(x == q * p + rem);
    assert(0 <= rem < p);
    assert(q >= 1) by (nonlinear_arith)
        requires
            x == q * p + rem,
            0 <= rem < p,
            x >= p,
        ;
    assert(q <= u32::MAX) by (nonlinear_arith)
        requires
            x == q * p + rem,
            0 <= rem < p,
            p == 10485760,
            x <= 4294967295int * 10485760 + 10485760 - 1,
        ;
}

/// Computes how many parts a multipart upload of this size has.
pub fn total_parts(size: u64) -> (r: u32)
    requires
        1 <= size <= MAX_MULTIPART_SIZE,
    ensures
        r == spec_total_parts(size),
        r >= 1,
        (r - 1) * PART_SIZE < size,
        size <= r * PART_SIZE,
{
    proof {
        lemma_total_parts_bounds(size);
    }
    let q = (size + PART_SIZE - 1) / PART_SIZE;
    q as u32
}

/// The byte window of one part: its offset and its length. Every part but
/// the last is exactly one part size long; the last covers the remainder.
pub fn part_range(size: u64, part_number: u32) -> (r: (u64, u64))
    requires
        1 <= size <= MAX_MULTIPART_SIZE,
        1 <= part_number,
        part_number as int <= spec_total_parts(size),
    ensures
        r.0 == (part_number - 1) * PART_SIZE,
        r.0 < size,
        r.0 + r.1 <= size,
        1 <= r.1 <= PART_SIZE,
        r.1 == if size - r.0 < PART_SIZE {
            size - r.0
        } else {
            PART_SIZE as int
        },
        part_number as int == spec_total_parts(size) ==> r.0 + r.1 == size,
        (part_number as int) < spec_total_parts(size) ==> r.1 == PART_SIZE,
{
    proof {
        lemma_total_parts_bounds(size);
        let q = spec_total_parts(size);
        let pn = part_number as int;
        assert((pn - 1) * PART_SIZE <= (q - 1) * PART_SIZE) by (nonlinear_arith)
            requires
                pn <= q,
                PART_SIZE > 0,
            ;
        if pn < q {
            assert(pn * PART_SIZE <= (q - 1) * PART_SIZE) by (nonlinear_arith)
                requires
                    pn <= q - 1,
                    PART_SIZE > 0,
                ;
        }
    }
    let start = (part_number as u64 - 1) * PART_SIZE;
    let rest = size - start;
    let len = if rest < PART_SIZE {
        rest
    } else {
        PART_SIZE
    };
    (start, len)
}

/// Part numbers in `1..=total` that are not yet acknowledged, ascending:
/// the parts a resumed upload still has to transfer.
pub fn pending_parts(total: u32, completed: &Vec<u32>) -> (r: Vec<u32>)
    ensures
        forall|k: int|
            0 <= k < r@.len() ==> 1 <= #[trigger] r@[k] <= total && !completed@.contains(r@[k]),
        forall|p: u32| 1 <= p <= total && !completed@.contains(p) ==> r@.contains(p),
        forall|a: int, b: int| 0 <= a < b < r@.len() ==> r@[a] < r@[b],
{
    let mut r: Vec<u32> = Vec::new();
    let mut p: u64 = 1;
    while p <= total as u64
        invariant
            1 <= p <= total as u64 + 1,
            forall|k: int|
                0 <= k < r@.len() ==> 1 <= #[trigger] r@[k] && (r@[k] as u64) < p && r@[k] <= total
                    && !completed@.contains(r@[k]),
            forall|q: u32| 1 <= q as u64 && (q as u64) < p && !completed@.contains(q) ==> r@.contains(q),
            forall|a: int, b: int| 0 <= a < b < r@.len() ==> r@[a] < r@[b],
        decreases total as u64 - p + 1,
    {
        let ghost r_before = r@;
        let pn = p as u32;
        if !contains_part(completed, pn) {
            r.push(pn);
            proof {
                assert(r@[r@.len() - 1] == pn);
                assert forall|q: u32|
                    1 <= q as u64 && (q as u64) < p + 1 && !completed@.contains(q) implies r@.contains(q) by {
                    if (q as u64) < p {
                        let k = choose|k: int| 0 <= k < r_before.len() && r_before[k] == q;
                        assert(r@[k] == q);
                    } else {
                        assert(r@[r@.len() - 1] == q);
                    }
                }
            }
        }
        p = p + 1;
    }
    r
}

/// Recorded parts of one multipart upload: unique numbers within range.
pub open spec fn session_wf(total: u32, parts: Seq<(u32, Seq<char>)>) -> bool {
    &&& forall|i: int| 0 <= i < parts.len() ==> 1 <= (#[trigger] parts[i]).0 <= total
    &&& forall|i: int, j: int|
        0 <= i < j < parts.len() ==> (#[trigger] parts[i]).0 != (#[trigger] parts[j]).0
}

pub open spec fn parts_view(parts: Seq<CompletedPart>) -> Seq<(u32, Seq<char>)> {
    parts.map_values(|p: CompletedPart| p@)
}

/// Some recorded part carries this number.
pub open spec fn has_part(parts: Seq<(u32, Seq<char>)>, n: u32) -> bool {
    exists|i: int| 0 <= i < parts.len() && (#[trigger] parts[i]).0 == n
}

/// One file's multipart upload in flight: how many parts it takes and which
/// parts have come back with an ETag so far (recorded in any order).
pub struct MultipartSession {
    pub total_parts: u32,
    pub parts: Vec<CompletedPart>,
}

impl MultipartSession {
    pub open spec fn wf(&self) -> bool {
        session_wf(self.total_parts, parts_view(self.parts@))
    }

    /// Opens a session over prior acknowledged parts (retained from
    /// persisted state on resume). Entries out of range or repeated are
    /// dropped rather than trusted.
    pub fn new(total_parts: u32, prior: Vec<CompletedPart>) -> (r: MultipartSession)
        ensures
            r.wf(),
            r.total_parts == total_parts,
            forall|i: int|
                0 <= i < r.parts@.len() ==> parts_view(prior@).contains(
                    #[trigger] parts_view(r.parts@)[i],
                ),
            forall|n: u32|
                #[trigger] has_part(parts_view(r.parts@), n) <==> (1 <= n <= total_parts
                    && has_part(parts_view(prior@), n)),
    {
        let mut s = MultipartSession { total_parts, parts: Vec::new() };
        let mut i: usize = 0;
        while i < prior.len()
            invariant
                i <= prior.len(),
                s.total_parts == total_parts,
                s.wf(),
                forall|k: int|
                    0 <= k < s.parts@.len() ==> parts_view(prior@).contains(
                        #[trigger] parts_view(s.parts@)[k],
                    ),
                forall|n: u32|
                    #[trigger] has_part(parts_view(s.parts@), n) <==> (1 <= n <= total_parts
                        && exists|j: int|
                        0 <= j < i && (#[trigger] parts_view(prior@)[j]).0 == n),
            decreases prior.len() - i,
        {
            proof {
                assert(parts_view(prior@)[i as int] == prior@[i as int]@);
            }
            let ghost before = parts_view(s.parts@);
            let n = prior[i].part_number;
            if 1 <= n && n <= total_parts && !self_has_part(&s.parts, n) {
                s.parts.push(prior[i].duplicate());
                proof {
                    assert(parts_view(s.parts@) =~= before.push(prior@[i as int]@));
                    lemma_has_part_push(before, prior@[i as int]@);
                }
            }
            i = i + 1;
        }
        s
    }

    /// Records one acknowledged part. A part out of range, or one already
    /// recorded, changes nothing: re-acknowledgement cannot corrupt the
    /// session.
    pub fn record(&mut self, part: CompletedPart) -> (added: bool)
        requires
            old(self).wf(),
        ensures
            final(self).wf(),
            final(self).total_parts == old(self).total_parts,
            added == (1 <= part@.0 <= old(self).total_parts && !has_part(
                parts_view(old(self).parts@),
                part@.0,
            )),
            added ==> parts_view(final(self).parts@) == parts_view(old(self).parts@).push(part@),
            !added ==> parts_view(final(self).parts@) == parts_view(old(self).parts@),
    {
        let ghost before = parts_view(self.parts@);
        let n = part.part_number;
        if 1 <= n && n <= self.total_parts && !self_has_part(&self.parts, n) {
            self.parts.push(part);
            proof {
                assert(parts_view(self.parts@) =~= before.push(
                    parts_view(self.parts@)[before.len() as int],
                ));
                lemma_has_part_push(before, parts_view(self.parts@)[before.len() as int]);
            }
            true
        } else {
            false
        }
    }

    /// The part numbers still missing, in ascending order.
    pub fn pending(&self) -> (r: Vec<u32>)
        ensures
            forall|k: int|
                0 <= k < r@.len() ==> 1 <= #[trigger] r@[k] <= self.total_parts && !has_part(
                    parts_view(self.parts@),
                    r@[k],
                ),
            forall|p: u32|
                1 <= p <= self.total_parts && !has_part(parts_view(self.parts@), p)
                    ==> r@.contains(p),
            forall|a: int, b: int| 0 <= a < b < r@.len() ==> r@[a] < r@[b],
    {
        let mut numbers: Vec<u32> = Vec::new();
        let mut i: usize = 0;
        while i < self.parts.len()
            invariant
                i <= self.parts.len(),
                numbers@.len() == i,
                forall|k: int|
                    0 <= k < i ==> #[trigger] numbers@[k] == parts_view(self.parts@)[k].0,
            decreases self.parts.len() - i,
        {
            proof {
                assert(parts_view(self.parts@)[i as int] == self.parts@[i as int]@);
            }
            numbers.push(self.parts[i].part_number);
            i = i + 1;
        }
        proof {
            assert forall|n: u32| #[trigger]
                numbers@.contains(n) == has_part(parts_view(self.parts@), n) by {
                if numbers@.contains(n) {
                    let k = choose|k: int| 0 <= k < numbers@.len() && numbers@[k] == n;
                    assert(parts_view(self.parts@)[k].0 == n);
                    assert(has_part(parts_view(self.parts@), n));
                }
                if has_part(parts_view(self.parts@), n) {
                    let k = choose|k: int|
                        0 <= k < parts_view(self.parts@).len() && (#[trigger] parts_view(
                            self.parts@,
                        )[k]).0 == n;
                    assert(numbers@[k] == n);
                    assert(numbers@.contains(n));
                }
            }
        }
        pending_parts(self.total_parts, &numbers)
    }

    /// The full completion list when every part is acknowledged: parts
    /// `1..=total` in strictly ascending order, each with the ETag the store
    /// answered. `None` while parts are missing.
    pub fn finish(&self) -> (r: Option<Vec<CompletedPart>>)
        requires
            self.wf(),
        ensures
            match r {
                Some(list) => {
                    &&& list@.len() == self.total_parts
                    &&& forall|i: int|
                        0 <= i < list@.len() ==> (#[trigger] list@[i]@).0 == i + 1 && parts_view(
                            self.parts@,
                        ).contains(list@[i]@)
                },
                None => exists|p: u32|
                    1 <= p <= self.total_parts && !has_part(parts_view(self.parts@), p),
            },
            r is Some <==> (forall|p: u32|
                1 <= p <= self.total_parts ==> has_part(parts_view(self.parts@), p)),
    {
        let mut list: Vec<CompletedPart> = Vec::new();
        let mut p: u64 = 1;
        while p <= self.total_parts as u64
            invariant
                1 <= p <= self.total_parts as u64 + 1,
                list@.len() == p - 1,
                forall|i: int|
                    0 <= i < list@.len() ==> (#[trigger] list@[i]@).0 == i + 1 && parts_view(
                        self.parts@,
                    ).contains(list@[i]@),
            decreases self.total_parts as u64 - p + 1,
        {
            match self.find_part(p as u32) {
                Some(i) => {
                    proof {
                        assert(parts_view(self.parts@)[i as int] == self.parts@[i as int]@);
                        assert(parts_view(self.parts@).contains(self.parts@[i as int]@));
                    }
                    list.push(self.parts[i].duplicate());
                },
                None => {
                    proof {
                        assert(1 <= p as u32 <= self.total_parts && !has_part(
                            parts_view(self.parts@),
                            p as u32,
                        ));
                    }
                    return None;
                },
            }
            p = p + 1;
        }
        proof {
            assert forall|q: u32|
                1 <= q <= self.total_parts implies has_part(parts_view(self.parts@), q) by {
                assert(list@[q - 1]@.0 == q);
                let k = choose|k: int|
                    0 <= k < parts_view(self.parts@).len() && parts_view(self.parts@)[k] == list@[q
                        - 1]@;
                assert((#[trigger] parts_view(self.parts@)[k]).0 == q);
            }
        }
        Some(list)
    }

    /// Index of the recorded part with this number.
    fn find_part(&self, n: u32) -> (r: Option<usize>)
        ensures
            match r {
                Some(i) => i < self.parts@.len() && parts_view(self.parts@)[i as int].0 == n,
                None => !has_part(parts_view(self.parts@), n),
            },
    {
        let mut i: usize = 0;
        while i < self.parts.len()
            invariant
                i <= self.parts.len(),
                forall|k: int| 0 <= k < i ==> (#[trigger] parts_view(self.parts@)[k]).0 != n,
            decreases self.parts.len() - i,
        {
            proof {
                assert(parts_view(self.parts@)[i as int] == self.parts@[i as int]@);
            }
            if self.parts[i].part_number == n {
                return Some(i);
            }
            i = i + 1;
        }
        None
    }
}

/// Linear scan for a part number in a raw part list.
fn self_has_part(parts: &Vec<CompletedPart>, n: u32) -> (r: bool)
    ensures
        r == has_part(parts_view(parts@), n),
{
    let mut i: usize = 0;
    while i < parts.len()
        invariant
            i <= parts.len(),
            forall|k: int| 0 <= k < i ==> (#[trigger] parts_view(parts@)[k]).0 != n,
        decreases parts.len() - i,
    {
        proof {
            assert(parts_view(parts@)[i as int] == parts@[i as int]@);
        }
        if parts[i].part_number == n {
            proof {
                assert(has_part(parts_view(parts@), n));
            }
            return true;
        }
        i = i + 1;
    }
    false
}

proof fn lemma_has_part_push(parts: Seq<(u32, Seq<char>)>, x: (u32, Seq<char>))
    ensures
        forall|n: u32|
            #[trigger] has_part(parts.push(x), n) <==> (has_part(parts, n) || x.0 == n),
{
    assert forall|n: u32|
        #[trigger] has_part(parts.push(x), n) <==> (has_part(parts, n) || x.0 == n) by {
        if has_part(parts, n) {
            let i = choose|i: int| 0 <= i < parts.len() && (#[trigger] parts[i]).0 == n;
            assert(parts.push(x)[i].0 == n);
        }
        if x.0 == n {
            assert(parts.push(x)[parts.len() as int].0 == n);
        }
        if has_part(parts.push(x), n) {
            let i = choose|i: int|
                0 <= i < parts.push(x).len() && (#[trigger] parts.push(x)[i]).0 == n;
            if i < parts.len() {
                assert(parts[i].0 == n);
            }
        }
    }
}

/// Every completion list `finish` hands out names exactly the part numbers
/// `1..=total`, strictly ascending, with no number repeated.
pub proof fn lemma_completion_list_exact(parts: Seq<(u32, Seq<char>)>, total: u32)
    requires
        parts.len() == total,
        forall|i: int| 0 <= i < parts.len() ==> (#[trigger] parts[i]).0 == i + 1,
    ensures
        forall|a: int, b: int| 0 <= a < b < parts.len() ==> parts[a].0 < parts[b].0,
        forall|i: int| 0 <= i < parts.len() ==> 1 <= (#[trigger] parts[i]).0 <= total,
        forall|p: u32| 1 <= p <= total ==> has_part(parts, p),
{
    assert forall|p: u32| 1 <= p <= total implies has_part(parts, p) by {
        assert(parts[p - 1].0 == p);
    }
}

} // verus!
