//! Why the walk through a TIFF stream reads no directory twice: a walk
//! that reads every directory as often as its offset comes up gives the
//! same result wherever it comes to an end.

use crate::text::lemma_bytes_less_transitive;
use crate::text::text_less;
use super::Endianness;
use super::input::InputView;
use super::tiff::Pending;
use super::tiff::TiffFault;
use super::tiff::Walk;
use super::tiff::date_is_next;
use super::tiff::earlier;
use super::tiff::lemma_directory_reads_alike;
use super::tiff::lemma_earlier_is_the_minimum;
use super::tiff::lemma_min_index;
use super::tiff::lemma_read_fields_moves_cursor_only;
use super::tiff::lemma_unseen_shrinks;
use super::tiff::min_index;
use super::tiff::nothing_pending;
use super::tiff::read_date;
use super::tiff::read_directory;
use super::tiff::unseen;
use super::tiff::walk;
use super::tiff::with_found;
use vstd::prelude::*;
use vstd::utf8::encode_utf8;

verus! {

/// The walk that reads a directory again whenever its offset comes up
/// again. A cycle of directories keeps it going for ever, so it is given
/// a number of steps, and has no result where they do not suffice.
pub open spec fn walk_again(
    v: InputView,
    bo: Endianness,
    pending: Pending,
    best: Option<Seq<char>>,
    steps: nat,
) -> Option<Walk<Option<Seq<char>>>>
    decreases steps,
{
    if steps == 0 {
        None
    } else if pending.ifds.len() == 0 && pending.dates.len() == 0 {
        Some(Walk { outcome: Ok(best), rest: v })
    } else if date_is_next(pending) {
        let at = min_index(pending.dates);
        let left = Pending { dates: pending.dates.remove(at), ..pending };
        let date = read_date(v, pending.dates[at]);
        match date.outcome {
            Err(fault) => Some(Walk { outcome: Err(fault), rest: date.rest }),
            Ok(found) => walk_again(date.rest, bo, left, earlier(best, found), (steps - 1) as nat),
        }
    } else {
        let at = min_index(pending.ifds);
        let left = Pending { ifds: pending.ifds.remove(at), ..pending };
        let directory = read_directory(v, bo, pending.ifds[at], left);
        match directory.outcome {
            Err(fault) => Some(Walk { outcome: Err(fault), rest: directory.rest }),
            Ok(grown) => walk_again(directory.rest, bo, grown, best, (steps - 1) as nat),
        }
    }
}

/// The directory at `offset` has been read without a fault, and what it
/// refers to is pending in `a` or has been visited.
pub open spec fn is_known_directory(
    u: InputView,
    bo: Endianness,
    offset: u32,
    a: Pending,
    seen: Seq<u32>,
    read: Set<u32>,
) -> bool {
    let found = read_directory(u, bo, offset, nothing_pending()).outcome;
    &&& found is Ok
    &&& forall|x: u32| #[trigger]
        found->Ok_0.ifds.contains(x) ==> seen.contains(x) || a.ifds.contains(x)
    &&& forall|x: u32| #[trigger]
        found->Ok_0.dates.contains(x) ==> read.contains(x) || a.dates.contains(x)
}

/// The date at `offset` has been read, and `best` does not come after it.
pub open spec fn is_known_date(u: InputView, offset: u32, best: Option<Seq<char>>) -> bool {
    let date = read_date(u, offset).outcome;
    &&& date is Ok
    &&& best is Some
    &&& !text_less(date->Ok_0, best->Some_0)
}

/// The two walks stand alike: the directories in `seen` and the dates in
/// `read` have been visited, `best` is the earliest of those dates, and
/// `a` and `b` hold the same offsets that have not been visited.
pub open spec fn stand_alike(
    u: InputView,
    bo: Endianness,
    a: Pending,
    b: Pending,
    best: Option<Seq<char>>,
    seen: Seq<u32>,
    read: Set<u32>,
) -> bool {
    &&& forall|x: u32| !seen.contains(x) ==> (#[trigger] a.ifds.contains(x) <==> b.ifds.contains(x))
    &&& forall|x: u32|
        !read.contains(x) ==> (#[trigger] a.dates.contains(x) <==> b.dates.contains(x))
    &&& forall|x: u32| #[trigger] seen.contains(x) ==> is_known_directory(u, bo, x, a, seen, read)
    &&& forall|x: u32| #[trigger] read.contains(x) ==> is_known_date(u, x, best)
}

/// What a list holds after one item was taken out: the other numbers.
proof fn lemma_contains_after_remove(s: Seq<u32>, i: int, x: u32)
    requires
        0 <= i < s.len(),
    ensures
        s.remove(i).contains(x) ==> s.contains(x),
        x != s[i] && s.contains(x) ==> s.remove(i).contains(x),
{
    let r = s.remove(i);
    if r.contains(x) {
        let k = choose|k: int| 0 <= k < r.len() && r[k] == x;
        if k < i {
            assert(s[k] == x);
        } else {
            assert(s[k + 1] == x);
        }
    }
    if x != s[i] && s.contains(x) {
        let k = choose|k: int| 0 <= k < s.len() && s[k] == x;
        if k < i {
            assert(r[k] == x);
        } else {
            assert(r[k - 1] == x);
        }
    }
}

/// What two lists hold together: what either holds.
proof fn lemma_contains_after_add(s: Seq<u32>, t: Seq<u32>, x: u32)
    ensures
        (s + t).contains(x) <==> s.contains(x) || t.contains(x),
{
    let r = s + t;
    if r.contains(x) {
        let k = choose|k: int| 0 <= k < r.len() && r[k] == x;
        if k < s.len() {
            assert(s[k] == x);
        } else {
            assert(t[k - s.len()] == x);
        }
    }
    if s.contains(x) {
        let k = choose|k: int| 0 <= k < s.len() && s[k] == x;
        assert(r[k] == x);
    }
    if t.contains(x) {
        let k = choose|k: int| 0 <= k < t.len() && t[k] == x;
        assert(r[k + s.len()] == x);
    }
}

/// Reading a date depends on the offset alone, and moves the cursor only.
proof fn lemma_date_reads_alike(v: InputView, offset: u32)
    ensures
        read_date(v, offset).outcome == read_date(v.at(0), offset).outcome,
        read_date(v, offset).rest.at(0) == v.at(0),
{
    assert(v.at(0).at(offset as nat) == v.at(offset as nat));
}

/// Reading a directory moves the cursor only, and adds to what is pending
/// what it adds to nothing.
proof fn lemma_directory_at(v: InputView, bo: Endianness, offset: u32, pending: Pending)
    ensures
        read_directory(v, bo, offset, pending).rest.at(0) == v.at(0),
        read_directory(v, bo, offset, pending).outcome == match read_directory(
            v.at(0),
            bo,
            offset,
            nothing_pending(),
        ).outcome {
            Ok(found) => Ok(with_found(pending, found)),
            Err(fault) => Err(fault),
        },
{
    assert(v.at(0).at(v.cursor) == v);
    lemma_directory_reads_alike(v.at(0), v.cursor, bo, offset, pending);
    let v0 = v.at(offset as nat);
    if v.seek(offset as nat) is Ok && v0.read_u16(bo) is Ok {
        lemma_read_fields_moves_cursor_only(
            v0.advanced(2),
            bo,
            0,
            v0.read_u16(bo)->Ok_0 as nat,
            pending,
        );
    }
}

/// `pending` without the date at the index `at`.
pub open spec fn without_date(pending: Pending, at: int) -> Pending {
    Pending { dates: pending.dates.remove(at), ..pending }
}

/// `pending` without the directory at the index `at`.
pub open spec fn without_ifd(pending: Pending, at: int) -> Pending {
    Pending { ifds: pending.ifds.remove(at), ..pending }
}

/// The walks still stand alike when the first drops a date that has been
/// read.
proof fn lemma_alike_without_read_date_a(
    u: InputView,
    bo: Endianness,
    a: Pending,
    b: Pending,
    best: Option<Seq<char>>,
    seen: Seq<u32>,
    read: Set<u32>,
    at: int,
)
    requires
        stand_alike(u, bo, a, b, best, seen, read),
        0 <= at < a.dates.len(),
        read.contains(a.dates[at]),
    ensures
        stand_alike(u, bo, without_date(a, at), b, best, seen, read),
{
    let a2 = without_date(a, at);
    assert forall|x: u32| !read.contains(x) implies (#[trigger] a2.dates.contains(x)
        <==> b.dates.contains(x)) by {
        lemma_contains_after_remove(a.dates, at, x);
        assert(a.dates.contains(x) <==> b.dates.contains(x));
    }
    assert forall|x: u32| #[trigger] seen.contains(x) implies is_known_directory(
        u,
        bo,
        x,
        a2,
        seen,
        read,
    ) by {
        assert(is_known_directory(u, bo, x, a, seen, read));
        let found = read_directory(u, bo, x, nothing_pending()).outcome->Ok_0;
        assert forall|y: u32| #[trigger] found.dates.contains(y) implies read.contains(y)
            || a2.dates.contains(y) by {
            lemma_contains_after_remove(a.dates, at, y);
        }
    }
}

/// The walks still stand alike when the second drops a date that has been
/// read.
proof fn lemma_alike_without_read_date_b(
    u: InputView,
    bo: Endianness,
    a: Pending,
    b: Pending,
    best: Option<Seq<char>>,
    seen: Seq<u32>,
    read: Set<u32>,
    at: int,
)
    requires
        stand_alike(u, bo, a, b, best, seen, read),
        0 <= at < b.dates.len(),
        read.contains(b.dates[at]),
    ensures
        stand_alike(u, bo, a, without_date(b, at), best, seen, read),
{
    let b2 = without_date(b, at);
    assert forall|x: u32| !read.contains(x) implies (#[trigger] a.dates.contains(x)
        <==> b2.dates.contains(x)) by {
        lemma_contains_after_remove(b.dates, at, x);
        assert(a.dates.contains(x) <==> b.dates.contains(x));
    }
}

/// The walks still stand alike when the second drops a directory that has
/// been read.
proof fn lemma_alike_without_seen_ifd_b(
    u: InputView,
    bo: Endianness,
    a: Pending,
    b: Pending,
    best: Option<Seq<char>>,
    seen: Seq<u32>,
    read: Set<u32>,
    at: int,
)
    requires
        stand_alike(u, bo, a, b, best, seen, read),
        0 <= at < b.ifds.len(),
        seen.contains(b.ifds[at]),
    ensures
        stand_alike(u, bo, a, without_ifd(b, at), best, seen, read),
{
    let b2 = without_ifd(b, at);
    assert forall|x: u32| !seen.contains(x) implies (#[trigger] a.ifds.contains(x)
        <==> b2.ifds.contains(x)) by {
        lemma_contains_after_remove(b.ifds, at, x);
        assert(a.ifds.contains(x) <==> b.ifds.contains(x));
    }
}

/// The walks still stand alike when the first reads a directory again.
proof fn lemma_alike_after_seen_ifd_a(
    u: InputView,
    bo: Endianness,
    a: Pending,
    b: Pending,
    best: Option<Seq<char>>,
    seen: Seq<u32>,
    read: Set<u32>,
    at: int,
)
    requires
        stand_alike(u, bo, a, b, best, seen, read),
        0 <= at < a.ifds.len(),
        seen.contains(a.ifds[at]),
    ensures
        read_directory(u, bo, a.ifds[at], nothing_pending()).outcome is Ok,
        stand_alike(
            u,
            bo,
            with_found(
                without_ifd(a, at),
                read_directory(u, bo, a.ifds[at], nothing_pending()).outcome->Ok_0,
            ),
            b,
            best,
            seen,
            read,
        ),
{
    let o = a.ifds[at];
    assert(is_known_directory(u, bo, o, a, seen, read));
    let f = read_directory(u, bo, o, nothing_pending()).outcome->Ok_0;
    let left = without_ifd(a, at);
    let a2 = with_found(left, f);
    assert forall|x: u32| !seen.contains(x) implies (#[trigger] a2.ifds.contains(x)
        <==> b.ifds.contains(x)) by {
        lemma_contains_after_add(left.ifds, f.ifds, x);
        lemma_contains_after_remove(a.ifds, at, x);
        assert(a.ifds.contains(x) <==> b.ifds.contains(x));
        if f.ifds.contains(x) {
        }
    }
    assert forall|x: u32| !read.contains(x) implies (#[trigger] a2.dates.contains(x)
        <==> b.dates.contains(x)) by {
        lemma_contains_after_add(left.dates, f.dates, x);
        assert(a.dates.contains(x) <==> b.dates.contains(x));
        if f.dates.contains(x) {
        }
    }
    assert forall|x: u32| #[trigger] seen.contains(x) implies is_known_directory(
        u,
        bo,
        x,
        a2,
        seen,
        read,
    ) by {
        assert(is_known_directory(u, bo, x, a, seen, read));
        let found = read_directory(u, bo, x, nothing_pending()).outcome->Ok_0;
        assert forall|y: u32| #[trigger] found.ifds.contains(y) implies seen.contains(y)
            || a2.ifds.contains(y) by {
            lemma_contains_after_add(left.ifds, f.ifds, y);
            lemma_contains_after_remove(a.ifds, at, y);
        }
        assert forall|y: u32| #[trigger] found.dates.contains(y) implies read.contains(y)
            || a2.dates.contains(y) by {
            lemma_contains_after_add(left.dates, f.dates, y);
        }
    }
}

/// The walks still stand alike when both have read a date for the first
/// time.
proof fn lemma_alike_after_new_date(
    u: InputView,
    bo: Endianness,
    a: Pending,
    b: Pending,
    best: Option<Seq<char>>,
    seen: Seq<u32>,
    read: Set<u32>,
    at_a: int,
    at_b: int,
)
    requires
        stand_alike(u, bo, a, b, best, seen, read),
        0 <= at_a < a.dates.len(),
        0 <= at_b < b.dates.len(),
        a.dates[at_a] == b.dates[at_b],
        read_date(u, a.dates[at_a]).outcome is Ok,
    ensures
        stand_alike(
            u,
            bo,
            without_date(a, at_a),
            without_date(b, at_b),
            earlier(best, read_date(u, a.dates[at_a]).outcome->Ok_0),
            seen,
            read.insert(a.dates[at_a]),
        ),
{
    let d = a.dates[at_a];
    let found = read_date(u, d).outcome->Ok_0;
    let a2 = without_date(a, at_a);
    let b2 = without_date(b, at_b);
    let best2 = earlier(best, found);
    let read2 = read.insert(d);
    lemma_earlier_is_the_minimum(best, found);
    assert forall|x: u32| !read2.contains(x) implies (#[trigger] a2.dates.contains(x)
        <==> b2.dates.contains(x)) by {
        lemma_contains_after_remove(a.dates, at_a, x);
        lemma_contains_after_remove(b.dates, at_b, x);
        assert(a.dates.contains(x) <==> b.dates.contains(x));
    }
    assert forall|x: u32| #[trigger] seen.contains(x) implies is_known_directory(
        u,
        bo,
        x,
        a2,
        seen,
        read2,
    ) by {
        assert(is_known_directory(u, bo, x, a, seen, read));
        let f = read_directory(u, bo, x, nothing_pending()).outcome->Ok_0;
        assert forall|y: u32| #[trigger] f.dates.contains(y) implies read2.contains(y)
            || a2.dates.contains(y) by {
            lemma_contains_after_remove(a.dates, at_a, y);
        }
    }
    assert forall|x: u32| #[trigger] read2.contains(x) implies is_known_date(u, x, best2) by {
        if x != d {
            assert(read.contains(x));
            assert(is_known_date(u, x, best));
            let t = read_date(u, x).outcome->Ok_0;
            if text_less(t, best2->Some_0) {
                if best2 == best {
                } else {
                    lemma_bytes_less_transitive(
                        encode_utf8(t),
                        encode_utf8(found),
                        encode_utf8(best->Some_0),
                    );
                }
            }
        }
    }
}

/// The walks still stand alike when both have read a directory for the
/// first time.
proof fn lemma_alike_after_new_ifd(
    u: InputView,
    bo: Endianness,
    a: Pending,
    b: Pending,
    best: Option<Seq<char>>,
    seen: Seq<u32>,
    read: Set<u32>,
    at_a: int,
    at_b: int,
)
    requires
        stand_alike(u, bo, a, b, best, seen, read),
        0 <= at_a < a.ifds.len(),
        0 <= at_b < b.ifds.len(),
        a.ifds[at_a] == b.ifds[at_b],
        !seen.contains(a.ifds[at_a]),
        read_directory(u, bo, a.ifds[at_a], nothing_pending()).outcome is Ok,
    ensures
        stand_alike(
            u,
            bo,
            with_found(
                without_ifd(a, at_a),
                read_directory(u, bo, a.ifds[at_a], nothing_pending()).outcome->Ok_0,
            ),
            with_found(
                without_ifd(b, at_b),
                read_directory(u, bo, a.ifds[at_a], nothing_pending()).outcome->Ok_0,
            ),
            best,
            seen.push(a.ifds[at_a]),
            read,
        ),
{
    let o = a.ifds[at_a];
    let f = read_directory(u, bo, o, nothing_pending()).outcome->Ok_0;
    let a_left = without_ifd(a, at_a);
    let b_left = without_ifd(b, at_b);
    let a2 = with_found(a_left, f);
    let b2 = with_found(b_left, f);
    let seen2 = seen.push(o);
    assert(forall|x: u32| seen2.contains(x) <==> seen.contains(x) || x == o) by {
        assert forall|x: u32| seen2.contains(x) <==> seen.contains(x) || x == o by {
            lemma_contains_after_add(seen, seq![o], x);
            assert(seen2 =~= seen + seq![o]);
            if x == o {
                assert(seq![o][0] == x);
            }
            if seq![o].contains(x) {
            }
        }
    }
    assert forall|x: u32| !seen2.contains(x) implies (#[trigger] a2.ifds.contains(x)
        <==> b2.ifds.contains(x)) by {
        lemma_contains_after_add(a_left.ifds, f.ifds, x);
        lemma_contains_after_add(b_left.ifds, f.ifds, x);
        lemma_contains_after_remove(a.ifds, at_a, x);
        lemma_contains_after_remove(b.ifds, at_b, x);
        assert(a.ifds.contains(x) <==> b.ifds.contains(x));
    }
    assert forall|x: u32| !read.contains(x) implies (#[trigger] a2.dates.contains(x)
        <==> b2.dates.contains(x)) by {
        lemma_contains_after_add(a_left.dates, f.dates, x);
        lemma_contains_after_add(b_left.dates, f.dates, x);
        assert(a.dates.contains(x) <==> b.dates.contains(x));
    }
    assert forall|x: u32| #[trigger] seen2.contains(x) implies is_known_directory(
        u,
        bo,
        x,
        a2,
        seen2,
        read,
    ) by {
        let found = read_directory(u, bo, x, nothing_pending()).outcome->Ok_0;
        if x != o {
            assert(seen.contains(x));
            assert(is_known_directory(u, bo, x, a, seen, read));
        }
        assert forall|y: u32| #[trigger] found.ifds.contains(y) implies seen2.contains(y)
            || a2.ifds.contains(y) by {
            lemma_contains_after_add(a_left.ifds, f.ifds, y);
            lemma_contains_after_remove(a.ifds, at_a, y);
        }
        assert forall|y: u32| #[trigger] found.dates.contains(y) implies read.contains(y)
            || a2.dates.contains(y) by {
            lemma_contains_after_add(a_left.dates, f.dates, y);
        }
    }
}

/// Something is pending.
pub open spec fn is_pending(pending: Pending) -> bool {
    pending.ifds.len() > 0 || pending.dates.len() > 0
}

/// The offset that the walk turns to next.
pub open spec fn next_offset(pending: Pending) -> u32 {
    if date_is_next(pending) {
        pending.dates[min_index(pending.dates)]
    } else {
        pending.ifds[min_index(pending.ifds)]
    }
}

/// What the walk turns to next has been visited before.
pub open spec fn next_is_known(pending: Pending, seen: Seq<u32>, read: Set<u32>) -> bool {
    if date_is_next(pending) {
        read.contains(next_offset(pending))
    } else {
        seen.contains(next_offset(pending))
    }
}

/// Two walks that stand alike and both turn to something new turn to the
/// same thing.
proof fn lemma_next_is_the_same(
    u: InputView,
    bo: Endianness,
    a: Pending,
    b: Pending,
    best: Option<Seq<char>>,
    seen: Seq<u32>,
    read: Set<u32>,
)
    requires
        stand_alike(u, bo, a, b, best, seen, read),
        is_pending(a),
        !next_is_known(a, seen, read),
        is_pending(b) ==> !next_is_known(b, seen, read),
    ensures
        is_pending(b),
        date_is_next(a) == date_is_next(b),
        next_offset(a) == next_offset(b),
{
    if a.dates.len() > 0 {
        lemma_min_index(a.dates);
    }
    if a.ifds.len() > 0 {
        lemma_min_index(a.ifds);
    }
    if b.dates.len() > 0 {
        lemma_min_index(b.dates);
    }
    if b.ifds.len() > 0 {
        lemma_min_index(b.ifds);
    }
    let m = next_offset(a);
    if date_is_next(a) {
        assert(a.dates.contains(m));
        assert(b.dates.contains(m));
        let k = choose|k: int| 0 <= k < b.dates.len() && b.dates[k] == m;
        assert(b.dates[min_index(b.dates)] <= b.dates[k]);
        let n = next_offset(b);
        if date_is_next(b) {
            assert(b.dates.contains(n));
            assert(a.dates.contains(n));
            let j = choose|j: int| 0 <= j < a.dates.len() && a.dates[j] == n;
            assert(a.dates[min_index(a.dates)] <= a.dates[j]);
        } else {
            assert(b.ifds.contains(n));
            assert(a.ifds.contains(n));
            let j = choose|j: int| 0 <= j < a.ifds.len() && a.ifds[j] == n;
            assert(a.ifds[min_index(a.ifds)] <= a.ifds[j]);
        }
    } else {
        assert(a.ifds.contains(m));
        assert(b.ifds.contains(m));
        let k = choose|k: int| 0 <= k < b.ifds.len() && b.ifds[k] == m;
        assert(b.ifds[min_index(b.ifds)] <= b.ifds[k]);
        let n = next_offset(b);
        if date_is_next(b) {
            assert(b.dates.contains(n));
            assert(a.dates.contains(n));
            let j = choose|j: int| 0 <= j < a.dates.len() && a.dates[j] == n;
            assert(a.dates[min_index(a.dates)] <= a.dates[j]);
        } else {
            assert(b.ifds.contains(n));
            assert(a.ifds.contains(n));
            let j = choose|j: int| 0 <= j < a.ifds.len() && a.ifds[j] == n;
            assert(a.ifds[min_index(a.ifds)] <= a.ifds[j]);
        }
    }
}

/// Walks that stand alike end alike: where the walk that reads
/// directories again comes to an end within `steps` steps, the walk that
/// reads each directory once has the same outcome.
proof fn lemma_walks_end_alike(
    va: InputView,
    vb: InputView,
    bo: Endianness,
    a: Pending,
    b: Pending,
    best: Option<Seq<char>>,
    seen: Seq<u32>,
    read: Set<u32>,
    steps: nat,
)
    requires
        va.at(0) == vb.at(0),
        stand_alike(va.at(0), bo, a, b, best, seen, read),
        walk_again(va, bo, a, best, steps) is Some,
    ensures
        walk(vb, bo, b, best, seen).outcome == walk_again(va, bo, a, best, steps)->Some_0.outcome,
    decreases steps, unseen(seen).len(), b.ifds.len() + b.dates.len(),
{
    let u = va.at(0);
    if a.dates.len() > 0 {
        lemma_min_index(a.dates);
    }
    if a.ifds.len() > 0 {
        lemma_min_index(a.ifds);
    }
    if b.dates.len() > 0 {
        lemma_min_index(b.dates);
    }
    if b.ifds.len() > 0 {
        lemma_min_index(b.ifds);
    }
    if is_pending(b) && next_is_known(b, seen, read) {
        if date_is_next(b) {
            let at = min_index(b.dates);
            let d = b.dates[at];
            assert(is_known_date(u, d, best));
            lemma_date_reads_alike(vb, d);
            lemma_earlier_is_the_minimum(best, read_date(u, d).outcome->Ok_0);
            lemma_alike_without_read_date_b(u, bo, a, b, best, seen, read, at);
            lemma_walks_end_alike(
                va,
                read_date(vb, d).rest,
                bo,
                a,
                without_date(b, at),
                best,
                seen,
                read,
                steps,
            );
        } else {
            let at = min_index(b.ifds);
            lemma_alike_without_seen_ifd_b(u, bo, a, b, best, seen, read, at);
            lemma_walks_end_alike(va, vb, bo, a, without_ifd(b, at), best, seen, read, steps);
        }
    } else if is_pending(a) && next_is_known(a, seen, read) {
        if date_is_next(a) {
            let at = min_index(a.dates);
            let d = a.dates[at];
            assert(is_known_date(u, d, best));
            lemma_date_reads_alike(va, d);
            lemma_earlier_is_the_minimum(best, read_date(u, d).outcome->Ok_0);
            lemma_alike_without_read_date_a(u, bo, a, b, best, seen, read, at);
            lemma_walks_end_alike(
                read_date(va, d).rest,
                vb,
                bo,
                without_date(a, at),
                b,
                best,
                seen,
                read,
                (steps - 1) as nat,
            );
        } else {
            let at = min_index(a.ifds);
            let o = a.ifds[at];
            lemma_alike_after_seen_ifd_a(u, bo, a, b, best, seen, read, at);
            lemma_directory_at(va, bo, o, without_ifd(a, at));
            let f = read_directory(u, bo, o, nothing_pending()).outcome->Ok_0;
            lemma_walks_end_alike(
                read_directory(va, bo, o, without_ifd(a, at)).rest,
                vb,
                bo,
                with_found(without_ifd(a, at), f),
                b,
                best,
                seen,
                read,
                (steps - 1) as nat,
            );
        }
    } else if !is_pending(a) {
        if is_pending(b) {
            let n = next_offset(b);
            if date_is_next(b) {
                assert(b.dates.contains(n));
                assert(a.dates.contains(n));
            } else {
                assert(b.ifds.contains(n));
                assert(a.ifds.contains(n));
            }
        }
    } else {
        lemma_next_is_the_same(u, bo, a, b, best, seen, read);
        if date_is_next(a) {
            let at_a = min_index(a.dates);
            let at_b = min_index(b.dates);
            let d = a.dates[at_a];
            lemma_date_reads_alike(va, d);
            lemma_date_reads_alike(vb, d);
            if read_date(u, d).outcome is Ok {
                let found = read_date(u, d).outcome->Ok_0;
                lemma_alike_after_new_date(u, bo, a, b, best, seen, read, at_a, at_b);
                lemma_walks_end_alike(
                    read_date(va, d).rest,
                    read_date(vb, d).rest,
                    bo,
                    without_date(a, at_a),
                    without_date(b, at_b),
                    earlier(best, found),
                    seen,
                    read.insert(d),
                    (steps - 1) as nat,
                );
            }
        } else {
            let at_a = min_index(a.ifds);
            let at_b = min_index(b.ifds);
            let o = a.ifds[at_a];
            lemma_directory_at(va, bo, o, without_ifd(a, at_a));
            lemma_directory_at(vb, bo, o, without_ifd(b, at_b));
            lemma_unseen_shrinks(seen, o);
            if read_directory(u, bo, o, nothing_pending()).outcome is Ok {
                let f = read_directory(u, bo, o, nothing_pending()).outcome->Ok_0;
                lemma_alike_after_new_ifd(u, bo, a, b, best, seen, read, at_a, at_b);
                lemma_walks_end_alike(
                    read_directory(va, bo, o, without_ifd(a, at_a)).rest,
                    read_directory(vb, bo, o, without_ifd(b, at_b)).rest,
                    bo,
                    with_found(without_ifd(a, at_a), f),
                    with_found(without_ifd(b, at_b), f),
                    best,
                    seen.push(o),
                    read,
                    (steps - 1) as nat,
                );
            }
        }
    }
}

/// Reading a directory once is enough. Take the walk that reads a
/// directory again whenever its offset comes up again. Wherever that walk
/// comes to an end, in any number of steps, the walk of the decoder has
/// the same outcome: the same earliest date, or the same fault.
pub proof fn lemma_reading_again_changes_nothing(
    v: InputView,
    bo: Endianness,
    pending: Pending,
    steps: nat,
)
    requires
        walk_again(v, bo, pending, None, steps) is Some,
    ensures
        walk(v, bo, pending, None, Seq::empty()).outcome == walk_again(
            v,
            bo,
            pending,
            None,
            steps,
        )->Some_0.outcome,
{
    let seen = Seq::<u32>::empty();
    let read = Set::<u32>::empty();
    assert(stand_alike(v.at(0), bo, pending, pending, None, seen, read));
    lemma_walks_end_alike(v, v, bo, pending, pending, None, seen, read, steps);
}

} // verus!
