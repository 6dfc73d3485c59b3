//! The normalized physical memory map: sorted, merged lists of RAM,
//! permanent reservations and MMIO windows, and the usable RAM that remains.
use vstd::prelude::*;
use crate::text::{append_decimal, dec_text};
use vstd::string::StringExecFns;
use crate::system_info::{FixedList, PhysAddr, PhysRegion, RegionError};

verus! {

broadcast use {PhysRegion::lemma_spec_new, PhysAddr::lemma_spec_new};

pub const MAX_RAM_REGIONS: usize = 8;
pub const MAX_MMIO_REGIONS: usize = 64;
pub const MAX_NORMALIZED_RESERVED_REGIONS: usize = 192;
pub const MAX_USABLE_RAM_REGIONS: usize = 200;

#[derive(Debug, Clone, Copy, PartialEq, Eq, Structural)]
pub enum MemoryMapError {
    Capacity { capacity: usize },
    InvalidRegion(RegionError),
    RamMmioConflict { ram: PhysRegion, mmio: PhysRegion },
}

/// `a` and `b` overlap or share a boundary, so their union is one range.
pub open spec fn touches(a: PhysRegion, b: PhysRegion) -> bool {
    a.start_spec() <= b.end_spec() && b.start_spec() <= a.end_spec()
}

/// Regions are well formed, ascending, and separated by gaps: no two of them
/// overlap or are adjacent.
pub open spec fn sorted_merged(s: Seq<PhysRegion>) -> bool {
    &&& forall|i: int| 0 <= i < s.len() ==> (#[trigger] s[i]).wf()
    &&& forall|i: int, j: int|
        0 <= i < j < s.len() ==> (#[trigger] s[i]).end_spec() < (#[trigger] s[j]).start_spec()
}

/// Some region of `s` contains `address`.
pub open spec fn covers(s: Seq<PhysRegion>, address: int) -> bool {
    exists|i: int| 0 <= i < s.len() && (#[trigger] s[i]).contains_spec(address)
}

pub proof fn lemma_covers_concat(x: Seq<PhysRegion>, y: Seq<PhysRegion>)
    ensures
        forall|a: int| #[trigger] covers(x + y, a) <==> covers(x, a) || covers(y, a),
{
    assert forall|a: int| #[trigger] covers(x + y, a) <==> covers(x, a) || covers(y, a) by {
        if covers(x + y, a) {
            let i = choose|i: int| 0 <= i < (x + y).len() && (#[trigger] (x + y)[i]).contains_spec(a);
            if i < x.len() {
                assert(x[i] == (x + y)[i]);
            } else {
                assert(y[i - x.len()] == (x + y)[i]);
            }
        }
        if covers(x, a) {
            let i = choose|i: int| 0 <= i < x.len() && (#[trigger] x[i]).contains_spec(a);
            assert((x + y)[i] == x[i]);
        }
        if covers(y, a) {
            let i = choose|i: int| 0 <= i < y.len() && (#[trigger] y[i]).contains_spec(a);
            assert((x + y)[i + x.len()] == y[i]);
        }
    }
}

pub proof fn lemma_covers_single(m: PhysRegion)
    ensures
        forall|a: int| #[trigger] covers(seq![m], a) <==> m.contains_spec(a),
{
    assert forall|a: int| #[trigger] covers(seq![m], a) <==> m.contains_spec(a) by {
        if m.contains_spec(a) {
            assert(seq![m][0] == m);
        }
    }
}

pub proof fn lemma_covers_split(s: Seq<PhysRegion>, b: int)
    requires
        0 <= b <= s.len(),
    ensures
        forall|a: int| #[trigger] covers(s, a) <==> covers(s.take(b), a) || covers(s.skip(b), a),
{
    assert(s == s.take(b) + s.skip(b));
    lemma_covers_concat(s.take(b), s.skip(b));
}

/// Whether two regions touch, computed from their executable bounds.
fn regions_touch(a: PhysRegion, b: PhysRegion) -> (r: bool)
    ensures
        r == touches(a, b),
{
    a.well_formed();
    b.well_formed();
    a.overlaps(b) || a.is_adjacent(b)
}

/// The smallest region containing both `a` and `b`.
fn merge_regions(a: PhysRegion, b: PhysRegion) -> (r: Result<PhysRegion, MemoryMapError>)
    ensures
        r matches Ok(m) && m.wf() && m.start_spec() == (if a.start_spec() < b.start_spec() {
            a.start_spec()
        } else {
            b.start_spec()
        }) && m.end_spec() == (if a.end_spec() > b.end_spec() {
            a.end_spec()
        } else {
            b.end_spec()
        }),
{
    a.well_formed();
    b.well_formed();
    let start = if a.start().value() < b.start().value() {
        a.start()
    } else {
        b.start()
    };
    let end = if a.end().value() > b.end().value() {
        a.end()
    } else {
        b.end()
    };
    match PhysRegion::from_bounds(start, end) {
        Ok(m) => Ok(m),
        Err(e) => Err(MemoryMapError::InvalidRegion(e)),
    }
}

/// The hull of two touching regions contains exactly the addresses of either.
proof fn lemma_merge_covers(a: PhysRegion, b: PhysRegion, m: PhysRegion)
    requires
        a.wf(),
        b.wf(),
        touches(a, b),
        m.start_spec() == (if a.start_spec() < b.start_spec() {
            a.start_spec()
        } else {
            b.start_spec()
        }),
        m.end_spec() == (if a.end_spec() > b.end_spec() {
            a.end_spec()
        } else {
            b.end_spec()
        }),
    ensures
        forall|x: int| #[trigger] m.contains_spec(x) <==> a.contains_spec(x) || b.contains_spec(x),
{
}

/// Merges `list[index - 1]` with every following region that it touches.
///
/// The list is `pre + [m] + post`, where `pre` ends before `m` starts and
/// `post` is normalized and starts no earlier than `m`.
fn absorb_following<const N: usize>(
    list: &mut FixedList<PhysRegion, N>,
    index: usize,
    Ghost(pre): Ghost<Seq<PhysRegion>>,
    Ghost(m): Ghost<PhysRegion>,
    Ghost(post): Ghost<Seq<PhysRegion>>,
) -> (r: Result<(), MemoryMapError>)
    requires
        old(list)@ == pre + seq![m] + post,
        index == pre.len() + 1,
        sorted_merged(pre),
        sorted_merged(post),
        m.wf(),
        forall|i: int| 0 <= i < pre.len() ==> (#[trigger] pre[i]).end_spec() < m.start_spec(),
        forall|i: int| 0 <= i < post.len() ==> m.start_spec() <= (#[trigger] post[i]).start_spec(),
    ensures
        r is Ok,
        sorted_merged(final(list)@),
        forall|a: int|
            #[trigger] covers(final(list)@, a) <==> covers(pre, a) || m.contains_spec(a) || covers(
                post,
                a,
            ),
        final(list)@.len() <= old(list)@.len(),
{
    let ghost mut cur_m = m;
    let ghost mut b: int = 0;
    proof {
        assert(post.skip(0) == post);
    }
    while index < list.len()
        invariant_except_break
            list@ == pre + seq![cur_m] + post.skip(b),
            0 <= b <= post.len(),
            index == pre.len() + 1,
            sorted_merged(pre),
            sorted_merged(post),
            cur_m.wf(),
            cur_m.start_spec() == m.start_spec(),
            forall|i: int| 0 <= i < pre.len() ==> (#[trigger] pre[i]).end_spec() < m.start_spec(),
            forall|i: int| 0 <= i < post.len() ==> m.start_spec() <= (#[trigger] post[i]).start_spec(),
            forall|x: int| #[trigger] cur_m.contains_spec(x) <==> m.contains_spec(x) || covers(post.take(b), x),
            list@.len() + b == pre.len() + 1 + post.len(),
        ensures
            list@ == pre + seq![cur_m] + post.skip(b),
            0 <= b <= post.len(),
            cur_m.wf(),
            cur_m.start_spec() == m.start_spec(),
            forall|x: int| #[trigger] cur_m.contains_spec(x) <==> m.contains_spec(x) || covers(post.take(b), x),
            b < post.len() ==> cur_m.end_spec() < post[b].start_spec(),
            list@.len() + b == pre.len() + 1 + post.len(),
        decreases list@.len() - index,
    {
        let previous = *list.get(index - 1).unwrap();
        let current = *list.get(index).unwrap();
        proof {
            assert(previous == cur_m);
            assert(current == post[b]);
        }
        if regions_touch(previous, current) {
            let merged = match merge_regions(previous, current) {
                Ok(m2) => m2,
                Err(e) => {
                    return Err(e);
                },
            };
            proof {
                lemma_merge_covers(previous, current, merged);
                assert(post.take(b + 1) == post.take(b) + seq![post[b]]);
                lemma_covers_concat(post.take(b), seq![post[b]]);
                lemma_covers_single(post[b]);
            }
            list.set(index - 1, merged);
            list.remove(index);
            proof {
                assert(post.skip(b) == seq![post[b]] + post.skip(b + 1));
                cur_m = merged;
                b = b + 1;
                assert(list@ =~= pre + seq![cur_m] + post.skip(b));
            }
        } else {
            proof {
                assert(previous.end_spec() < current.start_spec());
            }
            break;
        }
    }
    proof {
        let rest = post.skip(b);
        let fin = list@;
        assert(fin == pre + seq![cur_m] + rest);
        assert forall|i: int, j: int| 0 <= i < j < fin.len() implies (#[trigger] fin[i]).end_spec() < (#[trigger] fin[j]).start_spec() by {
            if j < pre.len() {
                assert(fin[i] == pre[i] && fin[j] == pre[j]);
            } else if j == pre.len() {
                assert(fin[i] == pre[i]);
            } else if i < pre.len() {
                assert(fin[i] == pre[i]);
                assert(fin[j] == post[b + j - pre.len() - 1]);
            } else if i == pre.len() {
                assert(fin[j] == post[b + j - pre.len() - 1]);
                if j - pre.len() - 1 > 0 {
                    assert(post[b].end_spec() < post[b + j - pre.len() - 1].start_spec());
                }
            } else {
                assert(fin[i] == post[b + i - pre.len() - 1]);
                assert(fin[j] == post[b + j - pre.len() - 1]);
            }
        }
        assert forall|i: int| 0 <= i < fin.len() implies (#[trigger] fin[i]).wf() by {
            if i < pre.len() {
                assert(fin[i] == pre[i]);
            } else if i > pre.len() {
                assert(fin[i] == post[b + i - pre.len() - 1]);
            }
        }
        lemma_covers_concat(pre + seq![cur_m], rest);
        lemma_covers_concat(pre, seq![cur_m]);
        lemma_covers_single(cur_m);
        lemma_covers_split(post, b);
    }
    Ok(())
}

/// Adds `region` to a normalized list, merging it with every region that it
/// overlaps or adjoins. Fails only when the region touches nothing and the
/// list is full; the list is then unchanged.
#[verifier::rlimit(50)]
fn insert_sorted_merged<const N: usize>(
    list: &mut FixedList<PhysRegion, N>,
    region: PhysRegion,
) -> (r: Result<(), MemoryMapError>)
    requires
        sorted_merged(old(list)@),
        old(list)@.len() <= N,
    ensures
        sorted_merged(final(list)@),
        final(list)@.len() <= N,
        r is Ok ==> forall|a: int|
            #[trigger] covers(final(list)@, a) <==> covers(old(list)@, a) || region.contains_spec(
                a,
            ),
        r is Err <==> (forall|i: int|
            0 <= i < old(list)@.len() ==> !touches(#[trigger] old(list)@[i], region)) && old(
            list,
        )@.len() >= N,
        r is Err ==> r == Err::<(), MemoryMapError>(MemoryMapError::Capacity { capacity: N })
            && final(list)@ == old(list)@,
{
    let ghost old_list = list@;
    region.well_formed();
    let mut index: usize = 0;
    while index < list.len() && list.get(index).unwrap().start().value() < region.start().value()
        invariant
            list@ == old_list,
            sorted_merged(old_list),
            index <= old_list.len(),
            forall|i: int| 0 <= i < index ==> (#[trigger] old_list[i]).start_spec() < region.start_spec(),
        decreases old_list.len() - index,
    {
        index += 1;
    }
    let ghost n = old_list.len() as int;
    // Every region from `index` on starts at or after `region`.
    assert(forall|i: int| index <= i < n ==> region.start_spec() <= (#[trigger] old_list[i]).start_spec()) by {
        if index < n {
            assert forall|i: int| index <= i < n implies region.start_spec() <= (#[trigger] old_list[i]).start_spec() by {
                if i > index {
                    assert(old_list[index as int].end_spec() < old_list[i].start_spec());
                }
            }
        }
    }
    if index > 0 {
        let prev = *list.get(index - 1).unwrap();
        if regions_touch(prev, region) {
            let merged = match merge_regions(prev, region) {
                Ok(m) => m,
                Err(e) => {
                    return Err(e);
                },
            };
            list.set(index - 1, merged);
            let ghost pre = old_list.take(index - 1);
            let ghost post = old_list.skip(index as int);
            proof {
                lemma_merge_covers(prev, region, merged);
                assert(old_list =~= pre + seq![prev] + post);
                assert(list@ =~= pre + seq![merged] + post);
                assert forall|i: int| 0 <= i < pre.len() implies (#[trigger] pre[i]).end_spec() < merged.start_spec() by {
                    assert(pre[i] == old_list[i]);
                }
                assert forall|i: int| 0 <= i < post.len() implies merged.start_spec() <= (#[trigger] post[i]).start_spec() by {
                    assert(post[i] == old_list[i + index]);
                }
                lemma_sub_sorted(old_list, 0, index - 1);
                lemma_sub_sorted(old_list, index as int, n);
                assert(old_list.subrange(0, index - 1) == pre);
                assert(old_list.subrange(index as int, n) == post);
            }
            let r = absorb_following(list, index, Ghost(pre), Ghost(merged), Ghost(post));
            proof {
                lemma_covers_concat(pre + seq![prev], post);
                lemma_covers_concat(pre, seq![prev]);
                lemma_covers_single(prev);
            }
            return r;
        }
    }
    // The region does not touch its predecessor, which therefore ends first.
    assert(index > 0 ==> old_list[index - 1].end_spec() < region.start_spec());
    if index < list.len() {
        let current = *list.get(index).unwrap();
        if regions_touch(current, region) {
            let merged = match merge_regions(current, region) {
                Ok(m) => m,
                Err(e) => {
                    return Err(e);
                },
            };
            list.set(index, merged);
            let ghost pre = old_list.take(index as int);
            let ghost post = old_list.skip(index + 1);
            proof {
                lemma_merge_covers(current, region, merged);
                assert(old_list =~= pre + seq![current] + post);
                assert(list@ =~= pre + seq![merged] + post);
                assert forall|i: int| 0 <= i < pre.len() implies (#[trigger] pre[i]).end_spec() < merged.start_spec() by {
                    assert(pre[i] == old_list[i]);
                    if i < index - 1 {
                        assert(old_list[i].end_spec() < old_list[index - 1].start_spec());
                    }
                }
                assert forall|i: int| 0 <= i < post.len() implies merged.start_spec() <= (#[trigger] post[i]).start_spec() by {
                    assert(post[i] == old_list[i + index + 1]);
                }
                lemma_sub_sorted(old_list, 0, index as int);
                lemma_sub_sorted(old_list, index + 1, n);
                assert(old_list.subrange(0, index as int) == pre);
                assert(old_list.subrange(index + 1, n) == post);
            }
            let r = absorb_following(list, index + 1, Ghost(pre), Ghost(merged), Ghost(post));
            proof {
                lemma_covers_concat(pre + seq![current], post);
                lemma_covers_concat(pre, seq![current]);
                lemma_covers_single(current);
            }
            return r;
        }
    }
    proof {
        assert forall|i: int| 0 <= i < n implies !touches(#[trigger] old_list[i], region) by {
            if i < index - 1 {
                assert(old_list[i].end_spec() < old_list[index - 1].start_spec());
            } else if i > index {
                assert(old_list[index as int].end_spec() < old_list[i].start_spec());
            }
        }
    }
    match list.insert(index, region) {
        Ok(()) => {
            proof {
                let fin = list@;
                assert(fin =~= old_list.take(index as int) + seq![region] + old_list.skip(index as int));
                assert forall|i: int, j: int| 0 <= i < j < fin.len() implies (#[trigger] fin[i]).end_spec() < (#[trigger] fin[j]).start_spec() by {
                    if j < index {
                        assert(fin[i] == old_list[i] && fin[j] == old_list[j]);
                    } else if j == index {
                        assert(fin[i] == old_list[i]);
                        if i < index - 1 {
                            assert(old_list[i].end_spec() < old_list[index - 1].start_spec());
                        }
                    } else if i < index {
                        assert(fin[i] == old_list[i] && fin[j] == old_list[j - 1]);
                    } else if i == index {
                        assert(fin[j] == old_list[j - 1]);
                        if j - 1 > index {
                            assert(old_list[index as int].end_spec() < old_list[j - 1].start_spec());
                        }
                    } else {
                        assert(fin[i] == old_list[i - 1] && fin[j] == old_list[j - 1]);
                    }
                }
                assert forall|i: int| 0 <= i < fin.len() implies (#[trigger] fin[i]).wf() by {
                    if i < index {
                        assert(fin[i] == old_list[i]);
                    } else if i > index {
                        assert(fin[i] == old_list[i - 1]);
                    }
                }
                lemma_covers_concat(old_list.take(index as int) + seq![region], old_list.skip(index as int));
                lemma_covers_concat(old_list.take(index as int), seq![region]);
                lemma_covers_single(region);
                lemma_covers_split(old_list, index as int);
            }
            Ok(())
        },
        Err(_) => Err(MemoryMapError::Capacity { capacity: N }),
    }
}

/// A contiguous slice of a normalized list is normalized.
proof fn lemma_sub_sorted(s: Seq<PhysRegion>, lo: int, hi: int)
    requires
        sorted_merged(s),
        0 <= lo <= hi <= s.len(),
    ensures
        sorted_merged(s.subrange(lo, hi)),
{
    let t = s.subrange(lo, hi);
    assert forall|i: int, j: int| 0 <= i < j < t.len() implies (#[trigger] t[i]).end_spec() < (#[trigger] t[j]).start_spec() by {
        assert(t[i] == s[i + lo] && t[j] == s[j + lo]);
    }
    assert forall|i: int| 0 <= i < t.len() implies (#[trigger] t[i]).wf() by {
        assert(t[i] == s[i + lo]);
    }
}


/// The pieces of `[cursor, end)` left uncovered by the ascending, separated
/// reservations `res`, in ascending order.
pub open spec fn gaps(cursor: int, end: int, res: Seq<PhysRegion>) -> Seq<PhysRegion>
    decreases res.len(),
{
    if res.len() == 0 {
        if cursor < end {
            seq![PhysRegion::spec_new(cursor as u64, (end - cursor) as u64)]
        } else {
            seq![]
        }
    } else {
        let r = res[0];
        if r.end_spec() <= cursor || r.start_spec() >= end {
            gaps(cursor, end, res.drop_first())
        } else {
            let head = if r.start_spec() > cursor {
                seq![PhysRegion::spec_new(cursor as u64, (r.start_spec() - cursor) as u64)]
            } else {
                seq![]
            };
            if r.end_spec() >= end {
                head
            } else {
                head + gaps(r.end_spec(), end, res.drop_first())
            }
        }
    }
}

/// The usable pieces of every RAM region, in RAM order.
pub open spec fn usable_of(ram: Seq<PhysRegion>, res: Seq<PhysRegion>) -> Seq<PhysRegion>
    decreases ram.len(),
{
    if ram.len() == 0 {
        seq![]
    } else {
        usable_of(ram.drop_last(), res) + gaps(
            ram.last().start_spec() as int,
            ram.last().end_spec(),
            res,
        )
    }
}

/// Appends to `output` the pieces of `ram` that no reservation covers.
fn subtract_all(
    ram: PhysRegion,
    reserved: &FixedList<PhysRegion, MAX_NORMALIZED_RESERVED_REGIONS>,
    output: &mut FixedList<PhysRegion, MAX_USABLE_RAM_REGIONS>,
) -> (r: Result<(), MemoryMapError>)
    requires
        old(output)@.len() <= MAX_USABLE_RAM_REGIONS,
    ensures
        r is Ok <==> old(output)@.len() + gaps(
            ram.start_spec() as int,
            ram.end_spec(),
            reserved@,
        ).len() <= MAX_USABLE_RAM_REGIONS,
        r is Ok ==> final(output)@ == old(output)@ + gaps(
            ram.start_spec() as int,
            ram.end_spec(),
            reserved@,
        ),
        r is Err ==> r == Err::<(), MemoryMapError>(
            MemoryMapError::Capacity { capacity: MAX_USABLE_RAM_REGIONS },
        ),
        final(output)@.len() <= MAX_USABLE_RAM_REGIONS,
{
    ram.well_formed();
    let ghost res = reserved@;
    let ghost start = ram.start_spec() as int;
    let ghost end = ram.end_spec();
    let ghost base = output@;
    let ghost total = gaps(start, end, res);
    let mut cursor = ram.start();
    let mut k: usize = 0;
    proof {
        assert(res.skip(0) == res);
        assert(total == Seq::<PhysRegion>::empty() + gaps(cursor@ as int, end, res.skip(0)));
    }
    while k < reserved.len()
        invariant
            res == reserved@,
            k <= res.len(),
            start <= cursor@ < end,
            end == ram.end_spec(),
            end <= u64::MAX,
            output@.len() >= base.len(),
            total == output@.skip(base.len() as int) + gaps(cursor@ as int, end, res.skip(k as int)),
            output@.take(base.len() as int) == base,
            output@.len() <= MAX_USABLE_RAM_REGIONS,
            base == old(output)@,
            total == gaps(start, end, res),
            ram.end_spec() == end,
            ram.start_spec() == start,
        decreases res.len() - k,
    {
        let reservation = *reserved.get(k).unwrap();
        reservation.well_formed();
        let ghost rest = res.skip(k as int);
        let ghost done = output@.skip(base.len() as int);
        proof {
            assert(rest[0] == reservation);
            assert(rest.drop_first() == res.skip(k + 1));
        }
        if reservation.end().value() <= cursor.value() || reservation.start().value()
            >= ram.end().value() {
            k += 1;
            continue;
        }
        if reservation.start().value() > cursor.value() {
            let piece = match PhysRegion::from_bounds(cursor, reservation.start()) {
                Ok(p) => p,
                Err(e) => {
                    return Err(MemoryMapError::InvalidRegion(e));
                },
            };
            let ghost before = output@;
            match output.push(piece) {
                Ok(()) => {},
                Err(_) => {
                    proof {
                        assert(gaps(cursor@ as int, end, rest).len() >= 1);
                        assert(total.len() == done.len() + gaps(cursor@ as int, end, rest).len());
                        assert(output@.len() == base.len() + done.len());
                        assert(output@.len() >= MAX_USABLE_RAM_REGIONS);
                        assert(base == old(output)@);
                        assert(old(output)@.len() + total.len() > MAX_USABLE_RAM_REGIONS);
                        assert(total == gaps(ram.start_spec() as int, ram.end_spec(), reserved@));
                    }
                    return Err(MemoryMapError::Capacity { capacity: MAX_USABLE_RAM_REGIONS });
                },
            }
            proof {
                assert(output@.skip(base.len() as int) =~= done + seq![piece]);
                assert(output@.take(base.len() as int) =~= before.take(base.len() as int));
            }
        }
        if reservation.end().value() >= ram.end().value() {
            proof {
                assert(gaps(cursor@ as int, end, rest) =~= gaps(cursor@ as int, end, rest).take(0) + (if reservation.start_spec() > cursor@ { seq![PhysRegion::spec_new(cursor@, (reservation.start_spec() - cursor@) as u64)] } else { seq![] }));
                assert(output@.skip(base.len() as int) == total);
                assert(output@ =~= base + total);
            }
            return Ok(());
        }
        cursor = reservation.end();
        k += 1;
        proof {
            assert(total =~= output@.skip(base.len() as int) + gaps(cursor@ as int, end, res.skip(k as int)));
        }
    }
    proof {
        assert(res.skip(k as int).len() == 0);
    }
    let piece = match PhysRegion::from_bounds(cursor, ram.end()) {
        Ok(p) => p,
        Err(e) => {
            return Err(MemoryMapError::InvalidRegion(e));
        },
    };
    let ghost done = output@.skip(base.len() as int);
    match output.push(piece) {
        Ok(()) => {},
        Err(_) => {
            return Err(MemoryMapError::Capacity { capacity: MAX_USABLE_RAM_REGIONS });
        },
    }
    proof {
        assert(output@.skip(base.len() as int) =~= done + seq![piece]);
        assert(output@ =~= base + total);
    }
    Ok(())
}


/// Every piece of `gaps(cursor, end, res)` is a well-formed part of
/// `[cursor, end)`, the pieces are normalized, and together they cover exactly
/// the addresses of `[cursor, end)` that no reservation covers.
pub proof fn lemma_gaps(cursor: int, end: int, res: Seq<PhysRegion>)
    requires
        0 <= cursor,
        end <= u64::MAX,
        sorted_merged(res),
    ensures
        sorted_merged(gaps(cursor, end, res)),
        forall|i: int|
            0 <= i < gaps(cursor, end, res).len() ==> cursor <= (#[trigger] gaps(
                cursor,
                end,
                res,
            )[i]).start_spec() && gaps(cursor, end, res)[i].end_spec() <= end,
        forall|a: int|
            #[trigger] covers(gaps(cursor, end, res), a) <==> cursor <= a < end && !covers(res, a),
    decreases res.len(),
{
    let g = gaps(cursor, end, res);
    if res.len() == 0 {
        lemma_covers_single(PhysRegion::spec_new(cursor as u64, (end - cursor) as u64));
    } else {
        let r = res[0];
        let rest = res.drop_first();
        lemma_sub_sorted(res, 1, res.len() as int);
        assert(res.subrange(1, res.len() as int) == rest);
        assert(res == seq![r] + rest);
        lemma_covers_concat(seq![r], rest);
        lemma_covers_single(r);
        // Every later reservation starts after `r` ends.
        assert forall|i: int| 0 <= i < rest.len() implies r.end_spec() < (#[trigger] rest[i]).start_spec() by {
            assert(rest[i] == res[i + 1]);
        }
        if r.end_spec() <= cursor || r.start_spec() >= end {
            lemma_gaps(cursor, end, rest);
        } else {
            let head: Seq<PhysRegion> = if r.start_spec() > cursor {
                seq![PhysRegion::spec_new(cursor as u64, (r.start_spec() - cursor) as u64)]
            } else {
                seq![]
            };
            if r.start_spec() > cursor {
                lemma_covers_single(head[0]);
            }
            assert forall|a: int| #[trigger] covers(head, a) <==> cursor <= a < r.start_spec() by {
                if covers(head, a) {
                    let i = choose|i: int| 0 <= i < head.len() && (#[trigger] head[i]).contains_spec(a);
                }
            }
            // Addresses before `r` are covered by no later reservation.
            assert forall|a: int| a < r.end_spec() implies !covers(rest, a) by {
                if covers(rest, a) {
                    let i = choose|i: int| 0 <= i < rest.len() && (#[trigger] rest[i]).contains_spec(a);
                }
            }
            if r.end_spec() >= end {
                assert(g == head);
            } else {
                let tail = gaps(r.end_spec(), end, rest);
                lemma_gaps(r.end_spec(), end, rest);
                assert(g == head + tail);
                lemma_covers_concat(head, tail);
                assert forall|i: int, j: int| 0 <= i < j < g.len() implies (#[trigger] g[i]).end_spec() < (#[trigger] g[j]).start_spec() by {
                    if i < head.len() && j >= head.len() {
                        assert(g[i] == head[i]);
                        assert(g[j] == tail[j - head.len()]);
                    } else if i >= head.len() {
                        assert(g[i] == tail[i - head.len()]);
                        assert(g[j] == tail[j - head.len()]);
                    }
                }
                assert forall|i: int| 0 <= i < g.len() implies (#[trigger] g[i]).wf() && cursor <= g[i].start_spec() && g[i].end_spec() <= end by {
                    if i >= head.len() {
                        assert(g[i] == tail[i - head.len()]);
                    }
                }
            }
        }
    }
}

/// The usable pieces of normalized RAM under normalized reservations are
/// normalized and cover exactly the RAM addresses that no reservation covers.
pub proof fn lemma_usable_is_ram_minus_reserved(ram: Seq<PhysRegion>, res: Seq<PhysRegion>)
    requires
        sorted_merged(ram),
        sorted_merged(res),
    ensures
        sorted_merged(usable_of(ram, res)),
        forall|i: int|
            0 <= i < usable_of(ram, res).len() && ram.len() > 0 ==> (#[trigger] usable_of(
                ram,
                res,
            )[i]).end_spec() <= ram.last().end_spec(),
        forall|a: int|
            #[trigger] covers(usable_of(ram, res), a) <==> covers(ram, a) && !covers(res, a),
    decreases ram.len(),
{
    let u = usable_of(ram, res);
    if ram.len() > 0 {
        let init = ram.drop_last();
        let last = ram.last();
        lemma_sub_sorted(ram, 0, ram.len() - 1);
        assert(ram.subrange(0, ram.len() - 1) == init);
        lemma_usable_is_ram_minus_reserved(init, res);
        assert(last == ram[ram.len() - 1]);
        assert(last.wf());
        lemma_gaps(last.start_spec() as int, last.end_spec(), res);
        let prev = usable_of(init, res);
        let g = gaps(last.start_spec() as int, last.end_spec(), res);
        assert(u == prev + g);
        lemma_covers_concat(prev, g);
        assert(ram == init + seq![last]);
        lemma_covers_concat(init, seq![last]);
        lemma_covers_single(last);
        if init.len() > 0 {
            assert(init.last() == ram[ram.len() - 2]);
            assert(init.last().end_spec() < last.start_spec());
        }
        assert forall|i: int, j: int| 0 <= i < j < u.len() implies (#[trigger] u[i]).end_spec() < (#[trigger] u[j]).start_spec() by {
            if j < prev.len() {
                assert(u[i] == prev[i] && u[j] == prev[j]);
            } else if i < prev.len() {
                assert(u[i] == prev[i] && u[j] == g[j - prev.len()]);
            } else {
                assert(u[i] == g[i - prev.len()] && u[j] == g[j - prev.len()]);
            }
        }
        assert forall|i: int| 0 <= i < u.len() implies (#[trigger] u[i]).wf() && u[i].end_spec() <= ram.last().end_spec() by {
            if i < prev.len() {
                assert(u[i] == prev[i]);
            } else {
                assert(u[i] == g[i - prev.len()]);
            }
        }
    }
}

proof fn lemma_usable_of_grows(ram: Seq<PhysRegion>, res: Seq<PhysRegion>, k1: int, k2: int)
    requires
        0 <= k1 <= k2 <= ram.len(),
    ensures
        usable_of(ram.take(k1), res).len() <= usable_of(ram.take(k2), res).len(),
    decreases k2 - k1,
{
    if k1 < k2 {
        lemma_usable_of_grows(ram, res, k1, k2 - 1);
        assert(ram.take(k2).drop_last() == ram.take(k2 - 1));
    }
}

/// RAM region `i` and MMIO window `j` are the first overlapping pair in RAM
/// order, then MMIO order.
pub open spec fn first_conflict(ram: Seq<PhysRegion>, mmio: Seq<PhysRegion>, i: int, j: int) -> bool {
    &&& 0 <= i < ram.len()
    &&& 0 <= j < mmio.len()
    &&& overlap(ram[i], mmio[j])
    &&& forall|i2: int, j2: int|
        0 <= i2 <= i && 0 <= j2 < mmio.len() && (i2 < i || j2 < j) ==> !overlap(
            #[trigger] ram[i2],
            #[trigger] mmio[j2],
        )
}

pub open spec fn overlap(a: PhysRegion, b: PhysRegion) -> bool {
    a.start_spec() < b.end_spec() && b.start_spec() < a.end_spec()
}

pub open spec fn has_conflict(ram: Seq<PhysRegion>, mmio: Seq<PhysRegion>) -> bool {
    exists|i: int, j: int|
        0 <= i < ram.len() && 0 <= j < mmio.len() && overlap(#[trigger] ram[i], #[trigger] mmio[j])
}

/// Final physical-address classification built in place during discovery.
///
/// Each list stays sorted and merged as entries are inserted.
#[derive(Debug)]
pub struct MemoryMap {
    /// All physical RAM, including firmware carve-outs that are also
    /// permanent reservations.
    ram: FixedList<PhysRegion, MAX_RAM_REGIONS>,
    /// RAM that must never be allocated after takeover.
    permanent_reserved: FixedList<PhysRegion, MAX_NORMALIZED_RESERVED_REGIONS>,
    /// Physical device windows; never allocator input.
    mmio: FixedList<PhysRegion, MAX_MMIO_REGIONS>,
    /// `ram` minus every permanent reservation, rebuilt by `finalize()`.
    usable_ram: FixedList<PhysRegion, MAX_USABLE_RAM_REGIONS>,
}

impl MemoryMap {
    pub closed spec fn ram_spec(&self) -> Seq<PhysRegion> {
        self.ram@
    }

    pub closed spec fn reserved_spec(&self) -> Seq<PhysRegion> {
        self.permanent_reserved@
    }

    pub closed spec fn mmio_spec(&self) -> Seq<PhysRegion> {
        self.mmio@
    }

    pub closed spec fn usable_spec(&self) -> Seq<PhysRegion> {
        self.usable_ram@
    }

    /// The three inventories are normalized and every list fits its capacity.
    pub open spec fn wf(&self) -> bool {
        &&& sorted_merged(self.ram_spec())
        &&& sorted_merged(self.reserved_spec())
        &&& sorted_merged(self.mmio_spec())
        &&& self.ram_spec().len() <= MAX_RAM_REGIONS
        &&& self.reserved_spec().len() <= MAX_NORMALIZED_RESERVED_REGIONS
        &&& self.mmio_spec().len() <= MAX_MMIO_REGIONS
        &&& self.usable_spec().len() <= MAX_USABLE_RAM_REGIONS
    }

    pub fn empty() -> (r: Self)
        ensures
            r.wf(),
            r.ram_spec() == Seq::<PhysRegion>::empty(),
            r.reserved_spec() == Seq::<PhysRegion>::empty(),
            r.mmio_spec() == Seq::<PhysRegion>::empty(),
            r.usable_spec() == Seq::<PhysRegion>::empty(),
    {
        MemoryMap {
            ram: FixedList::new(),
            permanent_reserved: FixedList::new(),
            mmio: FixedList::new(),
            usable_ram: FixedList::new(),
        }
    }

    pub fn clear(&mut self)
        ensures
            final(self).wf(),
            final(self).ram_spec() == Seq::<PhysRegion>::empty(),
            final(self).reserved_spec() == Seq::<PhysRegion>::empty(),
            final(self).mmio_spec() == Seq::<PhysRegion>::empty(),
            final(self).usable_spec() == Seq::<PhysRegion>::empty(),
    {
        self.ram.clear();
        self.permanent_reserved.clear();
        self.mmio.clear();
        self.usable_ram.clear();
    }

    /// Adds RAM; see [`MemoryMap::insert_reserved`] for the merge contract.
    pub fn insert_ram(&mut self, region: PhysRegion) -> (r: Result<(), MemoryMapError>)
        requires
            old(self).wf(),
        ensures
            final(self).wf(),
            final(self).reserved_spec() == old(self).reserved_spec(),
            final(self).mmio_spec() == old(self).mmio_spec(),
            final(self).usable_spec() == old(self).usable_spec(),
            inserted(old(self).ram_spec(), final(self).ram_spec(), region, MAX_RAM_REGIONS, r),
    {
        let r = insert_sorted_merged(&mut self.ram, region);
        r
    }

    /// Adds a permanent reservation, merging it with every reservation it
    /// overlaps or adjoins.
    pub fn insert_reserved(&mut self, region: PhysRegion) -> (r: Result<(), MemoryMapError>)
        requires
            old(self).wf(),
        ensures
            final(self).wf(),
            final(self).ram_spec() == old(self).ram_spec(),
            final(self).mmio_spec() == old(self).mmio_spec(),
            final(self).usable_spec() == old(self).usable_spec(),
            inserted(
                old(self).reserved_spec(),
                final(self).reserved_spec(),
                region,
                MAX_NORMALIZED_RESERVED_REGIONS,
                r,
            ),
    {
        insert_sorted_merged(&mut self.permanent_reserved, region)
    }

    /// Adds an MMIO window; see [`MemoryMap::insert_reserved`].
    pub fn insert_mmio(&mut self, region: PhysRegion) -> (r: Result<(), MemoryMapError>)
        requires
            old(self).wf(),
        ensures
            final(self).wf(),
            final(self).ram_spec() == old(self).ram_spec(),
            final(self).reserved_spec() == old(self).reserved_spec(),
            final(self).usable_spec() == old(self).usable_spec(),
            inserted(old(self).mmio_spec(), final(self).mmio_spec(), region, MAX_MMIO_REGIONS, r),
    {
        insert_sorted_merged(&mut self.mmio, region)
    }

    /// Rejects RAM that overlaps MMIO, then rebuilds the usable RAM list.
    pub fn finalize(&mut self) -> (r: Result<(), MemoryMapError>)
        requires
            old(self).wf(),
        ensures
            final(self).wf(),
            final(self).ram_spec() == old(self).ram_spec(),
            final(self).reserved_spec() == old(self).reserved_spec(),
            final(self).mmio_spec() == old(self).mmio_spec(),
            has_conflict(old(self).ram_spec(), old(self).mmio_spec()) ==> exists|i: int, j: int|
                first_conflict(old(self).ram_spec(), old(self).mmio_spec(), i, j) && r == Err::<
                    (),
                    MemoryMapError,
                >(
                    MemoryMapError::RamMmioConflict {
                        ram: old(self).ram_spec()[i],
                        mmio: old(self).mmio_spec()[j],
                    },
                ),
            has_conflict(old(self).ram_spec(), old(self).mmio_spec()) ==> final(self).usable_spec()
                == old(self).usable_spec(),
            !has_conflict(old(self).ram_spec(), old(self).mmio_spec()) ==> {
                let u = usable_of(old(self).ram_spec(), old(self).reserved_spec());
                &&& (r is Ok <==> u.len() <= MAX_USABLE_RAM_REGIONS)
                &&& r is Ok ==> final(self).usable_spec() == u
                &&& r is Err ==> r == Err::<(), MemoryMapError>(
                    MemoryMapError::Capacity { capacity: MAX_USABLE_RAM_REGIONS },
                )
            },
            r is Ok ==> sorted_merged(final(self).usable_spec()) && forall|a: int|
                #[trigger] covers(final(self).usable_spec(), a) <==> covers(final(self).ram_spec(), a)
                    && !covers(final(self).reserved_spec(), a),
    {
        let ghost ram = self.ram@;
        let ghost mmio = self.mmio@;
        let mut i: usize = 0;
        while i < self.ram.len()
            invariant
                ram == self.ram@,
                mmio == self.mmio@,
                i <= ram.len(),
                self.wf(),
                ram == old(self).ram_spec(),
                mmio == old(self).mmio_spec(),
                self.reserved_spec() == old(self).reserved_spec(),
                self.usable_spec() == old(self).usable_spec(),
                forall|i2: int, j2: int|
                    0 <= i2 < i && 0 <= j2 < mmio.len() ==> !overlap(#[trigger] ram[i2], #[trigger] mmio[j2]),
            decreases ram.len() - i,
        {
            let ram_region = *self.ram.get(i).unwrap();
            let mut j: usize = 0;
            while j < self.mmio.len()
                invariant
                    ram == self.ram@,
                    mmio == self.mmio@,
                    i < ram.len(),
                    self.wf(),
                    ram == old(self).ram_spec(),
                    mmio == old(self).mmio_spec(),
                    self.reserved_spec() == old(self).reserved_spec(),
                    self.usable_spec() == old(self).usable_spec(),
                    ram_region == ram[i as int],
                    j <= mmio.len(),
                    forall|i2: int, j2: int|
                        0 <= i2 < i && 0 <= j2 < mmio.len() ==> !overlap(#[trigger] ram[i2], #[trigger] mmio[j2]),
                    forall|j2: int| 0 <= j2 < j ==> !overlap(ram[i as int], #[trigger] mmio[j2]),
                decreases mmio.len() - j,
            {
                let mmio_region = *self.mmio.get(j).unwrap();
                if ram_region.overlaps(mmio_region) {
                    proof {
                        assert(first_conflict(ram, mmio, i as int, j as int));
                    }
                    return Err(MemoryMapError::RamMmioConflict { ram: ram_region, mmio: mmio_region });
                }
                j += 1;
            }
            i += 1;
        }
        self.usable_ram.clear();
        let ghost res = self.permanent_reserved@;
        let mut k: usize = 0;
        while k < self.ram.len()
            invariant
                ram == self.ram@,
                mmio == self.mmio@,
                res == self.permanent_reserved@,
                k <= ram.len(),
                self.usable_ram@ == usable_of(ram.take(k as int), res),
                self.usable_ram@.len() <= MAX_USABLE_RAM_REGIONS,
                !has_conflict(ram, mmio),
                self.wf(),
                ram == old(self).ram_spec(),
                mmio == old(self).mmio_spec(),
                res == old(self).reserved_spec(),
            decreases ram.len() - k,
        {
            let ram_region = *self.ram.get(k).unwrap();
            proof {
                assert(ram.take(k + 1).drop_last() == ram.take(k as int));
                assert(ram.take(k + 1).last() == ram_region);
            }
            match subtract_all(ram_region, &self.permanent_reserved, &mut self.usable_ram) {
                Ok(()) => {},
                Err(e) => {
                    proof {
                        assert(ram.take(ram.len() as int) == ram);
                        lemma_usable_of_grows(ram, res, k + 1, ram.len() as int);
                    }
                    return Err(e);
                },
            }
            k += 1;
        }
        proof {
            assert(ram.take(ram.len() as int) == ram);
            lemma_usable_is_ram_minus_reserved(ram, res);
        }
        Ok(())
    }

    pub fn ram(&self) -> (r: &FixedList<PhysRegion, MAX_RAM_REGIONS>)
        ensures
            r@ == self.ram_spec(),
    {
        &self.ram
    }

    pub fn reserved(&self) -> (r: &FixedList<PhysRegion, MAX_NORMALIZED_RESERVED_REGIONS>)
        ensures
            r@ == self.reserved_spec(),
    {
        &self.permanent_reserved
    }

    pub fn mmio(&self) -> (r: &FixedList<PhysRegion, MAX_MMIO_REGIONS>)
        ensures
            r@ == self.mmio_spec(),
    {
        &self.mmio
    }

    pub fn usable_ram(&self) -> (r: &FixedList<PhysRegion, MAX_USABLE_RAM_REGIONS>)
        ensures
            r@ == self.usable_spec(),
    {
        &self.usable_ram
    }
}

/// `new` is `old` with `region` merged in, or, when the region touches no
/// entry and the list is full, `old` unchanged with a capacity error.
pub open spec fn inserted(
    old: Seq<PhysRegion>,
    new: Seq<PhysRegion>,
    region: PhysRegion,
    capacity: usize,
    r: Result<(), MemoryMapError>,
) -> bool {
    &&& sorted_merged(new)
    &&& new.len() <= capacity
    &&& r is Ok ==> forall|a: int| #[trigger] covers(new, a) <==> covers(old, a) || region.contains_spec(a)
    &&& r is Err <==> (forall|i: int| 0 <= i < old.len() ==> !touches(#[trigger] old[i], region)) && old.len() >= capacity
    &&& r is Err ==> r == Err::<(), MemoryMapError>(MemoryMapError::Capacity { capacity }) && new == old
}

impl MemoryMapError {
    /// What is wrong with the map, in words.
    pub open spec fn message(self) -> Seq<char> {
        match self {
            MemoryMapError::Capacity { capacity } => "normalized memory-map capacity is insufficient (capacity "@ + dec_text(capacity as nat) + ")"@,
            MemoryMapError::InvalidRegion(e) => "invalid normalized region: "@ + e.message(),
            MemoryMapError::RamMmioConflict { ram, mmio } => "RAM "@ + ram.display_text() + " overlaps MMIO "@ + mmio.display_text(),
        }
    }

    /// The error in words.
    pub fn to_string(&self) -> (r: String)
        ensures
            r@ == self.message(),
    {
        match self {
            MemoryMapError::Capacity { capacity } => {
                let mut text = String::from_str("normalized memory-map capacity is insufficient (capacity ");
                append_decimal(&mut text, *capacity as u64);
                text.append(")");
                text
            }
            MemoryMapError::InvalidRegion(e) => {
                let mut text = String::from_str("invalid normalized region: ");
                let inner = e.to_string();
                text.append(inner.as_str());
                text
            }
            MemoryMapError::RamMmioConflict { ram, mmio } => {
                let mut text = String::from_str("RAM ");
                let first = ram.to_string();
                text.append(first.as_str());
                text.append(" overlaps MMIO ");
                let second = mmio.to_string();
                text.append(second.as_str());
                text
            }
        }
    }
}

/// One line per region: `prefix`, the region's range, and a newline.
pub open spec fn region_lines(prefix: Seq<char>, regions: Seq<PhysRegion>) -> Seq<char>
    decreases regions.len(),
{
    if regions.len() == 0 {
        Seq::empty()
    } else {
        region_lines(prefix, regions.drop_last()) + prefix + regions.last().display_text() + "\n"@
    }
}

/// Appends one line per region of `regions`, each starting with `prefix`.
fn append_region_lines<const M: usize>(text: &mut String, prefix: &str, regions: &FixedList<PhysRegion, M>)
    ensures
        final(text)@ == old(text)@ + region_lines(prefix@, regions@),
{
    let ghost start = text@;
    let mut i: usize = 0;
    while i < regions.len()
        invariant
            i <= regions@.len(),
            text@ == start + region_lines(prefix@, regions@.subrange(0, i as int)),
        decreases regions@.len() - i,
    {
        text.append(prefix);
        let line = regions.at(i).to_string();
        text.append(line.as_str());
        text.append("\n");
        proof {
            let next = regions@.subrange(0, i + 1);
            assert(next.drop_last() =~= regions@.subrange(0, i as int));
            assert(text@ =~= start + region_lines(prefix@, next));
        }
        i += 1;
    }
    proof {
        assert(regions@.subrange(0, i as int) =~= regions@);
    }
}

impl MemoryMap {
    /// The map as text: a heading, then the RAM, the permanent reservations,
    /// the usable RAM and the MMIO windows, one region per line.
    pub open spec fn display_text(&self) -> Seq<char> {
        "Normalized memory map:\n"@ + region_lines("  RAM        "@, self.ram_spec())
            + region_lines("    RESERVED   "@, self.reserved_spec()) + region_lines(
            "    USABLE     "@,
            self.usable_spec(),
        ) + region_lines("  MMIO       "@, self.mmio_spec())
    }

    /// The map as text, as [`MemoryMap::display_text`] lays it out.
    pub fn to_string(&self) -> (r: String)
        ensures
            r@ == self.display_text(),
    {
        let mut text = String::from_str("Normalized memory map:\n");
        append_region_lines(&mut text, "  RAM        ", &self.ram);
        append_region_lines(&mut text, "    RESERVED   ", &self.permanent_reserved);
        append_region_lines(&mut text, "    USABLE     ", &self.usable_ram);
        append_region_lines(&mut text, "  MMIO       ", &self.mmio);
        proof {
            assert(text@ =~= self.display_text());
        }
        text
    }
}

} // verus!
