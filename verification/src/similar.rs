//! Grouping images whose perceptual hashes are near each other.
//!
//! The images are taken in order. Each joins the first group that holds an
//! image near it, and founds a group of its own where there is none.

use vstd::prelude::*;

verus! {

/// The largest hash, in bytes, whose distances are counted.
pub const MAX_HASH_BYTES: usize = 0x0FFF_FFFF;

/// The number of bits that are set in `b`.
pub open spec fn ones(b: u8) -> nat {
    ((b & 1) + ((b >> 1) & 1) + ((b >> 2) & 1) + ((b >> 3) & 1) + ((b >> 4) & 1) + ((b >> 5) & 1)
        + ((b >> 6) & 1) + ((b >> 7) & 1)) as nat
}

/// The number of bits in which the first `n` bytes of `a` and `b` differ.
pub open spec fn differing_bits(a: Seq<u8>, b: Seq<u8>, n: int) -> nat
    decreases n,
{
    if n <= 0 {
        0
    } else {
        differing_bits(a, b, n - 1) + ones(a[n - 1] ^ b[n - 1])
    }
}

/// The Hamming distance of two hashes: the number of bits in which they
/// differ, as far as both reach.
pub open spec fn distance(a: Seq<u8>, b: Seq<u8>) -> nat {
    differing_bits(
        a,
        b,
        if a.len() <= b.len() {
            a.len() as int
        } else {
            b.len() as int
        },
    )
}

/// `image_hasher::ImageHash::dist` on the hashes made of these bytes by
/// `ImageHash::from_bytes`: their Hamming distance, which counts the bits
/// set in the exclusive or of the bytes that both hashes have.
#[verifier::external_body]
fn hash_distance(a: &Vec<u8>, b: &Vec<u8>) -> (d: u32)
    requires
        a.len() <= MAX_HASH_BYTES,
        b.len() <= MAX_HASH_BYTES,
    ensures
        d == distance(a@, b@),
{
    let x: image_hasher::ImageHash<Vec<u8>> = image_hasher::ImageHash::from_bytes(a).unwrap();
    let y: image_hasher::ImageHash<Vec<u8>> = image_hasher::ImageHash::from_bytes(b).unwrap();
    x.dist(&y)
}

/// The hashes as sequences of bytes.
pub open spec fn hash_views(hashes: Seq<Vec<u8>>) -> Seq<Seq<u8>> {
    Seq::new(hashes.len(), |i: int| hashes[i]@)
}

/// The groups as sequences of indices.
pub open spec fn group_views(groups: Seq<Vec<usize>>) -> Seq<Seq<usize>> {
    Seq::new(groups.len(), |i: int| groups[i]@)
}

/// Whether image `p` is near one of the first `n` members of `group`.
pub open spec fn near_one_of(
    hashes: Seq<Seq<u8>>,
    group: Seq<usize>,
    p: int,
    max_diff: u32,
    n: int,
) -> bool {
    exists|m: int| 0 <= m < n && distance(hashes[p], hashes[(#[trigger] group[m]) as int]) <= max_diff
}

/// Whether image `p` fits into `group`: it is near one of its members.
pub open spec fn fits(hashes: Seq<Seq<u8>>, group: Seq<usize>, p: int, max_diff: u32) -> bool {
    near_one_of(hashes, group, p, max_diff, group.len() as int)
}

/// The index of the first group from `from` on that image `p` fits into,
/// or the number of groups where there is none.
pub open spec fn first_fit(
    hashes: Seq<Seq<u8>>,
    groups: Seq<Seq<usize>>,
    p: int,
    max_diff: u32,
    from: int,
) -> int
    decreases groups.len() - from,
{
    if from < 0 || from >= groups.len() {
        groups.len() as int
    } else if fits(hashes, groups[from], p, max_diff) {
        from
    } else {
        first_fit(hashes, groups, p, max_diff, from + 1)
    }
}

/// The groups of the first `n` images: each image joins the first group
/// that it fits into, and founds a new one where it fits into none.
pub open spec fn grouped(hashes: Seq<Seq<u8>>, max_diff: u32, n: int) -> Seq<Seq<usize>>
    decreases n,
{
    if n <= 0 {
        Seq::empty()
    } else {
        let before = grouped(hashes, max_diff, n - 1);
        let g = first_fit(hashes, before, n - 1, max_diff, 0);
        if g < before.len() {
            before.update(g, before[g].push((n - 1) as usize))
        } else {
            before.push(seq![(n - 1) as usize])
        }
    }
}

/// Every group of the first `n` images has a member, and every member is
/// one of the first `n` images.
pub proof fn lemma_grouped_members(hashes: Seq<Seq<u8>>, max_diff: u32, n: int)
    requires
        0 <= n <= usize::MAX,
    ensures
        forall|g: int|
            0 <= g < grouped(hashes, max_diff, n).len() ==> (#[trigger] grouped(
                hashes,
                max_diff,
                n,
            )[g]).len() > 0,
        forall|g: int, m: int|
            0 <= g < grouped(hashes, max_diff, n).len() && 0 <= m < grouped(
                hashes,
                max_diff,
                n,
            )[g].len() ==> (#[trigger] grouped(hashes, max_diff, n)[g][m]) < n,
    decreases n,
{
    if n > 0 {
        lemma_grouped_members(hashes, max_diff, n - 1);
        let before = grouped(hashes, max_diff, n - 1);
        let after = grouped(hashes, max_diff, n);
        let fit = first_fit(hashes, before, n - 1, max_diff, 0);
        lemma_first_fit_range(hashes, before, n - 1, max_diff, 0);
        assert forall|g: int, m: int| 0 <= g < after.len() && 0 <= m < after[g].len() implies (
        #[trigger] after[g][m]) < n by {
            if fit < before.len() {
                if g == fit {
                    if m < before[g].len() {
                        assert(after[g][m] == before[g][m]);
                    }
                } else {
                    assert(after[g][m] == before[g][m]);
                }
            } else {
                if g < before.len() {
                    assert(after[g][m] == before[g][m]);
                }
            }
        }
        assert forall|g: int| 0 <= g < after.len() implies (#[trigger] after[g]).len() > 0 by {
            if fit < before.len() {
                if g != fit {
                    assert(after[g] == before[g]);
                }
            } else {
                if g < before.len() {
                    assert(after[g] == before[g]);
                }
            }
        }
    }
}

/// Every one of the first `n` images is in a group.
pub proof fn lemma_grouped_covers(hashes: Seq<Seq<u8>>, max_diff: u32, n: int, i: int)
    requires
        0 <= i < n <= usize::MAX,
    ensures
        exists|g: int, m: int|
            0 <= g < grouped(hashes, max_diff, n).len() && 0 <= m < grouped(
                hashes,
                max_diff,
                n,
            )[g].len() && (#[trigger] grouped(hashes, max_diff, n)[g][m]) == i,
    decreases n,
{
    let before = grouped(hashes, max_diff, n - 1);
    let after = grouped(hashes, max_diff, n);
    let fit = first_fit(hashes, before, n - 1, max_diff, 0);
    lemma_first_fit_range(hashes, before, n - 1, max_diff, 0);
    if i == n - 1 {
        if fit < before.len() {
            assert(after[fit][before[fit].len() as int] == i);
        } else {
            assert(after[before.len() as int][0] == i);
        }
    } else {
        lemma_grouped_covers(hashes, max_diff, n - 1, i);
        let (g, m) = choose|g: int, m: int|
            0 <= g < before.len() && 0 <= m < before[g].len() && (#[trigger] before[g][m]) == i;
        assert(after[g][m] == i);
    }
}

/// The first fit is a group from `from` on, or the number of groups.
pub proof fn lemma_first_fit_range(
    hashes: Seq<Seq<u8>>,
    groups: Seq<Seq<usize>>,
    p: int,
    max_diff: u32,
    from: int,
)
    requires
        0 <= from <= groups.len(),
    ensures
        from <= first_fit(hashes, groups, p, max_diff, from) <= groups.len(),
    decreases groups.len() - from,
{
    if from < groups.len() && !fits(hashes, groups[from], p, max_diff) {
        lemma_first_fit_range(hashes, groups, p, max_diff, from + 1);
    }
}

/// Whether the image `p` is near a member of `group`.
fn fits_into(hashes: &Vec<Vec<u8>>, group: &Vec<usize>, p: usize, max_diff: u32) -> (r: bool)
    requires
        p < hashes.len(),
        forall|i: int| 0 <= i < hashes.len() ==> (#[trigger] hashes[i]).len() <= MAX_HASH_BYTES,
        forall|m: int| 0 <= m < group.len() ==> (#[trigger] group[m]) < hashes.len(),
    ensures
        r == fits(hash_views(hashes@), group@, p as int, max_diff),
{
    let mut m: usize = 0;
    while m < group.len()
        invariant
            m <= group.len(),
            p < hashes.len(),
            forall|i: int| 0 <= i < hashes.len() ==> (#[trigger] hashes[i]).len() <= MAX_HASH_BYTES,
            forall|k: int| 0 <= k < group.len() ==> (#[trigger] group[k]) < hashes.len(),
            !near_one_of(hash_views(hashes@), group@, p as int, max_diff, m as int),
        decreases group.len() - m,
    {
        let other = group[m];
        if hash_distance(&hashes[p], &hashes[other]) <= max_diff {
            assert(distance(
                hash_views(hashes@)[p as int],
                hash_views(hashes@)[group@[m as int] as int],
            ) <= max_diff);
            return true;
        }
        m += 1;
    }
    false
}

fn with_member(group: &Vec<usize>, p: usize) -> (r: Vec<usize>)
    ensures
        r@ == group@.push(p),
{
    let mut r: Vec<usize> = Vec::new();
    let mut i: usize = 0;
    while i < group.len()
        invariant
            i <= group.len(),
            r@ == group@.take(i as int),
        decreases group.len() - i,
    {
        r.push(group[i]);
        i += 1;
    }
    assert(group@.take(group.len() as int) == group@);
    r.push(p);
    r
}

/// Groups the images with the hashes `hashes`: images whose hashes differ
/// in `max_diff` bits at most count as near each other. Each group holds
/// the indices of its images in their order.
pub fn group_similar(hashes: &Vec<Vec<u8>>, max_diff: u32) -> (groups: Vec<Vec<usize>>)
    requires
        forall|i: int| 0 <= i < hashes.len() ==> (#[trigger] hashes[i]).len() <= MAX_HASH_BYTES,
    ensures
        group_views(groups@) == grouped(hash_views(hashes@), max_diff, hashes.len() as int),
{
    let ghost hs = hash_views(hashes@);
    let mut groups: Vec<Vec<usize>> = Vec::new();
    let mut p: usize = 0;
    assert(group_views(groups@) == grouped(hs, max_diff, 0));
    while p < hashes.len()
        invariant
            p <= hashes.len(),
            hs == hash_views(hashes@),
            forall|i: int| 0 <= i < hashes.len() ==> (#[trigger] hashes[i]).len() <= MAX_HASH_BYTES,
            group_views(groups@) == grouped(hs, max_diff, p as int),
        decreases hashes.len() - p,
    {
        let ghost before = group_views(groups@);
        proof {
            lemma_grouped_members(hs, max_diff, p as int);
        }
        let mut g: usize = 0;
        let mut found = false;
        while g < groups.len() && !found
            invariant
                g <= groups.len(),
                p < hashes.len(),
                hs == hash_views(hashes@),
                before == group_views(groups@),
                forall|i: int|
                    0 <= i < hashes.len() ==> (#[trigger] hashes[i]).len() <= MAX_HASH_BYTES,
                forall|a: int, b: int|
                    0 <= a < before.len() && 0 <= b < before[a].len() ==> (
                    #[trigger] before[a][b]) < p,
                first_fit(hs, before, p as int, max_diff, 0) == first_fit(
                    hs,
                    before,
                    p as int,
                    max_diff,
                    g as int,
                ),
                found ==> g < groups.len() && fits(hs, before[g as int], p as int, max_diff),
            decreases groups.len() - g + if found { 0int } else { 1int },
        {
            assert forall|m: int| 0 <= m < groups[g as int].len() implies (
            #[trigger] groups[g as int][m]) < hashes.len() by {
                assert(before[g as int][m] < p);
            }
            if fits_into(hashes, &groups[g], p, max_diff) {
                found = true;
            } else {
                g += 1;
            }
        }
        if found {
            let joined = with_member(&groups[g], p);
            groups.set(g, joined);
            assert(group_views(groups@) == before.update(g as int, before[g as int].push(p)));
        } else {
            let mut own: Vec<usize> = Vec::new();
            own.push(p);
            groups.push(own);
            assert(group_views(groups@) == before.push(seq![p]));
        }
        p += 1;
    }
    groups
}

} // verus!
