//! What is shown about a run: sizes in a readable form, and the count of
//! how often each candidate won.

use vstd::prelude::*;
use crate::text::{decimal, digit, from_chars, push_decimal, push_str, same_text};

verus! {

/// The distance between neighbouring floating-point numbers of double
/// precision at `num`, which have 53 significant bits.
pub open spec fn spacing(num: nat) -> nat
    decreases num,
{
    if num < 0x20_0000_0000_0000 {
        1
    } else {
        2 * spacing(num / 2)
    }
}

/// `value` divided by `unit` and rounded to the nearest whole number, and
/// to the even one of two that are equally near.
pub open spec fn rounded_quotient(value: nat, unit: nat) -> nat
    recommends
        unit > 0,
{
    let q = value / unit;
    let r = value % unit;
    if 2 * r > unit || (2 * r == unit && q % 2 == 1) {
        q + 1
    } else {
        q
    }
}

/// The floating-point number of double precision that is nearest to `num`.
pub open spec fn nearest_double(num: nat) -> nat {
    rounded_quotient(num, spacing(num)) * spacing(num)
}

/// How many times a size is divided by 1024 before it is shown: until it
/// is below 1024, and four times at most.
pub open spec fn unit_index(value: nat) -> nat {
    if value < 0x400 {
        0
    } else if value < 0x10_0000 {
        1
    } else if value < 0x4000_0000 {
        2
    } else if value < 0x100_0000_0000 {
        3
    } else {
        4
    }
}

/// What a size is divided by before it is shown.
pub open spec fn unit_divisor(index: nat) -> nat {
    if index == 0 {
        1
    } else if index == 1 {
        0x400
    } else if index == 2 {
        0x10_0000
    } else if index == 3 {
        0x4000_0000
    } else {
        0x100_0000_0000
    }
}

/// The name of the unit.
pub open spec fn unit_name(index: nat) -> Seq<char> {
    if index == 0 {
        "iB"@
    } else if index == 1 {
        "KiB"@
    } else if index == 2 {
        "MiB"@
    } else if index == 3 {
        "GiB"@
    } else {
        "TiB"@
    }
}

/// A size in bytes in readable form: the size as a floating-point number,
/// divided by 1024 until it is below 1024 but four times at most, with one
/// digit after the point, and the unit.
pub open spec fn byte2size_text(num: u64) -> Seq<char> {
    let value = nearest_double(num as nat);
    let index = unit_index(value);
    let tenths = rounded_quotient(value * 10, unit_divisor(index));
    decimal(tenths / 10) + seq!['.', digit(tenths % 10)] + unit_name(index)
}

proof fn lemma_spacing_step(top: nat)
    requires
        top >= 0x20_0000_0000_0000,
    ensures
        spacing(top) == 2 * spacing(top / 2),
{
}

fn rounded(value: u128, unit: u128) -> (r: u128)
    requires
        unit > 0,
        value <= 0xFFFF_FFFF_FFFF_FFFF_FFFF,
        unit <= 0xFFFF_FFFF_FFFF_FFFF_FFFF,
    ensures
        r == rounded_quotient(value as nat, unit as nat),
{
    let q = value / unit;
    let r = value % unit;
    if 2 * r > unit || (2 * r == unit && q % 2 == 1) {
        q + 1
    } else {
        q
    }
}

/// The floating-point number of double precision nearest to `num`.
fn to_double(num: u64) -> (r: u128)
    ensures
        r == nearest_double(num as nat),
        r <= num + 0x1000,
{
    let mut top: u64 = num;
    let mut unit: u64 = 1;
    while top >= 0x20_0000_0000_0000
        invariant
            unit >= 1,
            top as nat == num as nat / unit as nat,
            unit as nat * spacing(top as nat) == spacing(num as nat),
            unit as nat * top as nat <= num,
            unit <= 0x1000,
        decreases top,
    {
        proof {
            lemma_spacing_step(top as nat);
            vstd::arithmetic::div_mod::lemma_div_denominator(num as int, unit as int, 2);
            assert(unit as nat * (2 * spacing(top as nat / 2)) == (unit as nat * 2) * spacing(
                top as nat / 2,
            )) by (nonlinear_arith);
            assert((unit as nat * 2) * (top as nat / 2) <= unit as nat * top as nat)
                by (nonlinear_arith);
            // The bits above the fifty-third are eleven at most.
            assert(unit < 0x800) by (nonlinear_arith)
                requires
                    top >= 0x20_0000_0000_0000,
                    unit as nat * top as nat <= num,
                    num <= 0xFFFF_FFFF_FFFF_FFFF,
            ;
        }
        top = top / 2;
        unit = unit * 2;
    }
    assert(spacing(top as nat) == 1);
    assert(unit as nat == spacing(num as nat)) by (nonlinear_arith)
        requires
            unit as nat * 1 == spacing(num as nat),
    ;
    let m = rounded(num as u128, unit as u128);
    assert(m <= top + 1);
    assert(m * unit <= num + unit) by (nonlinear_arith)
        requires
            m <= top + 1,
            unit as nat * top as nat <= num,
            unit >= 1,
    ;
    m * unit as u128
}

/// A size in bytes in readable form, such as `1.5KiB`.
pub fn byte2size(num: u64) -> (s: String)
    ensures
        s@ == byte2size_text(num),
{
    let value = to_double(num);
    let (divisor, name): (u128, &str) = if value < 0x400 {
        (1, "iB")
    } else if value < 0x10_0000 {
        (0x400, "KiB")
    } else if value < 0x4000_0000 {
        (0x10_0000, "MiB")
    } else if value < 0x100_0000_0000 {
        (0x4000_0000, "GiB")
    } else {
        (0x100_0000_0000, "TiB")
    };
    let tenths = rounded(value * 10, divisor);
    let mut out: Vec<char> = Vec::new();
    push_decimal(&mut out, tenths / 10);
    out.push('.');
    push_decimal(&mut out, tenths % 10);
    push_str(&mut out, name);
    assert(decimal((tenths % 10) as nat) == seq![digit((tenths % 10) as nat)]);
    assert(out@ == byte2size_text(num));
    from_chars(&out)
}

/// How often each candidate won, by what it is counted as.
#[derive(Debug)]
pub struct BatchStats {
    counts: Vec<(String, u64)>,
}

/// How often `name` is counted in the first `n` entries.
pub open spec fn counted(counts: Seq<(String, u64)>, name: Seq<char>, n: int) -> nat
    decreases n,
{
    if n <= 0 {
        0
    } else {
        counted(counts, name, n - 1) + if counts[n - 1].0@ == name {
            counts[n - 1].1 as nat
        } else {
            0nat
        }
    }
}

/// One more than `n`, up to the largest number that a count can hold.
pub open spec fn one_more(n: nat) -> nat {
    if n < u64::MAX {
        n + 1
    } else {
        n
    }
}

/// No name stands twice.
pub open spec fn distinct_names(counts: Seq<(String, u64)>) -> bool {
    forall|i: int, j: int|
        0 <= i < j < counts.len() ==> (#[trigger] counts[i]).0@ != (#[trigger] counts[j]).0@
}

impl BatchStats {
    #[verifier::type_invariant]
    spec fn no_winner_twice(self) -> bool {
        distinct_names(self.counts@)
    }

    /// How often `name` has won.
    pub closed spec fn wins(self, name: Seq<char>) -> nat {
        counted(self.counts@, name, self.counts.len() as int)
    }

    /// The statistics of a run in which nothing has won yet.
    pub fn new() -> (s: BatchStats)
        ensures
            forall|name: Seq<char>| s.wins(name) == 0,
    {
        BatchStats { counts: Vec::new() }
    }

    /// Counts one more win for `name` and leaves all other counts as they
    /// are. A count that cannot grow any more stays as it is.
    pub fn record_win(&mut self, name: &str)
        ensures
            final(self).wins(name@) == one_more(old(self).wins(name@)),
            forall|other: Seq<char>| other != name@ ==> final(self).wins(other) == old(self).wins(
                other,
            ),
    {
        proof {
            use_type_invariant(&*self);
        }
        let n = self.counts.len();
        let ghost before = self.counts@;
        let mut next: Vec<(String, u64)> = Vec::new();
        let mut found = false;
        let ghost mut at: int = -1;
        let mut i: usize = 0;
        while i < n
            invariant
                i <= n,
                n == self.counts.len(),
                before == self.counts@,
                *self == *old(self),
                distinct_names(before),
                next.len() == i,
                forall|k: int| 0 <= k < i ==> (#[trigger] before[k]).0@ == next[k].0@,
                forall|k: int|
                    0 <= k < i && before[k].0@ != name@ ==> (#[trigger] before[k]).1 == next[k].1,
                found ==> 0 <= at < i && before[at].0@ == name@ && next[at].1 == one_more(
                    before[at].1 as nat,
                ),
                !found ==> forall|k: int| 0 <= k < i ==> (#[trigger] before[k]).0@ != name@,
            decreases n - i,
        {
            let count = self.counts[i].1;
            if same_text(self.counts[i].0.as_str(), name) {
                let more = if count < u64::MAX {
                    count + 1
                } else {
                    count
                };
                next.push((self.counts[i].0.clone(), more));
                proof {
                    at = i as int;
                }
                found = true;
            } else {
                next.push((self.counts[i].0.clone(), count));
            }
            i += 1;
        }
        if !found {
            next.push((name.to_owned(), 1));
        }
        proof {
            let after = next@;
            assert(distinct_names(after)) by {
                assert forall|a: int, b: int| 0 <= a < b < after.len() implies (
                #[trigger] after[a]).0@ != (#[trigger] after[b]).0@ by {
                    if b < n {
                        assert(before[a].0@ != before[b].0@);
                    } else {
                        assert(before[a].0@ != name@);
                    }
                }
            }
            assert forall|other: Seq<char>| other != name@ implies counted(
                after,
                other,
                after.len() as int,
            ) == counted(before, other, n as int) by {
                lemma_counted_same(before, after, other, n as int);
            }
            if found {
                assert forall|k: int| 0 <= k < n && k != at implies (#[trigger] before[k]).0@
                    != name@ by {
                    if k < at {
                        assert(before[k].0@ != before[at].0@);
                    } else {
                        assert(before[at].0@ != before[k].0@);
                    }
                }
                assert forall|k: int| 0 <= k < n && k != at implies (#[trigger] after[k]).0@
                    != name@ by {
                    assert(before[k].0@ != name@);
                }
                lemma_counted_unique(before, name@, at, n as int);
                lemma_counted_unique(after, name@, at, n as int);
            } else {
                lemma_counted_absent(before, name@, n as int);
                assert forall|k: int| 0 <= k < n implies (#[trigger] after[k]).0@ != name@ by {
                    assert(before[k].0@ != name@);
                }
                lemma_counted_absent(after, name@, n as int);
            }
        }
        self.counts = next;
    }

    /// How often `name` has won.
    pub fn get(&self, name: &str) -> (r: u64)
        ensures
            r == self.wins(name@),
    {
        proof {
            use_type_invariant(self);
        }
        let n = self.counts.len();
        let mut i: usize = 0;
        while i < n
            invariant
                i <= n,
                n == self.counts.len(),
                distinct_names(self.counts@),
                forall|k: int| 0 <= k < i ==> (#[trigger] self.counts[k]).0@ != name@,
            decreases n - i,
        {
            if same_text(self.counts[i].0.as_str(), name) {
                proof {
                    lemma_counted_unique(self.counts@, name@, i as int, n as int);
                }
                return self.counts[i].1;
            }
            i += 1;
        }
        proof {
            lemma_counted_absent(self.counts@, name@, n as int);
        }
        0
    }

    /// Everything that has won, each with its count: no winner stands
    /// twice, and what is not listed has not won.
    pub fn entries(&self) -> (r: Vec<(String, u64)>)
        ensures
            distinct_names(r@),
            forall|i: int| 0 <= i < r.len() ==> (#[trigger] r[i]).1 == self.wins(r[i].0@),
            forall|name: Seq<char>|
                self.wins(name) > 0 ==> exists|i: int| 0 <= i < r.len() && (#[trigger] r[i]).0@
                    == name,
    {
        proof {
            use_type_invariant(self);
        }
        let n = self.counts.len();
        let mut r: Vec<(String, u64)> = Vec::new();
        let mut i: usize = 0;
        while i < n
            invariant
                i <= n,
                n == self.counts.len(),
                r.len() == i,
                forall|k: int|
                    0 <= k < i ==> (#[trigger] r[k]).0@ == self.counts[k].0@ && r[k].1
                        == self.counts[k].1,
            decreases n - i,
        {
            r.push((self.counts[i].0.clone(), self.counts[i].1));
            i += 1;
        }
        proof {
            assert forall|a: int, b: int| 0 <= a < b < r.len() implies (#[trigger] r[a]).0@ != (
            #[trigger] r[b]).0@ by {
                assert(self.counts[a].0@ != self.counts[b].0@);
            }
            assert forall|k: int| 0 <= k < r.len() implies (#[trigger] r[k]).1 == self.wins(
                r[k].0@,
            ) by {
                assert forall|j: int| 0 <= j < n && j != k implies (
                #[trigger] self.counts[j]).0@ != self.counts[k].0@ by {
                    if j < k {
                        assert(self.counts[j].0@ != self.counts[k].0@);
                    } else {
                        assert(self.counts[k].0@ != self.counts[j].0@);
                    }
                }
                lemma_counted_unique(self.counts@, r[k].0@, k, n as int);
            }
            assert forall|name: Seq<char>| self.wins(name) > 0 implies exists|i: int|
                0 <= i < r.len() && (#[trigger] r[i]).0@ == name by {
                if forall|k: int| 0 <= k < n ==> (#[trigger] self.counts[k]).0@ != name {
                    lemma_counted_absent(self.counts@, name, n as int);
                } else {
                    let k = choose|k: int| 0 <= k < n && (#[trigger] self.counts[k]).0@ == name;
                    assert(r[k].0@ == name);
                }
            }
        }
        r
    }
}

/// Entries with the same names, which agree on the count wherever `name`
/// stands, count `name` alike.
proof fn lemma_counted_same(a: Seq<(String, u64)>, b: Seq<(String, u64)>, name: Seq<char>, n: int)
    requires
        0 <= n <= a.len(),
        n <= b.len(),
        forall|k: int| 0 <= k < n ==> (#[trigger] a[k]).0@ == b[k].0@,
        forall|k: int| 0 <= k < n && a[k].0@ == name ==> (#[trigger] a[k]).1 == b[k].1,
    ensures
        counted(a, name, n) == counted(b, name, n),
    decreases n,
{
    if n > 0 {
        lemma_counted_same(a, b, name, n - 1);
        assert(a[n - 1].0@ == b[n - 1].0@);
        if a[n - 1].0@ == name {
            assert(a[n - 1].1 == b[n - 1].1);
        }
    }
}

/// A name that stands nowhere is not counted.
proof fn lemma_counted_absent(a: Seq<(String, u64)>, name: Seq<char>, n: int)
    requires
        0 <= n <= a.len(),
        forall|k: int| 0 <= k < n ==> (#[trigger] a[k]).0@ != name,
    ensures
        counted(a, name, n) == 0,
    decreases n,
{
    if n > 0 {
        lemma_counted_absent(a, name, n - 1);
    }
}

/// A name that stands once is counted as its entry says.
proof fn lemma_counted_unique(a: Seq<(String, u64)>, name: Seq<char>, i: int, n: int)
    requires
        0 <= i < n <= a.len(),
        a[i].0@ == name,
        forall|k: int| 0 <= k < n && k != i ==> (#[trigger] a[k]).0@ != name,
    ensures
        counted(a, name, n) == a[i].1,
    decreases n,
{
    if n - 1 == i {
        lemma_counted_absent(a, name, n - 1);
    } else {
        lemma_counted_unique(a, name, i, n - 1);
    }
}

} // verus!
