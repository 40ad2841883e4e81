//! Placement of GPU objects in the address space of the graphics channel.
use vstd::prelude::*;



verus! {

pub const PAGE: u64 = 4096;

/// End of the address space: eight page-table entries of 64 MiB each.
pub const VA_LIMIT: u64 = 0x2000_0000;

/// First address of a public object. The private proof surface below it stays
/// mapped for as long as the graphics context lives.
pub const FIRST_VA: u64 = 0x50_2000;

/// Largest object in bytes.
pub const OBJECT_LIMIT: u64 = 0x100_0000;

pub open spec fn round_up(n: int, alignment: int) -> int {
    ((n + alignment - 1) / alignment) * alignment
}

pub proof fn lemma_round_up(n: int, alignment: int)
    requires
        0 <= n,
        0 < alignment,
    ensures
        n <= round_up(n, alignment) < n + alignment,
        round_up(n, alignment) % alignment == 0,
        forall|c: int| n <= c && #[trigger] (c % alignment) == 0 ==> round_up(n, alignment) <= c,
{
    let q = (n + alignment - 1) / alignment;
    assert(q * alignment <= n + alignment - 1 < q * alignment + alignment) by (nonlinear_arith)
        requires
            q == (n + alignment - 1) / alignment,
            alignment > 0,
    ;
    assert((q * alignment) % alignment == 0) by {
        vstd::arithmetic::div_mod::lemma_mod_multiples_basic(q, alignment);
    }
    assert forall|c: int| n <= c && #[trigger] (c % alignment) == 0 implies q * alignment <= c by {
        let m = c / alignment;
        assert(c == m * alignment) by (nonlinear_arith)
            requires
                m == c / alignment,
                c % alignment == 0,
                alignment > 0,
        ;
        if m < q {
            assert(m * alignment + alignment <= q * alignment) by (nonlinear_arith)
                requires
                    m + 1 <= q,
                    alignment > 0,
            ;
        } else {
            assert(q * alignment <= m * alignment) by (nonlinear_arith)
                requires
                    q <= m,
                    alignment > 0,
            ;
        }
    }
}

fn align_up(n: u64, alignment: u64) -> (r: u64)
    requires
        alignment == 4096 || alignment == 8192,
        n < 0x1_0000_0000,
    ensures
        r == round_up(n as int, alignment as int),
        n <= r < n + alignment,
{
    proof {
        lemma_round_up(n as int, alignment as int);
    }
    ((n + (alignment - 1)) / alignment) * alignment
}

/// One mapping that the channel still owns.
#[derive(Clone, Copy, Debug, PartialEq, Eq, Structural)]
pub struct Mapping {
    pub va: u64,
    pub size: u64,
}

impl Mapping {
    pub open spec fn wf(self) -> bool {
        &&& self.va % 4096 == 0
        &&& FIRST_VA <= self.va
        &&& 0 < self.size <= OBJECT_LIMIT
        &&& self.page_end() <= VA_LIMIT
    }

    /// End of the last page of the mapping.
    pub open spec fn page_end(self) -> int {
        self.va + round_up(self.size as int, 4096)
    }

    /// Shares no byte with `va..va + length`.
    pub open spec fn clear_of(self, va: int, length: int) -> bool {
        va + length <= self.va || self.va + self.size <= va
    }
}

/// The mappings are valid, in order of address, and their pages do not overlap.
pub open spec fn mappings_wf(retained: Seq<Mapping>) -> bool {
    &&& forall|i: int| 0 <= i < retained.len() ==> (#[trigger] retained[i]).wf()
    &&& forall|i: int, j: int|
        0 <= i < j < retained.len() ==> (#[trigger] retained[i]).page_end() <= (
        #[trigger] retained[j]).va
}

/// The address at which a search that stands at `va` places `length` bytes among
/// the mappings from `k` on.
pub open spec fn first_fit(retained: Seq<Mapping>, k: int, va: int, length: int, alignment: int) -> int
    decreases retained.len() - k,
{
    let here = round_up(va, alignment);
    if k < 0 || k >= retained.len() || here + length <= retained[k].va {
        here
    } else {
        let end = retained[k].va + retained[k].size;
        first_fit(
            retained,
            k + 1,
            if here >= end {
                here
            } else {
                end
            },
            length,
            alignment,
        )
    }
}

/// Every multiple of the alignment from `from` up to `to` would overlap one of
/// the mappings.
pub open spec fn all_taken(retained: Seq<Mapping>, from: int, to: int, length: int, alignment: int) -> bool {
    forall|c: int|
        from <= c < to && #[trigger] (c % alignment) == 0 ==> exists|i: int|
            0 <= i < retained.len() && !(#[trigger] retained[i]).clear_of(c, length)
}

proof fn lemma_first_fit(retained: Seq<Mapping>, k: int, va: int, length: int, alignment: int)
    requires
        mappings_wf(retained),
        0 <= k <= retained.len(),
        0 <= va <= VA_LIMIT + 8192,
        0 <= length,
        alignment == 4096 || alignment == 8192,
        forall|i: int| 0 <= i < k ==> (#[trigger] retained[i]).va + retained[i].size <= va,
    ensures
        va <= first_fit(retained, k, va, length, alignment) <= VA_LIMIT + 2 * 8192,
        first_fit(retained, k, va, length, alignment) % alignment == 0,
        forall|i: int|
            0 <= i < retained.len() ==> (#[trigger] retained[i]).clear_of(
                first_fit(retained, k, va, length, alignment),
                length,
            ),
        all_taken(retained, va, first_fit(retained, k, va, length, alignment), length, alignment),
    decreases retained.len() - k,
{
    let here = round_up(va, alignment);
    lemma_round_up(va, alignment);
    let at = first_fit(retained, k, va, length, alignment);
    if k >= retained.len() {
    } else if here + length <= retained[k].va {
        assert forall|i: int| 0 <= i < retained.len() implies (#[trigger] retained[i]).clear_of(
            at,
            length,
        ) by {
            if i > k {
                assert(retained[k].page_end() <= retained[i].va);
                lemma_round_up(retained[k].size as int, 4096);
            }
        }
    } else {
        let end = retained[k].va + retained[k].size;
        assert(retained[k].wf());
        lemma_round_up(retained[k].size as int, 4096);
        assert(end <= VA_LIMIT);
        let next = if here >= end {
            here
        } else {
            end
        };
        assert(next <= VA_LIMIT + 8192) by {
            if here >= end {
                lemma_here_bound(va, alignment);
            }
        }
        lemma_first_fit(retained, k + 1, next, length, alignment);
        assert forall|c: int| va <= c < at && #[trigger] (c % alignment) == 0 implies exists|i: int|
            0 <= i < retained.len() && !(#[trigger] retained[i]).clear_of(c, length) by {
            if c < next {
                assert(here <= c);
                assert(!retained[k].clear_of(c, length));
            }
        }
    }
}

proof fn lemma_here_bound(va: int, alignment: int)
    requires
        0 <= va <= VA_LIMIT + 8192,
        alignment == 4096 || alignment == 8192,
    ensures
        round_up(va, alignment) <= VA_LIMIT + 8192,
{
    lemma_round_up(va, alignment);
    assert((VA_LIMIT + 8192) % alignment == 0);
}

pub fn find_fit(retained: &Vec<Mapping>, length: u64, alignment: u64) -> (va: u64)
    requires
        mappings_wf(retained@),
        length <= OBJECT_LIMIT,
        alignment == 4096 || alignment == 8192,
    ensures
        va == first_fit(retained@, 0, FIRST_VA as int, length as int, alignment as int),
        va <= VA_LIMIT + 2 * 8192,
{
    proof {
        lemma_first_fit(retained@, 0, FIRST_VA as int, length as int, alignment as int);
    }
    let mut va: u64 = FIRST_VA;
    let mut k: usize = 0;
    while k < retained.len()
        invariant
            k <= retained@.len(),
            mappings_wf(retained@),
            length <= OBJECT_LIMIT,
            alignment == 4096 || alignment == 8192,
            va <= VA_LIMIT + 8192,
            first_fit(retained@, 0, FIRST_VA as int, length as int, alignment as int) == first_fit(
                retained@,
                k as int,
                va as int,
                length as int,
                alignment as int,
            ),
            first_fit(retained@, 0, FIRST_VA as int, length as int, alignment as int) <= VA_LIMIT
                + 2 * 8192,
        decreases retained@.len() - k,
    {
        let m = retained[k];
        proof {
            assert(retained@[k as int].wf());
            lemma_round_up(m.size as int, 4096);
            lemma_here_bound(va as int, alignment as int);
        }
        let here: u64 = align_up(va, alignment);
        if here + length <= m.va {
            return here;
        }
        let end: u64 = m.va + m.size;
        va = if here >= end {
            here
        } else {
            end
        };
        k += 1;
    }
    align_up(va, alignment)
}

/// What a search for `length` bytes is answered.
pub open spec fn fit_spec(retained: Seq<Mapping>, length: int, alignment: int) -> Option<u64> {
    let va = first_fit(retained, 0, FIRST_VA as int, length, alignment);
    if va + length <= VA_LIMIT {
        Some(va as u64)
    } else {
        None
    }
}

/// A place that the search returns is aligned, in the public part of the address
/// space, free, and below every other free aligned place.
pub proof fn fit_is_first_free(retained: Seq<Mapping>, length: int, alignment: int)
    requires
        mappings_wf(retained),
        0 <= length,
        alignment == 4096 || alignment == 8192,
        fit_spec(retained, length, alignment) is Some,
    ensures
        ({
            let va = fit_spec(retained, length, alignment)->Some_0;
            &&& va as int % alignment == 0
            &&& FIRST_VA <= va
            &&& va + length <= VA_LIMIT
            &&& forall|i: int|
                0 <= i < retained.len() ==> (#[trigger] retained[i]).clear_of(va as int, length)
            &&& all_taken(retained, FIRST_VA as int, va as int, length, alignment)
        }),
{
    lemma_first_fit(retained, 0, FIRST_VA as int, length, alignment);
}

/// The search fails only where no aligned place is free.
pub proof fn fit_fails_only_when_full(retained: Seq<Mapping>, length: int, alignment: int)
    requires
        mappings_wf(retained),
        0 <= length,
        alignment == 4096 || alignment == 8192,
        fit_spec(retained, length, alignment) is None,
    ensures
        all_taken(retained, FIRST_VA as int, VA_LIMIT - length + 1, length, alignment),
{
    lemma_first_fit(retained, 0, FIRST_VA as int, length, alignment);
}

/// Two page-aligned mappings of which neither covers a byte of the other's data
/// share no page either, where the first begins on a page boundary.
proof fn lemma_pages_apart(m: Mapping, va: int, length: int)
    requires
        m.wf(),
        va % 4096 == 0,
        length % 4096 == 0,
        m.clear_of(va, length),
    ensures
        va + length <= m.va || m.page_end() <= va,
{
    if m.va + m.size <= va {
        lemma_round_up(m.size as int, 4096);
        let pages = va - m.va;
        assert(pages % 4096 == 0);
        assert(m.size <= pages);
    }
}

/// Where `va` belongs in the order of addresses.
pub open spec fn slot_of(retained: Seq<Mapping>, va: u64, k: int) -> bool {
    &&& 0 <= k <= retained.len()
    &&& forall|i: int| 0 <= i < k ==> (#[trigger] retained[i]).va < va
    &&& forall|i: int| k <= i < retained.len() ==> va < (#[trigger] retained[i]).va
}

pub fn insert_mapping(retained: &mut Vec<Mapping>, m: Mapping)
    requires
        mappings_wf(old(retained)@),
        m.wf(),
        forall|i: int|
            0 <= i < old(retained)@.len() ==> (#[trigger] old(retained)@[i]).clear_of(
                m.va as int,
                round_up(m.size as int, 4096),
            ),
    ensures
        mappings_wf(final(retained)@),
        exists|k: int|
            slot_of(old(retained)@, m.va, k) && final(retained)@ == #[trigger] old(
                retained,
            )@.insert(k, m),
{
    let ghost before = retained@;
    let ghost length = round_up(m.size as int, 4096);
    proof {
        lemma_round_up(m.size as int, 4096);
        assert forall|i: int| 0 <= i < before.len() implies m.va + length <= (
        #[trigger] before[i]).va || before[i].page_end() <= m.va by {
            assert(before[i].wf() && before[i].clear_of(m.va as int, length));
            lemma_pages_apart(before[i], m.va as int, length);
        }
    }
    let mut k: usize = retained.len();
    while k > 0 && retained[k - 1].va > m.va
        invariant
            k <= retained@.len(),
            retained@ == before,
            mappings_wf(before),
            m.wf(),
            forall|i: int| k <= i < before.len() ==> m.va < (#[trigger] before[i]).va,
        decreases k,
    {
        k -= 1;
    }
    retained.insert(k, m);
    proof {
        assert forall|i: int| 0 <= i < k implies (#[trigger] before[i]).page_end() <= m.va by {
            lemma_round_up(before[i].size as int, 4096);
            lemma_round_up(before[k - 1].size as int, 4096);
            if i < k - 1 {
                assert(before[i].page_end() <= before[k - 1].va);
            }
            assert(m.va + length <= before[k - 1].va || before[k - 1].page_end() <= m.va);
        }
        assert forall|i: int| k <= i < before.len() implies m.va + length <= (
        #[trigger] before[i]).va by {
            lemma_round_up(before[i].size as int, 4096);
        }
        assert forall|i: int, j: int| 0 <= i < j < retained@.len() implies (
        #[trigger] retained@[i]).page_end() <= (#[trigger] retained@[j]).va by {
            let a = if i < k {
                i
            } else {
                i - 1
            };
            let b = if j < k {
                j
            } else {
                j - 1
            };
            if i != k && j != k {
                assert(before[a].page_end() <= before[b].va);
            }
        }
        assert forall|i: int| 0 <= i < retained@.len() implies (#[trigger] retained@[i]).wf() by {
            if i != k {
                assert(before[if i < k {
                    i
                } else {
                    i - 1
                }].wf());
            }
        }
        assert forall|i: int| 0 <= i < k implies (#[trigger] before[i]).va < m.va by {
            lemma_round_up(before[i].size as int, 4096);
        }
        assert(slot_of(before, m.va, k as int));
        assert(retained@ == before.insert(k as int, m));
    }
}

/// The first object goes to the first public address that it may have, and none goes before
/// it or beyond the end.
pub proof fn public_addresses_have_bounds(length: int, alignment: int, mapping: Mapping)
    requires
        0 < length,
        alignment == 4096 || alignment == 8192,
    ensures
        0x50_2000 + length <= 0x2000_0000 ==> fit_spec(seq![], length, alignment) == Some(
            0x50_2000u64,
        ),
        0x50_2000 + length > 0x2000_0000 ==> fit_spec(seq![], length, alignment) is None,
        mapping.wf() ==> 0x50_2000 <= mapping.va && mapping.va + mapping.size <= 0x2000_0000
            && mapping.size <= 0x100_0000,
{
    if mapping.wf() {
        lemma_round_up(mapping.size as int, 4096);
    }
}

} // verus!
