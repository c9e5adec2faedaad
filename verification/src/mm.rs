//! The user address space of one task: virtual addresses, page-table entry
//! flags, and a page-granular memory set that maps virtual pages to frames.
use vstd::prelude::*;
use std::collections::{BTreeMap, BTreeSet};
use crate::config::{PAGE_SIZE, VA_LIMIT, VPN_LIMIT};

verus! {

/// Valid bit of a page-table entry.
pub const PTE_V: u8 = 0x01;
/// Readable bit of a page-table entry.
pub const PTE_R: u8 = 0x02;
/// Writable bit of a page-table entry.
pub const PTE_W: u8 = 0x04;
/// Executable bit of a page-table entry.
pub const PTE_X: u8 = 0x08;
/// User-accessible bit of a page-table entry.
pub const PTE_U: u8 = 0x10;

/// Map permission: readable (same bit as in a page-table entry).
pub const MAP_PERM_R: u8 = 0x02;
/// Map permission: writable.
pub const MAP_PERM_W: u8 = 0x04;
/// Map permission: executable.
pub const MAP_PERM_X: u8 = 0x08;
/// Map permission: user-accessible.
pub const MAP_PERM_U: u8 = 0x10;

/// Number of the page that holds address `a`.
pub open spec fn page_floor(a: nat) -> nat {
    a / (PAGE_SIZE as nat)
}

/// Number of the first page that starts at or above address `a`.
pub open spec fn page_ceil(a: nat) -> nat {
    if a == 0 {
        0
    } else {
        ((a - 1) as nat) / (PAGE_SIZE as nat) + 1
    }
}

/// Page rounding up is monotonic.
pub proof fn lemma_page_ceil_monotonic(a: nat, b: nat)
    requires
        a <= b,
    ensures
        page_ceil(a) <= page_ceil(b),
{
    if a > 0 {
        vstd::arithmetic::div_mod::lemma_div_is_ordered((a - 1) as int, (b - 1) as int, PAGE_SIZE as int);
    }
}

/// An address whose pages all lie below the SV39 page limit lies in the
/// SV39 address range.
pub proof fn lemma_page_ceil_bound(a: nat)
    requires
        page_ceil(a) <= VPN_LIMIT,
    ensures
        a <= VA_LIMIT,
{
    if a > 0 {
        let q = ((a - 1) as nat) / (PAGE_SIZE as nat);
        vstd::arithmetic::div_mod::lemma_fundamental_div_mod((a - 1) as int, PAGE_SIZE as int);
        assert(q + 1 <= VPN_LIMIT);
        assert((a - 1) as int == 4096 * q + (a - 1) as int % 4096);
        assert(4096 * q <= 4096 * (VPN_LIMIT - 1)) by (nonlinear_arith)
            requires
                q + 1 <= VPN_LIMIT,
        ;
    }
}

/// The contents of a freshly allocated frame.
pub open spec fn zero_page() -> Seq<u8> {
    Seq::new(PAGE_SIZE as nat, |i: int| 0u8)
}

/// A virtual address of the SV39 scheme.
pub struct VirtAddr(pub u64);

impl VirtAddr {
    /// Keeps the low 39 bits of `v`, as the conversion from an integer does.
    pub fn from_u64(v: u64) -> (r: VirtAddr)
        ensures
            r.0 == v % VA_LIMIT,
    {
        let r = v & 0x7f_ffff_ffff;
        assert(v & 0x7f_ffff_ffff == v % 0x80_0000_0000) by (bit_vector);
        VirtAddr(r)
    }

    /// The page that holds this address.
    pub fn floor(&self) -> (r: u64)
        ensures
            r == page_floor(self.0 as nat),
    {
        self.0 / PAGE_SIZE
    }

    /// The first page that starts at or above this address.
    pub fn ceil(&self) -> (r: u64)
        ensures
            r == page_ceil(self.0 as nat),
    {
        if self.0 == 0 {
            0
        } else {
            (self.0 - 1) / PAGE_SIZE + 1
        }
    }

    /// Offset of this address inside its page.
    pub fn page_offset(&self) -> (r: u64)
        ensures
            r == self.0 % PAGE_SIZE,
    {
        let v = self.0;
        assert(v & 0xfff == v % 0x1000) by (bit_vector);
        v & 0xfff
    }
}


/// The flags of a page-table entry, as a page-table walk reports them.
#[derive(Clone, Copy, Debug, PartialEq, Eq, Structural)]
pub struct PageTableEntry {
    pub flags: u8,
}

impl PageTableEntry {
    /// Whether the entry is valid.
    pub fn is_valid(&self) -> (r: bool)
        ensures
            r == (self.flags & PTE_V != 0),
    {
        self.flags & PTE_V != 0
    }

    /// Whether the entry allows reads.
    pub fn readable(&self) -> (r: bool)
        ensures
            r == (self.flags & PTE_R != 0),
    {
        self.flags & PTE_R != 0
    }

    /// Whether the entry allows writes.
    pub fn writable(&self) -> (r: bool)
        ensures
            r == (self.flags & PTE_W != 0),
    {
        self.flags & PTE_W != 0
    }

    /// Whether the entry allows instruction fetches.
    pub fn executable(&self) -> (r: bool)
        ensures
            r == (self.flags & PTE_X != 0),
    {
        self.flags & PTE_X != 0
    }

    /// All flag bits of the entry.
    pub fn flags(&self) -> (r: u8)
        ensures
            r == self.flags,
    {
        self.flags
    }
}

/// One mapped virtual page: the flags of its page-table entry and the bytes
/// of the frame behind it.
pub struct Page {
    pub flags: u8,
    pub data: Vec<u8>,
}

/// A user address space: which virtual pages are mapped, with which flags,
/// and what their frames hold; and which of them the program mapped for
/// itself (through `mmap`), as opposed to those the kernel set up.
pub struct MemorySet {
    pages: BTreeMap<u64, Page>,
    app_pages: BTreeSet<u64>,
}

/// The abstract contents of an address space: for each mapped virtual page
/// number, the entry's flags and the page's bytes.
pub type SpaceView = Map<u64, (u8, Seq<u8>)>;

/// Every mapped page lies in the SV39 range, is valid, and holds a full page.
pub open spec fn space_wf(m: SpaceView) -> bool {
    forall|k: u64|
        #[trigger] m.contains_key(k) ==> {
            &&& k < VPN_LIMIT
            &&& m[k].0 & PTE_V != 0
            &&& m[k].1.len() == PAGE_SIZE as nat
        }
}

/// `m` with the pages `s..e` freshly mapped with `flags` and zero-filled frames.
pub open spec fn range_mapped(m: SpaceView, s: nat, e: nat, flags: u8) -> SpaceView {
    Map::new(
        |k: u64| m.contains_key(k) || (s <= k && k < e),
        |k: u64|
            if s <= k && k < e {
                (flags, zero_page())
            } else {
                m[k]
            },
    )
}

/// `m` without the pages `s..e`.
pub open spec fn range_unmapped(m: SpaceView, s: nat, e: nat) -> SpaceView {
    Map::new(|k: u64| m.contains_key(k) && !(s <= k && k < e), |k: u64| m[k])
}

/// The page numbers `s..e`.
pub open spec fn page_range(s: nat, e: nat) -> Set<u64> {
    Set::new(|k: u64| s <= k && k < e)
}

/// Every page of `s..e` is in `set`.
pub open spec fn range_within(set: Set<u64>, s: nat, e: nat) -> bool {
    forall|k: u64| s <= k && k < e ==> #[trigger] set.contains(k)
}

/// Every page of `s..e` is mapped in `m`.
pub open spec fn range_all_mapped(m: SpaceView, s: nat, e: nat) -> bool {
    forall|k: u64| s <= k && k < e ==> #[trigger] m.contains_key(k)
}

/// No page of `s..e` is mapped in `m`.
pub open spec fn range_none_mapped(m: SpaceView, s: nat, e: nat) -> bool {
    forall|k: u64| s <= k && k < e ==> !#[trigger] m.contains_key(k)
}

/// The byte at virtual address `va` of a space in which its page is mapped.
pub open spec fn byte_at(m: SpaceView, va: nat) -> u8 {
    m[(va / (PAGE_SIZE as nat)) as u64].1[(va % (PAGE_SIZE as nat)) as int]
}

/// `m` with the byte at virtual address `va` replaced by `b`.
pub open spec fn with_byte(m: SpaceView, va: nat, b: u8) -> SpaceView {
    let vpn = (va / (PAGE_SIZE as nat)) as u64;
    m.insert(vpn, (m[vpn].0, m[vpn].1.update((va % (PAGE_SIZE as nat)) as int, b)))
}

/// `m` with the first `n` bytes of `bs` stored from virtual address `va` on,
/// one after the other.
pub open spec fn with_bytes(m: SpaceView, va: nat, bs: Seq<u8>, n: nat) -> SpaceView
    decreases n,
{
    if n == 0 {
        m
    } else {
        with_byte(with_bytes(m, va, bs, (n - 1) as nat), (va + n - 1) as nat, bs[n - 1])
    }
}

/// Every address of `va..va + len` lies in a mapped page.
pub open spec fn bytes_mapped(m: SpaceView, va: nat, len: nat) -> bool {
    forall|x: nat| va <= x < va + len ==> #[trigger] m.contains_key((x / (PAGE_SIZE as nat)) as u64)
}

/// `segs` cuts `ptr..end` at page boundaries into non-empty pieces, in
/// order: each piece lies inside one page, and every piece but the last
/// reaches the end of its page. A piece is a start address and a length.
pub open spec fn segments_cover(segs: Seq<(u64, u64)>, ptr: nat, end: nat) -> bool {
    &&& segs.len() == 0 ==> ptr == end
    &&& segs.len() > 0 ==> segs[0].0 == ptr && segs.last().0 + segs.last().1 == end
    &&& forall|i: int|
        0 <= i < segs.len() - 1 ==> #[trigger] segs[i + 1].0 == segs[i].0 + segs[i].1
    &&& forall|i: int|
        0 <= i < segs.len() ==> {
            &&& #[trigger] segs[i].1 > 0
            &&& segs[i].0 % PAGE_SIZE + segs[i].1 <= PAGE_SIZE
            &&& i < segs.len() - 1 ==> segs[i].0 % PAGE_SIZE + segs[i].1 == PAGE_SIZE
        }
}

/// Storing a byte leaves every other address as it was, and the stored
/// address reads back what was stored.
pub proof fn lemma_byte_at_with_byte(m: SpaceView, a: nat, b: u8, x: nat)
    requires
        space_wf(m),
        m.contains_key((a / (PAGE_SIZE as nat)) as u64),
        m.contains_key((x / (PAGE_SIZE as nat)) as u64),
        a < VA_LIMIT,
        x < VA_LIMIT,
    ensures
        byte_at(with_byte(m, a, b), x) == (if x == a {
            b
        } else {
            byte_at(m, x)
        }),
        space_wf(with_byte(m, a, b)),
        with_byte(m, a, b).dom() == m.dom(),
{
    let p = PAGE_SIZE as nat;
    vstd::arithmetic::div_mod::lemma_fundamental_div_mod(a as int, p as int);
    vstd::arithmetic::div_mod::lemma_fundamental_div_mod(x as int, p as int);
    assert(a / p < VPN_LIMIT) by {
        vstd::arithmetic::div_mod::lemma_div_is_ordered(a as int, VA_LIMIT as int, p as int);
    }
    assert(x / p < VPN_LIMIT) by {
        vstd::arithmetic::div_mod::lemma_div_is_ordered(x as int, VA_LIMIT as int, p as int);
    }
    let w = with_byte(m, a, b);
    assert(w.dom() =~= m.dom());
    if x != a && x / p == a / p {
        assert(x % p != a % p);
    }
}

/// After storing a run of bytes, each stored address reads back its byte
/// and the space keeps its shape.
pub proof fn lemma_with_bytes_read_back(m: SpaceView, va: nat, bs: Seq<u8>, n: nat)
    requires
        space_wf(m),
        bytes_mapped(m, va, n),
        va + n <= VA_LIMIT,
        n <= bs.len(),
    ensures
        space_wf(with_bytes(m, va, bs, n)),
        with_bytes(m, va, bs, n).dom() == m.dom(),
        forall|i: nat| i < n ==> #[trigger] byte_at(with_bytes(m, va, bs, n), va + i) == bs[i as int],
        forall|x: nat| x < VA_LIMIT && m.contains_key((x / (PAGE_SIZE as nat)) as u64) && !(va <= x < va + n)
            ==> #[trigger] byte_at(with_bytes(m, va, bs, n), x) == byte_at(m, x),
    decreases n,
{
    if n > 0 {
        let k = (n - 1) as nat;
        lemma_with_bytes_read_back(m, va, bs, k);
        let prev = with_bytes(m, va, bs, k);
        let a = (va + k) as nat;
        assert(m.contains_key((a / (PAGE_SIZE as nat)) as u64));
        assert forall|i: nat| i < n implies #[trigger] byte_at(with_bytes(m, va, bs, n), va + i) == bs[i as int] by {
            let x = (va + i) as nat;
            assert(m.contains_key((x / (PAGE_SIZE as nat)) as u64));
            lemma_byte_at_with_byte(prev, a, bs[k as int], x);
        }
        assert forall|x: nat| x < VA_LIMIT && m.contains_key((x / (PAGE_SIZE as nat)) as u64) && !(va <= x < va + n)
            implies #[trigger] byte_at(with_bytes(m, va, bs, n), x) == byte_at(m, x) by {
            lemma_byte_at_with_byte(prev, a, bs[k as int], x);
        }
        lemma_byte_at_with_byte(prev, a, bs[k as int], a);
    }
}

proof fn lemma_valid_bit_set(p: u8)
    ensures
        (p | PTE_V) & PTE_V != 0,
{
    assert((p | 0x01u8) & 0x01u8 != 0) by (bit_vector);
}

proof fn lemma_view_insert(m: Map<u64, Page>, k: u64, p: Page)
    ensures
        m.insert(k, p).map_values(|q: Page| (q.flags, q.data@)) == m.map_values(
            |q: Page| (q.flags, q.data@),
        ).insert(k, (p.flags, p.data@)),
{
    assert(m.insert(k, p).map_values(|q: Page| (q.flags, q.data@)) =~= m.map_values(
        |q: Page| (q.flags, q.data@),
    ).insert(k, (p.flags, p.data@)));
}

proof fn lemma_view_remove(m: Map<u64, Page>, k: u64)
    ensures
        m.remove(k).map_values(|q: Page| (q.flags, q.data@)) == m.map_values(
            |q: Page| (q.flags, q.data@),
        ).remove(k),
{
    assert(m.remove(k).map_values(|q: Page| (q.flags, q.data@)) =~= m.map_values(
        |q: Page| (q.flags, q.data@),
    ).remove(k));
}

impl View for MemorySet {
    type V = SpaceView;

    closed spec fn view(&self) -> SpaceView {
        self.pages@.map_values(|p: Page| (p.flags, p.data@))
    }
}

/// `after` is `before` with the pages `s..e` freshly mapped with `flags` by
/// the program itself.
pub open spec fn area_inserted(before: MemorySet, after: MemorySet, s: nat, e: nat, flags: u8) -> bool {
    &&& after@ == range_mapped(before@, s, e, flags)
    &&& after.app_pages() == before.app_pages().union(page_range(s, e))
}

/// `r` tells whether the program mapped every page of `s..e` itself; if so
/// `after` is `before` without those pages, otherwise it is `before`.
pub open spec fn area_removed(before: MemorySet, after: MemorySet, s: nat, e: nat, r: bool) -> bool {
    &&& r == range_within(before.app_pages(), s, e)
    &&& after@ == (if r {
        range_unmapped(before@, s, e)
    } else {
        before@
    })
    &&& after.app_pages() == (if r {
        before.app_pages().difference(page_range(s, e))
    } else {
        before.app_pages()
    })
}

impl MemorySet {
    /// The pages that the program mapped for itself.
    pub closed spec fn app_pages(&self) -> Set<u64> {
        self.app_pages@
    }

    /// Well-formedness of the address space: its view is well formed and
    /// every page the program mapped for itself is mapped.
    pub open spec fn wf(&self) -> bool {
        &&& space_wf(self@)
        &&& forall|k: u64| #[trigger] self.app_pages().contains(k) ==> self@.contains_key(k)
    }

    /// An empty address space.
    pub fn new() -> (r: Self)
        ensures
            r@ == Map::<u64, (u8, Seq<u8>)>::empty(),
            r.app_pages() == Set::<u64>::empty(),
            r.wf(),
    {
        let r = MemorySet { pages: BTreeMap::new(), app_pages: BTreeSet::new() };
        assert(r@ =~= Map::<u64, (u8, Seq<u8>)>::empty());
        r
    }

    /// The entry of virtual page `vpn`, if the page is mapped.
    pub fn translate(&self, vpn: u64) -> (r: Option<PageTableEntry>)
        ensures
            r == (if self@.contains_key(vpn) {
                Some(PageTableEntry { flags: self@[vpn].0 })
            } else {
                None
            }),
    {
        match self.pages.get(&vpn) {
            Some(p) => Some(PageTableEntry { flags: p.flags }),
            None => None,
        }
    }

    /// The byte at virtual address `va`, whose page must be mapped.
    pub fn read_byte(&self, va: u64) -> (r: u8)
        requires
            self.wf(),
            self@.contains_key(va / PAGE_SIZE),
        ensures
            r == byte_at(self@, va as nat),
    {
        let vpn = va / PAGE_SIZE;
        let off = (va % PAGE_SIZE) as usize;
        let p = self.pages.get(&vpn).unwrap();
        assert(self@.contains_key(vpn));
        p.data[off]
    }

    /// Stores `b` at virtual address `va`, whose page must be mapped.
    pub fn write_byte(&mut self, va: u64, b: u8)
        requires
            old(self).wf(),
            old(self)@.contains_key(va / PAGE_SIZE),
        ensures
            final(self).wf(),
            final(self)@ == with_byte(old(self)@, va as nat, b),
            final(self).app_pages() == old(self).app_pages(),
    {
        let vpn = va / PAGE_SIZE;
        let off = (va % PAGE_SIZE) as usize;
        assert(old(self)@.contains_key(vpn));
        let mut p = self.pages.remove(&vpn).unwrap();
        p.data.set(off, b);
        self.pages.insert(vpn, p);
        assert(self@ =~= with_byte(old(self)@, va as nat, b));
        assert forall|k: u64| #[trigger] self.app_pages().contains(k) implies self@.contains_key(k) by {
            assert(old(self).app_pages().contains(k));
            assert(old(self)@.contains_key(k));
        }
    }

    /// Maps the pages `start..end` with `perm` (and the valid bit) onto
    /// fresh zero-filled frames.
    pub fn map_range(&mut self, start: u64, end: u64, perm: u8)
        requires
            old(self).wf(),
            start <= end <= VPN_LIMIT,
            range_none_mapped(old(self)@, start as nat, end as nat),
        ensures
            final(self).wf(),
            final(self)@ == range_mapped(old(self)@, start as nat, end as nat, perm | PTE_V),
            final(self).app_pages() == old(self).app_pages(),
    {
        let flags = perm | PTE_V;
        proof {
            lemma_valid_bit_set(perm);
        }
        let mut v = start;
        assert(self@ =~= range_mapped(old(self)@, start as nat, start as nat, flags));
        while v < end
            invariant
                start <= v <= end <= VPN_LIMIT,
                flags == perm | PTE_V,
                flags & PTE_V != 0,
                space_wf(old(self)@),
                range_none_mapped(old(self)@, start as nat, end as nat),
                self@ == range_mapped(old(self)@, start as nat, v as nat, flags),
                self.app_pages() == old(self).app_pages(),
                forall|k: u64| #[trigger] old(self).app_pages().contains(k) ==> old(self)@.contains_key(k),
            decreases end - v,
        {
            let data = vec![0u8; PAGE_SIZE as usize];
            assert(data@ =~= zero_page());
            let ghost before = self.pages@;
            let ghost bv = self@;
            self.pages.insert(v, Page { flags, data });
            proof {
                lemma_view_insert(before, v, Page { flags, data });
            }
            assert(self@ == bv.insert(v, (flags, data@)));
            assert(self@ =~= range_mapped(old(self)@, start as nat, (v + 1) as nat, flags));
            v = v + 1;
        }
        assert(space_wf(self@));
        assert forall|k: u64| #[trigger] self.app_pages().contains(k) implies self@.contains_key(k) by {
            assert(old(self)@.contains_key(k));
        }
    }

    /// Unmaps the pages `start..end` if every one of them is mapped, and
    /// reports whether it did; otherwise the space is left as it was.
    pub fn unmap_range(&mut self, start: u64, end: u64) -> (r: bool)
        requires
            old(self).wf(),
            start <= end,
        ensures
            final(self).wf(),
            r == range_all_mapped(old(self)@, start as nat, end as nat),
            final(self)@ == (if r {
                range_unmapped(old(self)@, start as nat, end as nat)
            } else {
                old(self)@
            }),
            final(self).app_pages() == (if r {
                old(self).app_pages().difference(page_range(start as nat, end as nat))
            } else {
                old(self).app_pages()
            }),
    {
        let mut v = start;
        while v < end
            invariant
                start <= v <= end,
                self@ == old(self)@,
                self.app_pages() == old(self).app_pages(),
                forall|k: u64| #[trigger] old(self).app_pages().contains(k) ==> old(self)@.contains_key(k),
                space_wf(old(self)@),
                range_all_mapped(self@, start as nat, v as nat),
            decreases end - v,
        {
            if self.pages.get(&v).is_none() {
                assert(!self@.contains_key(v));
                return false;
            }
            v = v + 1;
        }
        let mut v = start;
        assert(self@ =~= range_unmapped(old(self)@, start as nat, start as nat));
        assert(self.app_pages() =~= old(self).app_pages().difference(page_range(start as nat, start as nat)));
        while v < end
            invariant
                start <= v <= end,
                range_all_mapped(old(self)@, start as nat, end as nat),
                space_wf(old(self)@),
                self@ == range_unmapped(old(self)@, start as nat, v as nat),
                self.app_pages() == old(self).app_pages().difference(page_range(start as nat, v as nat)),
            decreases end - v,
        {
            let ghost before = self.pages@;
            let ghost bv = self@;
            self.pages.remove(&v);
            self.app_pages.remove(&v);
            assert(self.app_pages() =~= old(self).app_pages().difference(page_range(start as nat, (v + 1) as nat)));
            proof {
                lemma_view_remove(before, v);
            }
            assert(self@ == bv.remove(v));
            assert(self@ =~= range_unmapped(old(self)@, start as nat, (v + 1) as nat));
            v = v + 1;
        }
        assert forall|k: u64| #[trigger] self@.contains_key(k) implies old(self)@.contains_key(k)
            && self@[k] == old(self)@[k] by {}
        assert forall|k: u64| #[trigger] self.app_pages().contains(k) implies self@.contains_key(k) by {
            assert(old(self)@.contains_key(k));
        }
        true
    }

    /// Maps the pages `start..end` as `map_range` does and records them as
    /// mapped by the program itself.
    pub fn map_app_range(&mut self, start: u64, end: u64, perm: u8)
        requires
            old(self).wf(),
            start <= end <= VPN_LIMIT,
            range_none_mapped(old(self)@, start as nat, end as nat),
        ensures
            final(self).wf(),
            final(self)@ == range_mapped(old(self)@, start as nat, end as nat, perm | PTE_V),
            final(self).app_pages() == old(self).app_pages().union(page_range(start as nat, end as nat)),
    {
        self.map_range(start, end, perm);
        let ghost mapped = self@;
        let mut v = start;
        assert(self.app_pages() =~= old(self).app_pages().union(page_range(start as nat, start as nat)));
        while v < end
            invariant
                start <= v <= end,
                self@ == mapped,
                mapped == range_mapped(old(self)@, start as nat, end as nat, perm | PTE_V),
                space_wf(mapped),
                forall|k: u64| #[trigger] old(self).app_pages().contains(k) ==> mapped.contains_key(k),
                self.app_pages() == old(self).app_pages().union(page_range(start as nat, v as nat)),
            decreases end - v,
        {
            self.app_pages.insert(v);
            assert(self.app_pages() =~= old(self).app_pages().union(page_range(start as nat, (v + 1) as nat)));
            v = v + 1;
        }
        assert forall|k: u64| #[trigger] self.app_pages().contains(k) implies self@.contains_key(k) by {
            if !old(self).app_pages().contains(k) {
                assert(start <= k < end);
            }
        }
    }

    /// Unmaps the pages `start..end` if the program mapped every one of
    /// them itself, and reports whether it did; otherwise the space is left
    /// as it was.
    pub fn unmap_app_range(&mut self, start: u64, end: u64) -> (r: bool)
        requires
            old(self).wf(),
            start <= end,
        ensures
            final(self).wf(),
            r == range_within(old(self).app_pages(), start as nat, end as nat),
            final(self)@ == (if r {
                range_unmapped(old(self)@, start as nat, end as nat)
            } else {
                old(self)@
            }),
            final(self).app_pages() == (if r {
                old(self).app_pages().difference(page_range(start as nat, end as nat))
            } else {
                old(self).app_pages()
            }),
    {
        let mut v = start;
        while v < end
            invariant
                start <= v <= end,
                self@ == old(self)@,
                self.app_pages() == old(self).app_pages(),
                old(self).wf(),
                range_within(self.app_pages(), start as nat, v as nat),
            decreases end - v,
        {
            if !self.app_pages.contains(&v) {
                assert(!self.app_pages().contains(v));
                return false;
            }
            v = v + 1;
        }
        assert(range_all_mapped(self@, start as nat, end as nat)) by {
            assert forall|k: u64| start <= k && k < end implies #[trigger] self@.contains_key(k) by {
                assert(self.app_pages().contains(k));
            }
        }
        self.unmap_range(start, end)
    }
    /// Cuts the user buffer `ptr..ptr + len` at page boundaries into the
    /// pieces that can be reached through the page table, one per page.
    /// Every page the buffer touches must be mapped.
    pub fn translated_byte_buffer(&self, ptr: u64, len: u64) -> (r: Vec<(u64, u64)>)
        requires
            self.wf(),
            ptr + len <= VA_LIMIT,
            bytes_mapped(self@, ptr as nat, len as nat),
        ensures
            segments_cover(r@, ptr as nat, (ptr + len) as nat),
    {
        let end = ptr + len;
        let mut start = ptr;
        let mut v: Vec<(u64, u64)> = Vec::new();
        while start < end
            invariant
                ptr <= start <= end,
                end == ptr + len,
                end <= VA_LIMIT,
                segments_cover(v@, ptr as nat, start as nat),
                v@.len() > 0 && start < end ==> start % PAGE_SIZE == 0,
            decreases end - start,
        {
            let vpn = VirtAddr(start).floor();
            let next_page = (vpn + 1) * PAGE_SIZE;
            assert(start < next_page) by {
                vstd::arithmetic::div_mod::lemma_fundamental_div_mod(start as int, PAGE_SIZE as int);
            }
            let seg_end = if end < next_page {
                end
            } else {
                next_page
            };
            assert(start % PAGE_SIZE + (seg_end - start) <= PAGE_SIZE) by {
                vstd::arithmetic::div_mod::lemma_fundamental_div_mod(start as int, PAGE_SIZE as int);
            }
            let ghost before = v@;
            proof {
                if before.len() > 0 {
                    let last = before.last();
                    let q = last.0 as int / 4096;
                    let t = last.0 as int % 4096 + last.1 as int;
                    vstd::arithmetic::div_mod::lemma_fundamental_div_mod(last.0 as int, 4096);
                    vstd::arithmetic::div_mod::lemma_mod_multiples_vanish(q, t, 4096);
                    assert(start as int == 4096 * q + t);
                    if t < 4096 {
                        vstd::arithmetic::div_mod::lemma_small_mod(t as nat, 4096);
                    }
                    assert(t == 4096);
                }
            }
            v.push((start, seg_end - start));
            assert(forall|i: int| 0 <= i < before.len() ==> v@[i] == before[i]);
            start = seg_end;
        }
        v
    }
    /// Whether every page of `start..end` is mapped.
    pub fn range_is_mapped(&self, start: u64, end: u64) -> (r: bool)
        ensures
            r == range_all_mapped(self@, start as nat, end as nat),
    {
        let mut v = start;
        while v < end
            invariant
                v >= start,
                range_all_mapped(self@, start as nat, v as nat),
            decreases end - v,
        {
            if self.pages.get(&v).is_none() {
                assert(!self@.contains_key(v));
                return false;
            }
            v = v + 1;
        }
        true
    }

    /// Whether no page of `start..end` is mapped.
    pub fn range_is_unmapped(&self, start: u64, end: u64) -> (r: bool)
        ensures
            r == range_none_mapped(self@, start as nat, end as nat),
    {
        let mut v = start;
        while v < end
            invariant
                v >= start,
                range_none_mapped(self@, start as nat, v as nat),
            decreases end - v,
        {
            if self.pages.get(&v).is_some() {
                assert(self@.contains_key(v));
                return false;
            }
            v = v + 1;
        }
        true
    }

    /// Whether every address of `va..va + len` lies in a mapped page.
    pub fn bytes_are_mapped(&self, va: u64, len: u64) -> (r: bool)
        requires
            va + len <= VA_LIMIT,
        ensures
            r == bytes_mapped(self@, va as nat, len as nat),
    {
        if len == 0 {
            return true;
        }
        let first = va / PAGE_SIZE;
        let end = (va + len - 1) / PAGE_SIZE + 1;
        let r = self.range_is_mapped(first, end);
        proof {
            if r {
                assert forall|x: nat| va <= x < va + len implies #[trigger] self@.contains_key(
                    (x / (PAGE_SIZE as nat)) as u64,
                ) by {
                    vstd::arithmetic::div_mod::lemma_div_is_ordered(va as int, x as int, PAGE_SIZE as int);
                    vstd::arithmetic::div_mod::lemma_div_is_ordered(x as int, (va + len - 1) as int, PAGE_SIZE as int);
                }
            } else {
                let k = choose|k: u64| first <= k < end && !self@.contains_key(k);
                let x: nat = if k == first { va as nat } else { (k * PAGE_SIZE) as nat };
                if k == first {
                } else {
                    vstd::arithmetic::div_mod::lemma_div_multiples_vanish(k as int, PAGE_SIZE as int);
                    assert(k as nat * 4096 / 4096 == k as nat);
                    assert(va < k * PAGE_SIZE) by {
                        vstd::arithmetic::div_mod::lemma_fundamental_div_mod(va as int, PAGE_SIZE as int);
                    }
                    assert(k * PAGE_SIZE <= va + len - 1) by {
                        vstd::arithmetic::div_mod::lemma_fundamental_div_mod((va + len - 1) as int, PAGE_SIZE as int);
                    }
                }
                assert(va <= x < va + len);
                assert(!self@.contains_key((x / (PAGE_SIZE as nat)) as u64));
            }
        }
        r
    }
}

} // verus!
