//! Validation of user pointers against the user canonical half and the
//! page tables, and the copy primitives built on it.
//!
//! Physical memory is modelled by `AddressSpace`: the page-table pages are a
//! store of 64-bit words (word `i` sits at physical address `8 * i`), and the
//! pages that user mappings point at are a store of bytes (byte `i` sits at
//! physical address `i`).  Reading a word outside the table store yields 0, a
//! non-present entry.
use vstd::prelude::*;

verus! {

/// First address above the low-half user region (2^47).
pub const USER_VA_LIMIT: u64 = 0x0000_8000_0000_0000;

/// Permission bit asked of `user_pages_ok`: the range is read.
pub const USER_PERM_READ: u64 = 1;

/// Permission bit asked of `user_pages_ok`: the range is written.
pub const USER_PERM_WRITE: u64 = 2;

/// Longest string `copyinstr_user` accepts, terminator included.
pub const USER_COPYINSTR_MAX: usize = 256;

/// Physical-address bits of a page-table entry.
pub const PTE_ADDR_MASK: u64 = 0x000F_FFFF_FFFF_F000;

/// Frame bits of a 1 GiB page entry.
pub const PTE_ADDR_MASK_1G: u64 = 0x000F_FFFF_C000_0000;

/// Frame bits of a 2 MiB page entry.
pub const PTE_ADDR_MASK_2M: u64 = 0x000F_FFFF_FFE0_0000;

/// Clears the offset within a 4 KiB page.
pub const PAGE_MASK: u64 = 0xFFFF_FFFF_FFFF_F000;

pub const PTE_PRESENT: u64 = 1;

pub const PTE_WRITABLE: u64 = 2;

pub const PTE_USER: u64 = 4;

pub const PTE_HUGE: u64 = 0x80;

/// `ptr .. ptr + len` lies inside the user region: empty ranges always do;
/// otherwise `ptr + len` must not pass the limit.
pub open spec fn range_in_user(ptr: u64, len: nat) -> bool {
    len == 0 || (ptr < USER_VA_LIMIT && ptr + len <= USER_VA_LIMIT)
}

/// Checks that the `len` bytes at `ptr` lie in the low-half user region.
pub fn user_range_ok(ptr: u64, len: usize) -> (r: bool)
    ensures
        r == range_in_user(ptr, len as nat),
{
    if len == 0 {
        return true;
    }
    match ptr.checked_add(len as u64) {
        Some(end) => ptr < USER_VA_LIMIT && end <= USER_VA_LIMIT,
        None => false,
    }
}

/// Index into the table of the given level (39, 30, 21 or 12 bits of shift).
pub open spec fn table_index(va: u64, shift: u64) -> u64 {
    (va >> shift) & 0x1FF
}

/// The word of the table that `entry` points at, at index `idx`.
pub open spec fn entry_at(tables: Seq<u64>, entry: u64, idx: u64) -> u64 {
    let w = (entry & PTE_ADDR_MASK) / 8 + idx;
    if w < tables.len() {
        tables[w as int]
    } else {
        0
    }
}

/// An entry grants user access: Present and User, and Writable when asked.
pub open spec fn entry_allows(e: u64, need_write: bool) -> bool {
    &&& e & PTE_PRESENT != 0
    &&& e & PTE_USER != 0
    &&& (need_write ==> e & PTE_WRITABLE != 0)
}

/// The page walk from `root` (a CR3 value) for `va`: the physical address
/// it reaches when every level on the way grants the access, else `None`.
/// A huge entry at the PDPT or PD level ends the walk for its whole
/// super-page.
pub open spec fn walk(tables: Seq<u64>, root: u64, va: u64, need_write: bool) -> Option<u64> {
    let e4 = entry_at(tables, root, table_index(va, 39));
    let e3 = entry_at(tables, e4, table_index(va, 30));
    let e2 = entry_at(tables, e3, table_index(va, 21));
    let e1 = entry_at(tables, e2, table_index(va, 12));
    if !entry_allows(e4, need_write) || !entry_allows(e3, need_write) {
        None
    } else if e3 & PTE_HUGE != 0 {
        Some((e3 & PTE_ADDR_MASK_1G) | (va & 0x3FFF_FFFF))
    } else if !entry_allows(e2, need_write) {
        None
    } else if e2 & PTE_HUGE != 0 {
        Some((e2 & PTE_ADDR_MASK_2M) | (va & 0x1F_FFFF))
    } else if !entry_allows(e1, need_write) {
        None
    } else {
        Some((e1 & PTE_ADDR_MASK) | (va & 0xFFF))
    }
}

/// Whether the walk for `va` succeeds.
pub open spec fn walk_ok(tables: Seq<u64>, root: u64, va: u64, need_write: bool) -> bool {
    walk(tables, root, va, need_write) is Some
}

/// Every byte of `ptr .. ptr + len` is in the user region and its page walk
/// grants the access.
pub open spec fn pages_ok(tables: Seq<u64>, root: u64, ptr: u64, len: nat, need_write: bool) -> bool {
    &&& range_in_user(ptr, len)
    &&& forall|a: u64| ptr <= a < ptr + len ==> #[trigger] walk_ok(tables, root, a, need_write)
}

/// The entry that ends the walk for `va`: a huge PDPT or PD entry, or the
/// page-table entry.
pub open spec fn covering_entry(tables: Seq<u64>, root: u64, va: u64) -> u64 {
    let e4 = entry_at(tables, root, table_index(va, 39));
    let e3 = entry_at(tables, e4, table_index(va, 30));
    let e2 = entry_at(tables, e3, table_index(va, 21));
    if e3 & PTE_HUGE != 0 {
        e3
    } else if e2 & PTE_HUGE != 0 {
        e2
    } else {
        entry_at(tables, e2, table_index(va, 12))
    }
}

/// Page validation refuses a range as soon as the entry covering one of its
/// addresses lacks Present or User, or lacks Writable when writing.
pub proof fn lemma_missing_bits_rejected(
    tables: Seq<u64>,
    root: u64,
    ptr: u64,
    len: nat,
    a: u64,
    need_write: bool,
)
    requires
        ptr <= a < ptr + len,
        !entry_allows(covering_entry(tables, root, a), need_write),
    ensures
        !pages_ok(tables, root, ptr, len, need_write),
{
    assert(!walk_ok(tables, root, a, need_write));
}

/// Two addresses on the same 4 KiB page walk the same entries.
pub proof fn lemma_same_page_indices(a: u64)
    ensures
        table_index(a & PAGE_MASK, 39) == table_index(a, 39),
        table_index(a & PAGE_MASK, 30) == table_index(a, 30),
        table_index(a & PAGE_MASK, 21) == table_index(a, 21),
        table_index(a & PAGE_MASK, 12) == table_index(a, 12),
{
    assert(((a & 0xFFFF_FFFF_FFFF_F000) >> 39) & 0x1FF == (a >> 39) & 0x1FF) by (bit_vector);
    assert(((a & 0xFFFF_FFFF_FFFF_F000) >> 30) & 0x1FF == (a >> 30) & 0x1FF) by (bit_vector);
    assert(((a & 0xFFFF_FFFF_FFFF_F000) >> 21) & 0x1FF == (a >> 21) & 0x1FF) by (bit_vector);
    assert(((a & 0xFFFF_FFFF_FFFF_F000) >> 12) & 0x1FF == (a >> 12) & 0x1FF) by (bit_vector);
}

proof fn lemma_index_bounds(va: u64)
    ensures
        table_index(va, 39) < 512,
        table_index(va, 30) < 512,
        table_index(va, 21) < 512,
        table_index(va, 12) < 512,
{
    assert((va >> 39) & 0x1FF < 512) by (bit_vector);
    assert((va >> 30) & 0x1FF < 512) by (bit_vector);
    assert((va >> 21) & 0x1FF < 512) by (bit_vector);
    assert((va >> 12) & 0x1FF < 512) by (bit_vector);
}

proof fn lemma_walk_ok_page(tables: Seq<u64>, root: u64, a: u64, w: bool)
    ensures
        walk_ok(tables, root, a, w) == walk_ok(tables, root, a & PAGE_MASK, w),
{
    lemma_same_page_indices(a);
}

proof fn lemma_page_facts(a: u64, b: u64)
    ensures
        a & PAGE_MASK <= a,
        a < (a & PAGE_MASK) + 4096,
        (a & PAGE_MASK) & 0xFFF == 0,
        a <= b ==> a & PAGE_MASK <= b & PAGE_MASK,
        (b & 0xFFF == 0 && b <= a && a < b + 4096) ==> a & PAGE_MASK == b,
{
    assert(a & 0xFFFF_FFFF_FFFF_F000 <= a) by (bit_vector);
    assert(a < (a & 0xFFFF_FFFF_FFFF_F000) + 4096) by (bit_vector);
    assert((a & 0xFFFF_FFFF_FFFF_F000) & 0xFFF == 0) by (bit_vector);
    assert(a <= b ==> a & 0xFFFF_FFFF_FFFF_F000 <= b & 0xFFFF_FFFF_FFFF_F000) by (bit_vector);
    assert((b & 0xFFF == 0 && b <= a && a < b + 4096) ==> a & 0xFFFF_FFFF_FFFF_F000 == b)
        by (bit_vector);
}

/// The page tables and physical memory that user pointers resolve through.
pub struct AddressSpace {
    /// The CR3 value: physical address of the PML4.
    pub root: u64,
    /// Page-table pages, one 64-bit word per 8 bytes of physical address.
    pub tables: Vec<u64>,
    /// Data pages, one byte per physical address.
    pub frames: Vec<u8>,
}

impl AddressSpace {
    /// The walk for `va` succeeds and lands inside the data store.
    pub open spec fn byte_ok(&self, va: u64, need_write: bool) -> bool {
        &&& walk_ok(self.tables@, self.root, va, need_write)
        &&& walk(self.tables@, self.root, va, need_write).unwrap() < self.frames@.len()
    }

    /// The physical address that `va` translates to.
    pub open spec fn phys_of(&self, va: u64) -> int {
        walk(self.tables@, self.root, va, false).unwrap() as int
    }

    /// The byte a user read of `va` sees.
    pub open spec fn user_byte(&self, va: u64) -> u8 {
        self.frames@[self.phys_of(va)]
    }

    /// Every byte of `ptr .. ptr + len` can be accessed by the kernel on the
    /// user's behalf.
    pub open spec fn accessible(&self, ptr: u64, len: nat, need_write: bool) -> bool {
        &&& pages_ok(self.tables@, self.root, ptr, len, need_write)
        &&& forall|a: u64| ptr <= a < ptr + len ==> #[trigger] self.byte_ok(a, need_write)
    }

    /// The `len` bytes that user memory holds at `ptr`.
    pub open spec fn user_bytes(&self, ptr: u64, len: nat) -> Seq<u8> {
        Seq::new(len, |i: int| self.user_byte((ptr + i) as u64))
    }

    /// A zero byte lies in `ptr .. ptr + limit`.
    pub open spec fn has_nul(&self, ptr: u64, limit: nat) -> bool {
        exists|j: int| 0 <= j < limit && #[trigger] self.user_byte((ptr + j) as u64) == 0
    }

    /// `v` is the string at `ptr`, up to and including its first zero byte,
    /// which lies within `limit` bytes.
    pub open spec fn is_cstr(&self, ptr: u64, limit: nat, v: Seq<u8>) -> bool {
        &&& 1 <= v.len() <= limit
        &&& v == self.user_bytes(ptr, v.len())
        &&& v.last() == 0
        &&& forall|j: int| 0 <= j < v.len() - 1 ==> v[j] != 0
    }

    /// Data store after writing `src` byte by byte at `ptr`, in order.
    pub open spec fn frames_after_write(&self, ptr: u64, src: Seq<u8>) -> Seq<u8>
        decreases src.len(),
    {
        if src.len() == 0 {
            self.frames@
        } else {
            let n = (src.len() - 1) as int;
            self.frames_after_write(ptr, src.take(n)).update(
                self.phys_of((ptr + n) as u64),
                src[n],
            )
        }
    }

    /// Reads one page-table word: the entry at `idx` of the table that `entry`
    /// points at.
    fn read_entry(&self, entry: u64, idx: u64) -> (r: u64)
        requires
            idx < 512,
        ensures
            r == entry_at(self.tables@, entry, idx),
    {
        let w = (entry & PTE_ADDR_MASK) / 8 + idx;
        if w < self.tables.len() as u64 {
            self.tables[w as usize]
        } else {
            0
        }
    }

    /// Walks the page tables for `va`; returns the physical address reached
    /// when every level grants user access (and write access if asked).
    pub fn translate(&self, va: u64, need_write: bool) -> (r: Option<u64>)
        ensures
            r == walk(self.tables@, self.root, va, need_write),
    {
        proof {
            lemma_index_bounds(va);
        }
        let e4 = self.read_entry(self.root, (va >> 39) & 0x1FF);
        if !entry_allows_exec(e4, need_write) {
            return None;
        }
        let e3 = self.read_entry(e4, (va >> 30) & 0x1FF);
        if !entry_allows_exec(e3, need_write) {
            return None;
        }
        if e3 & PTE_HUGE != 0 {
            return Some((e3 & PTE_ADDR_MASK_1G) | (va & 0x3FFF_FFFF));
        }
        let e2 = self.read_entry(e3, (va >> 21) & 0x1FF);
        if !entry_allows_exec(e2, need_write) {
            return None;
        }
        if e2 & PTE_HUGE != 0 {
            return Some((e2 & PTE_ADDR_MASK_2M) | (va & 0x1F_FFFF));
        }
        let e1 = self.read_entry(e2, (va >> 12) & 0x1FF);
        if !entry_allows_exec(e1, need_write) {
            return None;
        }
        Some((e1 & PTE_ADDR_MASK) | (va & 0xFFF))
    }

    /// The word index of the page-table entry that maps `va`, when the
    /// upper levels on its way are present.
    pub fn pte_slot(&self, va: u64) -> (r: Option<usize>)
        ensures
            r is Some == crate::kernel::pte_slot(self.tables@, self.root, va) is Some,
            r is Some ==> r.unwrap() as int == crate::kernel::pte_slot(
                self.tables@,
                self.root,
                va,
            ).unwrap(),
    {
        proof {
            lemma_index_bounds(va);
        }
        let e4 = self.read_entry(self.root, (va >> 39) & 0x1FF);
        if e4 & PTE_PRESENT == 0 {
            return None;
        }
        let e3 = self.read_entry(e4, (va >> 30) & 0x1FF);
        if e3 & PTE_PRESENT == 0 {
            return None;
        }
        let e2 = self.read_entry(e3, (va >> 21) & 0x1FF);
        if e2 & PTE_PRESENT == 0 {
            return None;
        }
        let w = (e2 & PTE_ADDR_MASK) / 8 + ((va >> 12) & 0x1FF);
        if w >= self.tables.len() as u64 {
            return None;
        }
        Some(w as usize)
    }

    /// Checks the page containing `va` for user access; `required_perms`
    /// holds `USER_PERM_WRITE` when the access writes.
    pub fn check_page_user_perms(&self, va: u64, required_perms: u64) -> (r: bool)
        ensures
            r == walk_ok(self.tables@, self.root, va, required_perms & USER_PERM_WRITE != 0),
    {
        let need_write = (required_perms & USER_PERM_WRITE) != 0;
        self.translate(va, need_write).is_some()
    }

    /// Checks every 4 KiB page covering `ptr .. ptr + len`.
    pub fn user_pages_ok(&self, ptr: u64, len: usize, required_perms: u64) -> (r: bool)
        ensures
            r == pages_ok(
                self.tables@,
                self.root,
                ptr,
                len as nat,
                required_perms & USER_PERM_WRITE != 0,
            ),
    {
        let ghost w = required_perms & USER_PERM_WRITE != 0;
        if len == 0 {
            return true;
        }
        if !user_range_ok(ptr, len) {
            return false;
        }
        let start_page = ptr & PAGE_MASK;
        let end = ptr + (len as u64 - 1);
        let end_page = end & PAGE_MASK;
        proof {
            lemma_page_facts(ptr, end);
            lemma_page_facts(end, end);
        }
        assert forall|a: u64| ptr <= a implies !((a & PAGE_MASK) < start_page) by {
            lemma_page_facts(ptr, a);
        }
        let mut page = start_page;
        loop
            invariant
                start_page <= page <= end_page,
                page & 0xFFF == 0,
                start_page == ptr & PAGE_MASK,
                end_page == end & PAGE_MASK,
                end == ptr + (len - 1),
                end < USER_VA_LIMIT,
                len > 0,
                w == (required_perms & USER_PERM_WRITE != 0),
                forall|a: u64|
                    ptr <= a < ptr + len && (a & PAGE_MASK) < page ==> #[trigger] walk_ok(
                        self.tables@,
                        self.root,
                        a,
                        w,
                    ),
            decreases end_page - page,
        {
            if !self.check_page_user_perms(page, required_perms) {
                proof {
                    let wit = if page == start_page { ptr } else { page };
                    lemma_page_facts(wit, end);
                    lemma_page_facts(ptr, page);
                    lemma_page_facts(page, page);
                    lemma_page_facts(end, end);
                    if page != start_page {
                        assert(page >= start_page + 4096) by (bit_vector)
                            requires
                                page & 0xFFF == 0,
                                start_page & 0xFFF == 0,
                                page > start_page,
                        ;
                    }
                    lemma_walk_ok_page(self.tables@, self.root, wit, w);
                    assert(ptr <= wit < ptr + len);
                    assert(!walk_ok(self.tables@, self.root, wit, w));
                }
                return false;
            }
            assert forall|a: u64| ptr <= a < ptr + len && (a & PAGE_MASK) <= page implies #[trigger] walk_ok(
                self.tables@,
                self.root,
                a,
                w,
            ) by {
                lemma_page_facts(a, page);
                lemma_page_facts(a, a);
                if (a & PAGE_MASK) == page {
                    lemma_walk_ok_page(self.tables@, self.root, a, w);
                }
            }
            if page >= end_page {
                assert forall|a: u64| ptr <= a < ptr + len implies #[trigger] walk_ok(
                    self.tables@,
                    self.root,
                    a,
                    w,
                ) by {
                    lemma_page_facts(a, end);
                }
                return true;
            }
            proof {
                lemma_page_facts(page, end_page);
                lemma_page_facts(end, end);
                assert(page + 4096 <= end_page) by (bit_vector)
                    requires
                        page & 0xFFF == 0,
                        end_page & 0xFFF == 0,
                        page < end_page,
                ;
            }
            assert forall|a: u64| ptr <= a < ptr + len && (a & PAGE_MASK) < page + 4096 implies #[trigger] walk_ok(
                self.tables@,
                self.root,
                a,
                w,
            ) by {
                lemma_page_facts(a, a);
                assert((a & PAGE_MASK) & 0xFFF == 0);
                let ap = a & PAGE_MASK;
                assert(ap < page + 4096 ==> ap <= page) by (bit_vector)
                    requires
                        ap & 0xFFF == 0,
                        page & 0xFFF == 0,
                        page < 0x0000_8000_0000_0000,
                ;
            }
            page = page + 4096;
            assert(page & 0xFFF == 0) by (bit_vector)
                requires
                    page == (page - 4096) as u64 + 4096,
                    (page - 4096) as u64 & 0xFFF == 0,
            ;
        }
    }
}

impl AddressSpace {
    /// Reads the byte at user address `va`, if its walk grants reading and
    /// lands inside the data store.
    fn read_user_byte(&self, va: u64) -> (r: Option<u8>)
        ensures
            r is Some <==> self.byte_ok(va, false),
            r is Some ==> r.unwrap() == self.user_byte(va),
    {
        match self.translate(va, false) {
            Some(p) => {
                if p < self.frames.len() as u64 {
                    Some(self.frames[p as usize])
                } else {
                    None
                }
            },
            None => None,
        }
    }

    /// Checks every byte of `ptr .. ptr + len` with `byte_ok`.
    fn bytes_ok(&self, ptr: u64, len: usize, need_write: bool) -> (r: bool)
        requires
            range_in_user(ptr, len as nat),
        ensures
            r == forall|a: u64| ptr <= a < ptr + len ==> #[trigger] self.byte_ok(a, need_write),
    {
        let mut i: usize = 0;
        while i < len
            invariant
                i <= len,
                range_in_user(ptr, len as nat),
                forall|a: u64| ptr <= a < ptr + i ==> #[trigger] self.byte_ok(a, need_write),
            decreases len - i,
        {
            let va = ptr + i as u64;
            let ok = match self.translate(va, need_write) {
                Some(p) => p < self.frames.len() as u64,
                None => false,
            };
            if !ok {
                assert(ptr <= va && va < ptr + len);
                assert(!self.byte_ok(va, need_write));
                return false;
            }
            i = i + 1;
        }
        true
    }

    /// Copies `len` bytes from user address `user_ptr` into the front of
    /// `dst`, after checking the range and its pages for reading.
    /// In this model a mapped frame must also lie inside the data store
    /// (`frames`); an address whose frame lies beyond it fails like an
    /// unmapped one (see `accessible`).
    pub fn copyin_user(&self, dst: &mut [u8], user_ptr: u64, len: usize) -> (r: Result<(), ()>)
        ensures
            r is Ok <==> len <= old(dst)@.len() && self.accessible(user_ptr, len as nat, false),
            r is Ok ==> final(dst)@ == self.user_bytes(user_ptr, len as nat) + old(dst)@.skip(
                len as int,
            ),
            r is Err ==> final(dst)@ == old(dst)@,
    {
        proof {
            lemma_perm_bits();
        }
        if len > dst.len() {
            return Err(());
        }
        if !user_range_ok(user_ptr, len) {
            return Err(());
        }
        if !self.user_pages_ok(user_ptr, len, USER_PERM_READ) {
            return Err(());
        }
        if !self.bytes_ok(user_ptr, len, false) {
            return Err(());
        }
        let ghost d0 = dst@;
        let mut i: usize = 0;
        while i < len
            invariant
                i <= len,
                len <= dst@.len(),
                dst@.len() == d0.len(),
                range_in_user(user_ptr, len as nat),
                self.accessible(user_ptr, len as nat, false),
                forall|j: int| 0 <= j < i ==> dst@[j] == self.user_byte((user_ptr + j) as u64),
                forall|j: int| i <= j < d0.len() ==> dst@[j] == d0[j],
            decreases len - i,
        {
            let va = user_ptr + i as u64;
            assert(self.byte_ok(va, false));
            let b = self.read_user_byte(va);
            dst[i] = b.unwrap();
            i = i + 1;
        }
        assert(dst@ =~= self.user_bytes(user_ptr, len as nat) + d0.skip(len as int));
        Ok(())
    }

    /// Copies the first `len` bytes of `src` to user address `user_ptr`,
    /// after checking the range and its pages for writing.  The bytes are
    /// stored in order, so where two user addresses share a frame the later
    /// one wins.
    /// In this model a mapped frame must also lie inside the data store
    /// (`frames`); an address whose frame lies beyond it fails like an
    /// unmapped one (see `accessible`).
    pub fn copyout_user(&mut self, user_ptr: u64, src: &[u8], len: usize) -> (r: Result<(), ()>)
        ensures
            r is Ok <==> len <= src@.len() && old(self).accessible(user_ptr, len as nat, true),
            r is Ok ==> final(self).frames@ == old(self).frames_after_write(
                user_ptr,
                src@.take(len as int),
            ),
            r is Err ==> final(self).frames@ == old(self).frames@,
            final(self).tables@ == old(self).tables@,
            final(self).root == old(self).root,
    {
        proof {
            lemma_perm_bits();
        }
        if len > src.len() {
            return Err(());
        }
        if !user_range_ok(user_ptr, len) {
            return Err(());
        }
        if !self.user_pages_ok(user_ptr, len, USER_PERM_WRITE) {
            return Err(());
        }
        if !self.bytes_ok(user_ptr, len, true) {
            return Err(());
        }
        let ghost s0 = AddressSpace { root: self.root, tables: self.tables, frames: self.frames };
        let mut i: usize = 0;
        while i < len
            invariant
                i <= len,
                len <= src@.len(),
                range_in_user(user_ptr, len as nat),
                s0.accessible(user_ptr, len as nat, true),
                self.root == s0.root,
                self.tables@ == s0.tables@,
                self.frames@.len() == s0.frames@.len(),
                self.frames@ == s0.frames_after_write(user_ptr, src@.take(i as int)),
            decreases len - i,
        {
            let va = user_ptr + i as u64;
            assert(s0.byte_ok(va, true));
            let p = self.translate(va, true).unwrap();
            proof {
                lemma_write_walk_reads(s0.tables@, s0.root, va);
            }
            assert(p as int == s0.phys_of(va));
            let flen = self.frames.len();
            assert(p < flen);
            let ghost prev = self.frames@;
            let pu = p as usize;
            assert(pu as int == p as int);
            let v = src[i];
            self.frames.set(pu, v);
            proof {
                let t = src@.take(i + 1);
                assert(t.take(i as int) =~= src@.take(i as int));
                assert(t.len() - 1 == i);
                assert(t[i as int] == src@[i as int]);
                assert(s0.frames_after_write(user_ptr, t) == s0.frames_after_write(
                    user_ptr,
                    t.take(i as int),
                ).update(s0.phys_of(va), t[i as int]));
                assert(self.frames@ == prev.update(p as int, src@[i as int]));
            }
            i = i + 1;
        }
        Ok(())
    }

    /// Copies a NUL-terminated string of at most `max` bytes (and at most
    /// `USER_COPYINSTR_MAX`) from user address `user_ptr`; the result holds
    /// the terminator.  Fails when no NUL lies within the limit.
    /// In this model a mapped frame must also lie inside the data store
    /// (`frames`); an address whose frame lies beyond it fails like an
    /// unmapped one (see `accessible`).
    pub fn copyinstr_user(&self, user_ptr: u64, max: usize) -> (r: Result<crate::strbuf::Vec<u8>, ()>)
        ensures
            r is Ok <==> self.accessible(user_ptr, instr_limit(max) as nat, false) && self.has_nul(
                user_ptr,
                instr_limit(max) as nat,
            ),
            r is Ok ==> r.unwrap().wf() && self.is_cstr(
                user_ptr,
                instr_limit(max) as nat,
                r.unwrap().view(),
            ),
    {
        proof {
            lemma_perm_bits();
        }
        let limit = if max > USER_COPYINSTR_MAX { USER_COPYINSTR_MAX } else { max };
        if !user_range_ok(user_ptr, limit) {
            return Err(());
        }
        if !self.user_pages_ok(user_ptr, limit, USER_PERM_READ) {
            return Err(());
        }
        if !self.bytes_ok(user_ptr, limit, false) {
            return Err(());
        }
        let mut out = crate::strbuf::Vec::new();
        let mut i: usize = 0;
        while i < limit
            invariant
                i <= limit <= USER_COPYINSTR_MAX,
                limit == instr_limit(max),
                out.wf(),
                out.view().len() == i,
                out.view() == self.user_bytes(user_ptr, i as nat),
                self.accessible(user_ptr, limit as nat, false),
                range_in_user(user_ptr, limit as nat),
                forall|j: int| 0 <= j < i ==> #[trigger] self.user_byte((user_ptr + j) as u64) != 0,
            decreases limit - i,
        {
            let va = user_ptr + i as u64;
            assert(self.byte_ok(va, false));
            let b = self.read_user_byte(va).unwrap();
            let pushed = out.push(b);
            assert(pushed is Ok);
            assert(out.view() =~= self.user_bytes(user_ptr, (i + 1) as nat));
            if b == 0 {
                proof {
                    let v = out.view();
                    assert(self.user_byte((user_ptr + i) as u64) == 0);
                    assert(v.last() == 0);
                    assert(exists|j: int|
                        0 <= j < limit && #[trigger] self.user_byte((user_ptr + j) as u64) == 0);
                    assert(self.is_cstr(user_ptr, limit as nat, v));
                    assert forall|j: int| 0 <= j < v.len() - 1 implies v[j] != 0 by {
                        assert(self.user_byte((user_ptr + j) as u64) != 0);
                    }
                }
                return Ok(out);
            }
            i = i + 1;
        }
        assert(!exists|j: int|
            0 <= j < limit && #[trigger] self.user_byte((user_ptr + j) as u64) == 0);
        Err(())
    }
}

/// The bound `copyinstr_user` reads up to.
pub open spec fn instr_limit(max: usize) -> usize {
    if max > USER_COPYINSTR_MAX {
        USER_COPYINSTR_MAX
    } else {
        max
    }
}

pub(crate) proof fn lemma_perm_bits()
    ensures
        USER_PERM_READ & USER_PERM_WRITE == 0,
        USER_PERM_WRITE & USER_PERM_WRITE != 0,
{
    assert(1u64 & 2u64 == 0) by (bit_vector);
    assert(2u64 & 2u64 != 0) by (bit_vector);
}

/// A walk that grants writing reaches the same address as one for reading.
pub proof fn lemma_write_walk_reads(tables: Seq<u64>, root: u64, va: u64)
    ensures
        walk(tables, root, va, true) is Some ==> walk(tables, root, va, false) == walk(
            tables,
            root,
            va,
            true,
        ),
{
}

/// Executable form of `entry_allows`.
fn entry_allows_exec(e: u64, need_write: bool) -> (r: bool)
    ensures
        r == entry_allows(e, need_write),
{
    e & PTE_PRESENT != 0 && e & PTE_USER != 0 && (!need_write || e & PTE_WRITABLE != 0)
}

impl AddressSpace {
    /// Distinct addresses of `ptr .. ptr + len` reach distinct bytes.
    pub open spec fn no_alias(&self, ptr: u64, len: nat) -> bool {
        forall|i: int, j: int|
            0 <= i < len && 0 <= j < len && i != j ==> #[trigger] self.phys_of((ptr + i) as u64)
                != #[trigger] self.phys_of((ptr + j) as u64)
    }

    /// Bytes stored in order at `ptr` by `copyout_user` are what user reads
    /// of `ptr .. ptr + len` see afterwards, when no two of those addresses
    /// share a byte.
    pub proof fn lemma_copyout_then_read_back(&self, ptr: u64, d: Seq<u8>)
        requires
            self.accessible(ptr, d.len(), true),
            self.no_alias(ptr, d.len()),
        ensures
            self.frames_after_write(ptr, d).len() == self.frames@.len(),
            forall|i: int|
                0 <= i < d.len() ==> #[trigger] self.frames_after_write(ptr, d)[self.phys_of(
                    (ptr + i) as u64,
                )] == d[i],
        decreases d.len(),
    {
        if d.len() > 0 {
            let n = (d.len() - 1) as int;
            let t = d.take(n);
            assert forall|a: u64| ptr <= a < ptr + t.len() implies #[trigger] self.byte_ok(a, true) by {
                assert(self.byte_ok(a, true));
            }
            assert forall|a: u64| ptr <= a < ptr + t.len() implies #[trigger] walk_ok(
                self.tables@,
                self.root,
                a,
                true,
            ) by {
                assert(self.byte_ok(a, true));
            }
            assert forall|i: int, j: int|
                0 <= i < t.len() && 0 <= j < t.len() && i != j implies #[trigger] self.phys_of(
                (ptr + i) as u64,
            ) != #[trigger] self.phys_of((ptr + j) as u64) by {}
            self.lemma_copyout_then_read_back(ptr, t);
            let last = (ptr + n) as u64;
            assert(self.byte_ok(last, true));
            lemma_write_walk_reads(self.tables@, self.root, last);
            assert forall|i: int|
                0 <= i < d.len() implies #[trigger] self.frames_after_write(ptr, d)[self.phys_of(
                (ptr + i) as u64,
            )] == d[i] by {
                let a = (ptr + i) as u64;
                assert(self.byte_ok(a, true));
                lemma_write_walk_reads(self.tables@, self.root, a);
                if i < n {
                    assert(self.phys_of(a) != self.phys_of(last));
                    assert(t[i] == d[i]);
                }
            }
        }
    }
}

/// Base of the user code pages: page `i` is at `USER_CODE_BASE + 4096 * i`.
pub const USER_CODE_BASE: u64 = 0x40_0000;

/// Top of the user stacks: stack page `i` is the page below
/// `USER_STACK_TOP - 4096 * i`.
pub const USER_STACK_TOP: u64 = 0x80_0000;

/// Physical addresses are below 2^52.
pub const PHYS_ADDR_LIMIT: u64 = 0x0010_0000_0000_0000;

/// Present | Writable | User.
pub const PTE_USER_RW: u64 = 0x07;

/// Present | User: readable and executable, not writable.
pub const PTE_USER_RO: u64 = 0x05;

/// Physical addresses of the five table pages of a user address space.
#[derive(Clone, Copy)]
pub struct UserTables {
    pub pml4: u64,
    pub pdpt: u64,
    pub pd: u64,
    pub pt_code: u64,
    pub pt_stack: u64,
}

/// User address of code page `i`.
pub open spec fn code_va(i: int) -> u64 {
    (USER_CODE_BASE + 4096 * i) as u64
}

/// User address of stack page `i`.
pub open spec fn stack_va(i: int) -> u64 {
    (USER_STACK_TOP - 4096 * (i + 1)) as u64
}

/// `p` is a page-aligned physical address.
pub open spec fn frame_ok(p: u64) -> bool {
    p & 0xFFF == 0 && p < PHYS_ADDR_LIMIT
}

proof fn lemma_entry_bits(p: u64)
    requires
        frame_ok(p),
    ensures
        (p | PTE_USER_RW) & PTE_ADDR_MASK == p,
        (p | PTE_USER_RO) & PTE_ADDR_MASK == p,
        entry_allows(p | PTE_USER_RW, true),
        entry_allows(p | PTE_USER_RO, false),
        !entry_allows(p | PTE_USER_RO, true),
        (p | PTE_USER_RW) & PTE_HUGE == 0,
        p | 0 == p,
{
    assert((p & 0xFFF == 0 && p < 0x0010_0000_0000_0000) ==> (p | 7) & 0x000F_FFFF_FFFF_F000 == p)
        by (bit_vector);
    assert((p & 0xFFF == 0 && p < 0x0010_0000_0000_0000) ==> (p | 5) & 0x000F_FFFF_FFFF_F000 == p)
        by (bit_vector);
    assert((p | 7) & 1 != 0 && (p | 7) & 4 != 0 && (p | 7) & 2 != 0) by (bit_vector);
    assert((p | 5) & 1 != 0 && (p | 5) & 4 != 0) by (bit_vector);
    assert((p & 0xFFF == 0) ==> (p | 5) & 2 == 0) by (bit_vector);
    assert((p & 0xFFF == 0) ==> (p | 7) & 0x80 == 0) by (bit_vector);
    assert(p | 0 == p) by (bit_vector);
}

proof fn lemma_user_indices(i: u64)
    requires
        i < 512,
    ensures
        table_index(code_va(i as int), 39) == 0,
        table_index(code_va(i as int), 30) == 0,
        table_index(code_va(i as int), 21) == 2,
        table_index(code_va(i as int), 12) == i,
        code_va(i as int) & 0xFFF == 0,
        table_index(stack_va(i as int), 39) == 0,
        table_index(stack_va(i as int), 30) == 0,
        table_index(stack_va(i as int), 21) == 3,
        table_index(stack_va(i as int), 12) == 511 - i,
        stack_va(i as int) & 0xFFF == 0,
{
    let c: u64 = (0x40_0000 + 4096 * i) as u64;
    let s: u64 = (0x80_0000 - 4096 * (i + 1)) as u64;
    assert(i < 512 ==> ((0x40_0000 + 4096 * i) as u64 >> 39) & 0x1FF == 0) by (bit_vector);
    assert(i < 512 ==> ((0x40_0000 + 4096 * i) as u64 >> 30) & 0x1FF == 0) by (bit_vector);
    assert(i < 512 ==> ((0x40_0000 + 4096 * i) as u64 >> 21) & 0x1FF == 2) by (bit_vector);
    assert(i < 512 ==> ((0x40_0000 + 4096 * i) as u64 >> 12) & 0x1FF == i) by (bit_vector);
    assert(i < 512 ==> ((0x40_0000 + 4096 * i) as u64) & 0xFFF == 0) by (bit_vector);
    assert(i < 512 ==> ((0x80_0000 - 4096 * (i + 1)) as u64 >> 39) & 0x1FF == 0) by (bit_vector);
    assert(i < 512 ==> ((0x80_0000 - 4096 * (i + 1)) as u64 >> 30) & 0x1FF == 0) by (bit_vector);
    assert(i < 512 ==> ((0x80_0000 - 4096 * (i + 1)) as u64 >> 21) & 0x1FF == 3) by (bit_vector);
    assert(i < 512 ==> ((0x80_0000 - 4096 * (i + 1)) as u64 >> 12) & 0x1FF == 511 - i)
        by (bit_vector);
    assert(i < 512 ==> ((0x80_0000 - 4096 * (i + 1)) as u64) & 0xFFF == 0) by (bit_vector);
}

impl AddressSpace {
    /// `p` is a page-aligned table page held in the table store.
    pub open spec fn table_page_ok(&self, p: u64) -> bool {
        frame_ok(p) && p / 8 + 512 <= self.tables@.len()
    }

    /// Overwrites the table page at `page` with `words`.
    fn fill_table(&mut self, page: u64, words: &[u64; 512])
        requires
            old(self).table_page_ok(page),
        ensures
            final(self).tables@.len() == old(self).tables@.len(),
            forall|x: int|
                0 <= x < old(self).tables@.len() ==> #[trigger] final(self).tables@[x] == if page
                    / 8 <= x < page / 8 + 512 {
                    words@[x - page / 8]
                } else {
                    old(self).tables@[x]
                },
            final(self).root == old(self).root,
            final(self).frames@ == old(self).frames@,
    {
        let tl = self.tables.len();
        assert(page / 8 + 512 <= tl);
        let base = (page / 8) as usize;
        let ghost t0 = self.tables@;
        let mut j: usize = 0;
        while j < 512
            invariant
                j <= 512,
                base == page / 8,
                base + 512 <= tl,
                tl == t0.len(),
                self.tables@.len() == t0.len(),
                forall|x: int|
                    0 <= x < t0.len() ==> #[trigger] self.tables@[x] == if base <= x < base + j {
                        words@[x - base]
                    } else {
                        t0[x]
                    },
                self.root == old(self).root,
                self.frames@ == old(self).frames@,
            decreases 512 - j,
        {
            self.tables.set(base + j, words[j]);
            j = j + 1;
        }
    }

    /// Builds the user address space in the table pages `t` and switches to
    /// it: the PML4 is a copy of the current one whose entry 0 leads to the
    /// new PDPT, PD and page tables; code page `i` maps `code[i]` for user
    /// reading only, stack page `i` maps `stack[i]` for user reading and
    /// writing.
    pub fn build_user_space(&mut self, t: &UserTables, code: &[u64], stack: &[u64])
        requires
            old(self).table_page_ok(t.pml4),
            old(self).table_page_ok(t.pdpt),
            old(self).table_page_ok(t.pd),
            old(self).table_page_ok(t.pt_code),
            old(self).table_page_ok(t.pt_stack),
            t.pml4 != t.pdpt && t.pml4 != t.pd && t.pml4 != t.pt_code && t.pml4 != t.pt_stack,
            t.pdpt != t.pd && t.pdpt != t.pt_code && t.pdpt != t.pt_stack,
            t.pd != t.pt_code && t.pd != t.pt_stack,
            t.pt_code != t.pt_stack,
            code@.len() <= 512,
            stack@.len() <= 512,
            forall|i: int| 0 <= i < code@.len() ==> frame_ok(#[trigger] code@[i]),
            forall|i: int| 0 <= i < stack@.len() ==> frame_ok(#[trigger] stack@[i]),
        ensures
            final(self).root == t.pml4,
            final(self).frames@ == old(self).frames@,
            forall|i: int|
                0 <= i < code@.len() ==> walk(final(self).tables@, t.pml4, #[trigger] code_va(i), false)
                    == Some(code@[i]) && walk(final(self).tables@, t.pml4, code_va(i), true) is None,
            forall|i: int|
                0 <= i < stack@.len() ==> walk(final(self).tables@, t.pml4, #[trigger] stack_va(i), true)
                    == Some(stack@[i]),
            forall|j: u64|
                1 <= j < 512 ==> #[trigger] entry_at(final(self).tables@, t.pml4, j) == entry_at(
                    old(self).tables@,
                    old(self).root,
                    j,
                ),
    {
        let ghost t0 = self.tables@;
        let ghost root0 = self.root;
        let mut pml4 = [0u64; 512];
        let mut j: usize = 0;
        while j < 512
            invariant
                j <= 512,
                self.tables@ == t0,
                self.root == root0,
                forall|k: int| 0 <= k < j ==> pml4@[k] == entry_at(t0, root0, k as u64),
            decreases 512 - j,
        {
            pml4[j] = self.read_entry(self.root, j as u64);
            j = j + 1;
        }
        pml4[0] = t.pdpt | PTE_USER_RW;
        let mut pdpt = [0u64; 512];
        pdpt[0] = t.pd | PTE_USER_RW;
        let mut pd = [0u64; 512];
        pd[2] = t.pt_code | PTE_USER_RW;
        pd[3] = t.pt_stack | PTE_USER_RW;
        let mut ptc = [0u64; 512];
        let mut i: usize = 0;
        while i < code.len()
            invariant
                i <= code@.len() <= 512,
                forall|k: int| 0 <= k < i ==> ptc@[k] == code@[k] | PTE_USER_RO,
            decreases code.len() - i,
        {
            ptc[i] = code[i] | PTE_USER_RO;
            i = i + 1;
        }
        let mut pts = [0u64; 512];
        let mut i: usize = 0;
        while i < stack.len()
            invariant
                i <= stack@.len() <= 512,
                forall|k: int| 0 <= k < i ==> pts@[511 - k] == stack@[k] | PTE_USER_RW,
            decreases stack.len() - i,
        {
            pts[511 - i] = stack[i] | PTE_USER_RW;
            i = i + 1;
        }
        proof {
            lemma_disjoint_pages(t.pml4, t.pdpt);
            lemma_disjoint_pages(t.pml4, t.pd);
            lemma_disjoint_pages(t.pml4, t.pt_code);
            lemma_disjoint_pages(t.pml4, t.pt_stack);
            lemma_disjoint_pages(t.pdpt, t.pd);
            lemma_disjoint_pages(t.pdpt, t.pt_code);
            lemma_disjoint_pages(t.pdpt, t.pt_stack);
            lemma_disjoint_pages(t.pd, t.pt_code);
            lemma_disjoint_pages(t.pd, t.pt_stack);
            lemma_disjoint_pages(t.pt_code, t.pt_stack);
        }
        self.fill_table(t.pml4, &pml4);
        self.fill_table(t.pdpt, &pdpt);
        self.fill_table(t.pd, &pd);
        self.fill_table(t.pt_code, &ptc);
        self.fill_table(t.pt_stack, &pts);
        self.root = t.pml4;
        let ghost tf = self.tables@;
        proof {
            lemma_entry_bits(t.pdpt);
            lemma_entry_bits(t.pd);
            lemma_entry_bits(t.pt_code);
            lemma_entry_bits(t.pt_stack);
            assert(entry_at(tf, t.pml4, 0) == t.pdpt | PTE_USER_RW);
            assert(entry_at(tf, t.pdpt | PTE_USER_RW, 0) == t.pd | PTE_USER_RW);
            assert(entry_at(tf, t.pd | PTE_USER_RW, 2) == t.pt_code | PTE_USER_RW);
            assert(entry_at(tf, t.pd | PTE_USER_RW, 3) == t.pt_stack | PTE_USER_RW);
            assert forall|i: int| 0 <= i < code@.len() implies walk(tf, t.pml4, #[trigger] code_va(i), false)
                == Some(code@[i]) && walk(tf, t.pml4, code_va(i), true) is None by {
                lemma_user_indices(i as u64);
                lemma_entry_bits(code@[i]);
                assert(entry_at(tf, t.pt_code | PTE_USER_RW, i as u64) == code@[i] | PTE_USER_RO);
                assert(((code@[i] | PTE_USER_RO) & PTE_ADDR_MASK) | (code_va(i) & 0xFFF) == code@[i]);
            }
            assert forall|i: int| 0 <= i < stack@.len() implies walk(tf, t.pml4, #[trigger] stack_va(i), true)
                == Some(stack@[i]) by {
                lemma_user_indices(i as u64);
                lemma_entry_bits(stack@[i]);
                assert(entry_at(tf, t.pt_stack | PTE_USER_RW, (511 - i) as u64) == stack@[i]
                    | PTE_USER_RW);
                assert(((stack@[i] | PTE_USER_RW) & PTE_ADDR_MASK) | (stack_va(i) & 0xFFF) == stack@[i]);
            }
            assert forall|j: u64| 1 <= j < 512 implies #[trigger] entry_at(tf, t.pml4, j) == entry_at(
                t0,
                root0,
                j,
            ) by {
                assert((t.pml4 & PTE_ADDR_MASK) == t.pml4) by {
                    lemma_aligned_mask(t.pml4);
                }
            }
        }
    }
}

proof fn lemma_aligned_mask(p: u64)
    requires
        frame_ok(p),
    ensures
        p & PTE_ADDR_MASK == p,
        p % 8 == 0,
        (p / 8) % 512 == 0,
{
    assert((p & 0xFFF == 0 && p < 0x0010_0000_0000_0000) ==> p & 0x000F_FFFF_FFFF_F000 == p)
        by (bit_vector);
    assert((p & 0xFFF == 0) ==> p % 4096 == 0) by (bit_vector);
}

/// Distinct aligned table pages occupy disjoint word ranges.
proof fn lemma_disjoint_pages(p: u64, q: u64)
    requires
        frame_ok(p),
        frame_ok(q),
        p != q,
    ensures
        p / 8 + 512 <= q / 8 || q / 8 + 512 <= p / 8,
        p & PTE_ADDR_MASK == p,
        q & PTE_ADDR_MASK == q,
{
    lemma_aligned_mask(p);
    lemma_aligned_mask(q);
    assert((p & 0xFFF == 0 && q & 0xFFF == 0 && p != q) ==> (p / 8 + 512 <= q / 8 || q / 8 + 512
        <= p / 8)) by (bit_vector);
}

} // verus!
