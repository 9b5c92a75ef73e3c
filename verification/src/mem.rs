//! The paged memory model: a sparse, page-granular store of expression-valued
//! bytes covering the whole address space. Unwritten addresses read as
//! `Const(0)` without ever being materialized.

use core::ops::Range;

use vstd::arithmetic::div_mod::lemma_fundamental_div_mod;
use vstd::arithmetic::div_mod::lemma_fundamental_div_mod_converse_div;
use vstd::arithmetic::div_mod::lemma_fundamental_div_mod_converse_mod;
use vstd::arithmetic::div_mod::lemma_mod_division_less_than_divisor;
use vstd::prelude::*;

use crate::image::{elf_image_of, parse_elf, ElfImage, Segment, PT_LOAD};
use crate::ir::{Expr, ExprV};
use crate::LiftError;

verus! {

/// Size in bytes of one page of the memory model.
pub const PAGE_SIZE: usize = 4096;

/// A fixed-size run of expression-valued bytes, one element per byte offset.
#[derive(Debug)]
pub struct Page {
    /// The stored expressions, exactly [`PAGE_SIZE`] of them.
    pub bytes: Vec<Expr>,
}

impl Page {
    /// A well-formed page holds exactly one expression per byte offset.
    pub open spec fn wf(self) -> bool {
        self.bytes@.len() == PAGE_SIZE
    }

    /// A fresh page, holding `Const(0)` at every offset.
    pub fn new_zero() -> (r: Page)
        ensures
            r.wf(),
            forall|i: int| 0 <= i < PAGE_SIZE ==> r.bytes@[i]@ == ExprV::Const(0),
    {
        let mut bytes: Vec<Expr> = Vec::new();
        let mut i: usize = 0;
        while i < PAGE_SIZE
            invariant
                i == bytes@.len(),
                i <= PAGE_SIZE,
                forall|j: int| 0 <= j < i ==> bytes@[j]@ == ExprV::Const(0),
            decreases PAGE_SIZE - i,
        {
            bytes.push(Expr::Const(0));
            i = i + 1;
        }
        Page { bytes }
    }
}

/// The page index a given address falls in.
pub open spec fn page_of(a: int) -> int {
    a / (PAGE_SIZE as int)
}

/// The byte offset of a given address within its page.
pub open spec fn off_of(a: int) -> int {
    a % (PAGE_SIZE as int)
}

/// The expression stored at address `a` by a list of pages: the first page
/// whose index covers `a` decides, and with no such page the address reads as
/// `Const(0)`.
pub open spec fn stored_in(pages: Seq<(usize, Page)>, a: int) -> ExprV
    decreases pages.len(),
{
    if pages.len() == 0 {
        ExprV::Const(0)
    } else if pages[0].0 == page_of(a) {
        pages[0].1.bytes@[off_of(a)]@
    } else {
        stored_in(pages.subrange(1, pages.len() as int), a)
    }
}

/// No two pages in the list share an index.
pub open spec fn distinct_pages(pages: Seq<(usize, Page)>) -> bool {
    forall|i: int, j: int| 0 <= i < j < pages.len() ==> pages[i].0 != pages[j].0
}

/// A sparse mapping from page index to page; pages come into being on first
/// write.
#[derive(Debug)]
pub struct Mem {
    /// The materialized pages, keyed by page index.
    pub pages: Vec<(usize, Page)>,
}

impl Mem {
    /// Every page is full-sized and no page index repeats.
    pub open spec fn wf(self) -> bool {
        &&& forall|i: int| 0 <= i < self.pages@.len() ==> (#[trigger] self.pages@[i]).1.wf()
        &&& distinct_pages(self.pages@)
    }

    /// The expression this memory stores at address `a`.
    pub open spec fn stored(self, a: int) -> ExprV {
        stored_in(self.pages@, a)
    }

    /// The page index of a virtual address.
    pub fn page_index(vaddr: usize) -> (r: usize)
        ensures
            r == page_of(vaddr as int),
    {
        vaddr / PAGE_SIZE
    }

    /// Return offset into page.
    pub fn page_offset(vaddr: usize) -> (r: usize)
        ensures
            r == off_of(vaddr as int),
    {
        vaddr % PAGE_SIZE
    }

    /// Store `Const(byte)` at `vaddr`, materializing the covering page if it
    /// does not exist yet; every other address keeps its expression.
    pub fn set_byte(&mut self, vaddr: usize, byte: u8)
        requires
            old(self).wf(),
        ensures
            final(self).wf(),
            forall|a: int|
                final(self).stored(a) == if a == vaddr {
                    ExprV::Const(byte as i64)
                } else {
                    old(self).stored(a)
                },
    {
        let ind = Mem::page_index(vaddr);
        let off = Mem::page_offset(vaddr);
        proof {
            lemma_fundamental_div_mod(vaddr as int, PAGE_SIZE as int);
        }
        let mut i: usize = 0;
        while i < self.pages.len()
            invariant
                *self == *old(self),
                old(self).wf(),
                ind == page_of(vaddr as int),
                off == off_of(vaddr as int),
                vaddr == PAGE_SIZE * page_of(vaddr as int) + off_of(vaddr as int),
                i <= self.pages@.len(),
                forall|j: int| 0 <= j < i ==> (#[trigger] self.pages@[j]).0 != ind,
            decreases self.pages@.len() - i,
        {
            if self.pages[i].0 == ind {
                let (pind, mut pg) = self.pages.remove(i);
                proof {
                    assert(old(self).pages@[i as int].1.wf());
                    assert(distinct_pages(old(self).pages@));
                    assert(0 <= off_of(vaddr as int) < PAGE_SIZE);
                }
                pg.bytes.set(off, Expr::Const(byte as i64));
                self.pages.insert(i, (pind, pg));
                proof {
                    assert(self.pages@ =~= old(self).pages@.update(
                        i as int,
                        (pind, Page { bytes: pg.bytes }),
                    ));
                    let s = old(self).pages@;
                    assert forall|a: int| #![all_triggers]
                        self.stored(a) == if a == vaddr {
                            ExprV::Const(byte as i64)
                        } else {
                            old(self).stored(a)
                        } by {
                        lemma_stored_update(
                            s,
                            i as int,
                            (pind, Page { bytes: pg.bytes }),
                            a,
                        );
                        if page_of(a) == ind {
                            lemma_stored_at(s, i as int, a);
                            if off_of(a) == off_of(vaddr as int) && a != vaddr {
                                lemma_fundamental_div_mod(a, PAGE_SIZE as int);
                            }
                        }
                    }
                }
                return ;
            }
            i = i + 1;
        }
        let mut pg = Page::new_zero();
        pg.bytes.set(off, Expr::Const(byte as i64));
        let ghost s = self.pages@;
        self.pages.push((ind, pg));
        proof {
            let p = (ind, Page { bytes: pg.bytes });
            assert(self.pages@ =~= s.push(p));
            assert forall|a: int| #![all_triggers]
                self.stored(a) == if a == vaddr {
                    ExprV::Const(byte as i64)
                } else {
                    old(self).stored(a)
                } by {
                lemma_stored_push(s, p, a);
                if page_of(a) == ind {
                    lemma_stored_absent(s, a);
                    if off_of(a) == off_of(vaddr as int) && a != vaddr {
                        lemma_fundamental_div_mod(a, PAGE_SIZE as int);
                    }
                }
            }
        }
    }

    /// Copy `bytes` into memory over `mem_range`, one byte per address and in
    /// address order, padding with zero once the byte run is exhausted; every
    /// address outside the range keeps its expression.
    pub fn load_bytes(&mut self, bytes: &[u8], mem_range: Range<usize>)
        requires
            old(self).wf(),
            mem_range.start <= mem_range.end,
        ensures
            final(self).wf(),
            forall|a: int|
                final(self).stored(a) == if mem_range.start <= a < mem_range.end {
                    ExprV::Const(seg_byte(bytes@, a - mem_range.start) as i64)
                } else {
                    old(self).stored(a)
                },
    {
        let mut vaddr = mem_range.start;
        while vaddr < mem_range.end
            invariant
                self.wf(),
                mem_range.start <= vaddr <= mem_range.end,
                forall|a: int|
                    self.stored(a) == if mem_range.start <= a < vaddr {
                        ExprV::Const(seg_byte(bytes@, a - mem_range.start) as i64)
                    } else {
                        old(self).stored(a)
                    },
            decreases mem_range.end - vaddr,
        {
            let i = vaddr - mem_range.start;
            let b = if i < bytes.len() {
                bytes[i]
            } else {
                0
            };
            self.set_byte(vaddr, b);
            vaddr = vaddr + 1;
        }
    }
    /// The expression stored at `vaddr`: the covering page's entry, or
    /// `Const(0)` when no page covers the address.
    pub fn read_byte(&self, vaddr: usize) -> (r: Expr)
        requires
            self.wf(),
        ensures
            r@ == self.stored(vaddr as int),
    {
        let ind = Mem::page_index(vaddr);
        let off = Mem::page_offset(vaddr);
        let mut i: usize = 0;
        while i < self.pages.len()
            invariant
                self.wf(),
                ind == page_of(vaddr as int),
                off == off_of(vaddr as int),
                i <= self.pages@.len(),
                forall|j: int| 0 <= j < i ==> (#[trigger] self.pages@[j]).0 != ind,
            decreases self.pages@.len() - i,
        {
            if self.pages[i].0 == ind {
                proof {
                    lemma_stored_at(self.pages@, i as int, vaddr as int);
                    assert(0 <= off_of(vaddr as int) < PAGE_SIZE);
                }
                return self.pages[i].1.bytes[off].duplicate();
            }
            i = i + 1;
        }
        proof {
            lemma_stored_absent(self.pages@, vaddr as int);
        }
        Expr::Const(0)
    }

    /// The contents of this memory as a function from address to expression.
    pub open spec fn as_fn(self) -> spec_fn(int) -> ExprV {
        |a: int| self.stored(a)
    }

    /// Load one loadable segment: its file bytes at its virtual address, in
    /// order, zero-filled from the file size up to the memory size.
    fn load_elf_phdr(&mut self, elf_bytes: &[u8], seg: &Segment)
        requires
            old(self).wf(),
            seg_ok(elf_bytes@.len() as int, *seg),
        ensures
            final(self).wf(),
            forall|a: int|
                final(self).stored(a) == load_seg_model(old(self).as_fn(), elf_bytes@, *seg)(a),
    {
        let n = elf_bytes.len();
        proof {
            assert(seg.file_off + seg.file_size <= n);
        }
        let lo = seg.file_off as usize;
        let hi = (seg.file_off + seg.file_size) as usize;
        let sl = vstd::slice::slice_subrange(elf_bytes, lo, hi);
        let start = seg.vaddr as usize;
        let end = (seg.vaddr + seg.mem_size) as usize;
        self.load_bytes(sl, start..end);
    }

    /// Load every loadable segment of the image, in file order: each
    /// segment's file-backed bytes are copied to its virtual address and the
    /// rest of its memory range is zero-filled. A loadable segment out of
    /// range is refused before anything is written.
    pub fn load_elf(&mut self, elf_bytes: &[u8], elf: &ElfImage) -> (r: Result<(), LiftError>)
        requires
            old(self).wf(),
        ensures
            final(self).wf(),
            (r is Ok) == segs_ok(elf_bytes@.len() as int, elf.segments@),
            (match r {
                Ok(()) => forall|a: int|
                    final(self).stored(a) == load_segs_model(
                        old(self).as_fn(),
                        elf_bytes@,
                        elf.segments@,
                    )(a),
                Err(e) => e == LiftError::Range && *final(self) == *old(self),
            }),
    {
        let ghost elf_len = elf_bytes@.len() as int;
        let len_u = elf_bytes.len() as u64;
        let mut i: usize = 0;
        while i < elf.segments.len()
            invariant
                *self == *old(self),
                old(self).wf(),
                i <= elf.segments@.len(),
                len_u == elf_bytes@.len(),
                forall|k: int|
                    0 <= k < i && (#[trigger] elf.segments@[k]).p_type == PT_LOAD ==> seg_ok(
                        elf_bytes@.len() as int,
                        elf.segments@[k],
                    ),
            decreases elf.segments@.len() - i,
        {
            let seg = &elf.segments[i];
            if seg.p_type == PT_LOAD {
                if seg.file_off > len_u || seg.file_size > len_u - seg.file_off {
                    proof {
                        assert(!seg_ok(elf_bytes@.len() as int, elf.segments@[i as int]));
                    }
                    return Err(LiftError::Range);
                }
                let end = match seg.vaddr.checked_add(seg.mem_size) {
                    Some(e) => e,
                    None => {
                        proof {
                            assert(!seg_ok(elf_bytes@.len() as int, elf.segments@[i as int]));
                        }
                        return Err(LiftError::Range);
                    },
                };
                if end > usize::MAX as u64 {
                    proof {
                        assert(!seg_ok(elf_bytes@.len() as int, elf.segments@[i as int]));
                    }
                    return Err(LiftError::Range);
                }
            }
            i = i + 1;
        }
        let ghost prev0 = old(self).as_fn();
        let ghost segs = elf.segments@;
        let mut i: usize = 0;
        proof {
            assert(segs.subrange(0, segs.len() as int) =~= segs);
            assert(self.as_fn() =~= prev0);
        }
        while i < elf.segments.len()
            invariant
                i <= elf.segments@.len(),
                segs == elf.segments@,
                segs_ok(elf_bytes@.len() as int, segs),
                self.wf(),
                load_segs_model(self.as_fn(), elf_bytes@, segs.subrange(i as int, segs.len() as int))
                    == load_segs_model(prev0, elf_bytes@, segs),
            decreases elf.segments@.len() - i,
        {
            let ghost tail = segs.subrange(i as int, segs.len() as int);
            let ghost cur = self.as_fn();
            let seg = &elf.segments[i];
            if seg.p_type == PT_LOAD {
                self.load_elf_phdr(elf_bytes, seg);
                proof {
                    assert(self.as_fn() =~= load_seg_model(cur, elf_bytes@, segs[i as int]));
                }
            }
            proof {
                assert(tail[0] == segs[i as int]);
                assert(tail.subrange(1, tail.len() as int) =~= segs.subrange(
                    i + 1,
                    segs.len() as int,
                ));
            }
            i = i + 1;
        }
        proof {
            assert(segs.subrange(segs.len() as int, segs.len() as int) =~= Seq::<Segment>::empty());
            assert(forall|a: int|
                #[trigger] self.stored(a) == load_segs_model(prev0, elf_bytes@, segs)(a));
        }
        Ok(())
    }

    /// Parse an executable image and load its loadable segments.
    pub fn load_elf_bytes(&mut self, bytes: &[u8]) -> (r: Result<(), LiftError>)
        requires
            old(self).wf(),
        ensures
            final(self).wf(),
            (match r {
                Ok(()) => (elf_image_of(bytes@) matches Ok(img) && (segs_ok(
                    bytes@.len() as int,
                    img.segments@,
                ) && forall|a: int|
                    final(self).stored(a) == load_segs_model(
                        old(self).as_fn(),
                        bytes@,
                        img.segments@,
                    )(a))),
                Err(e) => *final(self) == *old(self) && ((e == LiftError::BadImage
                    && elf_image_of(bytes@) is Err) || (e == LiftError::Range && (elf_image_of(
                    bytes@,
                ) matches Ok(img) && !segs_ok(bytes@.len() as int, img.segments@)))),
            }),
    {
        let img = match parse_elf(bytes) {
            Ok(img) => img,
            Err(_) => {
                return Err(LiftError::BadImage);
            },
        };
        self.load_elf(bytes, &img)
    }
}

/// A loadable segment must lie within the file and within the address space.
pub open spec fn seg_ok(elf_len: int, seg: Segment) -> bool {
    &&& seg.file_off + seg.file_size <= elf_len
    &&& seg.vaddr + seg.mem_size <= usize::MAX
}

/// Every loadable segment of the list is in range.
pub open spec fn segs_ok(elf_len: int, segs: Seq<Segment>) -> bool {
    forall|i: int|
        0 <= i < segs.len() && (#[trigger] segs[i]).p_type == PT_LOAD ==> seg_ok(
            elf_len,
            segs[i],
        )
}

/// The contents of memory after loading one segment over `prev`: inside the
/// segment's virtual range, the file byte (zero past the file size) as a
/// constant expression; elsewhere, whatever was there before.
pub open spec fn load_seg_model(
    prev: spec_fn(int) -> ExprV,
    elf: Seq<u8>,
    seg: Segment,
) -> spec_fn(int) -> ExprV {
    |a: int|
        if seg.vaddr <= a < seg.vaddr + seg.mem_size {
            ExprV::Const(
                seg_byte(
                    elf.subrange(seg.file_off as int, seg.file_off + seg.file_size),
                    a - seg.vaddr,
                ) as i64,
            )
        } else {
            prev(a)
        }
}

/// The contents of memory after loading the loadable segments of the list in
/// order over `prev`; later segments overwrite earlier ones.
pub open spec fn load_segs_model(
    prev: spec_fn(int) -> ExprV,
    elf: Seq<u8>,
    segs: Seq<Segment>,
) -> spec_fn(int) -> ExprV
    decreases segs.len(),
{
    if segs.len() == 0 {
        prev
    } else {
        load_segs_model(
            if segs[0].p_type == PT_LOAD {
                load_seg_model(prev, elf, segs[0])
            } else {
                prev
            },
            elf,
            segs.subrange(1, segs.len() as int),
        )
    }
}

/// The byte a segment stores at relative position `i`: its own byte where it
/// has one, and zero past its end.
pub open spec fn seg_byte(bytes: Seq<u8>, i: int) -> u8 {
    if 0 <= i < bytes.len() {
        bytes[i]
    } else {
        0
    }
}

/// Page addressing: an address one full page away always falls in another
/// page (at the same offset), while the successor of an address that is not
/// the last byte of its block falls in the same page, at the next offset.
pub proof fn lemma_page_addressing(a: int)
    requires
        0 <= a,
    ensures
        page_of(a + PAGE_SIZE) == page_of(a) + 1,
        off_of(a + PAGE_SIZE) == off_of(a),
        off_of(a) < PAGE_SIZE - 1 ==> page_of(a + 1) == page_of(a) && off_of(a + 1) == off_of(a)
            + 1,
{
    let d = PAGE_SIZE as int;
    lemma_fundamental_div_mod(a, d);
    lemma_mod_division_less_than_divisor(a, d);
    lemma_fundamental_div_mod_converse_div(a + d, d, page_of(a) + 1, off_of(a));
    lemma_fundamental_div_mod_converse_mod(a + d, d, page_of(a) + 1, off_of(a));
    if off_of(a) < d - 1 {
        lemma_fundamental_div_mod_converse_div(a + 1, d, page_of(a), off_of(a) + 1);
        lemma_fundamental_div_mod_converse_mod(a + 1, d, page_of(a), off_of(a) + 1);
    }
}

/// With no page covering `a`, the stored expression is `Const(0)`.
proof fn lemma_stored_absent(s: Seq<(usize, Page)>, a: int)
    requires
        forall|k: int| 0 <= k < s.len() ==> (#[trigger] s[k]).0 != page_of(a),
    ensures
        stored_in(s, a) == ExprV::Const(0),
    decreases s.len(),
{
    if s.len() > 0 {
        lemma_stored_absent(s.subrange(1, s.len() as int), a);
    }
}

/// The first page covering `a` decides what is stored there.
proof fn lemma_stored_at(s: Seq<(usize, Page)>, i: int, a: int)
    requires
        0 <= i < s.len(),
        s[i].0 == page_of(a),
        forall|j: int| 0 <= j < i ==> (#[trigger] s[j]).0 != page_of(a),
    ensures
        stored_in(s, a) == s[i].1.bytes@[off_of(a)]@,
    decreases s.len(),
{
    if i > 0 {
        lemma_stored_at(s.subrange(1, s.len() as int), i - 1, a);
    }
}

/// Replacing the page at position `i` with one of the same index changes what
/// is stored exactly on that page.
proof fn lemma_stored_update(s: Seq<(usize, Page)>, i: int, p: (usize, Page), a: int)
    requires
        0 <= i < s.len(),
        p.0 == s[i].0,
        distinct_pages(s),
    ensures
        stored_in(s.update(i, p), a) == if page_of(a) == p.0 {
            p.1.bytes@[off_of(a)]@
        } else {
            stored_in(s, a)
        },
    decreases s.len(),
{
    let t = s.update(i, p);
    if i == 0 {
        if t[0].0 != page_of(a) {
            assert(t.subrange(1, t.len() as int) =~= s.subrange(1, s.len() as int));
        }
    } else {
        assert(t.subrange(1, t.len() as int) =~= s.subrange(1, s.len() as int).update(
            i - 1,
            p,
        ));
        lemma_stored_update(s.subrange(1, s.len() as int), i - 1, p, a);
    }
}

/// Appending a page with a fresh index changes what is stored exactly on that
/// page.
proof fn lemma_stored_push(s: Seq<(usize, Page)>, p: (usize, Page), a: int)
    requires
        forall|k: int| 0 <= k < s.len() ==> (#[trigger] s[k]).0 != p.0,
    ensures
        stored_in(s.push(p), a) == if page_of(a) == p.0 {
            p.1.bytes@[off_of(a)]@
        } else {
            stored_in(s, a)
        },
    decreases s.len(),
{
    let t = s.push(p);
    if s.len() == 0 {
        assert(t[0] == p);
        if page_of(a) == p.0 {
            assert(stored_in(t, a) == p.1.bytes@[off_of(a)]@);
        } else {
            assert(t.subrange(1, 1) =~= Seq::<(usize, Page)>::empty());
            assert(stored_in(t, a) == ExprV::Const(0));
        }
    } else {
        assert(t[0] == s[0]);
        assert(t.subrange(1, t.len() as int) =~= s.subrange(1, s.len() as int).push(p));
        lemma_stored_push(s.subrange(1, s.len() as int), p, a);
        assert(s[0].0 != p.0);
        if s[0].0 == page_of(a) {
            assert(stored_in(t, a) == s[0].1.bytes@[off_of(a)]@);
            assert(stored_in(s, a) == s[0].1.bytes@[off_of(a)]@);
        } else {
            assert(stored_in(t, a) == stored_in(t.subrange(1, t.len() as int), a));
            assert(stored_in(s, a) == stored_in(s.subrange(1, s.len() as int), a));
        }
    }
}

impl Default for Mem {
    /// An empty memory: every address reads as `Const(0)`.
    fn default() -> (r: Mem)
        ensures
            r.wf(),
            forall|a: int| r.stored(a) == ExprV::Const(0),
    {
        Mem { pages: Vec::new() }
    }
}

} // verus!
