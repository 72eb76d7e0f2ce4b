use vstd::prelude::*;

use crate::color::Rgb;
use crate::spans::StyleSpan;

verus! {

/// The cache after looking up `c`: unchanged when `c` already has a handle,
/// otherwise with a new handle for `c` at the end.
pub open spec fn cache_insert(cache: Seq<Rgb>, c: Rgb) -> Seq<Rgb> {
    if cache.contains(c) {
        cache
    } else {
        cache.push(c)
    }
}

/// The cache after looking up the colours of `spans` in order.
pub open spec fn cache_after(cache: Seq<Rgb>, spans: Seq<StyleSpan>) -> Seq<Rgb>
    decreases spans.len(),
{
    if spans.len() == 0 {
        cache
    } else {
        cache_insert(cache_after(cache, spans.drop_last()), spans.last().color)
    }
}

/// The handle of colour `c`: its position in the cache.
pub open spec fn handle_of(cache: Seq<Rgb>, c: Rgb) -> int {
    choose|h: int| 0 <= h < cache.len() && cache[h] == c
}

/// A span of the document bound to the style handle that paints it.
#[derive(Debug, Clone, Copy, PartialEq, Eq, Structural)]
pub struct AppliedSpan {
    pub start: usize,
    pub end: usize,
    pub handle: usize,
}

/// Each span bound to the handle of its colour in `cache`.
pub open spec fn resolve(cache: Seq<Rgb>, spans: Seq<StyleSpan>) -> Seq<AppliedSpan> {
    Seq::new(
        spans.len(),
        |k: int|
            AppliedSpan {
                start: spans[k].start,
                end: spans[k].end,
                handle: handle_of(cache, spans[k].color) as usize,
            },
    )
}

/// What one highlighting pass does to the destination surface: first remove
/// the ranges of handles `0..clear`, the ones that existed before the pass;
/// then register the handles the pass created (from `clear` up to the cache's
/// new length); then apply `applied` in order.
pub struct PassPlan {
    pub clear: usize,
    pub applied: Vec<AppliedSpan>,
}

/// Style handles of one document, one per distinct colour, in the order they
/// were created. Handles are never removed: a handle is its position here.
pub struct StyleCache {
    colors: Vec<Rgb>,
}

impl View for StyleCache {
    type V = Seq<Rgb>;

    closed spec fn view(&self) -> Seq<Rgb> {
        self.colors@
    }
}

impl StyleCache {
    /// Well-formed: each colour has at most one handle.
    pub closed spec fn wf(&self) -> bool {
        self.colors@.no_duplicates()
    }

    /// A cache with no handles.
    pub fn new() -> (r: StyleCache)
        ensures
            r.wf(),
            r@.no_duplicates(),
            r@ == Seq::<Rgb>::empty(),
    {
        StyleCache { colors: Vec::new() }
    }

    /// The number of handles.
    pub fn len(&self) -> (r: usize)
        ensures
            r == self@.len(),
    {
        self.colors.len()
    }

    /// The colour that handle `handle` paints with.
    pub fn color(&self, handle: usize) -> (r: Rgb)
        requires
            handle < self@.len(),
        ensures
            r == self@[handle as int],
    {
        self.colors[handle]
    }

    /// The handle of `c`, if it has one.
    pub fn lookup(&self, c: Rgb) -> (r: Option<usize>)
        requires
            self.wf(),
        ensures
            r is Some <==> self@.contains(c),
            r matches Some(h) ==> h < self@.len() && self@[h as int] == c && h == handle_of(
                self@,
                c,
            ),
    {
        let mut h: usize = 0;
        while h < self.colors.len()
            invariant
                0 <= h <= self.colors@.len(),
                self.colors@.no_duplicates(),
                forall|j: int| 0 <= j < h ==> self.colors@[j] != c,
            decreases self.colors@.len() - h,
        {
            if self.colors[h] == c {
                proof {
                    lemma_handle_unique(self.colors@, c, h as int);
                }
                return Some(h);
            }
            h = h + 1;
        }
        None
    }

    /// The handle of `c`, created at the end of the cache when `c` has none yet.
    pub fn handle_for(&mut self, c: Rgb) -> (r: usize)
        requires
            old(self).wf(),
        ensures
            final(self).wf(),
            final(self)@.no_duplicates(),
            final(self)@ == cache_insert(old(self)@, c),
            r < final(self)@.len(),
            final(self)@[r as int] == c,
            r == handle_of(final(self)@, c),
    {
        match self.lookup(c) {
            Some(h) => h,
            None => {
                let h = self.colors.len();
                let ghost before = self.colors@;
                self.colors.push(c);
                proof {
                    assert(self.colors@ == before.push(c));
                    assert forall|a: int, b: int|
                        0 <= a < self.colors@.len() && 0 <= b < self.colors@.len() && a != b
                            implies self.colors@[a] != self.colors@[b] by {
                        if a == h as int {
                            assert(!before.contains(c));
                            assert(self.colors@[b] == before[b]);
                        } else if b == h as int {
                            assert(!before.contains(c));
                            assert(self.colors@[a] == before[a]);
                        }
                    }
                    lemma_handle_unique(self.colors@, c, h as int);
                }
                h
            },
        }
    }

    /// Binds each span to the handle of its colour, creating the missing
    /// handles in the order their colours first appear. The plan clears the
    /// handles that existed before the pass.
    pub fn plan_pass(&mut self, spans: &Vec<StyleSpan>) -> (r: PassPlan)
        requires
            old(self).wf(),
        ensures
            final(self).wf(),
            final(self)@.no_duplicates(),
            old(self)@.is_prefix_of(final(self)@),
            final(self)@ == cache_after(old(self)@, spans@),
            r.clear == old(self)@.len(),
            r.applied@ == resolve(final(self)@, spans@),
    {
        let clear = self.colors.len();
        let ghost start = self@;
        let mut k: usize = 0;
        while k < spans.len()
            invariant
                0 <= k <= spans@.len(),
                self.wf(),
                self@ == cache_after(start, spans@.subrange(0, k as int)),
            decreases spans@.len() - k,
        {
            let _ = self.handle_for(spans[k].color);
            assert(spans@.subrange(0, k + 1).drop_last() =~= spans@.subrange(0, k as int));
            k = k + 1;
        }
        assert(spans@.subrange(0, spans@.len() as int) =~= spans@);
        proof {
            lemma_cache_after_extends(start, spans@);
        }
        let mut applied: Vec<AppliedSpan> = Vec::new();
        let mut j: usize = 0;
        while j < spans.len()
            invariant
                0 <= j <= spans@.len(),
                self.wf(),
                self@ == cache_after(start, spans@),
                applied@ =~= resolve(self@, spans@).subrange(0, j as int),
            decreases spans@.len() - j,
        {
            let s = spans[j];
            proof {
                lemma_cache_after_contains(start, spans@, j as int);
            }
            let h = match self.lookup(s.color) {
                Some(h) => h,
                None => 0,
            };
            applied.push(AppliedSpan { start: s.start, end: s.end, handle: h });
            j = j + 1;
        }
        PassPlan { clear, applied }
    }
}

proof fn lemma_handle_unique(cache: Seq<Rgb>, c: Rgb, h: int)
    requires
        cache.no_duplicates(),
        0 <= h < cache.len(),
        cache[h] == c,
    ensures
        handle_of(cache, c) == h,
{
    let g = handle_of(cache, c);
    assert(0 <= g < cache.len() && cache[g] == c);
}

/// After a pass, the colour of every one of its spans has a handle.
proof fn lemma_cache_after_contains(cache: Seq<Rgb>, spans: Seq<StyleSpan>, k: int)
    requires
        0 <= k < spans.len(),
    ensures
        cache_after(cache, spans).contains(spans[k].color),
    decreases spans.len(),
{
    let prev = cache_after(cache, spans.drop_last());
    if k == spans.len() - 1 {
        if !prev.contains(spans.last().color) {
            assert(prev.push(spans.last().color)[prev.len() as int] == spans[k].color);
        }
    } else {
        lemma_cache_after_contains(cache, spans.drop_last(), k);
        let w = choose|i: int| 0 <= i < prev.len() && prev[i] == spans[k].color;
        if !prev.contains(spans.last().color) {
            assert(prev.push(spans.last().color)[w] == spans[k].color);
        }
    }
}

/// A pass only ever adds handles after the existing ones.
proof fn lemma_cache_after_extends(cache: Seq<Rgb>, spans: Seq<StyleSpan>)
    ensures
        cache.is_prefix_of(cache_after(cache, spans)),
    decreases spans.len(),
{
    if spans.len() > 0 {
        lemma_cache_after_extends(cache, spans.drop_last());
        let prev = cache_after(cache, spans.drop_last());
        if !prev.contains(spans.last().color) {
            assert(cache.is_prefix_of(prev.push(spans.last().color))) by {
                assert forall|i: int| 0 <= i < cache.len() implies prev.push(spans.last().color)[i]
                    == cache[i] by {
                    assert(prev[i] == cache[i]);
                }
            }
        }
    }
}

/// A pass whose colours all have handles leaves the cache as it is.
proof fn lemma_cache_after_known(cache: Seq<Rgb>, spans: Seq<StyleSpan>)
    requires
        forall|k: int| 0 <= k < spans.len() ==> cache.contains(#[trigger] spans[k].color),
    ensures
        cache_after(cache, spans) == cache,
    decreases spans.len(),
{
    if spans.len() > 0 {
        let rest = spans.drop_last();
        assert forall|k: int| 0 <= k < rest.len() implies cache.contains(#[trigger] rest[k].color) by {
            assert(rest[k] == spans[k]);
        }
        lemma_cache_after_known(cache, rest);
        assert(cache.contains(spans[spans.len() - 1].color));
    }
}

/// Re-highlighting is idempotent: a second pass over the same spans creates no
/// handle and binds every span to the same handle as the first pass did.
pub proof fn lemma_second_pass_identical(cache: Seq<Rgb>, spans: Seq<StyleSpan>)
    ensures
        cache_after(cache_after(cache, spans), spans) == cache_after(cache, spans),
        resolve(cache_after(cache_after(cache, spans), spans), spans) == resolve(
            cache_after(cache, spans),
            spans,
        ),
{
    let once = cache_after(cache, spans);
    assert forall|k: int| 0 <= k < spans.len() implies once.contains(#[trigger] spans[k].color) by {
        lemma_cache_after_contains(cache, spans, k);
    }
    lemma_cache_after_known(once, spans);
}

} // verus!
