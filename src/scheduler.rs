use vstd::prelude::*;

use ropey::Rope;

use crate::config::HIGHLIGHT_CHAR_CUTOFF;
use crate::spans::StyleSpan;

verus! {

/// ropey's `Rope`, the document's text; what it holds is named by `rope_text`.
#[verifier::external_type_specification]
#[verifier::external_body]
pub struct ExRope(Rope);

/// The characters a rope holds.
pub uninterp spec fn rope_text(r: Rope) -> Seq<char>;

/// Relies on ropey's `Rope::from_str`: a rope holding exactly `text`.
#[verifier::external_body]
fn rope_from_str(text: &str) -> (r: Rope)
    ensures
        rope_text(r) == text@,
{
    Rope::from_str(text)
}

/// Relies on ropey's `Rope::len_chars`: the number of characters held.
#[verifier::external_body]
fn rope_len_chars(r: &Rope) -> (n: usize)
    ensures
        n == rope_text(*r).len(),
{
    r.len_chars()
}

/// Relies on ropey's `Rope::remove`: deletes the characters `start..end`; it
/// panics unless `start <= end <= len_chars()`.
#[verifier::external_body]
fn rope_remove(r: &mut Rope, start: usize, end: usize)
    requires
        start <= end <= rope_text(*old(r)).len(),
    ensures
        rope_text(*final(r)) == rope_text(*old(r)).subrange(0, start as int) + rope_text(
            *old(r),
        ).subrange(end as int, rope_text(*old(r)).len() as int),
{
    r.remove(start..end)
}

/// Relies on ropey's `Rope::insert`: puts `text` before character `at`; it
/// panics unless `at <= len_chars()`.
#[verifier::external_body]
fn rope_insert(r: &mut Rope, at: usize, text: &str)
    requires
        at <= rope_text(*old(r)).len(),
    ensures
        rope_text(*final(r)) == rope_text(*old(r)).subrange(0, at as int) + text@ + rope_text(
            *old(r),
        ).subrange(at as int, rope_text(*old(r)).len() as int),
{
    r.insert(at, text)
}

/// Relies on ropey's `From<&Rope> for String`: the characters held, as a string.
#[verifier::external_body]
fn rope_to_string(r: &Rope) -> (s: String)
    ensures
        s@ == rope_text(*r),
{
    String::from(r)
}

/// Whether a document of `chars` characters is highlighted automatically.
pub open spec fn within_cutoff(chars: nat) -> bool {
    chars <= HIGHLIGHT_CHAR_CUTOFF
}

/// A highlighting job: a private copy of the document's text, tagged with the
/// generation that was current when the job was dispatched.
pub struct HighlightJob {
    pub generation: u64,
    pub text: String,
}

/// Owns one document's generation counter and its latest text, and decides when
/// a highlighting job is dispatched and whether a finished one is applied.
pub struct HighlightScheduler {
    generation: u64,
    document: Rope,
}

/// What a finished job with generation `job` does when the counter reads
/// `current`: its spans are applied when the two agree and dropped otherwise.
pub open spec fn job_outcome(current: u64, job: u64, spans: Seq<StyleSpan>) -> Option<
    Seq<StyleSpan>,
> {
    if job == current {
        Some(spans)
    } else {
        None
    }
}

/// The spans applied, in order, when finished jobs arrive as `deliveries` while
/// the counter reads `current`.
pub open spec fn applied_results(current: u64, deliveries: Seq<(u64, Seq<StyleSpan>)>) -> Seq<
    Seq<StyleSpan>,
>
    decreases deliveries.len(),
{
    if deliveries.len() == 0 {
        Seq::empty()
    } else {
        let last = deliveries.last();
        let before = applied_results(current, deliveries.drop_last());
        match job_outcome(current, last.0, last.1) {
            Some(s) => before.push(s),
            None => before,
        }
    }
}

impl HighlightScheduler {
    /// The generation counter.
    pub closed spec fn spec_generation(&self) -> u64 {
        self.generation
    }

    /// The document's latest text.
    pub closed spec fn text(&self) -> Seq<char> {
        rope_text(self.document)
    }

    /// A document at generation 0 holding `initial_text`.
    pub fn new(initial_text: &str) -> (r: HighlightScheduler)
        ensures
            r.spec_generation() == 0,
            r.text() == initial_text@,
    {
        HighlightScheduler { generation: 0, document: rope_from_str(initial_text) }
    }

    /// The generation counter.
    #[verifier::when_used_as_spec(spec_generation)]
    pub fn generation(&self) -> (r: u64)
        ensures
            r == self.spec_generation(),
    {
        self.generation
    }

    /// The number of characters in the document.
    pub fn char_count(&self) -> (r: usize)
        ensures
            r == self.text().len(),
    {
        rope_len_chars(&self.document)
    }

    /// The job for the current generation and text; none when the document is
    /// above the cutoff. At creation this is the document's first highlighting.
    pub fn current_job(&self) -> (r: Option<HighlightJob>)
        ensures
            r is Some <==> within_cutoff(self.text().len()),
            r matches Some(job) ==> job.generation == self.spec_generation() && job.text@
                == self.text(),
    {
        if rope_len_chars(&self.document) > HIGHLIGHT_CHAR_CUTOFF {
            None
        } else {
            Some(HighlightJob { generation: self.generation, text: rope_to_string(&self.document) })
        }
    }

    /// The buffer now holds `text`: the generation moves on by one, the
    /// document takes the new text, and the job for it is returned unless the
    /// text is above the cutoff.
    pub fn on_edit(&mut self, text: &str) -> (r: Option<HighlightJob>)
        requires
            old(self).spec_generation() < u64::MAX,
        ensures
            final(self).spec_generation() == old(self).spec_generation() + 1,
            final(self).text() == text@,
            r is Some <==> within_cutoff(text@.len()),
            r matches Some(job) ==> job.generation == final(self).spec_generation() && job.text@
                == text@,
    {
        self.generation = self.generation + 1;
        let len = rope_len_chars(&self.document);
        rope_remove(&mut self.document, 0, len);
        rope_insert(&mut self.document, 0, text);
        assert(rope_text(self.document) =~= text@);
        self.current_job()
    }

    /// The theme or grammar changed: the generation moves on by one and the
    /// unchanged text is highlighted again, unless it is above the cutoff.
    pub fn force_rehighlight(&mut self) -> (r: Option<HighlightJob>)
        requires
            old(self).spec_generation() < u64::MAX,
        ensures
            final(self).spec_generation() == old(self).spec_generation() + 1,
            final(self).text() == old(self).text(),
            r is Some <==> within_cutoff(old(self).text().len()),
            r matches Some(job) ==> job.generation == final(self).spec_generation() && job.text@
                == old(self).text(),
    {
        self.generation = self.generation + 1;
        self.current_job()
    }

    /// A job tagged `job_generation` finished with `spans`: they are handed on
    /// when that is still the current generation, and dropped otherwise.
    pub fn on_job_complete(&self, job_generation: u64, spans: Vec<StyleSpan>) -> (r: Option<
        Vec<StyleSpan>,
    >)
        ensures
            r matches Some(v) ==> Some(v@) == job_outcome(self.spec_generation(), job_generation, spans@),
            r is None ==> job_outcome(self.spec_generation(), job_generation, spans@) is None,
    {
        if job_generation == self.generation {
            Some(spans)
        } else {
            None
        }
    }
}

/// The deliveries that carry generation `g`.
pub open spec fn count_generation(deliveries: Seq<(u64, Seq<StyleSpan>)>, g: u64) -> nat
    decreases deliveries.len(),
{
    if deliveries.len() == 0 {
        0
    } else {
        count_generation(deliveries.drop_last(), g) + if deliveries.last().0 == g {
            1nat
        } else {
            0nat
        }
    }
}

proof fn lemma_applied_single(current: u64, deliveries: Seq<(u64, Seq<StyleSpan>)>, k: int)
    requires
        0 <= k < deliveries.len(),
        deliveries[k].0 == current,
        count_generation(deliveries, current) == 1,
    ensures
        applied_results(current, deliveries) == seq![deliveries[k].1],
    decreases deliveries.len(),
{
    let rest = deliveries.drop_last();
    if k == deliveries.len() - 1 {
        lemma_applied_none(current, rest);
    } else {
        assert(rest[k] == deliveries[k]);
        lemma_count_positive(rest, current, k);
        lemma_applied_single(current, rest, k);
    }
}

proof fn lemma_count_positive(deliveries: Seq<(u64, Seq<StyleSpan>)>, g: u64, k: int)
    requires
        0 <= k < deliveries.len(),
        deliveries[k].0 == g,
    ensures
        count_generation(deliveries, g) >= 1,
    decreases deliveries.len(),
{
    if k < deliveries.len() - 1 {
        let rest = deliveries.drop_last();
        assert(rest[k] == deliveries[k]);
        lemma_count_positive(rest, g, k);
    }
}

proof fn lemma_applied_none(current: u64, deliveries: Seq<(u64, Seq<StyleSpan>)>)
    requires
        count_generation(deliveries, current) == 0,
    ensures
        applied_results(current, deliveries) == Seq::<Seq<StyleSpan>>::empty(),
    decreases deliveries.len(),
{
    if deliveries.len() > 0 {
        lemma_applied_none(current, deliveries.drop_last());
    }
}

/// Stale results are dropped whatever order they arrive in: after three edits
/// from generation `g0`, the jobs of the three generations may finish in any
/// order, and only the spans of the last one are applied.
pub proof fn lemma_only_latest_applied(
    g0: u64,
    deliveries: Seq<(u64, Seq<StyleSpan>)>,
    latest: Seq<StyleSpan>,
)
    requires
        g0 + 3 <= u64::MAX,
        deliveries.len() == 3,
        count_generation(deliveries, (g0 + 1) as u64) == 1,
        count_generation(deliveries, (g0 + 2) as u64) == 1,
        count_generation(deliveries, (g0 + 3) as u64) == 1,
        forall|k: int|
            0 <= k < 3 && #[trigger] deliveries[k].0 == g0 + 3 ==> deliveries[k].1 == latest,
    ensures
        applied_results((g0 + 3) as u64, deliveries) == seq![latest],
{
    let g3 = (g0 + 3) as u64;
    let k = if deliveries[0].0 == g3 {
        0int
    } else if deliveries[1].0 == g3 {
        1int
    } else {
        2int
    };
    if deliveries[0].0 != g3 && deliveries[1].0 != g3 && deliveries[2].0 != g3 {
        let d1 = deliveries.drop_last();
        let d2 = d1.drop_last();
        let d3 = d2.drop_last();
        assert(d3.len() == 0);
        assert(count_generation(d3, g3) == 0);
        assert(d2.last() == deliveries[0]);
        assert(count_generation(d2, g3) == 0);
        assert(d1.last() == deliveries[1]);
        assert(count_generation(d1, g3) == 0);
        assert(deliveries.last() == deliveries[2]);
        assert(count_generation(deliveries, g3) == 0);
    }
    lemma_applied_single(g3, deliveries, k);
}

} // verus!
