use vstd::prelude::*;

verus! {

broadcast use {vstd::seq_lib::to_multiset_build, vstd::seq_lib::to_multiset_insert};

/// A directory entry as the file explorer lists it.
pub struct ExplorerEntry {
    pub name: String,
    pub is_dir: bool,
}

/// Whether a name is hidden from the explorer: it starts with a dot.
pub open spec fn is_hidden(name: Seq<char>) -> bool {
    name.len() > 0 && name[0] == '.'
}

/// Lexicographic order of names, character by character.
pub open spec fn name_lt(a: Seq<char>, b: Seq<char>) -> bool
    decreases a.len(),
{
    if a.len() == 0 {
        b.len() > 0
    } else if b.len() == 0 {
        false
    } else if a[0] != b[0] {
        a[0] < b[0]
    } else {
        name_lt(a.drop_first(), b.drop_first())
    }
}

/// Explorer order: directories before files, then by name.
pub open spec fn entry_lt(a: ExplorerEntry, b: ExplorerEntry) -> bool {
    (a.is_dir && !b.is_dir) || (a.is_dir == b.is_dir && name_lt(a.name@, b.name@))
}

/// No entry is listed after one that it comes before.
pub open spec fn in_explorer_order(s: Seq<ExplorerEntry>) -> bool {
    forall|i: int| 0 <= i < s.len() - 1 ==> !#[trigger] entry_lt(s[i + 1], s[i])
}

/// The entries among the first `n` that are not hidden, in their order.
pub open spec fn shown(entries: Seq<ExplorerEntry>, n: int) -> Seq<ExplorerEntry>
    decreases n,
{
    if n <= 0 {
        Seq::empty()
    } else if is_hidden(entries[n - 1].name@) {
        shown(entries, n - 1)
    } else {
        shown(entries, n - 1).push(entries[n - 1])
    }
}

proof fn lemma_name_lt_asymmetric(a: Seq<char>, b: Seq<char>)
    ensures
        name_lt(a, b) ==> !name_lt(b, a),
    decreases a.len(),
{
    if a.len() > 0 && b.len() > 0 && a[0] == b[0] {
        lemma_name_lt_asymmetric(a.drop_first(), b.drop_first());
    }
}

/// Whether a name is hidden from the explorer: it starts with a dot.
pub fn hidden(name: &str) -> (r: bool)
    ensures
        r == is_hidden(name@),
{
    name.unicode_len() > 0 && name.get_char(0) == '.'
}

/// Whether name `a` comes before name `b`, character by character.
pub fn name_less(a: &str, b: &str) -> (r: bool)
    ensures
        r == name_lt(a@, b@),
{
    let la = a.unicode_len();
    let lb = b.unicode_len();
    let mut i: usize = 0;
    assert(a@.skip(0) =~= a@ && b@.skip(0) =~= b@);
    while i < la && i < lb
        invariant
            0 <= i <= la,
            i <= lb,
            la == a@.len(),
            lb == b@.len(),
            name_lt(a@, b@) == name_lt(a@.skip(i as int), b@.skip(i as int)),
        decreases la - i,
    {
        let ca = a.get_char(i);
        let cb = b.get_char(i);
        if ca != cb {
            return ca < cb;
        }
        assert(a@.skip(i as int).drop_first() =~= a@.skip(i + 1));
        assert(b@.skip(i as int).drop_first() =~= b@.skip(i + 1));
        i = i + 1;
    }
    la < lb
}

/// Whether entry `a` comes before entry `b` in the explorer.
pub fn entry_less(a: &ExplorerEntry, b: &ExplorerEntry) -> (r: bool)
    ensures
        r == entry_lt(*a, *b),
{
    (a.is_dir && !b.is_dir) || (a.is_dir == b.is_dir && name_less(a.name.as_str(), b.name.as_str()))
}

/// The icon shown beside an entry.
pub fn entry_icon(is_dir: bool) -> (r: &'static str)
    ensures
        is_dir ==> r@ == "folder-symbolic"@,
        !is_dir ==> r@ == "text-x-generic-symbolic"@,
{
    if is_dir {
        "folder-symbolic"
    } else {
        "text-x-generic-symbolic"
    }
}

/// The explorer's listing of a directory: the entries that are not hidden,
/// directories first, each group by name.
pub fn explorer_listing(entries: &Vec<ExplorerEntry>) -> (r: Vec<ExplorerEntry>)
    ensures
        in_explorer_order(r@),
        r@.to_multiset() == shown(entries@, entries@.len() as int).to_multiset(),
{
    let mut out: Vec<ExplorerEntry> = Vec::new();
    let mut k: usize = 0;
    while k < entries.len()
        invariant
            0 <= k <= entries@.len(),
            in_explorer_order(out@),
            out@.to_multiset() == shown(entries@, k as int).to_multiset(),
        decreases entries@.len() - k,
    {
        let src = &entries[k];
        if !hidden(src.name.as_str()) {
            let e = ExplorerEntry { name: src.name.clone(), is_dir: src.is_dir };
            assert(e == entries@[k as int]);
            let mut j: usize = 0;
            while j < out.len() && !entry_less(&e, &out[j])
                invariant
                    0 <= j <= out@.len(),
                    0 <= k < entries@.len(),
                    e == entries@[k as int],
                    !is_hidden(e.name@),
                    in_explorer_order(out@),
                    out@.to_multiset() == shown(entries@, k as int).to_multiset(),
                    forall|m: int| 0 <= m < j ==> !#[trigger] entry_lt(e, out@[m]),
                decreases out@.len() - j,
            {
                j = j + 1;
            }
            let ghost before = out@;
            proof {
                if j < before.len() {
                    lemma_name_lt_asymmetric(e.name@, before[j as int].name@);
                }
            }
            out.insert(j, e);
            assert forall|i: int| 0 <= i < out@.len() - 1 implies !#[trigger] entry_lt(
                out@[i + 1],
                out@[i],
            ) by {
                if i < j - 1 {
                    assert(out@[i] == before[i] && out@[i + 1] == before[i + 1]);
                    assert(!entry_lt(before[i + 1], before[i]));
                } else if i == j - 1 {
                    assert(out@[i] == before[i] && out@[i + 1] == e);
                    assert(!entry_lt(e, before[i]));
                } else if i > j {
                    let p = i - 1;
                    assert(out@[i] == before[p] && out@[i + 1] == before[p + 1]);
                    assert(!entry_lt(before[p + 1], before[p]));
                } else {
                    assert(out@[i] == e && out@[i + 1] == before[i]);
                    assert(entry_lt(e, before[i]));
                }
            }
        }
        k = k + 1;
    }
    out
}

} // verus!
