use vstd::prelude::*;

use crate::scheduler::HighlightJob;

verus! {

/// Whether `list` holds a string equal to `s`.
pub open spec fn holds(list: Seq<String>, s: Seq<char>) -> bool {
    exists|i: int| 0 <= i < list.len() && #[trigger] list[i]@ == s
}

/// Which documents are highlighted automatically, by file extension (written
/// without the dot). Extensions listed in `auto` always are; other extensions
/// are too unless listed in `excluded`; a document without an extension is.
pub struct HighlightPolicy {
    pub auto: Vec<String>,
    pub excluded: Vec<String>,
}

/// Whether `list` holds a string equal to `s`.
pub fn list_holds(list: &Vec<String>, s: &str) -> (r: bool)
    ensures
        r == holds(list@, s@),
{
    let key = String::from_str(s);
    let mut i: usize = 0;
    while i < list.len()
        invariant
            0 <= i <= list@.len(),
            key@ == s@,
            forall|j: int| 0 <= j < i ==> #[trigger] list@[j]@ != s@,
        decreases list@.len() - i,
    {
        if list[i] == key {
            return true;
        }
        i = i + 1;
    }
    false
}

impl HighlightPolicy {
    /// Whether a document with this extension is highlighted automatically.
    pub open spec fn spec_enabled(&self, extension: Option<Seq<char>>) -> bool {
        match extension {
            None => true,
            Some(e) => holds(self.auto@, e) || !holds(self.excluded@, e),
        }
    }

    /// The usual source, markup and configuration types, and no exclusion.
    pub fn new() -> (r: HighlightPolicy)
        ensures
            r.auto@.len() == 10,
            r.auto@[0]@ == "rs"@,
            r.auto@[1]@ == "py"@,
            r.auto@[2]@ == "js"@,
            r.auto@[3]@ == "ts"@,
            r.auto@[4]@ == "json"@,
            r.auto@[5]@ == "toml"@,
            r.auto@[6]@ == "md"@,
            r.auto@[7]@ == "html"@,
            r.auto@[8]@ == "css"@,
            r.auto@[9]@ == "xml"@,
            r.excluded@.len() == 0,
            forall|e: Seq<char>| #[trigger] r.spec_enabled(Some(e)),
    {
        let mut auto: Vec<String> = Vec::new();
        auto.push(String::from_str("rs"));
        auto.push(String::from_str("py"));
        auto.push(String::from_str("js"));
        auto.push(String::from_str("ts"));
        auto.push(String::from_str("json"));
        auto.push(String::from_str("toml"));
        auto.push(String::from_str("md"));
        auto.push(String::from_str("html"));
        auto.push(String::from_str("css"));
        auto.push(String::from_str("xml"));
        HighlightPolicy { auto, excluded: Vec::new() }
    }

    /// Whether a document with this extension is highlighted automatically.
    pub fn enabled(&self, extension: Option<&str>) -> (r: bool)
        ensures
            r == self.spec_enabled(
                match extension {
                    Some(e) => Some(e@),
                    None => None,
                },
            ),
    {
        match extension {
            None => true,
            Some(e) => list_holds(&self.auto, e) || !list_holds(&self.excluded, e),
        }
    }

    /// The job to dispatch for a document with this extension: the scheduler's
    /// job when such documents are highlighted automatically, none otherwise.
    pub fn filter_job(&self, extension: Option<&str>, job: Option<HighlightJob>) -> (r: Option<
        HighlightJob,
    >)
        ensures
            r == if self.spec_enabled(
                match extension {
                    Some(e) => Some(e@),
                    None => None,
                },
            ) {
                job
            } else {
                None
            },
    {
        if self.enabled(extension) {
            job
        } else {
            None
        }
    }
}

} // verus!
