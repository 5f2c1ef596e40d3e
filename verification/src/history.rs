use vstd::prelude::*;

verus! {

/// One previously visited document: where it was fetched from and what it
/// was called.
pub struct HistoryEntry {
    pub url: String,
    pub title: String,
}

impl HistoryEntry {
    pub fn new(url: String, title: String) -> (r: HistoryEntry)
        ensures
            r.url@ == url@,
            r.title@ == title@,
    {
        HistoryEntry { url, title }
    }
}

impl Clone for HistoryEntry {
    fn clone(&self) -> (r: Self)
        ensures
            r.url@ == self.url@,
            r.title@ == self.title@,
    {
        HistoryEntry { url: self.url.clone(), title: self.title.clone() }
    }
}

/// The visited documents, oldest first.
pub type History = Vec<HistoryEntry>;

} // verus!
