//! The record kept for one shortened URL.

use vstd::prelude::*;
use vstd::string::StringExecFns;

verus! {

/// The fixed domain prefix that every issued link starts with.
pub open spec fn link_prefix() -> Seq<char> {
    "https://sho.rs/"@
}

/// One shortened URL: the issued identifier, the original URL, the full
/// short link derived from the identifier, the creation time, and a
/// reserved soft-delete flag that no current operation sets.
pub struct Url {
    pub archived: bool,
    pub created_at: i64,
    pub id: String,
    pub link: String,
    pub long_url: String,
}

impl Url {
    /// A freshly issued record: not archived, with the link derived from
    /// the identifier by prepending the fixed domain prefix. The creation
    /// time is read from the clock and is not otherwise constrained.
    pub fn new_record(id: String, long_url: String) -> (r: Url)
        ensures
            r.id@ == id@,
            r.long_url@ == long_url@,
            r.link@ == link_prefix() + id@,
            !r.archived,
    {
        let link = String::from_str("https://sho.rs/").concat(id.as_str());
        Url { created_at: crate::clock::now_timestamp_millis(), id, archived: false, long_url, link }
    }
}

impl Clone for Url {
    fn clone(&self) -> (r: Self)
        ensures
            r == *self,
    {
        Url {
            archived: self.archived,
            created_at: self.created_at,
            id: self.id.clone(),
            link: self.link.clone(),
            long_url: self.long_url.clone(),
        }
    }
}

} // verus!
