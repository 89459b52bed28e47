//! Per-owner watch entry: one subscriber together with the ordered list of
//! links monitored on their behalf.

use vstd::prelude::*;

verus! {

/// One owner's entry in the watch registry: the owner's identifier and the
/// links watched for them, in insertion order.
pub struct Checker {
    pub user_id: u64,
    pub is_activated: bool,
    pub links: Vec<String>,
}

/// The character sequences of a list of links, in the same order.
pub open spec fn urls_view(links: Seq<String>) -> Seq<Seq<char>> {
    links.map_values(|s: String| s@)
}

/// Copies a list of links; the copy denotes the same character sequences.
pub fn clone_links(links: &Vec<String>) -> (r: Vec<String>)
    ensures
        r@ == links@,
{
    let mut out: Vec<String> = Vec::new();
    let mut i: usize = 0;
    while i < links.len()
        invariant
            i <= links.len(),
            out@ =~= links@.subrange(0, i as int),
        decreases links.len() - i,
    {
        out.push(links[i].clone());
        i = i + 1;
    }
    proof {
        assert(out@ =~= links@);
    }
    out
}

impl Checker {
    pub fn new(user_id: u64, links: Vec<String>) -> (r: Checker)
        ensures
            r.user_id == user_id,
            r.is_activated,
            r.links == links,
    {
        Checker { user_id, is_activated: true, links }
    }
}

impl Clone for Checker {
    fn clone(&self) -> (r: Self)
        ensures
            r.user_id == self.user_id,
            r.is_activated == self.is_activated,
            r.links@ == self.links@,
    {
        Checker {
            user_id: self.user_id,
            is_activated: self.is_activated,
            links: clone_links(&self.links),
        }
    }
}

} // verus!
