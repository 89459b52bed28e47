//! The in-memory watch registry: which links are watched for which owner.
//!
//! The registry mirrors the durable link store.  It is built once at
//! startup from the store's full contents, grouped by owner in record
//! order, and then kept incrementally consistent: an append on every
//! recorded link, a whole-owner removal on a bulk clear.  Selective
//! deletes are not mirrored until the next bootstrap; the registry may
//! over-represent the store (one harmless extra probe) but never
//! under-represents it.

use vstd::prelude::*;
use vstd::pervasive::VecAdditionalExecFns;
use crate::checker::Checker;
use crate::checker::clone_links;
use crate::checker::urls_view;

verus! {

/// One durable record: an owner and one link watched on their behalf.
pub struct LinkRecord {
    pub owner_id: u64,
    pub url: String,
}

/// The links belonging to owner `o` among the records `rs`, in record
/// order.
pub open spec fn links_of(rs: Seq<LinkRecord>, o: u64) -> Seq<Seq<char>>
    decreases rs.len(),
{
    if rs.len() == 0 {
        Seq::empty()
    } else if rs.last().owner_id == o {
        links_of(rs.drop_last(), o).push(rs.last().url@)
    } else {
        links_of(rs.drop_last(), o)
    }
}

/// The distinct owners among the records `rs`, in order of first
/// appearance.
pub open spec fn owners_of(rs: Seq<LinkRecord>) -> Seq<u64>
    decreases rs.len(),
{
    if rs.len() == 0 {
        Seq::empty()
    } else if owners_of(rs.drop_last()).contains(rs.last().owner_id) {
        owners_of(rs.drop_last())
    } else {
        owners_of(rs.drop_last()).push(rs.last().owner_id)
    }
}

/// The in-memory owner-to-links cache.  One entry per owner; entries keep
/// their order, and each entry keeps its links in insertion order.
pub struct WatchRegistry {
    entries: Vec<Checker>,
}

/// How one recorded link changes a registry: the link is appended to its
/// owner's sequence, the owner entry is created at the end if it was
/// absent, and every other owner's sequence is untouched.
pub open spec fn link_added(
    pre: WatchRegistry,
    post: WatchRegistry,
    owner: u64,
    url: Seq<char>,
) -> bool {
    &&& post.wf()
    &&& post.has_owner(owner)
    &&& (pre.has_owner(owner) ==> post.owners() == pre.owners())
    &&& (!pre.has_owner(owner) ==> post.owners() == pre.owners().push(owner))
    &&& post.links_for(owner) == pre.links_for(owner).push(url)
    &&& forall|o: u64| o != owner ==> #[trigger] post.links_for(o) == pre.links_for(o)
}

/// How a whole-owner removal changes a registry: the owner's entry is
/// gone and every other owner's sequence is untouched.
pub open spec fn owner_removed(pre: WatchRegistry, post: WatchRegistry, owner: u64) -> bool {
    &&& post.wf()
    &&& !post.has_owner(owner)
    &&& post.links_for(owner) == Seq::<Seq<char>>::empty()
    &&& post.owners() == pre.owners().remove_value(owner)
    &&& forall|o: u64| o != owner ==> #[trigger] post.links_for(o) == pre.links_for(o)
}

/// What a bootstrap from the records `rs` leaves in the registry: exactly
/// the owners of `rs` in first-appearance order, each watching exactly
/// their links of `rs` in record order.
pub open spec fn bootstrap_post(r: WatchRegistry, rs: Seq<LinkRecord>) -> bool {
    &&& r.wf()
    &&& r.owners() == owners_of(rs)
    &&& forall|o: u64| #[trigger] r.links_for(o) == links_of(rs, o)
}

impl WatchRegistry {
    /// Each owner has at most one entry.
    pub closed spec fn wf(&self) -> bool {
        forall|i: int, j: int|
            0 <= i < j < self.entries@.len() ==> self.entries@[i].user_id
                != self.entries@[j].user_id
    }

    /// The owners with an entry, in entry order.
    pub closed spec fn owners(&self) -> Seq<u64> {
        self.entries@.map_values(|c: Checker| c.user_id)
    }

    /// The owner has an entry.
    pub open spec fn has_owner(&self, o: u64) -> bool {
        self.owners().contains(o)
    }

    /// The links watched for an owner, in insertion order; empty for an
    /// owner without an entry.
    pub closed spec fn links_for(&self, o: u64) -> Seq<Seq<char>> {
        if exists|i: int| 0 <= i < self.entries@.len() && self.entries@[i].user_id == o {
            let i = choose|i: int|
                0 <= i < self.entries@.len() && self.entries@[i].user_id == o;
            urls_view(self.entries@[i].links@)
        } else {
            Seq::empty()
        }
    }

    /// An entry index determines its owner's links.
    proof fn lemma_links_at(&self, i: int)
        requires
            self.wf(),
            0 <= i < self.entries@.len(),
        ensures
            self.has_owner(self.entries@[i].user_id),
            self.links_for(self.entries@[i].user_id) == urls_view(self.entries@[i].links@),
    {
        let o = self.entries@[i].user_id;
        assert(self.owners()[i] == o);
        assert(self.has_owner(o));
        let j = choose|j: int| 0 <= j < self.entries@.len() && self.entries@[j].user_id == o;
        assert(j == i);
    }

    /// An owner has an entry exactly when some entry index carries it.
    proof fn lemma_owner_witness(&self, o: u64)
        ensures
            self.has_owner(o) <==> exists|i: int|
                0 <= i < self.entries@.len() && #[trigger] self.entries@[i].user_id == o,
    {
        if self.has_owner(o) {
            let k = choose|k: int| 0 <= k < self.owners().len() && self.owners()[k] == o;
            assert(self.entries@[k].user_id == o);
        }
        if exists|i: int|
            0 <= i < self.entries@.len() && #[trigger] self.entries@[i].user_id == o {
            let k = choose|k: int|
                0 <= k < self.entries@.len() && #[trigger] self.entries@[k].user_id == o;
            assert(self.owners()[k] == o);
        }
    }

    /// An empty registry: no owners, no links.
    pub fn new() -> (r: WatchRegistry)
        ensures
            r.wf(),
            r.owners() == Seq::<u64>::empty(),
            forall|o: u64| #[trigger] r.links_for(o) == Seq::<Seq<char>>::empty(),
    {
        let r = WatchRegistry { entries: Vec::new() };
        proof {
            assert(r.owners() =~= Seq::<u64>::empty());
        }
        r
    }

    /// The index of the owner's entry, if any.
    fn find_index(&self, owner: u64) -> (r: Option<usize>)
        ensures
            r matches Some(i) ==> i < self.entries@.len() && self.entries@[i as int].user_id
                == owner,
            r is None ==> forall|i: int|
                0 <= i < self.entries@.len() ==> #[trigger] self.entries@[i].user_id != owner,
    {
        let mut i: usize = 0;
        while i < self.entries.len()
            invariant
                i <= self.entries@.len(),
                forall|j: int| 0 <= j < i ==> #[trigger] self.entries@[j].user_id != owner,
            decreases self.entries@.len() - i,
        {
            if self.entries[i].user_id == owner {
                return Some(i);
            }
            i = i + 1;
        }
        None
    }

    /// Appends a link to the owner's sequence, creating the owner entry at
    /// the end if it was absent.  The registry performs no de-duplication;
    /// callers pre-check existence.
    pub fn add_link(&mut self, owner: u64, url: String)
        requires
            old(self).wf(),
        ensures
            link_added(*old(self), *final(self), owner, url@),
    {
        proof {
            old(self).lemma_owner_witness(owner);
        }
        let found = self.find_index(owner);
        match found {
            Some(i) => {
                let ghost prev = *self;
                let is_activated = self.entries[i].is_activated;
                let mut links = clone_links(&self.entries[i].links);
                links.push(url);
                self.entries.set(i, Checker { user_id: owner, is_activated, links });
                proof {
                    assert forall|i2: int, j2: int|
                        0 <= i2 < j2 < self.entries@.len() implies self.entries@[i2].user_id
                        != self.entries@[j2].user_id by {
                        assert(prev.entries@[i2].user_id != prev.entries@[j2].user_id);
                    }
                    assert(self.owners() =~= prev.owners());
                    prev.lemma_links_at(i as int);
                    self.lemma_links_at(i as int);
                    assert(urls_view(self.entries@[i as int].links@) =~= urls_view(
                        prev.entries@[i as int].links@,
                    ).push(url@));
                    assert forall|o: u64| o != owner implies #[trigger] self.links_for(o)
                        == prev.links_for(o) by {
                        self.lemma_owner_witness(o);
                        prev.lemma_owner_witness(o);
                        if exists|j: int|
                            0 <= j < prev.entries@.len() && #[trigger] prev.entries@[j].user_id
                                == o {
                            let j = choose|j: int|
                                0 <= j < prev.entries@.len()
                                    && #[trigger] prev.entries@[j].user_id == o;
                            prev.lemma_links_at(j);
                            self.lemma_links_at(j);
                        } else {
                            assert forall|j: int| 0 <= j < self.entries@.len()
                                implies #[trigger] self.entries@[j].user_id != o by {
                                assert(prev.entries@[j].user_id != o);
                            }
                        }
                    }
                }
            },
            None => {
                let ghost prev = *self;
                let mut links: Vec<String> = Vec::new();
                links.push(url);
                self.entries.push(Checker::new(owner, links));
                proof {
                    let n = prev.entries@.len() as int;
                    assert forall|i2: int, j2: int|
                        0 <= i2 < j2 < self.entries@.len() implies self.entries@[i2].user_id
                        != self.entries@[j2].user_id by {
                        if j2 < n {
                            assert(prev.entries@[i2].user_id != prev.entries@[j2].user_id);
                        } else {
                            assert(prev.entries@[i2].user_id != owner);
                        }
                    }
                    prev.lemma_owner_witness(owner);
                    assert(self.owners() =~= prev.owners().push(owner));
                    self.lemma_links_at(n);
                    assert(self.links_for(owner) =~= prev.links_for(owner).push(url@));
                    assert forall|o: u64| o != owner implies #[trigger] self.links_for(o)
                        == prev.links_for(o) by {
                        self.lemma_owner_witness(o);
                        prev.lemma_owner_witness(o);
                        if exists|j: int|
                            0 <= j < prev.entries@.len() && #[trigger] prev.entries@[j].user_id
                                == o {
                            let j = choose|j: int|
                                0 <= j < prev.entries@.len()
                                    && #[trigger] prev.entries@[j].user_id == o;
                            prev.lemma_links_at(j);
                            self.lemma_links_at(j);
                        } else {
                            assert forall|j: int| 0 <= j < self.entries@.len()
                                implies #[trigger] self.entries@[j].user_id != o by {
                                if j < n {
                                    assert(prev.entries@[j].user_id != o);
                                }
                            }
                        }
                    }
                }
            },
        }
    }

    /// Deletes the owner's entry entirely; every other owner is untouched.
    /// Used after a bulk clear of the owner's stored links.
    pub fn remove_owner(&mut self, owner: u64)
        requires
            old(self).wf(),
        ensures
            owner_removed(*old(self), *final(self), owner),
    {
        proof {
            old(self).lemma_owner_witness(owner);
            old(self).owners().index_of_first_ensures(owner);
        }
        let found = self.find_index(owner);
        match found {
            Some(i) => {
                let ghost prev = *self;
                self.entries.remove(i);
                proof {
                    let n = self.entries@.len() as int;
                    assert forall|j: int| 0 <= j < n implies #[trigger] self.entries@[j]
                        == (if j < i as int {
                            prev.entries@[j]
                        } else {
                            prev.entries@[j + 1]
                        }) by {}
                    assert forall|i2: int, j2: int|
                        0 <= i2 < j2 < n implies self.entries@[i2].user_id
                        != self.entries@[j2].user_id by {}
                    // the owner is gone: every surviving entry came from a
                    // distinct index of the old registry
                    assert forall|j: int| 0 <= j < n implies #[trigger] self.entries@[j].user_id
                        != owner by {
                        if j < i as int {
                            assert(prev.entries@[j].user_id != prev.entries@[i as int].user_id);
                        } else {
                            assert(prev.entries@[j + 1].user_id != prev.entries@[
                                i as int].user_id);
                        }
                    }
                    self.lemma_owner_witness(owner);
                    // the first (and only) occurrence in the owner list is i
                    let idx = prev.owners().index_of_first(owner);
                    assert(prev.owners()[i as int] == owner);
                    assert(idx matches Some(k) && k == i as int) by {
                        let k = idx->Some_0;
                        assert(prev.entries@[k].user_id == owner);
                    }
                    assert(self.owners() =~= prev.owners().remove(i as int));
                    assert forall|o: u64| o != owner implies #[trigger] self.links_for(o)
                        == prev.links_for(o) by {
                        self.lemma_owner_witness(o);
                        prev.lemma_owner_witness(o);
                        if exists|j: int|
                            0 <= j < prev.entries@.len() && #[trigger] prev.entries@[j].user_id
                                == o {
                            let j = choose|j: int|
                                0 <= j < prev.entries@.len()
                                    && #[trigger] prev.entries@[j].user_id == o;
                            if j < i as int {
                                prev.lemma_links_at(j);
                                self.lemma_links_at(j);
                            } else {
                                prev.lemma_links_at(j);
                                self.lemma_links_at(j - 1);
                            }
                        } else {
                            assert forall|j: int| 0 <= j < n
                                implies #[trigger] self.entries@[j].user_id != o by {
                                if j < i as int {
                                    assert(prev.entries@[j].user_id != o);
                                } else {
                                    assert(prev.entries@[j + 1].user_id != o);
                                }
                            }
                        }
                    }
                }
            },
            None => {
                proof {
                    self.lemma_owner_witness(owner);
                }
            },
        }
    }

    /// A point-in-time copy of every entry: same owners in the same order,
    /// each carrying the same links, independent of the registry itself.
    pub fn snapshot(&self) -> (r: Vec<Checker>)
        requires
            self.wf(),
        ensures
            r@.len() == self.owners().len(),
            forall|i: int|
                0 <= i < r@.len() ==> #[trigger] r@[i].user_id == self.owners()[i] && urls_view(
                    r@[i].links@,
                ) == self.links_for(self.owners()[i]),
    {
        let mut out: Vec<Checker> = Vec::new();
        let mut i: usize = 0;
        while i < self.entries.len()
            invariant
                self.wf(),
                i <= self.entries@.len(),
                out@.len() == i,
                forall|j: int|
                    0 <= j < i ==> #[trigger] out@[j].user_id == self.entries@[j].user_id
                        && out@[j].links@ == self.entries@[j].links@,
            decreases self.entries@.len() - i,
        {
            out.push(self.entries[i].clone());
            i = i + 1;
        }
        proof {
            assert forall|k: int| 0 <= k < out@.len() implies #[trigger] out@[k].user_id
                == self.owners()[k] && urls_view(out@[k].links@) == self.links_for(
                self.owners()[k],
            ) by {
                self.lemma_links_at(k);
            }
        }
        out
    }

    /// The owner's current links, in insertion order.
    pub fn links_vec(&self, owner: u64) -> (r: Vec<String>)
        requires
            self.wf(),
        ensures
            urls_view(r@) == self.links_for(owner),
    {
        proof {
            self.lemma_owner_witness(owner);
        }
        let found = self.find_index(owner);
        match found {
            Some(i) => {
                proof {
                    self.lemma_links_at(i as int);
                }
                clone_links(&self.entries[i].links)
            },
            None => {
                let r: Vec<String> = Vec::new();
                proof {
                    assert(urls_view(r@) =~= Seq::<Seq<char>>::empty());
                }
                r
            },
        }
    }
}

/// The existence check run before every insertion: the owner already
/// watches this exact link.
pub fn is_link_exists(registry: &WatchRegistry, user_id: u64, link: &str) -> (r: bool)
    requires
        registry.wf(),
    ensures
        r == registry.links_for(user_id).contains(link@),
{
    let links = registry.links_vec(user_id);
    contains_url(&links, link)
}

/// Whether some link in the list has exactly this text.
fn contains_url(links: &Vec<String>, url: &str) -> (r: bool)
    ensures
        r == urls_view(links@).contains(url@),
{
    let key: String = url.to_owned();
    let mut i: usize = 0;
    while i < links.len()
        invariant
            i <= links@.len(),
            key@ == url@,
            forall|j: int| 0 <= j < i ==> #[trigger] links@[j]@ != url@,
        decreases links@.len() - i,
    {
        if key == links[i] {
            proof {
                assert(urls_view(links@)[i as int] == url@);
            }
            return true;
        }
        i = i + 1;
    }
    proof {
        if urls_view(links@).contains(url@) {
            let k = choose|k: int|
                0 <= k < urls_view(links@).len() && urls_view(links@)[k] == url@;
            assert(links@[k]@ == url@);
        }
    }
    false
}

/// Rebuilds the registry from the store's full contents: the records are
/// grouped by owner, owners in first-appearance order, links in record
/// order.  Called once at startup, before the first tick.
pub fn bootstrap(records: &Vec<LinkRecord>) -> (r: WatchRegistry)
    ensures
        bootstrap_post(r, records@),
{
    let mut reg = WatchRegistry::new();
    let mut k: usize = 0;
    proof {
        assert(records@.subrange(0, 0) =~= Seq::<LinkRecord>::empty());
    }
    while k < records.len()
        invariant
            reg.wf(),
            k <= records@.len(),
            reg.owners() == owners_of(records@.subrange(0, k as int)),
            forall|o: u64| #[trigger] reg.links_for(o) == links_of(
                records@.subrange(0, k as int),
                o,
            ),
        decreases records@.len() - k,
    {
        let owner = records[k].owner_id;
        let url = records[k].url.clone();
        let ghost prev = reg;
        reg.add_link(owner, url);
        proof {
            let rs0 = records@.subrange(0, k as int);
            let rs1 = records@.subrange(0, k as int + 1);
            assert(rs1.drop_last() =~= rs0);
            assert(rs1.last() == records@[k as int]);
            assert forall|o: u64| #[trigger] reg.links_for(o) == links_of(rs1, o) by {
                if o != owner {
                    assert(reg.links_for(o) == prev.links_for(o));
                }
            }
        }
        k = k + 1;
    }
    proof {
        assert(records@.subrange(0, records@.len() as int) =~= records@);
    }
    reg
}

/// The command path's duplicate-prevention convention, check-then-act: a
/// validated address is recorded for an owner only when the store does not
/// already hold it; a duplicate leaves the registry untouched and is
/// reported back.
pub fn record_link(
    registry: &mut WatchRegistry,
    owner: u64,
    url: String,
    already_stored: bool,
) -> (added: bool)
    requires
        old(registry).wf(),
    ensures
        added == !already_stored,
        added ==> link_added(*old(registry), *final(registry), owner, url@),
        !added ==> *final(registry) == *old(registry),
{
    if already_stored {
        false
    } else {
        registry.add_link(owner, url);
        true
    }
}

/// Two distinct links added in turn for the same owner both appear in a
/// subsequent listing, in insertion order; after the first add the
/// existence check already reports the first link, so the command path
/// rejects a repeated add; and a listing with no duplicates stays without
/// duplicates when the two added links are new and distinct.
pub proof fn lemma_two_adds_listed(
    r0: WatchRegistry,
    r1: WatchRegistry,
    r2: WatchRegistry,
    owner: u64,
    u1: Seq<char>,
    u2: Seq<char>,
)
    requires
        link_added(r0, r1, owner, u1),
        link_added(r1, r2, owner, u2),
    ensures
        r2.links_for(owner) == r0.links_for(owner).push(u1).push(u2),
        r1.links_for(owner).contains(u1),
        r0.links_for(owner).no_duplicates() && !r0.links_for(owner).contains(u1)
            && !r0.links_for(owner).contains(u2) && u1 != u2 ==> r2.links_for(
            owner,
        ).no_duplicates(),
{
    let l0 = r0.links_for(owner);
    let l1 = r1.links_for(owner);
    let l2 = r2.links_for(owner);
    assert(l1[l0.len() as int] == u1);
    assert(l1.contains(u1));
    if l0.no_duplicates() && !l0.contains(u1) && !l0.contains(u2) && u1 != u2 {
        assert forall|i: int, j: int| 0 <= i < j < l2.len() implies l2[i] != l2[j] by {
            if j < l0.len() {
                assert(l0[i] != l0[j]);
            } else if j == l0.len() {
                assert(l2[j] == u1);
                assert(l0.contains(l0[i]));
            } else {
                assert(l2[j] == u2);
                if i < l0.len() {
                    assert(l0.contains(l0[i]));
                }
            }
        }
    }
}

/// A removed owner is no longer watched: the registry has no entry for
/// them and lists nothing for them, while every other owner's links are
/// untouched.
pub proof fn lemma_removed_owner_unwatched(pre: WatchRegistry, post: WatchRegistry, owner: u64)
    requires
        owner_removed(pre, post, owner),
    ensures
        !post.has_owner(owner),
        post.links_for(owner) == Seq::<Seq<char>>::empty(),
        forall|o: u64| o != owner ==> #[trigger] post.links_for(o) == pre.links_for(o),
{
}

/// Bootstrapping is deterministic: two registries bootstrapped from the
/// same store snapshot are in the same state, owner for owner and link
/// for link.
pub proof fn lemma_bootstrap_deterministic(
    r1: WatchRegistry,
    r2: WatchRegistry,
    rs: Seq<LinkRecord>,
)
    requires
        bootstrap_post(r1, rs),
        bootstrap_post(r2, rs),
    ensures
        r1.owners() == r2.owners(),
        forall|o: u64| #[trigger] r1.links_for(o) == r2.links_for(o),
{
}

} // verus!
