//! The catalog of measurement servers and their ranking by distance.
//!
//! The directory of servers and the distance of each from the caller come
//! from outside. The catalog checks a listing once, keeps it unchanged, and
//! ranks it on request.

use crate::error::{MeasureError, NetworkError};
use crate::utils::{server_id_in_range, validate_server_id};
use vstd::prelude::*;
use vstd::set_lib::{lemma_int_range, lemma_len_subset, set_int_range};

verus! {

/// One measurement server.
#[derive(Debug)]
pub struct Server {
    /// Identifier, unique within a catalog, from 1 to 999999.
    pub id: u32,
    /// Name of the operator.
    pub name: String,
    /// Place where the server stands.
    pub location: String,
    /// Distance from the caller, in metres.
    pub distance_m: u64,
}

impl Clone for Server {
    fn clone(&self) -> (copy: Server)
        ensures
            copy == *self,
    {
        Server {
            id: self.id,
            name: self.name.clone(),
            location: self.location.clone(),
            distance_m: self.distance_m,
        }
    }
}

/// The ranking of servers: the nearer one first, and of two at the same
/// distance the one with the smaller identifier.
pub open spec fn closer(a: Server, b: Server) -> bool {
    a.distance_m < b.distance_m || (a.distance_m == b.distance_m && a.id < b.id)
}

/// Every identifier of the listing is in range.
pub open spec fn valid_ids(listing: Seq<Server>) -> bool {
    forall|i: int| 0 <= i < listing.len() ==> server_id_in_range(#[trigger] listing[i].id)
}

/// No identifier occurs twice in the listing.
pub open spec fn distinct_ids(listing: Seq<Server>) -> bool {
    forall|i: int, j: int|
        0 <= i < j < listing.len() ==> #[trigger] listing[i].id != #[trigger] listing[j].id
}

/// What is wrong with the answer of the directory, if anything: `None` for
/// the answer stands for a directory that could not be reached.
pub open spec fn listing_fault(listing: Option<Seq<Server>>) -> Option<NetworkError> {
    match listing {
        None => Some(NetworkError::DirectoryUnreachable),
        Some(servers) => if servers.len() == 0 {
            Some(NetworkError::NoReachableServer)
        } else if !valid_ids(servers) || !distinct_ids(servers) {
            Some(NetworkError::DirectoryMalformed)
        } else {
            None
        },
    }
}

/// The answer of the directory as a plain value.
pub open spec fn listing_view(listing: Option<Vec<Server>>) -> Option<Seq<Server>> {
    match listing {
        Some(servers) => Some(servers@),
        None => None,
    }
}

/// `nearest` holds the `n` best-ranked servers of `catalog`, or all of them
/// where there are fewer, best first.
pub open spec fn is_nearest_selection(catalog: Seq<Server>, n: nat, nearest: Seq<Server>) -> bool {
    &&& nearest.len() == if n <= catalog.len() {
        n
    } else {
        catalog.len()
    }
    &&& forall|i: int| 0 <= i < nearest.len() ==> catalog.contains(#[trigger] nearest[i])
    &&& forall|i: int, j: int|
        0 <= i < j < nearest.len() ==> closer(#[trigger] nearest[i], #[trigger] nearest[j])
    &&& forall|i: int, k: int|
        0 <= i < nearest.len() && 0 <= k < catalog.len() && !nearest.contains(catalog[k])
            ==> closer(#[trigger] nearest[i], #[trigger] catalog[k])
}

/// In a selection of the nearest servers, the entry at `i` is ranked no later
/// than the entry at `i` of any other such selection that agrees with it
/// before `i`.
proof fn lemma_selection_entry_leads(
    catalog: Seq<Server>,
    n: nat,
    first: Seq<Server>,
    second: Seq<Server>,
    i: int,
)
    requires
        is_nearest_selection(catalog, n, first),
        is_nearest_selection(catalog, n, second),
        0 <= i < first.len(),
        forall|p: int| 0 <= p < i ==> first[p] == second[p],
    ensures
        first[i] == second[i] || closer(first[i], second[i]),
{
    let entry = second[i];
    assert(catalog.contains(entry));
    let k = catalog.index_of(entry);
    if first.contains(entry) {
        let p = first.index_of(entry);
        if p < i {
            assert(second[p] == first[p]);
            assert(closer(second[p], second[i]));
        } else if p > i {
            assert(closer(first[i], first[p]));
        }
    } else {
        assert(closer(first[i], catalog[k]));
    }
}

/// Two selections of the nearest `n` servers of one catalog agree up to any
/// index.
proof fn lemma_selections_agree(
    catalog: Seq<Server>,
    n: nat,
    first: Seq<Server>,
    second: Seq<Server>,
    upto: int,
)
    requires
        is_nearest_selection(catalog, n, first),
        is_nearest_selection(catalog, n, second),
        0 <= upto <= first.len(),
    ensures
        forall|p: int| 0 <= p < upto ==> first[p] == second[p],
    decreases upto,
{
    if upto > 0 {
        lemma_selections_agree(catalog, n, first, second, upto - 1);
        lemma_selection_entry_leads(catalog, n, first, second, upto - 1);
        lemma_selection_entry_leads(catalog, n, second, first, upto - 1);
    }
}

/// The nearest `n` servers of a catalog are determined, order included: any
/// two selections are the same sequence.
pub proof fn lemma_nearest_selection_unique(
    catalog: Seq<Server>,
    n: nat,
    first: Seq<Server>,
    second: Seq<Server>,
)
    requires
        is_nearest_selection(catalog, n, first),
        is_nearest_selection(catalog, n, second),
    ensures
        first == second,
{
    lemma_selections_agree(catalog, n, first, second, first.len() as int);
    assert(first =~= second);
}

/// A selection of the nearest servers is in order of distance, the nearest
/// first, and holds as many servers as were asked for unless the catalog is
/// smaller.
pub proof fn lemma_nearest_selection_ascends(catalog: Seq<Server>, n: nat, nearest: Seq<Server>)
    requires
        is_nearest_selection(catalog, n, nearest),
    ensures
        n <= catalog.len() ==> nearest.len() == n,
        n >= catalog.len() ==> nearest.len() == catalog.len(),
        forall|i: int, j: int|
            0 <= i <= j < nearest.len() ==> #[trigger] nearest[i].distance_m
                <= #[trigger] nearest[j].distance_m,
{
    assert forall|i: int, j: int| 0 <= i <= j < nearest.len() implies #[trigger] nearest[i].distance_m
        <= #[trigger] nearest[j].distance_m by {
        if i < j {
            assert(closer(nearest[i], nearest[j]));
        }
    }
}

/// A sequence of indices that holds every index below `bound` has at least
/// `bound` entries.
proof fn lemma_covering_indices(picked: Seq<int>, bound: int)
    requires
        0 <= bound,
        forall|k: int| 0 <= k < bound ==> picked.contains(k),
    ensures
        picked.len() >= bound,
{
    lemma_int_range(0, bound);
    assert(set_int_range(0, bound).subset_of(picked.to_set())) by {
        assert forall|k: int| set_int_range(0, bound).contains(k) implies picked.to_set().contains(
            k,
        ) by {
            assert(picked.contains(k));
        }
    }
    picked.lemma_cardinality_of_set();
    lemma_len_subset(set_int_range(0, bound), picked.to_set());
}

/// The servers that a measurement can run against. A catalog is never empty.
pub struct ServerCatalog {
    servers: Vec<Server>,
}

impl View for ServerCatalog {
    type V = Seq<Server>;

    closed spec fn view(&self) -> Seq<Server> {
        self.servers@
    }
}

impl ServerCatalog {
    #[verifier::type_invariant]
    closed spec fn well_formed(self) -> bool {
        listing_fault(Some(self.servers@)) is None
    }

    /// Builds the catalog from the answer of the directory. `None` stands for
    /// a directory that could not be reached. A listing is taken as it is or
    /// not at all.
    pub fn from_directory(listing: Option<Vec<Server>>) -> (catalog: Result<
        ServerCatalog,
        MeasureError,
    >)
        ensures
            listing_fault(listing_view(listing)) matches Some(fault) ==> catalog == Err::<
                ServerCatalog,
                MeasureError,
            >(MeasureError::Network(fault)),
            listing_fault(listing_view(listing)) is None ==> catalog is Ok && catalog->Ok_0@
                == listing->0@,
    {
        match listing {
            None => Err(MeasureError::Network(NetworkError::DirectoryUnreachable)),
            Some(servers) => {
                if servers.len() == 0 {
                    Err(MeasureError::Network(NetworkError::NoReachableServer))
                } else if !has_proper_ids(&servers) {
                    Err(MeasureError::Network(NetworkError::DirectoryMalformed))
                } else {
                    Ok(ServerCatalog { servers })
                }
            },
        }
    }

    /// The number of servers, which is at least one.
    pub fn len(&self) -> (n: usize)
        ensures
            n == self@.len(),
            n > 0,
    {
        proof {
            use_type_invariant(self);
        }
        self.servers.len()
    }

    /// The full set of candidates, in the order of the directory.
    pub fn get_servers(&self) -> (servers: Vec<Server>)
        ensures
            servers@ == self@,
            servers@.len() > 0,
            listing_fault(Some(servers@)) is None,
    {
        proof {
            use_type_invariant(self);
        }
        let mut servers: Vec<Server> = Vec::new();
        let mut i: usize = 0;
        while i < self.servers.len()
            invariant
                i <= self.servers@.len(),
                servers@ == self.servers@.take(i as int),
            decreases self.servers@.len() - i,
        {
            servers.push(self.servers[i].clone());
            assert(servers@ =~= self.servers@.take(i + 1));
            i += 1;
        }
        assert(servers@ =~= self.servers@);
        servers
    }
}

impl ServerCatalog {
    /// Finds the best-ranked server among those ranked after `servers[after]`,
    /// or among all where `after` is `None`.
    fn next_in_rank(&self, after: Option<usize>) -> (found: Option<usize>)
        requires
            after matches Some(a) ==> a < self.servers@.len(),
        ensures
            found matches Some(best) ==> {
                &&& best < self.servers@.len()
                &&& after matches Some(a) ==> closer(
                    self.servers@[a as int],
                    self.servers@[best as int],
                )
                &&& forall|k: int|
                    0 <= k < self.servers@.len() && k != best && (after matches Some(a) ==> closer(
                        self.servers@[a as int],
                        self.servers@[k],
                    )) ==> closer(self.servers@[best as int], #[trigger] self.servers@[k])
            },
            found is None ==> after is Some,
            found is None ==> forall|k: int|
                0 <= k < self.servers@.len() ==> !closer(
                    self.servers@[after->0 as int],
                    #[trigger] self.servers@[k],
                ),
    {
        proof {
            use_type_invariant(self);
        }
        let mut found: Option<usize> = None;
        let mut k: usize = 0;
        while k < self.servers.len()
            invariant
                k <= self.servers@.len(),
                distinct_ids(self.servers@),
                after matches Some(a) ==> a < self.servers@.len(),
                found matches Some(best) ==> {
                    &&& best < k
                    &&& after matches Some(a) ==> closer(
                        self.servers@[a as int],
                        self.servers@[best as int],
                    )
                    &&& forall|j: int|
                        0 <= j < k && j != best && (after matches Some(a) ==> closer(
                            self.servers@[a as int],
                            self.servers@[j],
                        )) ==> closer(self.servers@[best as int], #[trigger] self.servers@[j])
                },
                found is None && k > 0 ==> after is Some,
                found is None ==> forall|j: int|
                    0 <= j < k ==> !closer(
                        self.servers@[after->0 as int],
                        #[trigger] self.servers@[j],
                    ),
            decreases self.servers@.len() - k,
        {
            let candidate: bool = match after {
                Some(a) => is_closer(&self.servers[a], &self.servers[k]),
                None => true,
            };
            if candidate {
                let better: bool = match found {
                    Some(best) => is_closer(&self.servers[k], &self.servers[best]),
                    None => true,
                };
                if better {
                    found = Some(k);
                }
            }
            k += 1;
        }
        found
    }

    /// The `n` nearest servers, nearest first; of two servers at the same
    /// distance the one with the smaller identifier comes first. Asking for
    /// more servers than the catalog holds gives the whole catalog, asking
    /// for none gives none.
    pub fn get_nearest_servers(&self, n: usize) -> (nearest: Vec<Server>)
        ensures
            is_nearest_selection(self@, n as nat, nearest@),
            nearest@.len() <= n,
            forall|i: int, j: int|
                0 <= i <= j < nearest@.len() ==> #[trigger] nearest@[i].distance_m
                    <= #[trigger] nearest@[j].distance_m,
    {
        proof {
            use_type_invariant(self);
        }
        let wanted: usize = if n <= self.servers.len() {
            n
        } else {
            self.servers.len()
        };
        let mut nearest: Vec<Server> = Vec::new();
        let mut last: Option<usize> = None;
        let ghost mut picked: Seq<int> = Seq::empty();
        while nearest.len() < wanted
            invariant
                wanted <= self.servers@.len(),
                distinct_ids(self.servers@),
                nearest@.len() <= wanted,
                picked.len() == nearest@.len(),
                forall|i: int|
                    0 <= i < picked.len() ==> 0 <= #[trigger] picked[i] < self.servers@.len()
                        && nearest@[i] == self.servers@[picked[i]],
                forall|i: int, j: int|
                    0 <= i < j < nearest@.len() ==> closer(
                        #[trigger] nearest@[i],
                        #[trigger] nearest@[j],
                    ),
                nearest@.len() == 0 ==> last is None,
                nearest@.len() > 0 ==> last is Some && last->0 == picked.last(),
                forall|k: int|
                    0 <= k < self.servers@.len() && !picked.contains(k) ==> nearest@.len() == 0
                        || closer(nearest@.last(), #[trigger] self.servers@[k]),
            decreases wanted - nearest@.len(),
        {
            let ghost before = nearest@;
            let ghost picked_before = picked;
            let found = self.next_in_rank(last);
            match found {
                None => {
                    proof {
                        assert(before.last() == self.servers@[picked.last()]);
                        assert forall|k: int| 0 <= k < self.servers@.len() implies picked.contains(
                            k,
                        ) by {
                            assert(!closer(self.servers@[last->0 as int], self.servers@[k]));
                        }
                        lemma_covering_indices(picked, self.servers@.len() as int);
                    }
                    return nearest;
                },
                Some(best) => {
                    nearest.push(self.servers[best].clone());
                    proof {
                        picked = picked.push(best as int);
                        assert(nearest@.last() == self.servers@[best as int]);
                        if before.len() > 0 {
                            assert(before.last() == self.servers@[picked_before.last()]);
                            assert(closer(before.last(), nearest@.last()));
                        }
                        assert forall|k: int|
                            0 <= k < self.servers@.len() && !picked.contains(k) implies closer(
                            nearest@.last(),
                            #[trigger] self.servers@[k],
                        ) by {
                            if picked_before.contains(k) {
                                let at = picked_before.index_of(k);
                                assert(picked[at] == k);
                            }
                            assert(picked.last() == best);
                            assert(k != best);
                            if before.len() > 0 {
                                assert(closer(before.last(), self.servers@[k]));
                            }
                        }
                        assert forall|i: int, j: int| 0 <= i < j < nearest@.len() implies closer(
                            #[trigger] nearest@[i],
                            #[trigger] nearest@[j],
                        ) by {
                            if j == nearest@.len() - 1 {
                                assert(nearest@[i] == before[i]);
                                if i < j - 1 {
                                    assert(closer(before[i], before[j - 1]));
                                }
                            } else {
                                assert(closer(before[i], before[j]));
                            }
                        }
                    }
                    last = Some(best);
                },
            }
        }
        proof {
            assert forall|i: int| 0 <= i < nearest@.len() implies self@.contains(
                #[trigger] nearest@[i],
            ) by {
                assert(self@[picked[i]] == nearest@[i]);
            }
            assert forall|i: int, k: int|
                0 <= i < nearest@.len() && 0 <= k < self@.len() && !nearest@.contains(
                    self@[k],
                ) implies closer(#[trigger] nearest@[i], #[trigger] self@[k]) by {
                if picked.contains(k) {
                    let at = picked.index_of(k);
                    assert(nearest@[at] == self@[k]);
                }
                assert(closer(nearest@.last(), self@[k]));
                if i < nearest@.len() - 1 {
                    assert(closer(nearest@[i], nearest@.last()));
                }
            }
            assert forall|i: int, j: int| 0 <= i <= j < nearest@.len() implies #[trigger] nearest@[i].distance_m
                <= #[trigger] nearest@[j].distance_m by {
                if i < j {
                    assert(closer(nearest@[i], nearest@[j]));
                }
            }
        }
        nearest
    }

    /// The nearest server of all: the one a test runs against unless the
    /// caller chooses another.
    pub fn nearest(&self) -> (server: Server)
        ensures
            self@.contains(server),
            forall|k: int|
                0 <= k < self@.len() ==> server == self@[k] || closer(server, #[trigger] self@[k]),
    {
        proof {
            use_type_invariant(self);
        }
        let found = self.next_in_rank(None);
        match found {
            Some(best) => {
                let server = self.servers[best].clone();
                assert(self@[best as int] == server);
                server
            },
            None => {
                proof {
                    let first = self.servers@[0];
                }
                self.servers[0].clone()
            },
        }
    }
}

/// Compares two servers by rank.
pub fn is_closer(a: &Server, b: &Server) -> (yes: bool)
    ensures
        yes == closer(*a, *b),
{
    a.distance_m < b.distance_m || (a.distance_m == b.distance_m && a.id < b.id)
}

/// Tells whether every identifier of a listing is in range and none occurs
/// twice.
fn has_proper_ids(servers: &Vec<Server>) -> (ok: bool)
    ensures
        ok == (valid_ids(servers@) && distinct_ids(servers@)),
{
    let mut i: usize = 0;
    while i < servers.len()
        invariant
            i <= servers@.len(),
            forall|a: int| 0 <= a < i ==> server_id_in_range(#[trigger] servers@[a].id),
            forall|a: int, b: int|
                0 <= a < b < i ==> #[trigger] servers@[a].id != #[trigger] servers@[b].id,
        decreases servers@.len() - i,
    {
        if !validate_server_id(servers[i].id) {
            return false;
        }
        let mut j: usize = 0;
        while j < i
            invariant
                j <= i < servers@.len(),
                forall|a: int| 0 <= a < j ==> #[trigger] servers@[a].id != servers@[i as int].id,
            decreases i - j,
        {
            if servers[j].id == servers[i].id {
                return false;
            }
            j += 1;
        }
        i += 1;
    }
    true
}

} // verus!
