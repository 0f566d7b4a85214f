//! Looking for a Tensix that has no work.

use vstd::prelude::*;

use crate::firmware::dram_pull::JobSearch;
use crate::firmware::push::Search;
use crate::launch_data::LaunchRequest;
use crate::wire;

verus! {

/// Whether `searches` is a search for a request from its start: what was read at each look is in
/// `slots`.
pub open spec fn is_job_search(
    tensix_count: usize,
    slots: Seq<Seq<u8>>,
    searches: Seq<JobSearch>,
) -> bool {
    &&& searches.len() == slots.len() + 1
    &&& searches[0] == (JobSearch::Look { index: 0 })
    &&& forall|i: int, j: int|
        0 <= i < slots.len() && j == i + 1 ==> #[trigger] searches[j] == (
        #[trigger] searches[i]).follows(tensix_count as int, wire::read_request(slots[i]))
}

/// Whether a slot says that its Tensix has not asked for work.
pub open spec fn says_nothing(slot: Seq<u8>) -> bool {
    slot.len() > 0 && slot[0] == 0
}

/// As long as no Tensix has asked for work, the search looks at all of them in turn, and starts again
/// when it has seen the last.
pub proof fn every_tensix_is_asked_in_turn(
    tensix_count: usize,
    slots: Seq<Seq<u8>>,
    searches: Seq<JobSearch>,
    looks: int,
)
    requires
        tensix_count > 0,
        is_job_search(tensix_count, slots, searches),
        0 <= looks <= slots.len(),
        forall|i: int| 0 <= i < looks ==> says_nothing(#[trigger] slots[i]),
    ensures
        searches[looks] == (JobSearch::Look { index: (looks % tensix_count as int) as usize }),
    decreases looks,
{
    if looks > 0 {
        every_tensix_is_asked_in_turn(tensix_count, slots, searches, looks - 1);
        assert(says_nothing(slots[looks - 1]));
        assert(searches[looks] == searches[looks - 1].follows(
            tensix_count as int,
            wire::read_request(slots[looks - 1]),
        ));
        lemma_next_in_turn(looks - 1, tensix_count as int);
    } else {
        vstd::arithmetic::div_mod::lemma_small_mod(0, tensix_count as nat);
    }
}

/// The Tensix behind one is the next in number, or the first.
proof fn lemma_next_in_turn(looks: int, count: int)
    requires
        0 <= looks,
        0 < count,
    ensures
        0 <= looks % count < count,
        (looks + 1) % count == if looks % count + 1 < count {
            looks % count + 1
        } else {
            0
        },
{
    vstd::arithmetic::div_mod::lemma_mod_bound(looks, count);
    vstd::arithmetic::div_mod::lemma_fundamental_div_mod(looks, count);
    let turns = looks / count;
    if looks % count + 1 < count {
        assert(looks + 1 == turns * count + (looks % count + 1)) by (nonlinear_arith)
            requires
                looks == count * turns + looks % count,
        ;
        vstd::arithmetic::div_mod::lemma_fundamental_div_mod_converse(
            looks + 1,
            count,
            turns,
            looks % count + 1,
        );
    } else {
        assert(looks + 1 == (turns + 1) * count + 0) by (nonlinear_arith)
            requires
                looks == count * turns + looks % count,
                looks % count + 1 == count,
        ;
        vstd::arithmetic::div_mod::lemma_fundamental_div_mod_converse(
            looks + 1,
            count,
            turns + 1,
            0,
        );
    }
}

/// The first Tensix in turn that has asked for work gets it, with what it asked for, whichever it is;
/// once found it stays found.
pub proof fn the_first_tensix_in_turn_that_asked_is_found(
    tensix_count: usize,
    slots: Seq<Seq<u8>>,
    searches: Seq<JobSearch>,
    looks: int,
    request: LaunchRequest,
    rest: Seq<u8>,
    later: int,
)
    requires
        tensix_count > 0,
        is_job_search(tensix_count, slots, searches),
        0 <= looks < later <= slots.len(),
        forall|i: int| 0 <= i < looks ==> says_nothing(#[trigger] slots[i]),
        slots[looks] == wire::request_wire(request) + rest,
    ensures
        searches[later] == (JobSearch::Asked {
            index: (looks % tensix_count as int) as usize,
            request,
        }),
    decreases later,
{
    if later == looks + 1 {
        every_tensix_is_asked_in_turn(tensix_count, slots, searches, looks);
        wire::requests_read_back(request, rest);
        assert(searches[looks + 1] == searches[looks].follows(
            tensix_count as int,
            wire::read_request(slots[looks]),
        ));
    } else {
        the_first_tensix_in_turn_that_asked_is_found(
            tensix_count,
            slots,
            searches,
            looks,
            request,
            rest,
            later - 1,
        );
        assert(searches[later] == searches[later - 1].follows(
            tensix_count as int,
            wire::read_request(slots[later - 1]),
        ));
    }
}

/// A slot that holds neither a request nor the sign that there is none ends the search, and the
/// Tensix is named.
pub proof fn nonsense_ends_the_search(
    tensix_count: usize,
    slots: Seq<Seq<u8>>,
    searches: Seq<JobSearch>,
    looks: int,
)
    requires
        tensix_count > 0,
        is_job_search(tensix_count, slots, searches),
        0 <= looks < slots.len(),
        forall|i: int| 0 <= i < looks ==> says_nothing(#[trigger] slots[i]),
        slots[looks].len() == 0 || slots[looks][0] > 1,
    ensures
        searches[looks + 1] == (JobSearch::Malformed {
            index: (looks % tensix_count as int) as usize,
        }),
{
    every_tensix_is_asked_in_turn(tensix_count, slots, searches, looks);
    assert(searches[looks + 1] == searches[looks].follows(
        tensix_count as int,
        wire::read_request(slots[looks]),
    ));
}

/// Whether `searches` is a search for a free job slot from its start: what was read at each look is in
/// `slots`.
pub open spec fn is_search(tensix_count: usize, slots: Seq<u32>, searches: Seq<Search>) -> bool {
    &&& searches.len() == slots.len() + 1
    &&& searches[0] == (Search::Look { index: 0 })
    &&& forall|i: int, j: int|
        0 <= i < slots.len() && j == i + 1 ==> #[trigger] searches[j] == (
        #[trigger] searches[i]).follows(tensix_count as int, slots[i])
}

/// As long as no Tensix waits for work, the search looks at all of them in turn, and starts again when
/// it has seen the last.
pub proof fn every_job_slot_is_looked_at_in_turn(
    tensix_count: usize,
    slots: Seq<u32>,
    searches: Seq<Search>,
    looks: int,
)
    requires
        tensix_count > 0,
        is_search(tensix_count, slots, searches),
        0 <= looks <= slots.len(),
        forall|i: int| 0 <= i < looks ==> #[trigger] slots[i] == 0,
    ensures
        searches[looks] == (Search::Look { index: (looks % tensix_count as int) as usize }),
    decreases looks,
{
    if looks > 0 {
        every_job_slot_is_looked_at_in_turn(tensix_count, slots, searches, looks - 1);
        assert(slots[looks - 1] == 0);
        assert(searches[looks] == searches[looks - 1].follows(
            tensix_count as int,
            slots[looks - 1],
        ));
        lemma_next_in_turn(looks - 1, tensix_count as int);
    } else {
        vstd::arithmetic::div_mod::lemma_small_mod(0, tensix_count as nat);
    }
}

/// The first Tensix in turn whose job slot says where to load to gets the work there; once found it
/// stays found.
pub proof fn the_first_tensix_in_turn_that_waits_is_found(
    tensix_count: usize,
    slots: Seq<u32>,
    searches: Seq<Search>,
    looks: int,
    later: int,
)
    requires
        tensix_count > 0,
        is_search(tensix_count, slots, searches),
        0 <= looks < later <= slots.len(),
        forall|i: int| 0 <= i < looks ==> #[trigger] slots[i] == 0,
        slots[looks] != 0,
    ensures
        searches[later] == (Search::Found {
            index: (looks % tensix_count as int) as usize,
            job_location: slots[looks] as u64,
        }),
    decreases later,
{
    if later == looks + 1 {
        every_job_slot_is_looked_at_in_turn(tensix_count, slots, searches, looks);
        assert(searches[looks + 1] == searches[looks].follows(tensix_count as int, slots[looks]));
    } else {
        the_first_tensix_in_turn_that_waits_is_found(
            tensix_count,
            slots,
            searches,
            looks,
            later - 1,
        );
        assert(searches[later] == searches[later - 1].follows(
            tensix_count as int,
            slots[later - 1],
        ));
    }
}

} // verus!
