//! Identifiers of tables, columns and rows: random 128-bit numbers, and the
//! search for one that is not yet in use.
use vstd::prelude::*;

verus! {

/// Draws a random identifier.
///
/// Calls `uuid::Uuid::new_v4` and hands the UUID back as the 128-bit number
/// that `Uuid::as_u128` gives. Nothing is claimed of the number drawn. The
/// call panics where the operating system yields no random bytes, which no
/// argument of the caller decides.
#[verifier::external_body]
pub(crate) fn random_id() -> (id: u128) {
    uuid::Uuid::new_v4().as_u128()
}

/// Something that carries an identifier.
pub trait Identified {
    /// The identifier carried.
    spec fn ident(&self) -> u128;

    /// The identifier carried.
    fn id(&self) -> (id: u128)
        ensures
            id == self.ident(),
    ;
}

/// The identifiers of `items`, in their order.
pub open spec fn idents<T: Identified>(items: Seq<T>) -> Seq<u128> {
    Seq::new(items.len(), |i: int| items[i].ident())
}

/// The identifier after `id`; after the last one comes the first.
pub open spec fn successor(id: u128) -> u128 {
    if id == u128::MAX {
        0
    } else {
        (id + 1) as u128
    }
}

/// The identifier `steps` places after `id`, going round at the end.
spec fn advance(id: u128, steps: nat) -> u128
    recommends
        steps <= u128::MAX,
{
    if id + steps <= u128::MAX {
        (id + steps) as u128
    } else {
        (id + steps - u128::MAX - 1) as u128
    }
}

/// Goes up from `candidate`, at most `tries` places, to the first identifier
/// that is not among `used`.
pub open spec fn probe(used: Seq<u128>, candidate: u128, tries: nat) -> u128
    decreases tries,
{
    if tries == 0 || !used.contains(candidate) {
        candidate
    } else {
        probe(used, successor(candidate), (tries - 1) as nat)
    }
}

/// The identifier to give out when `candidate` was drawn and `used` are
/// taken: `candidate` itself if it is free, else the next free one after it.
pub open spec fn first_unused(used: Seq<u128>, candidate: u128) -> u128 {
    probe(used, candidate, used.len())
}

/// A set that holds `count` identifiers in a row has at least `count`
/// members.
proof fn lemma_row_of_members(used: Set<u128>, start: u128, count: nat)
    requires
        used.finite(),
        count <= u128::MAX + 1,
        forall|j: nat| j < count ==> used.contains(#[trigger] advance(start, j)),
    ensures
        used.len() >= count,
    decreases count,
{
    if count > 0 {
        let last = advance(start, (count - 1) as nat);
        let rest = used.remove(last);
        assert forall|j: nat| j < count - 1 implies rest.contains(#[trigger] advance(start, j)) by {
            assert(used.contains(advance(start, j)));
        }
        lemma_row_of_members(rest, start, (count - 1) as nat);
    }
}

/// The identifier that [`first_unused`] names is not in use.
pub proof fn lemma_first_unused_is_unused(used: Seq<u128>, candidate: u128)
    requires
        used.len() <= u128::MAX,
    ensures
        !used.contains(first_unused(used, candidate)),
{
    lemma_probe_from(used, candidate, 0);
}

/// Probing that has found `steps` identifiers in a row taken ends on a free
/// one.
proof fn lemma_probe_from(used: Seq<u128>, start: u128, steps: nat)
    requires
        steps <= used.len() <= u128::MAX,
        forall|j: nat| j < steps ==> used.contains(#[trigger] advance(start, j)),
    ensures
        !used.contains(probe(used, advance(start, steps), (used.len() - steps) as nat)),
    decreases used.len() - steps,
{
    let here = advance(start, steps);
    if used.contains(here) {
        lemma_taken_row_is_short(used, start, steps);
        assert(successor(here) == advance(start, steps + 1));
        assert forall|j: nat| j < steps + 1 implies used.contains(#[trigger] advance(start, j)) by {
            if j == steps {
            }
        }
        lemma_probe_from(used, start, steps + 1);
    }
}

/// Where `steps + 1` identifiers in a row are taken, more than `steps` are
/// in use.
proof fn lemma_taken_row_is_short(used: Seq<u128>, start: u128, steps: nat)
    requires
        steps <= used.len() <= u128::MAX,
        forall|j: nat| j < steps ==> used.contains(#[trigger] advance(start, j)),
        used.contains(advance(start, steps)),
    ensures
        steps < used.len(),
{
    assert forall|j: nat| j < steps + 1 implies used.to_set().contains(
        #[trigger] advance(start, j),
    ) by {
        if j == steps {
        }
    }
    used.lemma_cardinality_of_set();
    lemma_row_of_members(used.to_set(), start, steps + 1);
}

/// Tells whether one of `items` carries `id`.
pub fn is_used<T: Identified>(items: &Vec<T>, id: u128) -> (r: bool)
    ensures
        r == idents(items@).contains(id),
{
    let mut i: usize = 0;
    while i < items.len()
        invariant
            i <= items.len(),
            forall|j: int| 0 <= j < i ==> idents(items@)[j] != id,
        decreases items.len() - i,
    {
        if items[i].id() == id {
            assert(idents(items@)[i as int] == id);
            return true;
        }
        i += 1;
    }
    false
}

/// Finds an identifier that none of `items` carries: `candidate` if it is
/// free, else the next free one after it.
pub fn unused_id<T: Identified>(items: &Vec<T>, candidate: u128) -> (id: u128)
    ensures
        id == first_unused(idents(items@), candidate),
        !idents(items@).contains(id),
{
    let ghost used = idents(items@);
    let count = items.len();
    let mut id = candidate;
    let mut steps: usize = 0;
    while is_used(items, id)
        invariant
            used == idents(items@),
            used.len() == count,
            steps <= used.len(),
            id == advance(candidate, steps as nat),
            forall|j: nat| j < steps ==> used.contains(#[trigger] advance(candidate, j)),
            first_unused(used, candidate) == probe(used, id, (used.len() - steps) as nat),
        decreases used.len() - steps,
    {
        proof {
            lemma_taken_row_is_short(used, candidate, steps as nat);
            assert forall|j: nat| j < steps + 1 implies used.contains(
                #[trigger] advance(candidate, j),
            ) by {
                if j == steps {
                }
            }
        }
        id = if id == u128::MAX {
            0
        } else {
            id + 1
        };
        steps += 1;
    }
    id
}

} // verus!
