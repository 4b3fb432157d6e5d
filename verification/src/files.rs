//! Which files of a directory make up a checkpoint, and in which order they
//! are committed to.
use vstd::prelude::*;
use vstd::multiset::Multiset;
use vstd::relations::{sorted_by, total_ordering};
use vstd::seq_lib::lemma_sorted_unique;
use crate::error::{Fault, MetalError};

verus! {

/// A name that ends in a plain text. Names are bytes and need not be text
/// themselves.
pub open spec fn ends_in(name: Seq<u8>, end: Seq<char>) -> bool {
    &&& end.len() <= name.len()
    &&& forall|i: int|
        0 <= i < end.len() ==> name[name.len() - end.len() + i] as int == #[trigger] end[i] as int
}

/// A file name of the checkpoint: a table or a shard, with a stem before its
/// extension.
pub open spec fn belongs(name: Seq<u8>) -> bool {
    (ends_in(name, ".json"@) && name.len() > 5) || (ends_in(name, ".safetensors"@) && name.len() > 12)
}

fn has_end(name: &Vec<u8>, end: &str) -> (r: bool)
    ensures
        r == ends_in(name@, end@),
{
    let n: usize = name.len();
    let m: usize = end.unicode_len();
    if n < m {
        return false;
    }
    let mut i: usize = 0;
    while i < m
        invariant
            i <= m <= n,
            n == name@.len(),
            m == end@.len(),
            forall|j: int| 0 <= j < i ==> name@[n - m + j] as int == #[trigger] end@[j] as int,
        decreases m - i,
    {
        if name[n - m + i] as u32 != end.get_char(i) as u32 {
            assert(name@[n - m + i] as int != end@[i as int] as int);
            return false;
        }
        i = i + 1;
    }
    true
}

/// Whether the rest of `a` from `i` on goes before the rest of `b`, or equals
/// it.
pub open spec fn not_after(a: Seq<u8>, b: Seq<u8>, i: int) -> bool
    decreases a.len() - i,
{
    if i >= a.len() {
        true
    } else if i >= b.len() {
        false
    } else if a[i] != b[i] {
        a[i] < b[i]
    } else {
        not_after(a, b, i + 1)
    }
}

/// File names in the order of their bytes.
pub open spec fn order() -> spec_fn(Seq<u8>, Seq<u8>) -> bool {
    |a: Seq<u8>, b: Seq<u8>| not_after(a, b, 0)
}

proof fn lemma_reflexive(a: Seq<u8>, i: int)
    requires
        0 <= i,
    ensures
        not_after(a, a, i),
    decreases a.len() - i,
{
    if i < a.len() {
        lemma_reflexive(a, i + 1);
    }
}

proof fn lemma_connected(a: Seq<u8>, b: Seq<u8>, i: int)
    requires
        0 <= i,
    ensures
        not_after(a, b, i) || not_after(b, a, i),
    decreases a.len() - i,
{
    if i < a.len() && i < b.len() && a[i] == b[i] {
        lemma_connected(a, b, i + 1);
    }
}

proof fn lemma_antisymmetric(a: Seq<u8>, b: Seq<u8>, i: int)
    requires
        0 <= i <= a.len(),
        i <= b.len(),
        a.take(i) == b.take(i),
        not_after(a, b, i),
        not_after(b, a, i),
    ensures
        a == b,
    decreases a.len() - i,
{
    if i < a.len() && i < b.len() {
        assert(a.take(i + 1) =~= a.take(i).push(a[i]));
        assert(b.take(i + 1) =~= b.take(i).push(b[i]));
        lemma_antisymmetric(a, b, i + 1);
    } else {
        assert(a =~= a.take(i));
        assert(b =~= b.take(i));
    }
}

proof fn lemma_transitive(a: Seq<u8>, b: Seq<u8>, c: Seq<u8>, i: int)
    requires
        0 <= i,
        not_after(a, b, i),
        not_after(b, c, i),
    ensures
        not_after(a, c, i),
    decreases a.len() - i,
{
    if i < a.len() && i < b.len() && i < c.len() && a[i] == b[i] && b[i] == c[i] {
        lemma_transitive(a, b, c, i + 1);
    }
}

/// The order is total, so that a set of names has one sorted list.
pub proof fn names_are_totally_ordered()
    ensures
        total_ordering(order()),
{
    let leq = order();
    assert forall|a: Seq<u8>| #[trigger] leq(a, a) by {
        lemma_reflexive(a, 0);
    }
    assert forall|a: Seq<u8>, b: Seq<u8>| #[trigger] leq(a, b) && #[trigger] leq(b, a) implies a == b by {
        assert(a.take(0) =~= b.take(0));
        lemma_antisymmetric(a, b, 0);
    }
    assert forall|a: Seq<u8>, b: Seq<u8>, c: Seq<u8>| #[trigger]
        leq(a, b) && #[trigger] leq(b, c) implies leq(a, c) by {
        lemma_transitive(a, b, c, 0);
    }
    assert forall|a: Seq<u8>, b: Seq<u8>| #[trigger] leq(a, b) || #[trigger] leq(b, a) by {
        lemma_connected(a, b, 0);
    }
}

pub open spec fn spellings(names: Seq<Vec<u8>>) -> Seq<Seq<u8>> {
    names.map_values(|s: Vec<u8>| s@)
}

/// The names of a listing that belong to the checkpoint, each as often as it
/// is listed.
pub open spec fn kept(listing: Seq<Seq<u8>>) -> Multiset<Seq<u8>>
    decreases listing.len(),
{
    if listing.len() == 0 {
        Multiset::empty()
    } else if belongs(listing.last()) {
        kept(listing.drop_last()).insert(listing.last())
    } else {
        kept(listing.drop_last())
    }
}

fn precedes(a: &Vec<u8>, b: &Vec<u8>) -> (r: bool)
    ensures
        r == not_after(a@, b@, 0),
{
    let n: usize = a.len();
    let m: usize = b.len();
    let mut i: usize = 0;
    while i < n
        invariant
            i <= n,
            n == a@.len(),
            m == b@.len(),
            not_after(a@, b@, 0) == not_after(a@, b@, i as int),
        decreases n - i,
    {
        if i >= m {
            return false;
        }
        if a[i] != b[i] {
            return a[i] < b[i];
        }
        i = i + 1;
    }
    true
}

/// Put a name behind all that do not go after it.
fn insert_name(list: &mut Vec<Vec<u8>>, name: Vec<u8>)
    requires
        sorted_by(spellings(old(list)@), order()),
    ensures
        sorted_by(spellings(final(list)@), order()),
        spellings(final(list)@).to_multiset() == spellings(old(list)@).to_multiset().insert(name@),
{
    let ghost before = spellings(list@);
    let ghost leq = order();
    let mut i: usize = 0;
    while i < list.len() && precedes(&list[i], &name)
        invariant
            i <= list.len(),
            before == spellings(list@),
            leq == order(),
            forall|j: int| 0 <= j < i ==> leq(#[trigger] before[j], name@),
        decreases list.len() - i,
    {
        assert(before[i as int] == list[i as int]@);
        i = i + 1;
    }
    let ghost shown = name@;
    let ghost old_list = list@;
    proof {
        names_are_totally_ordered();
        if i < list.len() {
            assert(before[i as int] == list[i as int]@);
            assert(!leq(before[i as int], shown));
            assert(leq(shown, before[i as int]));
        }
    }
    list.insert(i, name);
    proof {
        let after = spellings(list@);
        assert(after =~= before.insert(i as int, shown));
        before.to_multiset_ensures();
        assert(after.to_multiset() =~= before.to_multiset().insert(shown)) by {
            vstd::seq_lib::to_multiset_insert(before, i as int, shown);
        }
        assert forall|a: int, b: int| 0 <= a < b < after.len() implies #[trigger] leq(after[a], after[b]) by {
            if a < i && b == i {
                assert(leq(before[a], shown));
            } else if a == i && b > i {
                assert(leq(shown, before[i as int]));
                if b - 1 > i {
                    assert(leq(before[i as int], before[b - 1]));
                }
            } else if a < i && b > i {
                assert(leq(before[a], before[b - 1]));
            } else if a < i {
                assert(leq(before[a], before[b]));
            } else {
                assert(leq(before[a - 1], before[b - 1]));
            }
        }
    }
}

/// The files of a checkpoint directory, in the order of their names. A
/// directory without any is refused.
pub fn checkpoint_files(listing: Vec<Vec<u8>>) -> (r: Result<Vec<Vec<u8>>, MetalError>)
    ensures
        ({
            let want = kept(spellings(listing@));
            if want.len() == 0 {
                r == Err::<Vec<Vec<u8>>, MetalError>(MetalError::Model(Fault::Files))
            } else {
                &&& r matches Ok(v)
                &&& spellings(v@).to_multiset() == want
                &&& sorted_by(spellings(v@), order())
            }
        }),
{
    let ghost all = spellings(listing@);
    let mut rest = listing;
    let mut out: Vec<Vec<u8>> = Vec::new();
    proof {
        spellings(out@).to_multiset_ensures();
        assert(spellings(out@).to_multiset() =~= Multiset::<Seq<u8>>::empty());
        assert(spellings(out@).to_multiset().add(kept(all)) =~= kept(all));
    }
    while rest.len() > 0
        invariant
            all == spellings(listing@),
            sorted_by(spellings(out@), order()),
            spellings(out@).to_multiset().add(kept(spellings(rest@))) == kept(all),
        decreases rest.len(),
    {
        let ghost before = rest@;
        let ghost held = spellings(out@).to_multiset();
        if let Some(name) = rest.pop() {
            proof {
                assert(spellings(before).drop_last() =~= spellings(rest@));
                assert(spellings(before).last() == name@);
            }
            if (has_end(&name, ".json") && name.len() > 5) || (has_end(&name, ".safetensors")
                && name.len() > 12) {
                let ghost shown = name@;
                insert_name(&mut out, name);
                assert(spellings(out@).to_multiset().add(kept(spellings(rest@))) =~= held.add(
                    kept(spellings(rest@)).insert(shown),
                ));
            }
        }
    }
    proof {
        spellings(out@).to_multiset_ensures();
        assert(kept(spellings(rest@)) =~= Multiset::<Seq<u8>>::empty());
        assert(spellings(out@).to_multiset().add(kept(spellings(rest@))) =~= spellings(out@).to_multiset());
    }
    if out.len() == 0 {
        return Err(MetalError::Model(Fault::Files));
    }
    Ok(out)
}

proof fn lemma_kept(listing: Seq<Seq<u8>>)
    ensures
        kept(listing) == listing.to_multiset().filter(|n: Seq<u8>| belongs(n)),
    decreases listing.len(),
{
    listing.to_multiset_ensures();
    let f = |n: Seq<u8>| belongs(n);
    if listing.len() == 0 {
        assert(kept(listing) =~= listing.to_multiset().filter(f));
    } else {
        let rest = listing.drop_last();
        lemma_kept(rest);
        rest.to_multiset_ensures();
        assert(rest.push(listing.last()) =~= listing);
        vstd::seq_lib::to_multiset_build(rest, listing.last());
        assert(kept(listing) =~= listing.to_multiset().filter(f));
    }
}

/// A directory gives the same files in the same order however it is listed.
pub proof fn files_do_not_depend_on_the_listing(
    a: Seq<Seq<u8>>,
    b: Seq<Seq<u8>>,
    x: Seq<Seq<u8>>,
    y: Seq<Seq<u8>>,
)
    requires
        a.to_multiset() == b.to_multiset(),
        x.to_multiset() == kept(a),
        y.to_multiset() == kept(b),
        sorted_by(x, order()),
        sorted_by(y, order()),
    ensures
        x == y,
{
    lemma_kept(a);
    lemma_kept(b);
    names_are_totally_ordered();
    lemma_sorted_unique(x, y, order());
}

} // verus!
