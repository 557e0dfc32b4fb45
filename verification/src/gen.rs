use vstd::prelude::*;
use std::collections::HashMap;
use vstd::std_specs::iter::IteratorSpec;
use crate::Layer;

verus! {

/// The subsets of moves that a move generator may be asked for.
#[derive(Clone, Copy, PartialEq, Eq, Debug, Structural)]
pub enum GenMovesFlag {
    /// All of the moves.
    Any,
    /// The moves attacking a royal piece; other moves may be present too, but all of the
    /// moves attacking a royal piece must be.
    Check,
}

/// A cross section of hypercuboids of movesets: either one set of indices per timeline, or
/// one timeline's indices that must match together with a set of indices per timeline.
#[derive(PartialEq, Debug)]
pub enum Sec {
    Single(HashMap<Layer, Vec<usize>>),
    MatchesOne((Layer, Vec<usize>), HashMap<Layer, Vec<usize>>),
}

impl Clone for Sec {
    fn clone(&self) -> (res: Self) {
        match self {
            Sec::Single(m) => Sec::Single(m.clone()),
            Sec::MatchesOne((l, v), m) => Sec::MatchesOne((*l, v.clone()), m.clone()),
        }
    }
}

/// Whether `v` holds `value`.
fn vec_contains(v: &Vec<usize>, value: usize) -> (res: bool)
    ensures
        res == v@.contains(value),
{
    let mut k: usize = 0;
    while k < v.len()
        invariant
            0 <= k <= v.len(),
            forall|j: int| 0 <= j < k ==> v@[j] != value,
        decreases v.len() - k,
    {
        if v[k] == value {
            assert(v@[k as int] == value);
            return true;
        }
        k = k + 1;
    }
    false
}

/// Whether the hypercuboid (one set of indices per timeline) contains the point (one index
/// per timeline): on each axis of the hypercuboid, the point's index is one of the axis's.
pub fn hc_contains(hypercuboid: HashMap<Layer, Vec<usize>>, point: HashMap<Layer, usize>) -> (res: bool)
    requires
        forall|l: Layer| #[trigger] hypercuboid@.contains_key(l) ==> point@.contains_key(l),
    ensures
        res == forall|l: Layer| #[trigger] hypercuboid@.contains_key(l) ==> hypercuboid@[l]@.contains(point@[l]),
{
    broadcast use vstd::std_specs::hash::group_hash_axioms;
    let ghost pairs = vstd::std_specs::hash::spec_hash_map_iter(&hypercuboid).remaining();
    for (l, axis) in it: hypercuboid.iter()
        invariant
            it.seq() == pairs,
            forall|l2: Layer| #[trigger] hypercuboid@.contains_key(l2) ==> point@.contains_key(l2),
            forall|j: int| 0 <= j < it.index() ==> {
                let k = *(#[trigger] it.seq()[j]).0;
                hypercuboid@.contains_key(k) && hypercuboid@[k]@.contains(point@[k])
            },
    {
        assert(hypercuboid@.contains_key(*l));
        assert(hypercuboid@[*l] == *axis);
        let value = match point.get(l) {
            Some(v) => *v,
            None => {
                return false;
            },
        };
        if !vec_contains(axis, value) {
            return false;
        }
    }
    proof {
        assert forall|l: Layer| #[trigger] hypercuboid@.contains_key(l) implies hypercuboid@[l]@.contains(point@[l]) by {
            assert(pairs.contains((&l, &hypercuboid@[l])));
            let j = choose|j: int| 0 <= j < pairs.len() && pairs[j] == (&l, &hypercuboid@[l]);
            assert(*pairs[j].0 == l);
        }
    }
    true
}


/// The axes of a hypercuboid of movesets (for each timeline, the indices of the moves it
/// may take), as sequences.
pub open spec fn axes(hc: Map<Layer, Vec<usize>>) -> Map<Layer, Seq<usize>> {
    hc.map_values(|v: Vec<usize>| v@)
}

/// The indices that are in `section` (`keep`) or that are not (`!keep`).
pub open spec fn sifted_by(section: Seq<usize>, keep: bool) -> spec_fn(usize) -> bool {
    |i: usize| section.contains(i) == keep
}

/// The indices of `axis`, in order, that are in `section` (`keep`) or that are not (`!keep`).
pub open spec fn sift(axis: Seq<usize>, section: Seq<usize>, keep: bool) -> Seq<usize> {
    axis.filter(sifted_by(section, keep))
}

/// The indices of `axis` that are in `section` (`keep`) or that are not (`!keep`).
fn sift_vec(axis: &Vec<usize>, section: &Vec<usize>, keep: bool) -> (res: Vec<usize>)
    ensures
        res@ == sift(axis@, section@, keep),
{
    let mut res: Vec<usize> = Vec::new();
    let mut k: usize = 0;
    while k < axis.len()
        invariant
            0 <= k <= axis.len(),
            res@ == sift(axis@.take(k as int), section@, keep),
        decreases axis.len() - k,
    {
        proof {
            assert(axis@.take(k + 1) =~= axis@.take(k as int).push(axis@[k as int]));
            axis@.take(k as int).lemma_filter_push(axis@[k as int], sifted_by(section@, keep));
        }
        if vec_contains(section, axis[k]) == keep {
            res.push(axis[k]);
        }
        k = k + 1;
    }
    assert(axis@.take(axis.len() as int) =~= axis@);
    res
}

/// Removes from the axis `section.0` of `hypercuboid` the indices of `section.1`.
fn split_without(hypercuboid: &mut HashMap<Layer, Vec<usize>>, section: (&Layer, &Vec<usize>))
    requires
        old(hypercuboid)@.contains_key(*section.0),
    ensures
        axes(final(hypercuboid)@) == axes(old(hypercuboid)@).insert(*section.0, sift(old(hypercuboid)@[*section.0]@, section.1@, false)),
{
    broadcast use vstd::std_specs::hash::group_hash_axioms;
    let ghost before = hypercuboid@;
    let axis = hypercuboid.remove(section.0).unwrap();
    let sifted = sift_vec(&axis, section.1, false);
    hypercuboid.insert(*section.0, sifted);
    assert(axes(hypercuboid@) =~= axes(before).insert(*section.0, sift(before[*section.0]@, section.1@, false)));
}

/// Splits a hypercuboid in two along a section: in the first part, the axis `section.0`
/// keeps the indices of `section.1`, in the second it keeps the others.
fn split(hypercuboid: HashMap<Layer, Vec<usize>>, section: (&Layer, &Vec<usize>)) -> (res: (HashMap<Layer, Vec<usize>>, HashMap<Layer, Vec<usize>>))
    requires
        hypercuboid@.contains_key(*section.0),
    ensures
        axes(res.0@) == axes(hypercuboid@).insert(*section.0, sift(hypercuboid@[*section.0]@, section.1@, true)),
        axes(res.1@) == axes(hypercuboid@).insert(*section.0, sift(hypercuboid@[*section.0]@, section.1@, false)),
{
    broadcast use vstd::std_specs::hash::group_hash_axioms;
    let ghost before = hypercuboid@;
    let mut with_hc = hypercuboid.clone();
    let mut without_hc = hypercuboid;
    let axis = with_hc.remove(section.0).unwrap();
    let kept = sift_vec(&axis, section.1, true);
    with_hc.insert(*section.0, kept);
    assert(axes(with_hc@) =~= axes(before).insert(*section.0, sift(before[*section.0]@, section.1@, true)));
    split_without(&mut without_hc, section);
    (with_hc, without_hc)
}

/// The hypercuboid left of `hc` once cut along the sections of the timelines `order[..i]`,
/// keeping on each of these axes the indices of its section.
pub open spec fn cut_rest(hc: Map<Layer, Seq<usize>>, sections: Map<Layer, Seq<usize>>, order: Seq<Layer>, i: int) -> Map<Layer, Seq<usize>>
    decreases i,
{
    if i <= 0 {
        hc
    } else {
        let prev = cut_rest(hc, sections, order, i - 1);
        let l = order[i - 1];
        prev.insert(l, sift(prev[l], sections[l], true))
    }
}

/// `order` lists the timelines of `sections`, each once.
pub open spec fn enumerates(order: Seq<Layer>, sections: Map<Layer, Vec<usize>>) -> bool {
    &&& order.no_duplicates()
    &&& forall|l: Layer| sections.contains_key(l) <==> order.contains(l)
}

/// Cuts a cross section out of a hypercuboid: returns disjoint hypercuboids, one per
/// section, whose union is the part of the hypercuboid outside the cross section. The
/// sections are taken in the order in which the map is walked: for that order, part `i`
/// is what is left of the hypercuboid once cut along the first `i` sections, with the
/// indices of section `i` removed from its axis.
pub fn cut(hypercuboid: HashMap<Layer, Vec<usize>>, sections: &HashMap<Layer, Vec<usize>>) -> (res: Vec<HashMap<Layer, Vec<usize>>>)
    requires
        forall|l: Layer| #[trigger] sections@.contains_key(l) ==> hypercuboid@.contains_key(l),
    ensures
        exists|order: Seq<Layer>| {
            &&& enumerates(order, sections@)
            &&& res.len() == order.len()
            &&& forall|i: int| 0 <= i < order.len() ==> #[trigger] axes(res@[i]@) == ({
                let rest = cut_rest(axes(hypercuboid@), axes(sections@), order, i);
                rest.insert(order[i], sift(rest[order[i]], axes(sections@)[order[i]], false))
            })
        },
{
    broadcast use vstd::std_specs::hash::group_hash_axioms;
    let ghost hc0 = axes(hypercuboid@);
    let ghost secs = axes(sections@);
    let ghost pairs = vstd::std_specs::hash::spec_hash_map_iter(sections).remaining();
    let ghost mut order: Seq<Layer> = Seq::empty();
    let mut res: Vec<HashMap<Layer, Vec<usize>>> = Vec::new();
    let mut hc = hypercuboid;
    for section in it: sections.iter()
        invariant
            it.seq() == pairs,
            hc0 == axes(hypercuboid@),
            secs == axes(sections@),
            pairs.no_duplicates(),
            forall|l: Layer| #[trigger] sections@.contains_key(l) ==> hypercuboid@.contains_key(l),
            order.len() == it.index(),
            forall|j: int| 0 <= j < order.len() ==> order[j] == *(#[trigger] pairs[j]).0,
            forall|l: Layer| #[trigger] sections@.contains_key(l) ==> hc@.contains_key(l),
            axes(hc@) == cut_rest(hc0, secs, order, order.len() as int),
            res.len() == order.len(),
            forall|i: int| 0 <= i < order.len() ==> #[trigger] axes(res@[i]@) == ({
                let rest = cut_rest(hc0, secs, order, i);
                rest.insert(order[i], sift(rest[order[i]], secs[order[i]], false))
            }),
    {
        assert(sections@.contains_key(*section.0));
        assert(sections@[*section.0] == *section.1);
        assert(sections@[*section.0]@ == section.1@);
        assert(secs.contains_key(*section.0));
        assert(secs[*section.0] == sections@[*section.0]@);
        assert(axes(hc@)[*section.0] == hc@[*section.0]@);
        let ghost prev_order = order;
        let ghost prev_hc = hc@;
        let (with_hc, without_hc) = split(hc, section);
        proof {
            order = order.push(*section.0);
            assert forall|i: int| 0 <= i < prev_order.len() implies cut_rest(hc0, secs, order, i) == cut_rest(hc0, secs, prev_order, i) by {
                lemma_cut_rest_prefix(hc0, secs, prev_order, order, i);
            }
            lemma_cut_rest_prefix(hc0, secs, prev_order, order, prev_order.len() as int);
        }
        res.push(without_hc);
        hc = with_hc;
        proof {
            assert(axes(hc@) =~= cut_rest(hc0, secs, order, order.len() as int));
            assert forall|l: Layer| #[trigger] sections@.contains_key(l) implies hc@.contains_key(l) by {
                assert(prev_hc.contains_key(l));
                assert(axes(prev_hc).contains_key(l));
                assert(axes(hc@).contains_key(l));
            }
        }
    }
    proof {
        assert forall|l: Layer| sections@.contains_key(l) <==> order.contains(l) by {
            if sections@.contains_key(l) {
                assert(pairs.contains((&l, &sections@[l])));
                let j = choose|j: int| 0 <= j < pairs.len() && pairs[j] == (&l, &sections@[l]);
                assert(order[j] == l);
            }
            if order.contains(l) {
                let j = choose|j: int| 0 <= j < order.len() && order[j] == l;
                assert(order[j] == *pairs[j].0);
            }
        }
        assert forall|a: int, b: int| 0 <= a < order.len() && 0 <= b < order.len() && a != b implies order[a] != order[b] by {
            if order[a] == order[b] {
                assert(sections@.contains_key(*pairs[a].0));
                assert(pairs[a] == (pairs[a].0, &sections@[*pairs[a].0]));
                assert(pairs[b] == (pairs[b].0, &sections@[*pairs[b].0]));
            }
        }
    }
    res
}

/// The hypercuboid left after the first `i` sections only depends on the first `i` timelines
/// of the order.
proof fn lemma_cut_rest_prefix(hc: Map<Layer, Seq<usize>>, sections: Map<Layer, Seq<usize>>, a: Seq<Layer>, b: Seq<Layer>, i: int)
    requires
        0 <= i <= a.len(),
        a.len() <= b.len(),
        forall|j: int| 0 <= j < a.len() ==> a[j] == b[j],
    ensures
        cut_rest(hc, sections, a, i) == cut_rest(hc, sections, b, i),
    decreases i,
{
    if i > 0 {
        lemma_cut_rest_prefix(hc, sections, a, b, i - 1);
    }
}

} // verus!
