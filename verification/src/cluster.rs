//! The duplicate clusterer: a greedy, order-dependent partition of
//! fingerprinted items into groups, each anchored on one popped item.

use vstd::multiset::Multiset;
use vstd::prelude::*;

use crate::phash::{spec_similar, PHash};

verus! {

broadcast use {vstd::seq_lib::group_to_multiset_ensures, vstd::multiset::group_multiset_axioms};

/// One successfully decoded input: its fingerprint, where it came from,
/// and its pixel count (width times height), kept as a resolution proxy.
pub struct ProcessedItem {
    pub fingerprint: PHash,
    pub source_path: String,
    pub pixel_count: u64,
}

/// The mathematical value of a `ProcessedItem`.
pub ghost struct ItemV {
    pub fingerprint: u64,
    pub source_path: Seq<char>,
    pub pixel_count: u64,
}

impl View for ProcessedItem {
    type V = ItemV;

    open spec fn view(&self) -> ItemV {
        ItemV {
            fingerprint: self.fingerprint.0,
            source_path: self.source_path@,
            pixel_count: self.pixel_count,
        }
    }
}

impl DeepView for ProcessedItem {
    type V = ItemV;

    open spec fn deep_view(&self) -> ItemV {
        self@
    }
}

/// The members of `s` similar to the anchor fingerprint `a`, in the order
/// the scan meets them: the scan walks `s` from its end toward its start,
/// so later positions of `s` come first.
pub open spec fn grabbed(s: Seq<ItemV>, a: u64) -> Seq<ItemV>
    decreases s.len(),
{
    if s.len() == 0 {
        Seq::empty()
    } else {
        let rest = grabbed(s.drop_first(), a);
        if spec_similar(s.first().fingerprint, a) {
            rest.push(s.first())
        } else {
            rest
        }
    }
}

/// The members of `s` not similar to the anchor fingerprint `a`, in their
/// original order: what the scan leaves in the working set.
pub open spec fn kept(s: Seq<ItemV>, a: u64) -> Seq<ItemV>
    decreases s.len(),
{
    if s.len() == 0 {
        Seq::empty()
    } else if spec_similar(s.first().fingerprint, a) {
        kept(s.drop_first(), a)
    } else {
        seq![s.first()] + kept(s.drop_first(), a)
    }
}

proof fn lemma_kept_len(s: Seq<ItemV>, a: u64)
    ensures
        kept(s, a).len() <= s.len(),
    decreases s.len(),
{
    if s.len() > 0 {
        lemma_kept_len(s.drop_first(), a);
    }
}

/// Together, the grabbed and the kept members are exactly the scanned set.
proof fn lemma_grab_kept_multiset(s: Seq<ItemV>, a: u64)
    ensures
        grabbed(s, a).to_multiset().add(kept(s, a).to_multiset()) =~= s.to_multiset(),
    decreases s.len(),
{
    if s.len() > 0 {
        lemma_grab_kept_multiset(s.drop_first(), a);
        assert(s =~= s.drop_first().insert(0, s.first()));
        if spec_similar(s.first().fingerprint, a) {
        } else {
            assert(kept(s, a) =~= kept(s.drop_first(), a).insert(0, s.first()));
        }
    }
}

/// The duplicate groups in the order the greedy pass emits them: the last
/// item of the working set anchors a group holding every remaining item
/// similar to it (in scan order) and then the anchor itself; the pass
/// recurs on what the scan kept.
pub open spec fn raw_groups(items: Seq<ItemV>) -> Seq<Seq<ItemV>>
    decreases items.len(),
    via raw_groups_decreases
{
    if items.len() == 0 {
        Seq::empty()
    } else {
        let anchor = items.last();
        let rest = items.drop_last();
        seq![grabbed(rest, anchor.fingerprint).push(anchor)] + raw_groups(
            kept(rest, anchor.fingerprint),
        )
    }
}

#[via_fn]
proof fn raw_groups_decreases(items: Seq<ItemV>) {
    if items.len() > 0 {
        lemma_kept_len(items.drop_last(), items.last().fingerprint);
    }
}

/// All items appearing in a sequence of groups, with multiplicity.
pub open spec fn members(gs: Seq<Seq<ItemV>>) -> Multiset<ItemV>
    decreases gs.len(),
{
    if gs.len() == 0 {
        Multiset::empty()
    } else {
        gs.first().to_multiset().add(members(gs.drop_first()))
    }
}

proof fn lemma_members_push(gs: Seq<Seq<ItemV>>, g: Seq<ItemV>)
    ensures
        members(gs.push(g)) =~= members(gs).add(g.to_multiset()),
    decreases gs.len(),
{
    if gs.len() == 0 {
        assert(gs.push(g).drop_first() =~= Seq::<Seq<ItemV>>::empty());
        assert(gs.push(g).first() == g);
        assert(members(gs.push(g)) == g.to_multiset().add(members(Seq::<Seq<ItemV>>::empty())));
        assert(g.to_multiset().add(Multiset::<ItemV>::empty()) =~= Multiset::<
            ItemV,
        >::empty().add(g.to_multiset()));
    } else {
        lemma_members_push(gs.drop_first(), g);
        assert(gs.push(g).drop_first() =~= gs.drop_first().push(g));
        assert(gs.push(g).first() == gs.first());
        let a = gs.first().to_multiset();
        let b = members(gs.drop_first());
        let c = g.to_multiset();
        assert(a.add(b.add(c)) =~= a.add(b).add(c));
        assert(members(gs.push(g)) == a.add(b.add(c)));
    }
}

proof fn lemma_members_remove(gs: Seq<Seq<ItemV>>, i: int)
    requires
        0 <= i < gs.len(),
    ensures
        members(gs) =~= members(gs.remove(i)).add(gs[i].to_multiset()),
    decreases gs.len(),
{
    if i == 0 {
        assert(gs.remove(0) =~= gs.drop_first());
    } else {
        lemma_members_remove(gs.drop_first(), i - 1);
        assert(gs.remove(i).first() == gs.first());
        assert(gs.remove(i).drop_first() =~= gs.drop_first().remove(i - 1));
    }
}

/// A well-formed duplicate group: at least one member, and every member
/// directly similar to the anchor, which sits last.
pub open spec fn group_wf(g: Seq<ItemV>) -> bool {
    g.len() >= 1 && forall|j: int|
        0 <= j < g.len() ==> spec_similar(#[trigger] g[j].fingerprint, g.last().fingerprint)
}

proof fn lemma_grabbed_similar(s: Seq<ItemV>, a: u64)
    ensures
        forall|j: int|
            0 <= j < grabbed(s, a).len() ==> spec_similar(
                #[trigger] grabbed(s, a)[j].fingerprint,
                a,
            ),
    decreases s.len(),
{
    if s.len() > 0 {
        lemma_grabbed_similar(s.drop_first(), a);
        let rest = grabbed(s.drop_first(), a);
        if spec_similar(s.first().fingerprint, a) {
            assert forall|j: int| 0 <= j < grabbed(s, a).len() implies spec_similar(
                #[trigger] grabbed(s, a)[j].fingerprint,
                a,
            ) by {
                if j < rest.len() {
                    assert(grabbed(s, a)[j] == rest[j]);
                } else {
                    assert(grabbed(s, a)[j] == s.first());
                }
            }
        }
    }
}

/// Partitions the items into duplicate groups — exactly the groups of
/// `raw_groups`, reordered by descending member count (ties in an
/// unspecified order). Every input item lands in exactly one group, every
/// group is non-empty, and every member of a group is directly similar to
/// the group's anchor, its last member.
pub fn cluster(items: Vec<ProcessedItem>) -> (r: Vec<Vec<ProcessedItem>>)
    ensures
        r.deep_view().to_multiset() =~= raw_groups(items.deep_view()).to_multiset(),
        members(r.deep_view()) =~= items.deep_view().to_multiset(),
        forall|i: int| 0 <= i < r.deep_view().len() ==> group_wf(#[trigger] r.deep_view()[i]),
        forall|i: int|
            0 <= i && i + 1 < r.deep_view().len() ==> (#[trigger] r.deep_view()[i]).len()
                >= r.deep_view()[i + 1].len(),
        items.deep_view().len() == 0 ==> r.deep_view().len() == 0,
{
    let ghost orig = items.deep_view();
    let mut working = items;
    let mut groups: Vec<Vec<ProcessedItem>> = Vec::new();
    proof {
        assert(groups.deep_view() =~= Seq::<Seq<ItemV>>::empty());
        assert(groups.deep_view() + raw_groups(working.deep_view()) =~= raw_groups(orig));
        assert(members(groups.deep_view()).add(working.deep_view().to_multiset()) =~= orig.to_multiset());
    }
    while working.len() > 0
        invariant
            groups.deep_view() + raw_groups(working.deep_view()) =~= raw_groups(orig),
            members(groups.deep_view()).add(working.deep_view().to_multiset())
                =~= orig.to_multiset(),
            forall|i: int|
                0 <= i < groups.deep_view().len() ==> group_wf(#[trigger] groups.deep_view()[i]),
        decreases working@.len(),
    {
        let ghost wpre = working.deep_view();
        let anchor = working.pop().unwrap();
        let ghost w0 = working.deep_view();
        let ghost af = anchor@.fingerprint;
        proof {
            assert(w0 =~= wpre.drop_last());
            assert(anchor@ == wpre.last());
            assert(wpre =~= w0.push(anchor@));
        }
        let mut neighbors: Vec<ProcessedItem> = Vec::new();
        let mut i = working.len();
        proof {
            assert(w0.skip(i as int) =~= Seq::<ItemV>::empty());
            assert(working.deep_view() =~= w0.take(i as int) + kept(w0.skip(i as int), af));
            assert(neighbors.deep_view() =~= grabbed(w0.skip(i as int), af));
        }
        while i > 0
            invariant
                i <= w0.len(),
                i <= working@.len(),
                working.deep_view() =~= w0.take(i as int) + kept(w0.skip(i as int), af),
                neighbors.deep_view() =~= grabbed(w0.skip(i as int), af),
                anchor@.fingerprint == af,
            decreases i,
        {
            i = i - 1;
            proof {
                assert(working.deep_view()[i as int] == w0.take(i as int + 1)[i as int]);
                assert(working.deep_view()[i as int] == w0[i as int]);
                assert(w0.skip(i as int).drop_first() =~= w0.skip(i as int + 1));
                assert(w0.skip(i as int).first() == w0[i as int]);
            }
            let d = working[i].fingerprint.distance(&anchor.fingerprint);
            if PHash::is_similar(d) {
                let ghost wd = working.deep_view();
                let it = working.remove(i);
                neighbors.push(it);
                proof {
                    assert(spec_similar(w0[i as int].fingerprint, af));
                    assert(working.deep_view() =~= wd.remove(i as int));
                    assert(wd.remove(i as int) =~= w0.take(i as int) + kept(
                        w0.skip(i as int),
                        af,
                    ));
                    assert(neighbors.deep_view() =~= grabbed(w0.skip(i as int + 1), af).push(
                        w0[i as int],
                    ));
                    assert(neighbors.deep_view() =~= grabbed(w0.skip(i as int), af));
                }
            } else {
                proof {
                    assert(!spec_similar(w0[i as int].fingerprint, af));
                    assert(w0.take(i as int + 1) =~= w0.take(i as int).push(w0[i as int]));
                    assert(kept(w0.skip(i as int), af) =~= seq![w0[i as int]] + kept(
                        w0.skip(i as int + 1),
                        af,
                    ));
                    assert(working.deep_view() =~= w0.take(i as int) + kept(
                        w0.skip(i as int),
                        af,
                    ));
                    assert(neighbors.deep_view() =~= grabbed(w0.skip(i as int), af));
                }
            }
        }
        proof {
            assert(w0.take(0) =~= Seq::<ItemV>::empty());
            assert(w0.skip(0) =~= w0);
            assert(working.deep_view() =~= kept(w0, af));
            assert(neighbors.deep_view() =~= grabbed(w0, af));
        }
        let ghost gpre = groups.deep_view();
        neighbors.push(anchor);
        let ghost grp = neighbors.deep_view();
        groups.push(neighbors);
        proof {
            assert(grp =~= grabbed(w0, af).push(anchor@));
            assert(groups.deep_view() =~= gpre.push(grp));

            // the emitted group is exactly the next group of `raw_groups`
            assert(raw_groups(wpre) == seq![grabbed(wpre.drop_last(), wpre.last().fingerprint).push(
                wpre.last(),
            )] + raw_groups(kept(wpre.drop_last(), wpre.last().fingerprint)));
            assert(wpre.drop_last() == w0);
            assert(raw_groups(wpre) == seq![grp] + raw_groups(kept(w0, af)));
            assert(gpre.push(grp) + raw_groups(kept(w0, af)) =~= gpre + raw_groups(wpre));
            assert(groups.deep_view() + raw_groups(working.deep_view()) =~= raw_groups(orig));

            // every item moved out of the working set is accounted for
            lemma_grab_kept_multiset(w0, af);
            lemma_members_push(gpre, grp);
            assert(grp.to_multiset() =~= grabbed(w0, af).to_multiset().insert(anchor@));
            assert(wpre.to_multiset() =~= w0.to_multiset().insert(anchor@));
            assert(members(gpre.push(grp)).add(kept(w0, af).to_multiset())
                =~= members(gpre).add(wpre.to_multiset()));
            assert(members(groups.deep_view()).add(working.deep_view().to_multiset())
                =~= orig.to_multiset());

            // the emitted group is well-formed
            lemma_grabbed_similar(w0, af);
            crate::phash::lemma_self_similar(af);
            assert(grp.last() == anchor@);
            assert(group_wf(grp));
            assert(forall|k: int|
                0 <= k < groups.deep_view().len() ==> group_wf(#[trigger] groups.deep_view()[k]));

            // the working set shrank
            lemma_kept_len(w0, af);
        }
    }
    proof {
        assert(working.deep_view() =~= Seq::<ItemV>::empty());
        assert(raw_groups(working.deep_view()) =~= Seq::<Seq<ItemV>>::empty());
        assert(groups.deep_view() =~= raw_groups(orig));
        assert(working.deep_view().to_multiset() =~= Multiset::<ItemV>::empty());
        assert(members(groups.deep_view()) =~= orig.to_multiset());
    }

    // order the groups by descending member count, largest first
    let mut rem = groups;
    let mut result: Vec<Vec<ProcessedItem>> = Vec::new();
    proof {
        assert(result.deep_view() =~= Seq::<Seq<ItemV>>::empty());
        assert(result.deep_view().to_multiset().add(rem.deep_view().to_multiset())
            =~= raw_groups(orig).to_multiset());
        assert(members(result.deep_view()).add(members(rem.deep_view())) =~= orig.to_multiset());
    }
    while rem.len() > 0
        invariant
            result.deep_view().to_multiset().add(rem.deep_view().to_multiset()) =~= raw_groups(
                orig,
            ).to_multiset(),
            members(result.deep_view()).add(members(rem.deep_view())) =~= orig.to_multiset(),
            forall|i: int|
                0 <= i < result.deep_view().len() ==> group_wf(#[trigger] result.deep_view()[i]),
            forall|i: int|
                0 <= i < rem.deep_view().len() ==> group_wf(#[trigger] rem.deep_view()[i]),
            forall|i: int|
                0 <= i && i + 1 < result.deep_view().len() ==> (#[trigger] result.deep_view()[i]).len()
                    >= result.deep_view()[i + 1].len(),
            forall|i: int, j: int|
                0 <= i < result.deep_view().len() && 0 <= j < rem.deep_view().len() ==> (
                #[trigger] result.deep_view()[i]).len() >= (#[trigger] rem.deep_view()[j]).len(),
        decreases rem@.len(),
    {
        let mut best: usize = 0;
        let mut cand: usize = 1;
        while cand < rem.len()
            invariant
                0 < rem@.len(),
                best < cand <= rem@.len(),
                forall|j: int|
                    0 <= j < cand ==> rem.deep_view()[best as int].len() >= (
                    #[trigger] rem.deep_view()[j]).len(),
            decreases rem@.len() - cand,
        {
            if rem[cand].len() > rem[best].len() {
                best = cand;
            }
            cand = cand + 1;
        }
        let ghost rpre = rem.deep_view();
        let ghost dpre = result.deep_view();
        let g = rem.remove(best);
        result.push(g);
        proof {
            assert(g.deep_view() == rpre[best as int]);
            assert(rem.deep_view() =~= rpre.remove(best as int));
            assert(result.deep_view() =~= dpre.push(g.deep_view()));
            assert(rpre.remove(best as int).to_multiset() =~= rpre.to_multiset().remove(
                rpre[best as int],
            ));
            assert(dpre.push(g.deep_view()).to_multiset() =~= dpre.to_multiset().insert(
                rpre[best as int],
            ));
            assert(rpre.to_multiset().count(rpre[best as int]) > 0);
            assert(result.deep_view().to_multiset().add(rem.deep_view().to_multiset())
                =~= dpre.to_multiset().add(rpre.to_multiset()));

            lemma_members_push(dpre, g.deep_view());
            lemma_members_remove(rpre, best as int);
            assert(members(result.deep_view()).add(members(rem.deep_view())) =~= members(
                dpre,
            ).add(members(rpre)));

            // the extracted group was a largest remaining one, so the
            // descending order and the cross bound are both maintained
            assert forall|i: int| 0 <= i && i + 1 < result.deep_view().len() implies (
            #[trigger] result.deep_view()[i]).len() >= result.deep_view()[i + 1].len() by {
                if i + 1 < dpre.len() {
                    assert(result.deep_view()[i] == dpre[i]);
                    assert(result.deep_view()[i + 1] == dpre[i + 1]);
                } else {
                    assert(result.deep_view()[i] == dpre[i]);
                    assert(result.deep_view()[i + 1] == rpre[best as int]);
                }
            }
            assert forall|i: int, j: int|
                0 <= i < result.deep_view().len() && 0 <= j < rem.deep_view().len() implies (
            #[trigger] result.deep_view()[i]).len() >= (#[trigger] rem.deep_view()[j]).len() by {
                assert(rem.deep_view()[j] == if j < best as int {
                    rpre[j]
                } else {
                    rpre[j + 1]
                });
                if i < dpre.len() {
                    assert(result.deep_view()[i] == dpre[i]);
                } else {
                    assert(result.deep_view()[i] == rpre[best as int]);
                }
            }
        }
    }
    proof {
        assert(rem.deep_view() =~= Seq::<Seq<ItemV>>::empty());
        assert(rem.deep_view().to_multiset() =~= Multiset::<Seq<ItemV>>::empty());
        assert(members(rem.deep_view()) =~= Multiset::<ItemV>::empty());
        assert(result.deep_view().to_multiset() =~= raw_groups(orig).to_multiset());
        assert(members(result.deep_view()) =~= orig.to_multiset());
        if orig.len() == 0 {
            assert(raw_groups(orig) =~= Seq::<Seq<ItemV>>::empty());
            assert(result.deep_view().len() == result.deep_view().to_multiset().len());
            assert(result.deep_view().len() == 0);
        }
    }
    result
}

} // verus!
