//! Ordering the collected tracks.
//!
//! Tracks are sorted by `order` ascending. The result is pinned to a spec
//! function, so the arrangement of entries that share an order — left open
//! by the design — is still a function of the input collection alone, and a
//! playlist built from it never changes between two runs over the same
//! collection.

use vstd::multiset::Multiset;
use vstd::prelude::*;
use vstd::seq_lib::group_seq_properties;

use crate::track::{views_of, Track, TrackModel};

verus! {

broadcast use group_seq_properties;

/// The tracks stand in non-decreasing order.
pub open spec fn sorted_by_order(s: Seq<TrackModel>) -> bool {
    forall|i: int, j: int| 0 <= i < j < s.len() ==> s[i].order <= s[j].order
}

/// `t` placed after every element of `s` whose order does not exceed
/// `t.order`.
pub open spec fn insert_sorted_spec(s: Seq<TrackModel>, t: TrackModel) -> Seq<TrackModel>
    decreases s.len(),
{
    if s.len() == 0 {
        seq![t]
    } else if s.last().order <= t.order {
        s.push(t)
    } else {
        insert_sorted_spec(s.drop_last(), t).push(s.last())
    }
}

/// The sorted arrangement of `s`: each element inserted in turn, starting
/// from the last.
pub open spec fn sort_by_order_spec(s: Seq<TrackModel>) -> Seq<TrackModel>
    decreases s.len(),
{
    if s.len() == 0 {
        Seq::empty()
    } else {
        insert_sorted_spec(sort_by_order_spec(s.skip(1)), s[0])
    }
}

/// Inserting keeps sortedness, adds exactly the new element to the
/// multiset, and adds nothing else.
pub proof fn lemma_insert_sorted(s: Seq<TrackModel>, t: TrackModel)
    requires
        sorted_by_order(s),
    ensures
        sorted_by_order(insert_sorted_spec(s, t)),
        insert_sorted_spec(s, t).to_multiset() == s.to_multiset().insert(t),
        insert_sorted_spec(s, t).len() == s.len() + 1,
        forall|i: int|
            0 <= i < insert_sorted_spec(s, t).len() ==> insert_sorted_spec(s, t)[i] == t
                || s.contains(#[trigger] insert_sorted_spec(s, t)[i]),
    decreases s.len(),
{
    let r = insert_sorted_spec(s, t);
    if s.len() == 0 {
        assert(seq![t].to_multiset() =~= s.to_multiset().insert(t)) by {
            assert(seq![t] =~= Seq::<TrackModel>::empty().push(t));
            Seq::<TrackModel>::empty().push(t).to_multiset_ensures();
            assert(s.to_multiset() =~= Multiset::<TrackModel>::empty());
        }
        assert(r[0] == t);
    } else if s.last().order <= t.order {
        s.push(t).to_multiset_ensures();
        assert forall|i: int| 0 <= i < r.len() implies r[i] == t || s.contains(#[trigger] r[i]) by {
            if i < s.len() {
                assert(r[i] == s[i]);
            }
        }
    } else {
        let hd = s.drop_last();
        assert(sorted_by_order(hd));
        lemma_insert_sorted(hd, t);
        let inner = insert_sorted_spec(hd, t);
        // Sortedness of `inner.push(s.last())`: every element of `inner`
        // is `t` or comes from `hd`, and both stay below `s.last().order`.
        assert forall|i: int| 0 <= i < inner.len() implies inner[i].order <= s.last().order by {
            if inner[i] == t {
            } else {
                let k = choose|k: int| 0 <= k < hd.len() && hd[k] == inner[i];
                assert(s[k] == hd[k]);
            }
        }
        assert forall|i: int, j: int| 0 <= i < j < r.len() implies r[i].order <= r[j].order by {
            if j < inner.len() {
                assert(r[i] == inner[i] && r[j] == inner[j]);
            } else {
                assert(r[i] == inner[i] && r[j] == s.last());
            }
        }
        // Multiset: push commutes with insert.
        inner.push(s.last()).to_multiset_ensures();
        hd.push(s.last()).to_multiset_ensures();
        assert(hd.push(s.last()) =~= s);
        assert(r.to_multiset() =~= s.to_multiset().insert(t));
        assert forall|i: int| 0 <= i < r.len() implies r[i] == t || s.contains(#[trigger] r[i]) by {
            if i < inner.len() {
                if inner[i] == t {
                } else {
                    let k = choose|k: int| 0 <= k < hd.len() && hd[k] == inner[i];
                    assert(s[k] == hd[k]);
                }
            } else {
                assert(r[i] == s.last());
                assert(s[s.len() - 1] == s.last());
            }
        }
    }
}

/// Law: in the sorted arrangement every pair of entries — adjacent ones
/// included — stands in non-decreasing order of track order; and the
/// arrangement is a rearrangement of its input, so every collected track
/// appears and nothing else does.
pub proof fn lemma_sort_by_order(s: Seq<TrackModel>)
    ensures
        sorted_by_order(sort_by_order_spec(s)),
        sort_by_order_spec(s).to_multiset() == s.to_multiset(),
        sort_by_order_spec(s).len() == s.len(),
    decreases s.len(),
{
    if s.len() == 0 {
    } else {
        lemma_sort_by_order(s.skip(1));
        lemma_insert_sorted(sort_by_order_spec(s.skip(1)), s[0]);
        s.to_multiset_ensures();
        assert(s.remove(0) =~= s.skip(1));
        assert(s.remove(0).to_multiset() =~= s.to_multiset().remove(s[0]));
        assert(s.contains(s[0]));
        assert(s.to_multiset().count(s[0]) > 0);
        assert(s.to_multiset().remove(s[0]).insert(s[0]) =~= s.to_multiset());
        assert(sort_by_order_spec(s).to_multiset() == s.to_multiset());
    }
}

/// An insertion at the boundary position equals `insert_sorted_spec`.
proof fn lemma_insert_sorted_at(s: Seq<TrackModel>, t: TrackModel, j: int)
    requires
        sorted_by_order(s),
        0 <= j <= s.len(),
        forall|i: int| 0 <= i < j ==> s[i].order <= t.order,
        forall|i: int| j <= i < s.len() ==> s[i].order > t.order,
    ensures
        insert_sorted_spec(s, t) == s.take(j) + seq![t] + s.skip(j),
    decreases s.len(),
{
    if s.len() == 0 {
        assert(insert_sorted_spec(s, t) =~= s.take(j) + seq![t] + s.skip(j));
    } else if s.last().order <= t.order {
        assert(j == s.len());
        assert(s.take(j) =~= s);
        assert(s.skip(j) =~= Seq::<TrackModel>::empty());
        assert(insert_sorted_spec(s, t) =~= s.take(j) + seq![t] + s.skip(j));
    } else {
        let hd = s.drop_last();
        assert(sorted_by_order(hd));
        assert(j <= hd.len());
        lemma_insert_sorted_at(hd, t, j);
        assert(hd.take(j) =~= s.take(j));
        assert(insert_sorted_spec(s, t) =~= s.take(j) + seq![t] + s.skip(j));
    }
}

/// Sorts the collected tracks by order, ascending.
#[verifier::loop_isolation(false)]
pub fn sort_tracks(tracks: Vec<Track>) -> (r: Vec<Track>)
    ensures
        views_of(r@) == sort_by_order_spec(views_of(tracks@)),
        sorted_by_order(views_of(r@)),
        views_of(r@).to_multiset() == views_of(tracks@).to_multiset(),
{
    proof {
        lemma_sort_by_order(views_of(tracks@));
    }
    let ghost orig = tracks@;
    let mut input = tracks;
    let mut out: Vec<Track> = Vec::new();
    proof {
        assert(input@ =~= orig.take(input@.len() as int));
        assert(views_of(orig.skip(orig.len() as int)) =~= Seq::<TrackModel>::empty());
    }
    loop
        invariant
            input@.len() <= orig.len(),
            input@ == orig.take(input@.len() as int),
            views_of(out@) == sort_by_order_spec(views_of(orig.skip(input@.len() as int))),
            sorted_by_order(views_of(out@)),
        decreases input@.len(),
    {
        let ghost n = input@.len() as int;
        let popped = input.pop();
        let t = match popped {
            Option::Some(t) => t,
            Option::None => {
                proof {
                    assert(orig.skip(0) =~= orig);
                }
                break;
            },
        };
        proof {
            assert(t == orig[n - 1]);
            assert(input@ =~= orig.take(n - 1));
        }
        // Find where `t` belongs: after every element whose order does not
        // exceed `t.order`.
        let mut j: usize = out.len();
        while j > 0 && out[j - 1].order > t.order
            invariant
                j <= out@.len(),
                forall|q: int| j <= q < out@.len() ==> views_of(out@)[q].order > t@.order,
            decreases j,
        {
            j = j - 1;
        }
        proof {
            assert forall|q: int| 0 <= q < j implies views_of(out@)[q].order <= t@.order by {
                assert(views_of(out@)[q].order <= views_of(out@)[j - 1].order);
            }
            lemma_insert_sorted_at(views_of(out@), t@, j as int);
            lemma_insert_sorted(views_of(out@), t@);
        }
        let ghost before = views_of(out@);
        out.insert(j, t);
        proof {
            assert(views_of(out@) =~= before.take(j as int) + seq![t@] + before.skip(j as int));
            // One more element of `orig` is in: unfold the sort of the
            // one-longer suffix.
            let suffix = views_of(orig.skip(n - 1));
            assert(suffix[0] == t@);
            assert(suffix.skip(1) =~= views_of(orig.skip(n)));
            assert(views_of(out@) == insert_sorted_spec(sort_by_order_spec(suffix.skip(1)), t@));
            lemma_insert_sorted(sort_by_order_spec(suffix.skip(1)), t@);
        }
    }
    proof {
        assert(views_of(out@).to_multiset() == views_of(orig).to_multiset()) by {
            lemma_sort_by_order(views_of(orig));
        }
        assert(views_of(orig) =~= views_of(tracks@));
    }
    out
}

} // verus!
