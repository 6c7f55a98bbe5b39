//! Encoded pictures that wait for the audio clock.

use vstd::prelude::*;

verus! {

/// One encoded picture.
pub struct UnitView {
    pub pts_90k: u64,
    pub idr: bool,
    pub data: Seq<u8>,
}

/// One encoded picture: its time on the 90 kHz clock, whether decoding can
/// start at it, and its Annex-B bytes.
#[derive(Clone, Debug)]
pub struct AccessUnit {
    pub pts_90k: u64,
    pub idr: bool,
    pub data: Vec<u8>,
}

impl View for AccessUnit {
    type V = UnitView;

    open spec fn view(&self) -> UnitView {
        UnitView { pts_90k: self.pts_90k, idr: self.idr, data: self.data@ }
    }
}

/// The views of the pictures.
pub open spec fn unit_views(v: Seq<AccessUnit>) -> Seq<UnitView> {
    Seq::new(v.len(), |i: int| v[i]@)
}

/// The pictures up to a time, in order.
pub open spec fn ready(units: Seq<UnitView>, limit: u64) -> Seq<UnitView>
    decreases units.len(),
{
    if units.len() == 0 {
        Seq::empty()
    } else {
        let before = ready(units.drop_last(), limit);
        if units.last().pts_90k <= limit {
            before.push(units.last())
        } else {
            before
        }
    }
}

/// The pictures behind a time, in order.
pub open spec fn waiting(units: Seq<UnitView>, limit: u64) -> Seq<UnitView>
    decreases units.len(),
{
    if units.len() == 0 {
        Seq::empty()
    } else {
        let before = waiting(units.drop_last(), limit);
        if units.last().pts_90k > limit {
            before.push(units.last())
        } else {
            before
        }
    }
}

/// Takes the pictures up to a time out of the queue; the others stay.
pub fn take_ready(pending: &mut Vec<AccessUnit>, limit: u64) -> (out: Vec<AccessUnit>)
    ensures
        unit_views(out@) == ready(unit_views(old(pending)@), limit),
        unit_views(final(pending)@) == waiting(unit_views(old(pending)@), limit),
        forall|i: int|
            0 <= i < out@.len() ==> old(pending)@.contains(#[trigger] out@[i]),
        forall|i: int|
            0 <= i < final(pending)@.len() ==> old(pending)@.contains(
                #[trigger] final(pending)@[i],
            ),
{
    let mut all: Vec<AccessUnit> = Vec::new();
    std::mem::swap(pending, &mut all);
    let ghost whole = all@;
    let ghost views = unit_views(whole);
    let mut rest: Vec<AccessUnit> = Vec::new();
    let mut out: Vec<AccessUnit> = Vec::new();
    let n: usize = all.len();
    let mut i: usize = 0;
    proof {
        assert(views.take(0) =~= Seq::<UnitView>::empty());
        assert(unit_views(out@) =~= Seq::<UnitView>::empty());
        assert(unit_views(rest@) =~= Seq::<UnitView>::empty());
        assert(whole.skip(0) =~= whole);
    }
    while i < n
        invariant
            i <= n,
            n == whole.len(),
            views == unit_views(whole),
            all@ == whole.skip(i as int),
            unit_views(out@) == ready(views.take(i as int), limit),
            unit_views(rest@) == waiting(views.take(i as int), limit),
            forall|k: int| 0 <= k < out@.len() ==> whole.contains(#[trigger] out@[k]),
            forall|k: int| 0 <= k < rest@.len() ==> whole.contains(#[trigger] rest@[k]),
        decreases n - i,
    {
        let ghost o0 = unit_views(out@);
        let ghost r0 = unit_views(rest@);
        proof {
            assert(views.take(i as int + 1).drop_last() =~= views.take(i as int));
            assert(views.take(i as int + 1).last() == whole[i as int]@);
            assert(all@[0] == whole[i as int]);
            assert(whole.contains(whole[i as int]));
        }
        let u = all.remove(0);
        proof {
            assert(all@ =~= whole.skip(i as int + 1));
        }
        if u.pts_90k <= limit {
            out.push(u);
            assert(unit_views(out@) =~= o0.push(u@));
        } else {
            rest.push(u);
            assert(unit_views(rest@) =~= r0.push(u@));
        }
        i = i + 1;
    }
    proof {
        assert(views.take(i as int) =~= views);
    }
    *pending = rest;
    out
}

/// No picture is lost or doubled, and none is ready before its time: the
/// ready ones and the waiting ones are together all of them.
pub proof fn law_queue_keeps_pictures(units: Seq<UnitView>, limit: u64)
    ensures
        ready(units, limit).len() + waiting(units, limit).len() == units.len(),
        ready(units, limit).to_multiset().add(waiting(units, limit).to_multiset())
            =~= units.to_multiset(),
        forall|i: int|
            0 <= i < ready(units, limit).len() ==> (#[trigger] ready(units, limit)[i]).pts_90k
                <= limit,
        forall|i: int|
            0 <= i < waiting(units, limit).len() ==> (#[trigger] waiting(units, limit)[i]).pts_90k
                > limit,
    decreases units.len(),
{
    broadcast use vstd::seq_lib::group_to_multiset_ensures;

    if units.len() > 0 {
        law_queue_keeps_pictures(units.drop_last(), limit);
        assert(units =~= units.drop_last().push(units.last()));
    } else {
        assert(ready(units, limit).to_multiset().add(waiting(units, limit).to_multiset())
            =~= units.to_multiset());
    }
}

/// Pictures come in the order in which they were queued, and so do those that
/// wait: each list is the queue without the others.
pub proof fn law_pictures_keep_their_order(units: Seq<UnitView>, limit: u64)
    ensures
        ready(units, limit) == units.filter(|u: UnitView| u.pts_90k <= limit),
        waiting(units, limit) == units.filter(|u: UnitView| u.pts_90k > limit),
    decreases units.len(),
{
    reveal(Seq::filter);
    if units.len() > 0 {
        law_pictures_keep_their_order(units.drop_last(), limit);
    }
}

} // verus!
