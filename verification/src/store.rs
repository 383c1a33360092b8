//! The labs that can be resumed.

use crate::protocol::{LabConfig, LabRecord, LabRecordView};
use crate::text::same;
use vstd::prelude::*;

verus! {

/// How many labs are kept.
pub const LAB_LIMIT: usize = 20;

/// The labs that can be resumed, the latest first.
#[derive(Debug)]
pub struct Store {
    pub labs: Vec<LabRecord>,
}

/// A list of labs over mathematical values.
pub open spec fn labs_view(labs: Seq<LabRecord>) -> Seq<LabRecordView> {
    labs.map_values(|lab: LabRecord| lab@)
}

impl View for Store {
    type V = Seq<LabRecordView>;

    open spec fn view(&self) -> Seq<LabRecordView> {
        labs_view(self.labs@)
    }
}

/// The first lab with an identifier.
pub open spec fn found(labs: Seq<LabRecordView>, id: Seq<char>) -> Option<LabRecordView>
    decreases labs.len(),
{
    if labs.len() == 0 {
        None
    } else if labs[0].id == id {
        Some(labs[0])
    } else {
        found(labs.skip(1), id)
    }
}

/// The labs with another identifier, in the order in which they stood.
pub open spec fn without(labs: Seq<LabRecordView>, id: Seq<char>) -> Seq<LabRecordView>
    decreases labs.len(),
{
    if labs.len() == 0 {
        seq![]
    } else if labs.last().id == id {
        without(labs.drop_last(), id)
    } else {
        without(labs.drop_last(), id).push(labs.last())
    }
}

/// The first labs of a list, as many as are kept.
pub open spec fn kept(labs: Seq<LabRecordView>) -> Seq<LabRecordView> {
    if labs.len() <= LAB_LIMIT {
        labs
    } else {
        labs.take(LAB_LIMIT as int)
    }
}

/// The labs after one was used: it comes first, in place of what was known of it, and the last
/// ones are dropped where there are too many.
pub open spec fn used(labs: Seq<LabRecordView>, lab: LabRecordView) -> Seq<LabRecordView> {
    kept(seq![lab] + without(labs, lab.id))
}

impl Store {
    /// A store without labs.
    pub fn new() -> (r: Self)
        ensures
            r@ == Seq::<LabRecordView>::empty(),
    {
        let r = Store { labs: Vec::new() };
        assert(r@ =~= seq![]);
        r
    }

    /// The labs, the latest first.
    pub fn list(&self) -> (r: Vec<LabRecord>)
        ensures
            labs_view(r@) == self@,
    {
        let mut out: Vec<LabRecord> = Vec::new();
        let mut i: usize = 0;
        while i < self.labs.len()
            invariant
                i <= self.labs@.len(),
                out@.len() == i,
                forall|j: int| 0 <= j < i ==> (#[trigger] out@[j])@ == self.labs@[j]@,
            decreases self.labs@.len() - i,
        {
            out.push(self.labs[i].clone());
            i += 1;
        }
        assert(labs_view(out@) =~= self@);
        out
    }

    /// The lab with an identifier.
    pub fn get(&self, id: &str) -> (r: Option<LabRecord>)
        ensures
            match r {
                Some(lab) => found(self@, id@) == Some(lab@),
                None => found(self@, id@) is None,
            },
    {
        let mut i: usize = 0;
        assert(self@.skip(0) =~= self@);
        while i < self.labs.len()
            invariant
                i <= self.labs@.len(),
                found(self@, id@) == found(self@.skip(i as int), id@),
            decreases self.labs@.len() - i,
        {
            assert(self@.skip(i as int)[0] == self.labs@[i as int]@);
            assert(self@.skip(i as int).skip(1) =~= self@.skip(i + 1));
            if same(&self.labs[i].id, id) {
                return Some(self.labs[i].clone());
            }
            i += 1;
        }
        None
    }

    /// Takes the labs with an identifier out of the store.
    fn remove(&mut self, id: &str)
        ensures
            final(self)@ == without(old(self)@, id@),
    {
        let ghost all = self@;
        let mut kept: Vec<LabRecord> = Vec::new();
        let mut rest: Vec<LabRecord> = Vec::new();
        std::mem::swap(&mut rest, &mut self.labs);
        let mut i: usize = 0;
        assert(labs_view(kept@) =~= without(all.take(0), id@));
        while i < rest.len()
            invariant
                i <= rest@.len(),
                all == labs_view(rest@),
                labs_view(kept@) == without(all.take(i as int), id@),
            decreases rest@.len() - i,
        {
            assert(all.take(i + 1).drop_last() =~= all.take(i as int));
            assert(all.take(i + 1).last() == rest@[i as int]@);
            if !same(&rest[i].id, id) {
                let ghost before = kept@;
                let lab = rest[i].clone();
                kept.push(lab);
                assert(labs_view(kept@) =~= labs_view(before).push(lab@));
            }
            i += 1;
        }
        assert(all.take(i as int) =~= all);
        self.labs = kept;
    }

    /// Takes in that a lab was used.
    pub fn put(
        &mut self,
        id: String,
        config: LabConfig,
        thread_id: Option<String>,
        updated_at: u64,
    )
        ensures
            final(self)@ == used(
                old(self)@,
                LabRecord { id, config, thread_id, updated_at }@,
            ),
    {
        self.remove(&id);
        let ghost others = self@;
        let lab = LabRecord { id, config, thread_id, updated_at };
        self.labs.insert(0, lab);
        assert(self@ =~= seq![lab@] + others);
        if self.labs.len() > LAB_LIMIT {
            let ghost all = self@;
            self.labs.truncate(LAB_LIMIT);
            assert(self@ =~= all.take(LAB_LIMIT as int));
        }
    }
}

proof fn lemma_without(labs: Seq<LabRecordView>, id: Seq<char>)
    ensures
        without(labs, id).len() <= labs.len(),
        forall|i: int| 0 <= i < without(labs, id).len() ==> (#[trigger] without(labs, id)[i]).id != id,
        without(without(labs, id), id) == without(labs, id),
    decreases labs.len(),
{
    if labs.len() > 0 {
        lemma_without(labs.drop_last(), id);
        if labs.last().id != id {
            assert(without(labs, id).drop_last() =~= without(labs.drop_last(), id));
        }
    }
}

proof fn lemma_without_one_that_is_found(labs: Seq<LabRecordView>, id: Seq<char>)
    requires
        found(labs, id) is Some,
    ensures
        without(labs, id).len() < labs.len(),
    decreases labs.len(),
{
    let front = labs.drop_last();
    let last = seq![labs.last()];
    lemma_without(front, id);
    if labs.last().id != id {
        assert(labs =~= front + last);
        lemma_found_in_front(front, last, id);
        assert(last.skip(1) =~= seq![]);
        assert(found(last, id) is None) by {
            assert(found(last.skip(1), id) is None);
        }
        lemma_without_one_that_is_found(front, id);
    }
}

proof fn lemma_found_in_front(front: Seq<LabRecordView>, back: Seq<LabRecordView>, id: Seq<char>)
    ensures
        found(front + back, id) == if found(front, id) is Some {
            found(front, id)
        } else {
            found(back, id)
        },
    decreases front.len(),
{
    if front.len() == 0 {
        assert(front + back =~= back);
    } else {
        assert((front + back).skip(1) =~= front.skip(1) + back);
        lemma_found_in_front(front.skip(1), back, id);
    }
}

proof fn lemma_found_without(labs: Seq<LabRecordView>, removed: Seq<char>, id: Seq<char>)
    requires
        id != removed,
    ensures
        found(without(labs, removed), id) == found(labs, id),
    decreases labs.len(),
{
    if labs.len() > 0 {
        let front = labs.drop_last();
        let last = seq![labs.last()];
        lemma_found_without(front, removed, id);
        assert(labs =~= front + last);
        lemma_found_in_front(front, last, id);
        assert(last.skip(1) =~= seq![]);
        if labs.last().id == removed {
            assert(found(last, id) is None) by {
                assert(found(last.skip(1), id) is None);
            }
        } else {
            assert(without(labs, removed) =~= without(front, removed) + last);
            lemma_found_in_front(without(front, removed), last, id);
        }
    }
}

/// A lab that was used is found again, as it was put.
pub proof fn law_put_lab_is_found(labs: Seq<LabRecordView>, lab: LabRecordView)
    ensures
        found(used(labs, lab), lab.id) == Some(lab),
        used(labs, lab)[0] == lab,
{
}

/// No more labs are kept than the limit.
pub proof fn law_labs_are_bounded(labs: Seq<LabRecordView>, lab: LabRecordView)
    ensures
        0 < used(labs, lab).len() <= LAB_LIMIT,
{
}

/// Using one lab changes nothing of another, which is only lost where there are too many. There
/// are not too many where the others leave a place for the lab that is used: so nothing is lost
/// from a store that is not full, nor where the store holds the lab already.
pub proof fn law_other_labs_are_kept(
    labs: Seq<LabRecordView>,
    lab: LabRecordView,
    id: Seq<char>,
)
    requires
        id != lab.id,
    ensures
        found(used(labs, lab), id) == found(labs, id) || found(used(labs, lab), id) is None,
        1 + without(labs, lab.id).len() <= LAB_LIMIT ==> found(used(labs, lab), id) == found(
            labs,
            id,
        ),
        labs.len() < LAB_LIMIT ==> found(used(labs, lab), id) == found(labs, id),
        labs.len() <= LAB_LIMIT && found(labs, lab.id) is Some ==> found(used(labs, lab), id)
            == found(labs, id),
{
    let all = seq![lab] + without(labs, lab.id);
    lemma_without(labs, lab.id);
    if found(labs, lab.id) is Some {
        lemma_without_one_that_is_found(labs, lab.id);
    }
    lemma_found_without(labs, lab.id, id);
    assert(all.skip(1) =~= without(labs, lab.id));
    assert(found(all, id) == found(labs, id));
    if all.len() > LAB_LIMIT {
        lemma_found_in_front(all.take(LAB_LIMIT as int), all.skip(LAB_LIMIT as int), id);
        assert(all.take(LAB_LIMIT as int) + all.skip(LAB_LIMIT as int) =~= all);
    }
}

/// The other labs stay in the order in which they were used: the latest of them, and all of them
/// where they leave a place for the lab that is used.
pub proof fn law_other_labs_keep_their_order(labs: Seq<LabRecordView>, lab: LabRecordView)
    ensures
        used(labs, lab).skip(1).is_prefix_of(without(labs, lab.id)),
        1 + without(labs, lab.id).len() <= LAB_LIMIT ==> used(labs, lab).skip(1) == without(
            labs,
            lab.id,
        ),
        1 + without(labs, lab.id).len() > LAB_LIMIT ==> used(labs, lab).len() == LAB_LIMIT,
{
    let all = seq![lab] + without(labs, lab.id);
    lemma_without(labs, lab.id);
    assert(all.skip(1) =~= without(labs, lab.id));
    assert(used(labs, lab).skip(1) =~= without(labs, lab.id).take(used(labs, lab).len() - 1));
}

/// To put a lab twice is to put it once.
pub proof fn law_putting_twice_is_putting_once(labs: Seq<LabRecordView>, lab: LabRecordView)
    ensures
        used(used(labs, lab), lab) == used(labs, lab),
{
    let once = used(labs, lab);
    let rest = once.skip(1);
    lemma_without(labs, lab.id);
    law_other_labs_keep_their_order(labs, lab);
    assert forall|i: int| 0 <= i < rest.len() implies (#[trigger] rest[i]).id != lab.id by {
        assert(rest[i] == without(labs, lab.id)[i]);
    }
    lemma_without_first(once, lab.id);
    lemma_without_nothing(rest, lab.id);
    assert(seq![lab] + rest =~= once);
}

proof fn lemma_without_nothing(labs: Seq<LabRecordView>, id: Seq<char>)
    requires
        forall|i: int| 0 <= i < labs.len() ==> (#[trigger] labs[i]).id != id,
    ensures
        without(labs, id) == labs,
    decreases labs.len(),
{
    if labs.len() > 0 {
        lemma_without_nothing(labs.drop_last(), id);
        assert(labs.drop_last().push(labs.last()) =~= labs);
    } else {
        assert(labs =~= seq![]);
    }
}

proof fn lemma_without_first(labs: Seq<LabRecordView>, id: Seq<char>)
    requires
        labs.len() > 0,
        labs[0].id == id,
    ensures
        without(labs, id) == without(labs.skip(1), id),
    decreases labs.len(),
{
    if labs.len() > 1 {
        lemma_without_first(labs.drop_last(), id);
        assert(labs.drop_last().skip(1) =~= labs.skip(1).drop_last());
    } else {
        assert(labs.skip(1) =~= seq![]);
        assert(labs.drop_last() =~= seq![]);
    }
}

/// The lab that is found is the first with its identifier, as it stands in the store, and none is
/// found where there is none.
pub proof fn law_the_first_lab_is_found(labs: Seq<LabRecordView>, id: Seq<char>)
    ensures
        match found(labs, id) {
            Some(lab) => exists|i: int|
                {
                    &&& 0 <= i < labs.len()
                    &&& #[trigger] labs[i] == lab
                    &&& lab.id == id
                    &&& forall|j: int| 0 <= j < i ==> (#[trigger] labs[j]).id != id
                },
            None => forall|i: int| 0 <= i < labs.len() ==> (#[trigger] labs[i]).id != id,
        },
    decreases labs.len(),
{
    if labs.len() > 0 {
        if labs[0].id != id {
            let rest = labs.skip(1);
            law_the_first_lab_is_found(rest, id);
            match found(rest, id) {
                Some(lab) => {
                    let i = choose|i: int|
                        {
                            &&& 0 <= i < rest.len()
                            &&& #[trigger] rest[i] == lab
                            &&& lab.id == id
                            &&& forall|j: int| 0 <= j < i ==> (#[trigger] rest[j]).id != id
                        };
                    assert(labs[i + 1] == lab);
                    assert forall|j: int| 0 <= j < i + 1 implies (#[trigger] labs[j]).id != id by {
                        if j > 0 {
                            assert(rest[j - 1] == labs[j]);
                        }
                    }
                },
                None => {
                    assert forall|i: int| 0 <= i < labs.len() implies (#[trigger] labs[i]).id
                        != id by {
                        if i > 0 {
                            assert(rest[i - 1] == labs[i]);
                        }
                    }
                },
            }
        } else {
            assert(labs[0].id == id);
        }
    }
}

/// A lab that is put takes the place of those with its identifier, and no other lab is dropped for
/// that: the others are those with another identifier, each as it was and in its order.
pub proof fn law_labs_are_told_apart_by_their_identifiers(
    first: Seq<LabRecordView>,
    second: Seq<LabRecordView>,
    lab: LabRecordView,
    id: Seq<char>,
)
    ensures
        without(first + second, id) == without(first, id) + without(second, id),
        without(seq![lab], id) == if lab.id == id {
            seq![]
        } else {
            seq![lab]
        },
    decreases second.len(),
{
    assert(seq![lab].drop_last() =~= seq![]);
    reveal_with_fuel(without, 2);
    assert(Seq::<LabRecordView>::empty().push(lab) =~= seq![lab]);
    if second.len() == 0 {
        assert(first + second =~= first);
        assert(without(first, id) + without(second, id) =~= without(first, id));
    } else {
        assert((first + second).drop_last() =~= first + second.drop_last());
        assert((first + second).last() == second.last());
        law_labs_are_told_apart_by_their_identifiers(first, second.drop_last(), lab, id);
        assert(without(first + second, id) =~= without(first, id) + without(second, id));
    }
}

/// As many labs are kept as were put under different identifiers, up to twenty, the latest first.
pub proof fn law_twenty_labs_are_kept(labs: Seq<LabRecordView>, lab: LabRecordView)
    ensures
        ({
            let all = seq![lab] + without(labs, lab.id);
            &&& used(labs, lab).is_prefix_of(all)
            &&& used(labs, lab).len() == if all.len() <= 20 {
                all.len()
            } else {
                20
            }
        }),
{
    let all = seq![lab] + without(labs, lab.id);
    assert(used(labs, lab) =~= all.subrange(0, used(labs, lab).len() as int));
}

} // verus!
