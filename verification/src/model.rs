//! The session: all records, the four facet selections, the working set that
//! the selections leave, and the cursor into it.

use rand::rngs::StdRng;
use rand::seq::SliceRandom;
use rand::SeedableRng;
use std::rc::Rc;
use vstd::arithmetic::div_mod::{
    lemma_add_mod_noop_right, lemma_mod_sub_multiples_vanish, lemma_small_mod,
};
use vstd::prelude::*;
use vstd::seq_lib::{to_multiset_build, to_multiset_contains, to_multiset_len, to_multiset_remove};
use vstd::string::*;

use crate::combination::{Body, Combination, Defense, Distance, Faint};
use crate::text::{decimal, decimal_string};

verus! {

/// Which distances the working set admits.
#[derive(Debug, Clone, Copy, PartialEq, Eq, Structural)]
pub enum DistanceSelection {
    Short,
    Long,
    All,
}

/// Which values of the defense facet the working set admits.
#[derive(Debug, Clone, Copy, PartialEq, Eq, Structural)]
pub enum DefenceSelection {
    Yes,
    No,
    All,
}

/// Which values of the faint facet the working set admits.
#[derive(Debug, Clone, Copy, PartialEq, Eq, Structural)]
pub enum FaintSelection {
    Yes,
    No,
    All,
}

/// Which values of the body facet the working set admits.
#[derive(Debug, Clone, Copy, PartialEq, Eq, Structural)]
pub enum BodySelection {
    Yes,
    No,
    All,
}

/// A distance passes unless the selection names the other distance.
pub open spec fn admits_distance(selection: DistanceSelection, value: Distance) -> bool {
    match value {
        Distance::Long => selection != DistanceSelection::Short,
        Distance::Short => selection != DistanceSelection::Long,
    }
}

/// A defense value passes unless the selection names the other value.
pub open spec fn admits_defense(selection: DefenceSelection, value: Defense) -> bool {
    match value {
        Defense::Yes => selection != DefenceSelection::No,
        Defense::No => selection != DefenceSelection::Yes,
    }
}

/// A faint value passes unless the selection names the other value.
pub open spec fn admits_faint(selection: FaintSelection, value: Faint) -> bool {
    match value {
        Faint::Yes => selection != FaintSelection::No,
        Faint::No => selection != FaintSelection::Yes,
    }
}

/// A body value passes unless the selection names the other value.
pub open spec fn admits_body(selection: BodySelection, value: Body) -> bool {
    match value {
        Body::Yes => selection != BodySelection::No,
        Body::No => selection != BodySelection::Yes,
    }
}

/// A record passes the four selections when it passes each of them.
pub open spec fn admits(
    com: Combination,
    distance: DistanceSelection,
    defence: DefenceSelection,
    faint: FaintSelection,
    body: BodySelection,
) -> bool {
    &&& admits_distance(distance, com.distance)
    &&& admits_defense(defence, com.defense)
    &&& admits_faint(faint, com.faint)
    &&& admits_body(body, com.body)
}

/// The records of `data` that pass the four selections, in the order of
/// `data`.
pub open spec fn filtered(
    data: Seq<Rc<Combination>>,
    distance: DistanceSelection,
    defence: DefenceSelection,
    faint: FaintSelection,
    body: BodySelection,
) -> Seq<Rc<Combination>> {
    data.filter(|c: Rc<Combination>| admits(*c, distance, defence, faint, body))
}

/// Tells whether a record passes the four selections.
pub fn filter_combination(
    com: &Combination,
    distance: DistanceSelection,
    defence: DefenceSelection,
    faint: FaintSelection,
    body: BodySelection,
) -> (r: bool)
    ensures
        r == admits(*com, distance, defence, faint, body),
{
    let distance_result = match com.distance {
        Distance::Long => !matches!(distance, DistanceSelection::Short),
        Distance::Short => !matches!(distance, DistanceSelection::Long),
    };
    let defense_result = match com.defense {
        Defense::Yes => !matches!(defence, DefenceSelection::No),
        Defense::No => !matches!(defence, DefenceSelection::Yes),
    };
    let faint_result = match com.faint {
        Faint::Yes => !matches!(faint, FaintSelection::No),
        Faint::No => !matches!(faint, FaintSelection::Yes),
    };
    let body_result = match com.body {
        Body::Yes => !matches!(body, BodySelection::No),
        Body::No => !matches!(body, BodySelection::Yes),
    };
    distance_result && defense_result && faint_result && body_result
}

/// Makes a second handle to a shared record with `Rc::clone`: the record
/// itself is not copied, and the new handle stands for the same record.
#[verifier::external_body]
fn share(com: &Rc<Combination>) -> (r: Rc<Combination>)
    ensures
        r == *com,
{
    Rc::clone(com)
}

/// Picks the records of `data` that pass the four selections, in the order
/// of `data`. The result shares the records with `data`.
pub fn filter(
    data: &Vec<Rc<Combination>>,
    distance: DistanceSelection,
    defence: DefenceSelection,
    faint: FaintSelection,
    body: BodySelection,
) -> (result: Vec<Rc<Combination>>)
    ensures
        result@ == filtered(data@, distance, defence, faint, body),
{
    let mut result: Vec<Rc<Combination>> = Vec::new();
    let ghost pred = |c: Rc<Combination>| admits(*c, distance, defence, faint, body);
    let mut i: usize = 0;
    assert(data@.take(0).filter(pred) == Seq::<Rc<Combination>>::empty()) by {
        reveal(Seq::filter);
    }
    while i < data.len()
        invariant
            i <= data.len(),
            pred == (|c: Rc<Combination>| admits(*c, distance, defence, faint, body)),
            result@ == data@.take(i as int).filter(pred),
        decreases data.len() - i,
    {
        proof {
            assert(data@.take(i + 1) == data@.take(i as int).push(data@[i as int]));
            data@.take(i as int).lemma_filter_push(data@[i as int], pred);
        }
        if filter_combination(&data[i], distance, defence, faint, body) {
            result.push(share(&data[i]));
        }
        i += 1;
    }
    assert(data@.take(i as int) == data@);
    result
}

/// The indices `0, 1, .., n - 1` in their natural order.
pub open spec fn identity_order(n: nat) -> Seq<usize> {
    Seq::new(n, |i: int| i as usize)
}

/// `items` laid out as `order` says: place `i` holds the item that stood at
/// `order[i]`.
pub open spec fn arranged<T>(items: Seq<T>, order: Seq<usize>) -> Seq<T> {
    order.map_values(|k: usize| items[k as int])
}

/// The order in which a shuffle with a generator seeded by `seed` leaves the
/// items that it was handed in the order `order`.
pub uninterp spec fn shuffled_order(order: Seq<usize>, seed: u64) -> Seq<usize>;

/// Seeds a `rand::rngs::StdRng` with `StdRng::seed_from_u64(seed)` and
/// shuffles `order` in place with `SliceRandom::shuffle`. The generator is
/// deterministic, so the outcome depends on the seed and on the slice alone:
/// the contract gives it its name. The shuffle only swaps items of the slice,
/// so what comes out holds the same items as what went in.
#[verifier::external_body]
fn shuffle_seeded(order: &mut Vec<usize>, seed: u64)
    ensures
        final(order)@ == shuffled_order(old(order)@, seed),
        final(order)@.to_multiset() == old(order)@.to_multiset(),
{
    let mut rng = StdRng::seed_from_u64(seed);
    order.shuffle(&mut rng);
}

/// Reads the clock with `SystemTime::now()`, turns the time into a
/// `chrono::DateTime<Utc>` with chrono's `From<SystemTime>`, and gives it as
/// `DateTime::timestamp_millis` does, in milliseconds since 1970. The
/// conversion takes a clock that stands before 1970 too, for which the
/// number is negative. Nothing is claimed of the value.
#[verifier::external_body]
fn clock_millis() -> i64 {
    chrono::DateTime::<chrono::Utc>::from(std::time::SystemTime::now()).timestamp_millis()
}

/// Mapping two sequences that hold the same items through one function gives
/// two sequences that hold the same items.
pub proof fn lemma_map_values_keeps_multiset<A, B>(a: Seq<A>, b: Seq<A>, f: spec_fn(A) -> B)
    requires
        a.to_multiset() == b.to_multiset(),
    ensures
        a.map_values(f).to_multiset() == b.map_values(f).to_multiset(),
    decreases a.len(),
{
    to_multiset_len(a);
    to_multiset_len(b);
    if a.len() == 0 {
        assert(a.map_values(f) == b.map_values(f));
    } else {
        let x = a.last();
        let a1 = a.drop_last();
        assert(a == a1.push(x));
        to_multiset_build(a1, x);
        to_multiset_contains(a, x);
        to_multiset_contains(b, x);
        let j = choose|j: int| 0 <= j < b.len() && b[j] == x;
        let b1 = b.remove(j);
        to_multiset_remove(b, j);
        assert(a1.to_multiset() == a.to_multiset().remove(x));
        assert(a1.to_multiset() == b1.to_multiset());
        lemma_map_values_keeps_multiset(a1, b1, f);
        let fa = a.map_values(f);
        let fb = b.map_values(f);
        assert(fa == a1.map_values(f).push(f(x)));
        to_multiset_build(a1.map_values(f), f(x));
        assert(fb.remove(j) == b1.map_values(f));
        to_multiset_remove(fb, j);
        to_multiset_contains(fb, f(x));
        assert(fb[j] == f(x));
    }
}

/// Laying items out in an order that is a permutation of their indices keeps
/// the items: none is lost and none comes twice.
pub proof fn lemma_arranged_keeps_items<T>(items: Seq<T>, order: Seq<usize>)
    requires
        items.len() <= usize::MAX,
        order.to_multiset() == identity_order(items.len()).to_multiset(),
    ensures
        arranged(items, order).len() == items.len(),
        arranged(items, order).to_multiset() == items.to_multiset(),
        forall|i: int| 0 <= i < order.len() ==> (#[trigger] order[i]) < items.len(),
{
    let id = identity_order(items.len());
    let f = |k: usize| items[k as int];
    lemma_map_values_keeps_multiset(order, id, f);
    to_multiset_len(order);
    to_multiset_len(id);
    assert(id.map_values(f) == items);
    assert forall|i: int| 0 <= i < order.len() implies (#[trigger] order[i]) < items.len() by {
        to_multiset_contains(order, order[i]);
        to_multiset_contains(id, order[i]);
        assert(order.contains(order[i]));
        let j = choose|j: int| 0 <= j < id.len() && id[j] == order[i];
        assert(order[i] == j);
    }
}

/// The indices `0, 1, .., n - 1` in their natural order.
pub fn identity_indices(n: usize) -> (order: Vec<usize>)
    ensures
        order@ == identity_order(n as nat),
{
    let mut order: Vec<usize> = Vec::new();
    let mut i: usize = 0;
    while i < n
        invariant
            i <= n,
            order@ == identity_order(i as nat),
        decreases n - i,
    {
        order.push(i);
        i += 1;
    }
    order
}

/// Lays the records out as `order` says, sharing them with `items`.
pub fn arrange(items: &Vec<Rc<Combination>>, order: &Vec<usize>) -> (result: Vec<Rc<Combination>>)
    requires
        forall|i: int| 0 <= i < order.len() ==> (#[trigger] order[i]) < items.len(),
    ensures
        result@ == arranged(items@, order@),
{
    let mut result: Vec<Rc<Combination>> = Vec::new();
    let mut i: usize = 0;
    while i < order.len()
        invariant
            i <= order.len(),
            forall|i: int| 0 <= i < order.len() ==> (#[trigger] order[i]) < items.len(),
            result@ == arranged(items@, order@.take(i as int)),
        decreases order.len() - i,
    {
        result.push(share(&items[order[i]]));
        i += 1;
    }
    result
}

/// The mathematical content of a `Model`.
pub struct Session {
    /// All records, as they were loaded.
    pub data: Seq<Rc<Combination>>,
    /// The working set: the records that the selections leave, in the order
    /// in which they are shown.
    pub combinations: Seq<Rc<Combination>>,
    /// The cursor: the place in the working set of the record on show.
    pub current: nat,
    /// The display number, which counts the steps taken since the last reset.
    pub number: nat,
    pub distance: DistanceSelection,
    pub defence: DefenceSelection,
    pub faint: FaintSelection,
    pub body: BodySelection,
}

impl Session {
    /// The records that pass the current selections, in the order of the
    /// data.
    pub open spec fn matching(self) -> Seq<Rc<Combination>> {
        filtered(self.data, self.distance, self.defence, self.faint, self.body)
    }

    /// The working set holds exactly the records that pass the selections,
    /// in some order, and the cursor points into it, or is 0 where it is
    /// empty.
    pub open spec fn wf(self) -> bool {
        &&& self.combinations.to_multiset() == self.matching().to_multiset()
        &&& self.combinations.len() == 0 ==> self.current == 0
        &&& self.combinations.len() > 0 ==> self.current < self.combinations.len()
    }

    /// The session of freshly loaded data, before its first shuffle: every
    /// selection is `All` and the working set is the data.
    pub open spec fn initial(data: Seq<Rc<Combination>>) -> Session {
        Session {
            data,
            combinations: filtered(
                data,
                DistanceSelection::All,
                DefenceSelection::All,
                FaintSelection::All,
                BodySelection::All,
            ),
            current: 0,
            number: 1,
            distance: DistanceSelection::All,
            defence: DefenceSelection::All,
            faint: FaintSelection::All,
            body: BodySelection::All,
        }
    }

    /// Back to the start, in the current order.
    pub open spec fn reset(self) -> Session {
        Session { current: 0, number: 1, ..self }
    }

    /// Back to the start, in the order of the data.
    pub open spec fn reset_in_order(self) -> Session {
        Session { combinations: self.matching(), current: 0, number: 1, ..self }
    }

    /// Back to the start, in the order that a shuffle seeded with `seed`
    /// gives.
    pub open spec fn reset_shuffled(self, seed: u64) -> Session {
        Session {
            combinations: arranged(
                self.combinations,
                shuffled_order(identity_order(self.combinations.len()), seed),
            ),
            current: 0,
            number: 1,
            ..self
        }
    }

    /// One step forward, from the last record round to the first. Nothing
    /// moves in an empty working set.
    pub open spec fn next(self) -> Session {
        if self.combinations.len() == 0 {
            self
        } else {
            Session {
                current: if self.current + 1 == self.combinations.len() {
                    0
                } else {
                    self.current + 1
                },
                number: self.number + 1,
                ..self
            }
        }
    }

    /// One step back, from the first record round to the last. The display
    /// number goes up all the same. Nothing moves in an empty working set.
    pub open spec fn previous(self) -> Session {
        if self.combinations.len() == 0 {
            self
        } else {
            Session {
                current: if self.current == 0 {
                    (self.combinations.len() - 1) as nat
                } else {
                    (self.current - 1) as nat
                },
                number: self.number + 1,
                ..self
            }
        }
    }

    /// A jump to the record at `index`.
    pub open spec fn set(self, index: nat) -> Session {
        Session { current: index, number: self.number + 1, ..self }
    }

    /// `steps` steps forward.
    pub open spec fn advanced(self, steps: nat) -> Session
        decreases steps,
    {
        if steps == 0 {
            self
        } else {
            self.advanced((steps - 1) as nat).next()
        }
    }

    /// Whether the cursor comes to `place` within the first round of steps
    /// forward, the start included.
    pub open spec fn visits(self, place: nat) -> bool {
        exists|k: nat|
            k < self.combinations.len() && (#[trigger] self.advanced(k)).current == place
    }

    /// A new selection on distance: the working set is taken anew, in the order
    /// of the data, and the session starts again.
    pub open spec fn with_distance(self, selection: DistanceSelection) -> Session {
        Session { distance: selection, ..self }.reset_in_order()
    }

    /// A new selection on the defense facet: the working set is taken anew, in the order
    /// of the data, and the session starts again.
    pub open spec fn with_defence(self, selection: DefenceSelection) -> Session {
        Session { defence: selection, ..self }.reset_in_order()
    }

    /// A new selection on the faint facet: the working set is taken anew, in the order
    /// of the data, and the session starts again.
    pub open spec fn with_faint(self, selection: FaintSelection) -> Session {
        Session { faint: selection, ..self }.reset_in_order()
    }

    /// A new selection on the body facet: the working set is taken anew, in the order
    /// of the data, and the session starts again.
    pub open spec fn with_body(self, selection: BodySelection) -> Session {
        Session { body: selection, ..self }.reset_in_order()
    }

    /// New data under the old selections, in the order of the data.
    pub open spec fn with_data(self, data: Seq<Rc<Combination>>) -> Session {
        Session { data, ..self }.reset_in_order()
    }
}

/// The state of a training session.
#[derive(Debug, Clone)]
pub struct Model {
    number: usize,
    current: usize,
    distance_selection: DistanceSelection,
    defence_selection: DefenceSelection,
    faint_selection: FaintSelection,
    body_selection: BodySelection,
    combinations: Vec<Rc<Combination>>,
    data: Vec<Rc<Combination>>,
}

impl View for Model {
    type V = Session;

    closed spec fn view(&self) -> Session {
        Session {
            data: self.data@,
            combinations: self.combinations@,
            current: self.current as nat,
            number: self.number as nat,
            distance: self.distance_selection,
            defence: self.defence_selection,
            faint: self.faint_selection,
            body: self.body_selection,
        }
    }
}

impl Model {
    /// The session of freshly loaded data: every selection is `All`, the
    /// working set is the data in a shuffled order, and the cursor is at the
    /// start. The seed of the shuffle is read from the clock.
    pub fn new(data: Vec<Rc<Combination>>) -> (model: Model)
        ensures
            model@.wf(),
            exists|seed: u64| model@ == Session::initial(data@).reset_shuffled(seed),
    {
        let combinations = filter(
            &data,
            DistanceSelection::All,
            DefenceSelection::All,
            FaintSelection::All,
            BodySelection::All,
        );
        let mut model = Model {
            number: 1,
            current: 0,
            distance_selection: DistanceSelection::All,
            defence_selection: DefenceSelection::All,
            faint_selection: FaintSelection::All,
            body_selection: BodySelection::All,
            combinations,
            data,
        };
        model.reset_in_random_order();
        model
    }

    /// What a model holds fits the machine: the cursor, the display number
    /// and the numbers of records are all machine numbers.
    pub proof fn lemma_fits_the_machine(&self)
        ensures
            self@.current <= usize::MAX,
            self@.number <= usize::MAX,
            self@.combinations.len() <= usize::MAX,
            self@.data.len() <= usize::MAX,
    {
        assert(self.combinations.len() == self.combinations@.len());
        assert(self.data.len() == self.data@.len());
    }

    /// The cursor.
    pub fn current(&self) -> (r: usize)
        ensures
            r == self@.current,
    {
        self.current
    }

    /// The display number: 1 after a reset, and one more after each step.
    pub fn step_count(&self) -> (r: usize)
        ensures
            r == self@.number,
    {
        self.number
    }

    /// The display number, followed by a full stop.
    pub fn number(&self) -> (r: String)
        ensures
            r@ == decimal(self@.number) + "."@,
    {
        let mut r = decimal_string(self.number);
        r.append(".");
        r
    }

    /// The description of the record on show, or "None" where the working
    /// set is empty.
    pub fn combination(&self) -> (r: String)
        requires
            self@.wf(),
        ensures
            r@ == if self@.combinations.len() == 0 {
                "None"@
            } else {
                self@.combinations[self@.current as int].description@
            },
    {
        if self.combinations.len() == 0 {
            return "None".to_owned();
        }
        self.combinations[self.current].description.clone()
    }

    /// The working set.
    pub fn combinations(&self) -> (r: &Vec<Rc<Combination>>)
        ensures
            r@ == self@.combinations,
    {
        &self.combinations
    }

    /// The selection on distance. It is always set.
    pub fn distance_selection(&self) -> (r: Option<DistanceSelection>)
        ensures
            r == Some(self@.distance),
    {
        Some(self.distance_selection)
    }

    /// Selects on distance and starts again, in the order of the data.
    pub fn set_distance_selection(&mut self, option: DistanceSelection)
        ensures
            final(self)@ == old(self)@.with_distance(option),
            final(self)@.wf(),
    {
        self.distance_selection = option;
        self.update_filter();
    }

    /// The selection on the defense facet. It is always set.
    pub fn defence_selection(&self) -> (r: Option<DefenceSelection>)
        ensures
            r == Some(self@.defence),
    {
        Some(self.defence_selection)
    }

    /// Selects on the defense facet and starts again, in the order of the
    /// data.
    pub fn set_defence_selection(&mut self, option: DefenceSelection)
        ensures
            final(self)@ == old(self)@.with_defence(option),
            final(self)@.wf(),
    {
        self.defence_selection = option;
        self.update_filter();
    }

    /// The selection on the faint facet. It is always set.
    pub fn faint_selection(&self) -> (r: Option<FaintSelection>)
        ensures
            r == Some(self@.faint),
    {
        Some(self.faint_selection)
    }

    /// Selects on the faint facet and starts again, in the order of the
    /// data.
    pub fn set_faint_selection(&mut self, option: FaintSelection)
        ensures
            final(self)@ == old(self)@.with_faint(option),
            final(self)@.wf(),
    {
        self.faint_selection = option;
        self.update_filter();
    }

    /// The selection on the body facet. It is always set.
    pub fn body_selection(&self) -> (r: Option<BodySelection>)
        ensures
            r == Some(self@.body),
    {
        Some(self.body_selection)
    }

    /// Selects on the body facet and starts again, in the order of the data.
    pub fn set_body_selection(&mut self, option: BodySelection)
        ensures
            final(self)@ == old(self)@.with_body(option),
            final(self)@.wf(),
    {
        self.body_selection = option;
        self.update_filter();
    }

    /// Puts the cursor at the start and the display number at 1.
    pub fn reset(&mut self)
        ensures
            final(self)@ == old(self)@.reset(),
            old(self)@.wf() ==> final(self)@.wf(),
    {
        self.number = 1;
        self.current = 0;
    }

    /// Starts again with the working set in the order that a shuffle seeded
    /// with `seed` gives it.
    pub fn reset_with_seed(&mut self, seed: u64)
        ensures
            final(self)@ == old(self)@.reset_shuffled(seed),
            final(self)@.combinations.to_multiset() == old(self)@.combinations.to_multiset(),
            old(self)@.wf() ==> final(self)@.wf(),
    {
        self.reset();
        let mut order = identity_indices(self.combinations.len());
        shuffle_seeded(&mut order, seed);
        proof {
            lemma_arranged_keeps_items(self.combinations@, order@);
        }
        self.combinations = arrange(&self.combinations, &order);
    }

    /// Starts again with the working set in a random order. The seed of the
    /// shuffle is the time on the clock, in milliseconds.
    pub fn reset_in_random_order(&mut self)
        ensures
            exists|seed: u64| final(self)@ == old(self)@.reset_shuffled(seed),
            final(self)@.combinations.to_multiset() == old(self)@.combinations.to_multiset(),
            final(self)@.current == 0,
            final(self)@.number == 1,
            old(self)@.wf() ==> final(self)@.wf(),
    {
        let millis = clock_millis();
        let seed = #[verifier::truncate]
        (millis as u64);
        self.reset_with_seed(seed);
    }

    /// Starts again with the working set in the order of the data.
    pub fn reset_in_order(&mut self)
        ensures
            final(self)@ == old(self)@.reset_in_order(),
            final(self)@.wf(),
    {
        self.reset();
        self.update_filter();
    }

    /// Moves one record forward, from the last round to the first, and
    /// counts the step. Does nothing where the working set is empty. The
    /// display number must have room for the step.
    pub fn next(&mut self)
        requires
            old(self)@.wf(),
            old(self)@.combinations.len() > 0 ==> old(self)@.number < usize::MAX,
        ensures
            final(self)@ == old(self)@.next(),
            final(self)@.wf(),
    {
        if self.combinations.len() == 0 {
            return ;
        }
        self.number += 1;
        proof {
            lemma_cursor_after(self.current as nat, 1, self.combinations.len() as nat);
        }
        self.current = (self.current + 1) % self.combinations.len();
    }

    /// Moves one record back, from the first round to the last, and counts
    /// the step. Does nothing where the working set is empty. The display
    /// number must have room for the step.
    pub fn previous(&mut self)
        requires
            old(self)@.wf(),
            old(self)@.combinations.len() > 0 ==> old(self)@.number < usize::MAX,
        ensures
            final(self)@ == old(self)@.previous(),
            final(self)@.wf(),
    {
        if self.combinations.len() == 0 {
            return ;
        }
        self.number += 1;
        self.current = if self.current == 0 {
            self.combinations.len() - 1
        } else {
            self.current - 1
        }
    }

    /// Puts the cursor on the record at `index`, which must be a place in
    /// the working set, and counts the step. The display number must have
    /// room for the step.
    pub fn set(&mut self, index: usize)
        requires
            old(self)@.wf(),
            index < old(self)@.combinations.len(),
            old(self)@.number < usize::MAX,
        ensures
            final(self)@ == old(self)@.set(index as nat),
            final(self)@.wf(),
    {
        self.number += 1;
        self.current = index;
    }

    /// Takes the working set anew from the data and starts again: whatever
    /// the working set was, it now holds exactly the records of the data that
    /// pass the four selections, in the order of the data. The data and the
    /// selections stay as they are.
    fn update_filter(&mut self)
        ensures
            final(self)@ == old(self)@.reset_in_order(),
            final(self)@.combinations == filtered(
                old(self)@.data,
                old(self)@.distance,
                old(self)@.defence,
                old(self)@.faint,
                old(self)@.body,
            ),
            final(self)@.data == old(self)@.data,
            final(self)@.distance == old(self)@.distance,
            final(self)@.defence == old(self)@.defence,
            final(self)@.faint == old(self)@.faint,
            final(self)@.body == old(self)@.body,
            final(self)@.current == 0,
            final(self)@.number == 1,
            final(self)@.wf(),
    {
        self.combinations = filter(
            &self.data,
            self.distance_selection,
            self.defence_selection,
            self.faint_selection,
            self.body_selection,
        );
        self.reset()
    }

    /// Replaces the data, takes the working set anew under the selections
    /// that stand, and starts again in a random order.
    pub fn reload(&mut self, data: Vec<Rc<Combination>>)
        ensures
            final(self)@.wf(),
            exists|seed: u64| final(self)@ == old(self)@.with_data(data@).reset_shuffled(seed),
    {
        self.data = data;
        self.update_filter();
        self.reset_in_random_order();
    }
}

/// The places in `data` of the records that pass the four selections, in
/// rising order.
pub open spec fn kept_positions(
    data: Seq<Rc<Combination>>,
    distance: DistanceSelection,
    defence: DefenceSelection,
    faint: FaintSelection,
    body: BodySelection,
) -> Seq<int>
    decreases data.len(),
{
    if data.len() == 0 {
        Seq::<int>::empty()
    } else {
        let before = kept_positions(data.drop_last(), distance, defence, faint, body);
        if admits(*data.last(), distance, defence, faint, body) {
            before.push(data.len() - 1)
        } else {
            before
        }
    }
}

/// Filtering gives a subsequence of the data: the records at the kept
/// places, which rise. Every record in it passes all four selections, and a
/// place of the data is kept exactly when its record passes them, so every
/// record left out fails at least one.
pub proof fn lemma_filtered_is_the_passing_subsequence(
    data: Seq<Rc<Combination>>,
    distance: DistanceSelection,
    defence: DefenceSelection,
    faint: FaintSelection,
    body: BodySelection,
)
    ensures
        filtered(data, distance, defence, faint, body).len() == kept_positions(
            data,
            distance,
            defence,
            faint,
            body,
        ).len(),
        forall|k: int|
            0 <= k < kept_positions(data, distance, defence, faint, body).len() ==> {
                let place = #[trigger] kept_positions(data, distance, defence, faint, body)[k];
                &&& 0 <= place < data.len()
                &&& filtered(data, distance, defence, faint, body)[k] == data[place]
                &&& admits(*data[place], distance, defence, faint, body)
            },
        forall|k: int, l: int|
            0 <= k < l < kept_positions(data, distance, defence, faint, body).len()
                ==> #[trigger] kept_positions(data, distance, defence, faint, body)[k]
                < #[trigger] kept_positions(data, distance, defence, faint, body)[l],
        forall|j: int|
            0 <= j < data.len() ==> (admits(*(#[trigger] data[j]), distance, defence, faint, body)
                <==> kept_positions(data, distance, defence, faint, body).contains(j)),
    decreases data.len(),
{
    let pred = |c: Rc<Combination>| admits(*c, distance, defence, faint, body);
    let kept = kept_positions(data, distance, defence, faint, body);
    if data.len() == 0 {
        assert(data.filter(pred).len() == 0) by {
            reveal(Seq::filter);
        }
    } else {
        let front = data.drop_last();
        let before = kept_positions(front, distance, defence, faint, body);
        lemma_filtered_is_the_passing_subsequence(front, distance, defence, faint, body);
        assert(data == front.push(data.last()));
        front.lemma_filter_push(data.last(), pred);
        assert forall|j: int| 0 <= j < data.len() implies (admits(
            *(#[trigger] data[j]),
            distance,
            defence,
            faint,
            body,
        ) <==> kept.contains(j)) by {
            if before.contains(j) {
                let k = choose|k: int| 0 <= k < before.len() && before[k] == j;
                assert(kept[k] == j);
            }
            if kept.contains(j) {
                let k = choose|k: int| 0 <= k < kept.len() && kept[k] == j;
                assert(k < before.len() ==> before[k] == j);
            }
            if j == front.len() && pred(data.last()) {
                assert(kept[kept.len() - 1] == j);
            }
        }
    }
}

/// Taking the working set anew gives the filter of the data under the
/// selections that stand, whatever the working set was before, shuffled or
/// not: every record in it passes all four selections, every record of the
/// data that is not in it fails at least one, and the order is that of the
/// data. The data and the selections stay as they are, and where every
/// selection is `All` the working set is the data.
pub proof fn lemma_working_set_taken_anew(s: Session)
    ensures
        s.reset_in_order().wf(),
        s.reset_in_order().combinations == filtered(
            s.data,
            s.distance,
            s.defence,
            s.faint,
            s.body,
        ),
        s.reset_in_order().data == s.data,
        s.reset_in_order().distance == s.distance,
        s.reset_in_order().defence == s.defence,
        s.reset_in_order().faint == s.faint,
        s.reset_in_order().body == s.body,
        forall|k: int|
            0 <= k < s.reset_in_order().combinations.len() ==> admits(
                *(#[trigger] s.reset_in_order().combinations[k]),
                s.distance,
                s.defence,
                s.faint,
                s.body,
            ),
        forall|j: int|
            0 <= j < s.data.len() && !s.reset_in_order().combinations.contains(s.data[j])
                ==> !admits(*(#[trigger] s.data[j]), s.distance, s.defence, s.faint, s.body),
        s.distance == DistanceSelection::All && s.defence == DefenceSelection::All && s.faint
            == FaintSelection::All && s.body == BodySelection::All
            ==> s.reset_in_order().combinations == s.data,
{
    broadcast use {Seq::lemma_filter_pred, Seq::lemma_filter_contains};

    lemma_all_selected_keeps_everything(s.data);
}

/// With `All` selected for every facet, filtering gives the data back, in
/// its order.
pub proof fn lemma_all_selected_keeps_everything(data: Seq<Rc<Combination>>)
    ensures
        filtered(
            data,
            DistanceSelection::All,
            DefenceSelection::All,
            FaintSelection::All,
            BodySelection::All,
        ) == data,
    decreases data.len(),
{
    let pred = |c: Rc<Combination>|
        admits(
            *c,
            DistanceSelection::All,
            DefenceSelection::All,
            FaintSelection::All,
            BodySelection::All,
        );
    if data.len() == 0 {
        assert(data.filter(pred) == data) by {
            reveal(Seq::filter);
        }
    } else {
        lemma_all_selected_keeps_everything(data.drop_last());
        assert(data == data.drop_last().push(data.last()));
        data.drop_last().lemma_filter_push(data.last(), pred);
    }
}

/// A step forward and a step back undo each other: in a working set that is
/// not empty, either one followed by the other leaves the cursor, and the
/// working set, as they were. In a working set of one record neither moves
/// the cursor at all.
pub proof fn lemma_next_and_previous_are_inverse(s: Session)
    requires
        s.wf(),
        s.combinations.len() >= 1,
    ensures
        s.next().previous().current == s.current,
        s.previous().next().current == s.current,
        s.next().previous().combinations == s.combinations,
        s.previous().next().combinations == s.combinations,
        s.combinations.len() == 1 ==> s.next().current == s.current && s.previous().current
            == s.current,
{
}

/// Where the cursor stands after `steps` steps forward from `current` in a
/// working set of `n` records, for fewer than `n` steps.
proof fn lemma_cursor_after(current: nat, steps: nat, n: nat)
    requires
        current < n,
        steps <= n,
    ensures
        (current + steps) % n == if current + steps < n {
            current + steps
        } else {
            (current + steps - n) as nat
        },
{
    if current + steps < n {
        lemma_small_mod(current + steps, n);
    } else {
        lemma_mod_sub_multiples_vanish((current + steps) as int, n as int);
        lemma_small_mod((current + steps - n) as nat, n);
    }
}

/// Steps forward change nothing but the cursor and the display number, and
/// `steps` of them put the cursor `steps` places on, counted round the
/// working set.
pub proof fn lemma_advanced(s: Session, steps: nat)
    requires
        s.wf(),
        s.combinations.len() > 0,
    ensures
        s.advanced(steps).wf(),
        s.advanced(steps).combinations == s.combinations,
        s.advanced(steps).data == s.data,
        s.advanced(steps).number == s.number + steps,
        s.advanced(steps).current == (s.current + steps) % s.combinations.len(),
    decreases steps,
{
    let n = s.combinations.len();
    if steps == 0 {
        lemma_small_mod(s.current, n);
    } else {
        lemma_advanced(s, (steps - 1) as nat);
        lemma_cursor_after(s.advanced((steps - 1) as nat).current, 1, n);
        lemma_add_mod_noop_right(1, s.current + steps - 1, n as int);
    }
}

/// Stepping forward through a working set of `n` records visits every
/// record once before any comes again: the first `n` cursors, the start
/// included, are all different and reach every place, and the `n`-th step
/// puts the cursor back where it began.
pub proof fn lemma_advance_visits_each_record_once(s: Session)
    requires
        s.wf(),
        s.combinations.len() > 0,
    ensures
        s.advanced(s.combinations.len()).current == s.current,
        forall|i: nat, j: nat|
            i < j < s.combinations.len() ==> (#[trigger] s.advanced(i)).current
                != (#[trigger] s.advanced(j)).current,
        forall|place: nat| place < s.combinations.len() ==> #[trigger] s.visits(place),
{
    let n = s.combinations.len();
    lemma_advanced(s, n);
    lemma_cursor_after(s.current, n, n);
    assert forall|i: nat, j: nat| i < j < n implies (#[trigger] s.advanced(i)).current != (
    #[trigger] s.advanced(j)).current by {
        lemma_advanced(s, i);
        lemma_advanced(s, j);
        lemma_cursor_after(s.current, i, n);
        lemma_cursor_after(s.current, j, n);
    }
    assert forall|place: nat| place < n implies #[trigger] s.visits(place) by {
        let k: nat = if place >= s.current {
            (place - s.current) as nat
        } else {
            (place + n - s.current) as nat
        };
        lemma_advanced(s, k);
        lemma_cursor_after(s.current, k, n);
    }
}

} // verus!
