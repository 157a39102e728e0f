//! The boundary to a presentation layer: the messages that it sends, what
//! is left for it to do after each, and the rows that it shows.

use vstd::prelude::*;

use crate::model::{
    BodySelection, DefenceSelection, DistanceSelection, FaintSelection, Model, Session,
};

verus! {

/// What the user asked for.
#[derive(Debug, Clone, Copy)]
pub enum Message {
    Next,
    Previous,
    Reset,
    InOrder,
    Reload,
    DistanceSelected(DistanceSelection),
    DefenceSelected(DefenceSelection),
    FaintSelected(FaintSelection),
    BodySelected(BodySelection),
    ItemSelected(usize),
}

/// What is left to do outside once a message has been handled.
#[derive(Debug, Clone, Copy, PartialEq, Eq)]
pub enum Action {
    /// Bring the row at this place into view.
    ScrollTo(usize),
    /// Read the data anew, hand it to `Model::reload`, and bring the row
    /// under the cursor into view.
    Load,
}

/// One selectable row of the list of records.
#[derive(Debug, Clone, PartialEq, Eq)]
pub struct Row {
    /// The place of the record in the working set.
    pub index: usize,
    /// The label of the row.
    pub description: String,
    /// Whether the cursor is on this record.
    pub highlighted: bool,
}

/// The messages that a session can take: a step needs room in the display
/// number, and a selected item must be a place in the working set.
pub open spec fn accepts(s: Session, message: Message) -> bool {
    match message {
        Message::Next | Message::Previous => s.combinations.len() > 0 ==> s.number < usize::MAX,
        Message::ItemSelected(index) => index < s.combinations.len() && s.number < usize::MAX,
        _ => true,
    }
}

/// Tells whether the session can take the message.
pub fn accepts_message(model: &Model, message: Message) -> (r: bool)
    ensures
        r == accepts(model@, message),
{
    match message {
        Message::Next | Message::Previous => model.combinations().len() == 0
            || model.step_count() < usize::MAX,
        Message::ItemSelected(index) => index < model.combinations().len() && model.step_count()
            < usize::MAX,
        _ => true,
    }
}

/// Carries out what a message asks of the session and says what is left to
/// do outside. `Reload` leaves the session as it is and asks for the data;
/// every other message asks for the row under the cursor to be shown.
pub fn update(model: &mut Model, message: Message) -> (action: Action)
    requires
        old(model)@.wf(),
        accepts(old(model)@, message),
    ensures
        final(model)@.wf(),
        match message {
            Message::Next => final(model)@ == old(model)@.next(),
            Message::Previous => final(model)@ == old(model)@.previous(),
            Message::Reset => exists|seed: u64| final(model)@ == old(model)@.reset_shuffled(seed),
            Message::InOrder => final(model)@ == old(model)@.reset_in_order(),
            Message::Reload => final(model)@ == old(model)@,
            Message::DistanceSelected(option) => final(model)@ == old(model)@.with_distance(
                option,
            ),
            Message::DefenceSelected(option) => final(model)@ == old(model)@.with_defence(option),
            Message::FaintSelected(option) => final(model)@ == old(model)@.with_faint(option),
            Message::BodySelected(option) => final(model)@ == old(model)@.with_body(option),
            Message::ItemSelected(index) => final(model)@ == old(model)@.set(index as nat),
        },
        action is Load <==> message is Reload,
        action matches Action::ScrollTo(index) ==> index == final(model)@.current,
{
    match message {
        Message::Next => {
            model.next();
        },
        Message::Previous => {
            model.previous();
        },
        Message::Reset => {
            model.reset_in_random_order();
        },
        Message::InOrder => {
            model.reset_in_order();
        },
        Message::Reload => {
            return Action::Load;
        },
        Message::DistanceSelected(option) => {
            model.set_distance_selection(option);
        },
        Message::DefenceSelected(option) => {
            model.set_defence_selection(option);
        },
        Message::FaintSelected(option) => {
            model.set_faint_selection(option);
        },
        Message::BodySelected(option) => {
            model.set_body_selection(option);
        },
        Message::ItemSelected(index) => {
            model.set(index);
        },
    }
    Action::ScrollTo(model.current())
}

/// The rows of the list: one for each record of the working set, in its
/// order, labelled with the description, the one under the cursor
/// highlighted.
pub fn rows(model: &Model) -> (rows: Vec<Row>)
    ensures
        rows.len() == model@.combinations.len(),
        forall|i: int|
            0 <= i < rows.len() ==> {
                &&& (#[trigger] rows[i]).index == i
                &&& rows[i].description@ == model@.combinations[i].description@
                &&& rows[i].highlighted == (i == model@.current)
            },
{
    let combinations = model.combinations();
    let current = model.current();
    let mut rows: Vec<Row> = Vec::new();
    let mut index: usize = 0;
    while index < combinations.len()
        invariant
            index <= combinations.len(),
            combinations@ == model@.combinations,
            current == model@.current,
            rows.len() == index,
            forall|i: int|
                0 <= i < rows.len() ==> {
                    &&& (#[trigger] rows[i]).index == i
                    &&& rows[i].description@ == model@.combinations[i].description@
                    &&& rows[i].highlighted == (i == model@.current)
                },
        decreases combinations.len() - index,
    {
        rows.push(
            Row {
                index,
                description: combinations[index].description.clone(),
                highlighted: index == current,
            },
        );
        index += 1;
    }
    rows
}

} // verus!
