use vstd::prelude::*;

use crate::board::{AppState, first_with_id, has_id, with_status};
use crate::status::{ItemStatus, status_of_number, status_tab_name};

verus! {

/// Which tab is open, and the names of the tabs.
pub struct TabState {
    pub current_tab: usize,
    pub tab_names: Vec<&'static str>,
}

impl TabState {
    /// The tabs "doing", "done" and "expired", the first one open; tab `k`
    /// lists the items whose status has number `k + 1`.
    pub fn new() -> (tabs: TabState)
        ensures
            tabs.current_tab == 0,
            tabs.tab_names@.len() == 3,
            forall|k: int| 0 <= k < 3 ==> (#[trigger] tabs.tab_names@[k])@ == status_tab_name(
                status_of_number(k + 1),
            ),
    {
        let tabs = TabState { current_tab: 0, tab_names: vec!["doing", "done", "expired"] };
        assert(tabs.tab_names@[0]@ == status_tab_name(status_of_number(1)));
        assert(tabs.tab_names@[1]@ == status_tab_name(status_of_number(2)));
        assert(tabs.tab_names@[2]@ == status_tab_name(status_of_number(3)));
        tabs
    }
}

/// The name filter's choice.
pub struct FilterState {
    pub selected_name: String,
}

impl FilterState {
    /// The filter that lets every item through.
    pub fn new() -> (filter: FilterState)
        ensures
            filter.selected_name@ == "All"@,
    {
        FilterState { selected_name: String::from_str("All") }
    }
}

/// What the user did on the board.
pub enum BoardEvent {
    /// Opened the tab at this position (a position past the tabs is ignored).
    TabClicked(usize),
    /// Chose this entry of the name filter.
    FilterChosen(String),
    /// Marked the item with this id done.
    CompleteClicked(u32),
    /// Asked for the items to be loaded again.
    RefreshClicked,
}

/// What the caller is to do after an event.
#[derive(Clone, Copy, Debug, PartialEq, Eq, Structural)]
pub enum BoardAction {
    Nothing,
    /// Write the items back to storage.
    SaveItems,
    /// Load the items again and pass them to `AppState::refresh`.
    ReloadItems,
}

/// Applies a user event to the board.
pub fn handle_event(
    state: &mut AppState,
    filter: &mut FilterState,
    tabs: &mut TabState,
    event: BoardEvent,
) -> (action: BoardAction)
    ensures
        match event {
            BoardEvent::TabClicked(i) => {
                &&& final(tabs).current_tab == (if i < old(tabs).tab_names.len() {
                    i
                } else {
                    old(tabs).current_tab
                })
                &&& final(tabs).tab_names == old(tabs).tab_names
                &&& *final(state) == *old(state)
                &&& *final(filter) == *old(filter)
                &&& action == BoardAction::Nothing
            },
            BoardEvent::FilterChosen(name) => {
                &&& final(filter).selected_name == name
                &&& *final(tabs) == *old(tabs)
                &&& *final(state) == *old(state)
                &&& action == BoardAction::Nothing
            },
            BoardEvent::CompleteClicked(id) => {
                &&& *final(tabs) == *old(tabs)
                &&& *final(filter) == *old(filter)
                &&& (action == BoardAction::SaveItems <==> has_id(old(state).items@, id))
                &&& (action == BoardAction::SaveItems || action == BoardAction::Nothing)
                &&& (has_id(old(state).items@, id) ==> exists|k: int|
                    first_with_id(old(state).items@, id, k) && final(state).items@ == old(
                        state,
                    ).items@.update(k, with_status(old(state).items@[k], ItemStatus::DONE))
                        && final(state).dirty && final(state).init_time == old(state).init_time)
                &&& (!has_id(old(state).items@, id) ==> *final(state) == *old(state))
            },
            BoardEvent::RefreshClicked => {
                &&& *final(tabs) == *old(tabs)
                &&& *final(filter) == *old(filter)
                &&& *final(state) == *old(state)
                &&& action == BoardAction::ReloadItems
            },
        },
        final(tabs).tab_names == old(tabs).tab_names,
        old(tabs).current_tab < old(tabs).tab_names.len() ==> final(tabs).current_tab
            < final(tabs).tab_names.len(),
{
    match event {
        BoardEvent::TabClicked(i) => {
            if i < tabs.tab_names.len() {
                tabs.current_tab = i;
            }
            BoardAction::Nothing
        },
        BoardEvent::FilterChosen(name) => {
            filter.selected_name = name;
            BoardAction::Nothing
        },
        BoardEvent::CompleteClicked(id) => {
            if state.update(id, ItemStatus::DONE) {
                BoardAction::SaveItems
            } else {
                BoardAction::Nothing
            }
        },
        BoardEvent::RefreshClicked => BoardAction::ReloadItems,
    }
}

} // verus!
