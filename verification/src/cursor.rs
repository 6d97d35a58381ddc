use ratatui::widgets::ListState;
use vstd::prelude::*;

verus! {

/// The state of the task list widget: ratatui's `ListState`, which holds the
/// selection cursor.
#[verifier::external_type_specification]
#[verifier::external_body]
pub struct ExListState(ListState);

/// The index that a list state has selected, if any.
pub uninterp spec fn selection(state: ListState) -> Option<usize>;

/// `ListState::default`: a list state with nothing selected.
pub assume_specification[ <ListState as Default>::default ]() -> (state: ListState)
    ensures
        selection(state) is None,
;

/// `ListState::selected` returns the selected index.
pub assume_specification[ ListState::selected ](state: &ListState) -> (index: Option<usize>)
    ensures
        index == selection(*state),
;

/// `ListState::select` makes `index` the selected index.
pub assume_specification[ ListState::select ](state: &mut ListState, index: Option<usize>)
    ensures
        selection(*final(state)) == index,
;

} // verus!
