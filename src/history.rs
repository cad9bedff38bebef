//! The ordered history of sessions, newest first, with a current selection.
use crate::error::CommandError;
use crate::record::{samples_recomputed, stats_of, Record};
use crate::sample::InputData;
use vstd::prelude::*;

verus! {

/// The records a store hands back: what it held, or none when it held nothing.
pub open spec fn loaded_records(stored: Option<Seq<Record>>) -> Seq<Record> {
    match stored {
        Some(s) => s,
        None => Seq::empty(),
    }
}

/// The selection after loading: the newest record, or none for an empty history.
pub open spec fn loaded_index(stored: Option<Seq<Record>>) -> Option<usize> {
    if loaded_records(stored).len() > 0 {
        Some(0)
    } else {
        None
    }
}

/// The selection after deleting position `i`: a selection at or after `i` moves
/// back by one, never below zero; any other stays.
pub open spec fn index_after_delete(cur: Option<usize>, i: usize) -> Option<usize> {
    match cur {
        Some(c) => if c >= i {
            Some(if c > 0 { (c - 1) as usize } else { 0 })
        } else {
            Some(c)
        },
        None => None,
    }
}

/// `b` is session `a` after new samples were applied: statistics derived from
/// `inputs`, and every sample's modified volume derived from the new target.
pub open spec fn inputs_applied(a: Record, inputs: Seq<InputData>, b: Record) -> bool {
    &&& b.id == a.id
    &&& b.name == a.name
    &&& match stats_of(inputs) {
        None => b.min_value is None && b.max_value is None && b.target_value is None,
        Some(st) => b.min_value == Some(st.0) && b.max_value == Some(st.1) && b.target_value
            == Some(st.2),
    }
    &&& samples_recomputed(inputs, b.inputs@, b.target_value)
}

/// `b` is session `a` with target `t` and every modified volume derived from it.
pub open spec fn target_applied(a: Record, t: u64, b: Record) -> bool {
    &&& b.id == a.id
    &&& b.name == a.name
    &&& b.min_value == a.min_value
    &&& b.max_value == a.max_value
    &&& b.target_value == Some(t)
    &&& samples_recomputed(a.inputs@, b.inputs@, Some(t))
}

/// Loading the very records that `save_to_store` hands out (as values, before
/// any encoding for a store) gives back the same records, in the same order,
/// with the newest selected (none for an empty history), whatever was selected
/// before saving.
pub proof fn lemma_save_load_round_trip(state: AppState)
    ensures
        loaded_records(Some(state.record_history@)) == state.record_history@,
        loaded_index(Some(state.record_history@)) == (if state.record_history@.len() > 0 {
            Some(0usize)
        } else {
            None
        }),
{
}

/// The session history and the current selection. A selection may point past
/// the end; it then selects nothing.
#[derive(Clone, Debug)]
pub struct AppState {
    pub record_history: Vec<Record>,
    pub current_index: Option<usize>,
}

impl AppState {
    /// The position of the selected record, when the selection is in range.
    pub open spec fn current_pos(&self) -> Option<usize> {
        match self.current_index {
            Some(i) => if i < self.record_history@.len() {
                Some(i)
            } else {
                None
            },
            None => None,
        }
    }

    /// The history as loaded from what a store held under its key (`None` when
    /// it held nothing): those records, with the newest selected.
    pub fn load_from_store(stored: Option<Vec<Record>>) -> (r: AppState)
        ensures
            r.record_history@ == loaded_records(
                match stored {
                    Some(v) => Some(v@),
                    None => None,
                },
            ),
            r.current_index == loaded_index(
                match stored {
                    Some(v) => Some(v@),
                    None => None,
                },
            ),
    {
        let record_history = match stored {
            Some(list) => list,
            None => Vec::new(),
        };
        let current_index = if record_history.len() == 0 {
            None
        } else {
            Some(0)
        };
        AppState { record_history, current_index }
    }

    /// The records to write to a store, in order.
    pub fn save_to_store(&self) -> (r: &Vec<Record>)
        ensures
            r@ == self.record_history@,
    {
        &self.record_history
    }

    /// Selects position `index`, unchecked: out of range it selects nothing.
    pub fn set_index(&mut self, index: usize)
        ensures
            final(self).current_index == Some(index),
            final(self).record_history == old(self).record_history,
    {
        self.current_index = Some(index);
    }

    /// Puts `record` first and selects it.
    pub fn add_record(&mut self, record: Record)
        ensures
            final(self).record_history@ == seq![record] + old(self).record_history@,
            final(self).record_history@[0] == record,
            final(self).current_index == Some(0usize),
    {
        self.record_history.insert(0, record);
        self.current_index = Some(0);
        proof {
            assert(self.record_history@ =~= seq![record] + old(self).record_history@);
        }
    }

    /// Starts a new empty session stamped with the current time, first in the
    /// history, and selects it.
    pub fn create_record(&mut self)
        ensures
            final(self).record_history@.len() == old(self).record_history@.len() + 1,
            final(self).record_history@.drop_first() == old(self).record_history@,
            final(self).record_history@[0].inputs@.len() == 0,
            final(self).record_history@[0].name is None,
            final(self).record_history@[0].min_value is None,
            final(self).record_history@[0].max_value is None,
            final(self).record_history@[0].target_value is None,
            final(self).current_index == Some(0usize),
    {
        let record = Record::default();
        self.add_record(record);
        proof {
            assert(self.record_history@.drop_first() =~= old(self).record_history@);
        }
    }

    /// The selected record, if the selection is in range.
    pub fn current_record(&self) -> (r: Option<&Record>)
        ensures
            r is Some <==> self.current_pos() is Some,
            r is Some ==> *r->0 == self.record_history@[self.current_pos()->0 as int],
    {
        match self.current_index {
            Some(i) => if i < self.record_history.len() {
                Some(&self.record_history[i])
            } else {
                None
            },
            None => None,
        }
    }

    /// Applies new samples to the selected record: its statistics follow them
    /// and every modified volume is derived from the new target. Returns whether
    /// a record was selected; without one nothing changes.
    pub fn calc_loading_volumn(&mut self, inputs: Vec<InputData>) -> (r: bool)
        ensures
            r == old(self).current_pos() is Some,
            !r ==> *final(self) == *old(self),
            r ==> ({
                let i = old(self).current_pos()->0 as int;
                &&& final(self).current_index == old(self).current_index
                &&& final(self).record_history@.len() == old(self).record_history@.len()
                &&& forall|k: int|
                    0 <= k < old(self).record_history@.len() && k != i
                        ==> #[trigger] final(self).record_history@[k]
                        == old(self).record_history@[k]
                &&& inputs_applied(
                    old(self).record_history@[i],
                    inputs@,
                    final(self).record_history@[i],
                )
            }),
    {
        match self.current_index {
            Some(i) => if i < self.record_history.len() {
                self.record_history[i].set_inputs(inputs);
                self.record_history[i].modified_input_volumn();
                true
            } else {
                false
            },
            None => false,
        }
    }

    /// Sets the selected record's target and derives every modified volume from
    /// it. Returns whether a record was selected; without one nothing changes.
    pub fn update_loading_volumn(&mut self, target: u64) -> (r: bool)
        ensures
            r == old(self).current_pos() is Some,
            !r ==> *final(self) == *old(self),
            r ==> ({
                let i = old(self).current_pos()->0 as int;
                &&& final(self).current_index == old(self).current_index
                &&& final(self).record_history@.len() == old(self).record_history@.len()
                &&& forall|k: int|
                    0 <= k < old(self).record_history@.len() && k != i
                        ==> #[trigger] final(self).record_history@[k]
                        == old(self).record_history@[k]
                &&& target_applied(old(self).record_history@[i], target, final(self).record_history@[i])
            }),
    {
        match self.current_index {
            Some(i) => if i < self.record_history.len() {
                self.record_history[i].set_target(target);
                self.record_history[i].modified_input_volumn();
                true
            } else {
                false
            },
            None => false,
        }
    }

    /// Removes the record at `index`, moving a selection at or after it back by
    /// one (never below zero). Returns `false`, changing nothing, when `index` is
    /// out of range.
    pub fn delete_history(&mut self, index: usize) -> (r: bool)
        ensures
            r == (index < old(self).record_history@.len()),
            !r ==> *final(self) == *old(self),
            r ==> final(self).record_history@ == old(self).record_history@.remove(index as int),
            r ==> final(self).current_index == index_after_delete(old(self).current_index, index),
            r && old(self).current_index == Some(index) ==> final(self).current_index == Some(
                if index > 0 {
                    (index - 1) as usize
                } else {
                    0usize
                },
            ),
    {
        if index < self.record_history.len() {
            self.record_history.remove(index);
            if self.current_index.is_some() && self.current_index.unwrap() >= index {
                self.current_index = Some(self.current_index.unwrap().saturating_sub(1));
            }
            true
        } else {
            false
        }
    }

    /// Names the record at `index`. Returns `false`, changing nothing, when
    /// `index` is out of range.
    pub fn rename_record(&mut self, index: usize, name: String) -> (r: bool)
        ensures
            r == (index < old(self).record_history@.len()),
            !r ==> *final(self) == *old(self),
            final(self).current_index == old(self).current_index,
            final(self).record_history@.len() == old(self).record_history@.len(),
            forall|k: int|
                0 <= k < old(self).record_history@.len() && k != index
                    ==> #[trigger] final(self).record_history@[k] == old(self).record_history@[k],
            r ==> ({
                let a = old(self).record_history@[index as int];
                let b = final(self).record_history@[index as int];
                &&& b.name == Some(name)
                &&& b.id == a.id
                &&& b.inputs == a.inputs
                &&& b.min_value == a.min_value
                &&& b.max_value == a.max_value
                &&& b.target_value == a.target_value
            }),
    {
        if index < self.record_history.len() {
            self.record_history[index].set_name(name);
            true
        } else {
            false
        }
    }

    /// Names the record at `index`, or reports `InvalidIndex` when `index` is
    /// out of range, changing nothing.
    pub fn rename_history(&mut self, index: usize, name: String) -> (r: Result<(), CommandError>)
        ensures
            index < old(self).record_history@.len() ==> r == Ok::<(), CommandError>(()),
            index >= old(self).record_history@.len() ==> r == Err::<(), CommandError>(
                CommandError::InvalidIndex(index),
            ) && *final(self) == *old(self),
            final(self).current_index == old(self).current_index,
            final(self).record_history@.len() == old(self).record_history@.len(),
            forall|k: int|
                0 <= k < old(self).record_history@.len() && k != index
                    ==> #[trigger] final(self).record_history@[k] == old(self).record_history@[k],
            index < old(self).record_history@.len() ==> ({
                let a = old(self).record_history@[index as int];
                let b = final(self).record_history@[index as int];
                &&& b.name == Some(name)
                &&& b.id == a.id
                &&& b.inputs == a.inputs
                &&& b.min_value == a.min_value
                &&& b.max_value == a.max_value
                &&& b.target_value == a.target_value
            }),
    {
        if self.rename_record(index, name) {
            Ok(())
        } else {
            Err(CommandError::InvalidIndex(index))
        }
    }

    /// Empties the history and clears the selection.
    pub fn clear_history(&mut self)
        ensures
            final(self).record_history@.len() == 0,
            final(self).current_index is None,
    {
        self.record_history = Vec::new();
        self.current_index = None;
    }

    /// The displayed name of every record, in order.
    pub fn history_list(&self) -> (r: Vec<String>)
        ensures
            r@.len() == self.record_history@.len(),
            forall|k: int|
                0 <= k < r@.len() && self.record_history@[k].name is Some ==> #[trigger] r@[k]@
                    == self.record_history@[k].name->0@,
    {
        let mut names: Vec<String> = Vec::new();
        let mut i: usize = 0;
        while i < self.record_history.len()
            invariant
                0 <= i <= self.record_history@.len(),
                names@.len() == i,
                forall|k: int|
                    0 <= k < i && self.record_history@[k].name is Some ==> #[trigger] names@[k]@
                        == self.record_history@[k].name->0@,
            decreases self.record_history@.len() - i,
        {
            names.push(self.record_history[i].get_display_name());
            i = i + 1;
        }
        names
    }
}

} // verus!
