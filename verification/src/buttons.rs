//! A list of buttons, each of which can run a background task, that the user
//! can put into another order.

use vstd::prelude::*;
use vstd::string::StringExecFns;
use crate::text::{decimal, decimal_text};

verus! {

/// One button of the list.
#[derive(Debug)]
pub struct ButtonData {
    /// Stays with the button wherever it is moved.
    pub id: u32,
    pub label: String,
    /// Whether the task of the button is running.
    pub is_processing: bool,
}

/// The list of buttons.
#[derive(Debug)]
pub struct MyApp {
    pub buttons: Vec<ButtonData>,
    /// Whether the end of a task starts the task of the button below.
    pub auto_start_next: bool,
}

/// The label that a button is made with.
pub open spec fn default_label(id: u32) -> Seq<char> {
    "Button "@ + decimal(id as nat)
}

/// The place of the first button with the id `id` from `from` on, or the
/// length of the list if there is none.
pub open spec fn position_from(buttons: Seq<ButtonData>, id: u32, from: int) -> int
    decreases buttons.len() - from,
{
    if from < 0 || from >= buttons.len() || buttons[from].id == id {
        from
    } else {
        position_from(buttons, id, from + 1)
    }
}

/// The list with the button at `at` marked as running or not.
pub open spec fn marked(buttons: Seq<ButtonData>, at: int, is_processing: bool) -> Seq<ButtonData> {
    buttons.update(at, ButtonData { is_processing, ..buttons[at] })
}

/// The label of a button: the word "Button" and the id in decimal digits.
fn button_label(id: u32) -> (label: String)
    ensures
        label@ == default_label(id),
{
    String::from_str("Button ").concat(decimal_text(id as u64).as_str())
}

impl Default for MyApp {
    /// Three buttons with the ids 1 to 3, none of them running.
    fn default() -> (app: MyApp)
        ensures
            !app.auto_start_next,
            app.buttons@.len() == 3,
            forall|i: int|
                0 <= i < 3 ==> (#[trigger] app.buttons@[i]).id == i + 1 && app.buttons@[i].label@
                    == default_label((i + 1) as u32) && !app.buttons@[i].is_processing,
    {
        let mut buttons: Vec<ButtonData> = Vec::new();
        let mut id: u32 = 1;
        while id <= 3
            invariant
                1 <= id <= 4,
                buttons@.len() == id - 1,
                forall|k: int|
                    0 <= k < id - 1 ==> (#[trigger] buttons@[k]).id == k + 1 && buttons@[k].label@
                        == default_label((k + 1) as u32) && !buttons@[k].is_processing,
            decreases 4 - id,
        {
            buttons.push(ButtonData { id, label: button_label(id), is_processing: false });
            id = id + 1;
        }
        MyApp { buttons, auto_start_next: false }
    }
}

impl MyApp {
    /// Five buttons with the ids 0 to 4, none of them running.
    pub fn new() -> (app: MyApp)
        ensures
            !app.auto_start_next,
            app.buttons@.len() == 5,
            forall|i: int|
                0 <= i < 5 ==> (#[trigger] app.buttons@[i]).id == i && app.buttons@[i].label@
                    == default_label(i as u32) && !app.buttons@[i].is_processing,
    {
        let mut buttons: Vec<ButtonData> = Vec::new();
        let mut i: u32 = 0;
        while i < 5
            invariant
                i <= 5,
                buttons@.len() == i,
                forall|k: int|
                    0 <= k < i ==> (#[trigger] buttons@[k]).id == k && buttons@[k].label@
                        == default_label(k as u32) && !buttons@[k].is_processing,
            decreases 5 - i,
        {
            buttons.push(ButtonData { id: i, label: button_label(i), is_processing: false });
            i = i + 1;
        }
        MyApp { buttons, auto_start_next: false }
    }

    /// Marks the button at `index` as running, unless it runs already, and
    /// says for which id a task is to be started.
    pub fn start_processing(&mut self, index: usize) -> (started: Option<u32>)
        requires
            index < old(self).buttons@.len(),
        ensures
            final(self).auto_start_next == old(self).auto_start_next,
            final(self).buttons@ == marked(old(self).buttons@, index as int, true),
            started == if old(self).buttons@[index as int].is_processing {
                None
            } else {
                Some(old(self).buttons@[index as int].id)
            },
    {
        if !self.buttons[index].is_processing {
            let id = self.buttons[index].id;
            self.set_processing(index, true);
            Some(id)
        } else {
            assert(self.buttons@ =~= marked(self.buttons@, index as int, true));
            None
        }
    }

    /// Marks the button at `index` as running or not.
    fn set_processing(&mut self, index: usize, is_processing: bool)
        requires
            index < old(self).buttons@.len(),
        ensures
            final(self).auto_start_next == old(self).auto_start_next,
            final(self).buttons@ == marked(old(self).buttons@, index as int, is_processing),
    {
        self.buttons[index].is_processing = is_processing;
        assert(self.buttons@ =~= marked(old(self).buttons@, index as int, is_processing));
    }

    /// The place of the first button with the id `id`, if there is one.
    pub fn position(&self, id: u32) -> (r: Option<usize>)
        ensures
            match r {
                Some(i) => i < self.buttons@.len() && i as int == position_from(self.buttons@, id, 0),
                None => position_from(self.buttons@, id, 0) == self.buttons@.len(),
            },
    {
        let mut i: usize = 0;
        while i < self.buttons.len()
            invariant
                i <= self.buttons@.len(),
                position_from(self.buttons@, id, i as int) == position_from(self.buttons@, id, 0),
            decreases self.buttons@.len() - i,
        {
            if self.buttons[i].id == id {
                return Some(i);
            }
            i = i + 1;
        }
        None
    }

    /// Takes note that the task of the button with the id `finished_id` has
    /// ended: the button no longer runs. Where tasks follow each other, the
    /// button below it starts to run, unless it runs already, and its id is
    /// handed out so that its task can be started.
    pub fn finish_processing(&mut self, finished_id: u32) -> (started: Option<u32>)
        ensures
            final(self).auto_start_next == old(self).auto_start_next,
            ({
                let at = position_from(old(self).buttons@, finished_id, 0);
                let stopped = marked(old(self).buttons@, at, false);
                if at >= old(self).buttons@.len() {
                    final(self).buttons@ == old(self).buttons@ && started is None
                } else if old(self).auto_start_next && at + 1 < old(self).buttons@.len() {
                    &&& final(self).buttons@ == marked(stopped, at + 1, true)
                    &&& started == if stopped[at + 1].is_processing {
                        None
                    } else {
                        Some(stopped[at + 1].id)
                    }
                } else {
                    final(self).buttons@ == stopped && started is None
                }
            }),
    {
        let at = match self.position(finished_id) {
            Some(at) => at,
            None => {
                return None;
            },
        };
        self.set_processing(at, false);
        if self.auto_start_next {
            match self.get_next_index(at) {
                Some(next) => self.start_processing(next),
                None => None,
            }
        } else {
            None
        }
    }

    /// Moves the button at `from_index` in front of the button that stands
    /// at `to_index`, or to the end where `to_index` is the length of the
    /// list.
    pub fn reorder_button(&mut self, from_index: usize, to_index: usize)
        requires
            from_index == to_index || (from_index < old(self).buttons@.len() && to_index <= old(
                self,
            ).buttons@.len()),
        ensures
            final(self).auto_start_next == old(self).auto_start_next,
            final(self).buttons@ == if from_index == to_index {
                old(self).buttons@
            } else if to_index > from_index {
                old(self).buttons@.remove(from_index as int).insert(
                    to_index - 1,
                    old(self).buttons@[from_index as int],
                )
            } else {
                old(self).buttons@.remove(from_index as int).insert(
                    to_index as int,
                    old(self).buttons@[from_index as int],
                )
            },
    {
        if from_index != to_index {
            let button = self.buttons.remove(from_index);
            if to_index > from_index {
                self.buttons.insert(to_index - 1, button);
            } else {
                self.buttons.insert(to_index, button);
            }
        }
    }

    /// The place below `current_index`, if the list has one.
    pub fn get_next_index(&self, current_index: usize) -> (r: Option<usize>)
        ensures
            match r {
                Some(next) => next == current_index + 1 && next < self.buttons@.len(),
                None => current_index + 1 >= self.buttons@.len(),
            },
    {
        if current_index < self.buttons.len() && current_index + 1 < self.buttons.len() {
            Some(current_index + 1)
        } else {
            None
        }
    }
}

} // verus!
