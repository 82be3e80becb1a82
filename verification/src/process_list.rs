//! The list shape shared by every queue that holds parked or ready processes.

use vstd::prelude::*;
use crate::linked_list::LinkedList;
use crate::linked_list::ListItem;
use crate::process_manager::ProcessId;

verus! {

pub type ProcessListItem = ListItem<ProcessId>;

pub type ProcessList = LinkedList<ProcessId>;

} // verus!
