//! The help screen's layout data and the column-width computation that
//! aligns the command descriptions.

use vstd::prelude::*;
use vstd::string::StringSliceAdditionalSpecFns;

verus! {

/// One help entry: a command name and what it does.
pub struct Message {
    pub name: &'static str,
    pub description: &'static str,
}

/// The whole help screen: a header, the program name, and the entries.
pub struct Help {
    pub header: &'static str,
    pub program_name: &'static str,
    pub message: &'static [Message],
}

/// The width of the widest command name, in bytes: every entry's name fits
/// in a column this wide, and some entry needs all of it (unless there is
/// none).
pub fn find_the_largest_msg(helpmsg: &Help) -> (r: usize)
    ensures
        forall|i: int|
            0 <= i < helpmsg.message@.len() ==> (#[trigger] helpmsg.message@[i].name).len()
                <= r,
        helpmsg.message@.len() == 0 ==> r == 0,
        helpmsg.message@.len() > 0 ==> exists|i: int|
            0 <= i < helpmsg.message@.len() && (#[trigger] helpmsg.message@[i].name).len()
                == r,
{
    let mut length: usize = 0;
    let mut i: usize = 0;
    while i < helpmsg.message.len()
        invariant
            0 <= i <= helpmsg.message@.len(),
            forall|k: int|
                0 <= k < i ==> (#[trigger] helpmsg.message@[k].name).len() <= length,
            i == 0 ==> length == 0,
            i > 0 ==> exists|k: int|
                0 <= k < i && (#[trigger] helpmsg.message@[k].name).len() == length,
        decreases helpmsg.message@.len() - i,
    {
        let m = vstd::slice::slice_index_get(helpmsg.message, i);
        if m.name.len() > length {
            length = m.name.len();
        }
        proof {
            assert(helpmsg.message@[i as int].name == m.name);
        }
        i = i + 1;
    }
    length
}

} // verus!
