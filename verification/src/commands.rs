use vstd::prelude::*;
use crate::fsnodetypes::ListView;

verus! {

/// Where the line above `frompos` is, if there is one.
pub open spec fn up_spec(frompos: usize) -> Option<usize> {
    if frompos > 0 {
        Some((frompos - 1) as usize)
    } else {
        None
    }
}

/// Where the line below `frompos` is, in a list of `len` lines, if there is one.
pub open spec fn down_spec(len: int, frompos: usize) -> Option<usize> {
    if frompos < len - 1 {
        Some((frompos + 1) as usize)
    } else {
        None
    }
}

/// A "manipulate" command: acts on a range of lines.
pub fn yank(files: Vec<usize>, list_view: &mut ListView) -> (r: Vec<usize>)
    ensures
        r@.len() == 0,
        final(list_view)@ == old(list_view)@,
{
    Vec::new()
}

/// A "target" command: the line above `frompos`.
pub fn up(list_view: &ListView, frompos: usize) -> (r: Option<usize>)
    ensures
        r == up_spec(frompos),
{
    if frompos > 0 {
        Some(frompos - 1)
    } else {
        None
    }
}

/// A "target" command: the line below `frompos`.
pub fn down(list_view: &ListView, frompos: usize) -> (r: Option<usize>)
    requires
        list_view@.len() > 0,
    ensures
        r == down_spec(list_view@.len() as int, frompos),
{
    if frompos < list_view.len() - 1 {
        Some(frompos + 1)
    } else {
        None
    }
}

/// A "targetless" command: acts at the cursor.
pub fn past(list_view: &mut ListView, pos: usize)
    ensures
        final(list_view)@ == old(list_view)@,
{
}

/// Moving down from a line and then up again comes back to that line.
pub proof fn lemma_up_undoes_down(len: int, pos: usize)
    requires
        len <= usize::MAX,
        down_spec(len, pos) is Some,
    ensures
        up_spec(down_spec(len, pos).unwrap()) == Some(pos),
{
}

/// Moving up from a line and then down again comes back to that line, in a
/// list that holds it.
pub proof fn lemma_down_undoes_up(len: int, pos: usize)
    requires
        up_spec(pos) is Some,
        pos < len,
    ensures
        down_spec(len, up_spec(pos).unwrap()) == Some(pos),
{
}

} // verus!
