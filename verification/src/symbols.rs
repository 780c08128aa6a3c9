//! Lists of instrument symbols.

use vstd::prelude::*;

verus! {

/// The symbols of a list as plain text.
pub open spec fn symbols_of(list: Seq<String>) -> Seq<Seq<char>> {
    Seq::new(list.len(), |i: int| list[i]@)
}

/// A copy of `list`.
pub fn clone_symbols(list: &Vec<String>) -> (copy: Vec<String>)
    ensures
        copy@ == list@,
{
    let mut copy: Vec<String> = Vec::new();
    let mut i: usize = 0;
    while i < list.len()
        invariant
            i <= list.len(),
            copy@ == list@.subrange(0, i as int),
        decreases list.len() - i,
    {
        copy.push(list[i].clone());
        i += 1;
        assert(copy@ =~= list@.subrange(0, i as int));
    }
    assert(copy@ =~= list@);
    copy
}

} // verus!
