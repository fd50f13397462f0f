//! The "Open with" dialog: every program that opens a file, the default one first, and the
//! terminal editor last.

use vstd::prelude::*;

verus! {

/// The places of the programs in the order the dialog lists them: the default first, then the
/// others in the order the desktop gives them. A default that is not among the programs is left
/// out.
pub open spec fn listed_order(default: Option<usize>, count: nat) -> Seq<usize> {
    let others = Seq::new(count, |i: int| i as usize).filter(|i: usize| Some(i) != default);
    match default {
        Some(d) if d < count => seq![d] + others,
        _ => others,
    }
}

/// The places of the programs in the order the dialog lists them.
pub fn row_order(default: Option<usize>, count: usize) -> (r: Vec<usize>)
    ensures
        r@ == listed_order(default, count as nat),
{
    let ghost all = Seq::new(count as nat, |i: int| i as usize);
    let ghost keep = |i: usize| Some(i) != default;
    let mut others: Vec<usize> = Vec::new();
    let mut i: usize = 0;
    assert(all.take(0).filter(keep) =~= Seq::<usize>::empty()) by {
        reveal_with_fuel(Seq::<_>::filter, 1);
    }
    while i < count
        invariant
            i <= count,
            all == Seq::new(count as nat, |j: int| j as usize),
            keep == (|j: usize| Some(j) != default),
            others@ == all.take(i as int).filter(keep),
        decreases count - i,
    {
        proof {
            assert(all.take(i + 1).drop_last() =~= all.take(i as int));
            assert(all.take(i + 1).last() == i);
            reveal_with_fuel(Seq::<_>::filter, 1);
        }
        let is_default = match default {
            Some(d) => d == i,
            None => false,
        };
        if !is_default {
            others.push(i);
        }
        i += 1;
    }
    assert(all.take(i as int) =~= all);
    match default {
        Some(d) if d < count => {
            let mut r: Vec<usize> = vec![d];
            let mut k: usize = 0;
            while k < others.len()
                invariant
                    k <= others@.len(),
                    r@ == seq![d] + others@.take(k as int),
                decreases others@.len() - k,
            {
                r.push(others[k]);
                assert(others@.take(k + 1) =~= others@.take(k as int).push(others@[k as int]));
                k += 1;
            }
            assert(others@.take(k as int) =~= others@);
            r
        },
        _ => others,
    }
}

/// The programs the dialog lists, by their places, in its order: those whose command line gives
/// something for the file (`has_command`), the default first, then the others in the order the
/// desktop gives them. A program that could never be started is left out.
pub fn dialog_rows(default: Option<usize>, has_command: &[bool]) -> (r: Vec<usize>)
    ensures
        r@ == listed_order(default, has_command@.len()).filter(|i: usize| i < has_command@.len() && has_command@[i as int]),
{
    let order = row_order(default, has_command.len());
    let ghost keep = |i: usize| i < has_command@.len() && has_command@[i as int];
    let mut rows: Vec<usize> = Vec::new();
    let mut k: usize = 0;
    assert(order@.take(0).filter(keep) =~= Seq::<usize>::empty()) by {
        reveal_with_fuel(Seq::<_>::filter, 1);
    }
    while k < order.len()
        invariant
            k <= order@.len(),
            keep == (|i: usize| i < has_command@.len() && has_command@[i as int]),
            rows@ == order@.take(k as int).filter(keep),
        decreases order@.len() - k,
    {
        proof {
            assert(order@.take(k + 1).drop_last() =~= order@.take(k as int));
            assert(order@.take(k + 1).last() == order@[k as int]);
            reveal_with_fuel(Seq::<_>::filter, 1);
        }
        let at = order[k];
        if at < has_command.len() && has_command[at] {
            rows.push(at);
        }
        k += 1;
    }
    assert(order@.take(k as int) =~= order@);
    rows
}

/// The row the dialog's cursor starts on: the first that can be chosen, or the first row.
pub open spec fn first_usable_row(usable: Seq<bool>) -> int {
    if exists|i: int| 0 <= i < usable.len() && usable[i] && forall|j: int| 0 <= j < i ==> !usable[j] {
        choose|i: int| 0 <= i < usable.len() && usable[i] && forall|j: int| 0 <= j < i ==> !usable[j]
    } else {
        0
    }
}

/// The row the dialog's cursor starts on: the first that can be chosen, or the first row.
pub fn first_usable(usable: &[bool]) -> (r: usize)
    ensures
        r == first_usable_row(usable@),
{
    let mut i: usize = 0;
    while i < usable.len() && !usable[i]
        invariant
            i <= usable@.len(),
            forall|j: int| 0 <= j < i ==> !usable@[j],
        decreases usable@.len() - i,
    {
        i += 1;
    }
    if i < usable.len() {
        assert((choose|k: int| 0 <= k < usable@.len() && usable@[k] && forall|j: int| 0 <= j < k ==> !usable@[j])
            == i as int) by {
            let k = choose|k: int| 0 <= k < usable@.len() && usable@[k] && forall|j: int| 0 <= j < k ==> !usable@[j];
            if k < i {
            } else if k > i {
                assert(usable@[i as int]);
            }
        }
        i
    } else {
        0
    }
}

/// The row the cursor lands on when asked for row `index` of `rows`: that row, or the last one.
pub fn clamped(index: usize, rows: usize) -> (r: usize)
    ensures
        r == if rows == 0 {
            0
        } else if index < rows {
            index as int
        } else {
            rows - 1
        },
{
    let last = if rows > 0 {
        rows - 1
    } else {
        0
    };
    if index < last {
        index
    } else {
        last
    }
}

/// Whether row `index` of rows whose usability is `usable` can be chosen: it is there and can be
/// started. A row that cannot keeps the dialog open.
pub fn choosable(usable: &[bool], index: usize) -> (r: bool)
    ensures
        r == (index < usable@.len() && usable@[index as int]),
{
    index < usable.len() && usable[index]
}

} // verus!
