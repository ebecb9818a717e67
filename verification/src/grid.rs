//! Rows of the game grid and keyboard movement through them. Visible slots are laid out
//! in rows of a fixed number of columns, under a header row per group; a game shown in
//! several groups is one keyboard stop.
use vstd::prelude::*;
use vstd::string::*;

use crate::text::decimal;

verus! {

/// The slots `from..` of `s` in rows of `columns`.
pub open spec fn chunks_from(s: Seq<usize>, columns: nat, from: int) -> Seq<Seq<usize>>
    decreases s.len() - from,
{
    if columns == 0 || from >= s.len() || from < 0 {
        Seq::empty()
    } else {
        let end = if columns < s.len() - from {
            from + columns
        } else {
            s.len() as int
        };
        seq![s.subrange(from, end)] + chunks_from(s, columns, end)
    }
}

/// Rows without a header, one per chunk.
pub open spec fn plain_rows(chunks: Seq<Seq<usize>>) -> Seq<(Option<Seq<char>>, Seq<usize>)> {
    chunks.map_values(|c: Seq<usize>| (None::<Seq<char>>, c))
}

/// The header of a group: its label and how many games it holds.
pub open spec fn group_header(label: Seq<char>, count: nat) -> Seq<char> {
    label + " \u{b7} "@ + decimal(count)
}

/// The rows of groups `0..k`: a header row, then the group's slots in rows.
pub open spec fn group_rows(groups: Seq<(Seq<char>, Seq<usize>)>, columns: nat, k: int) -> Seq<(Option<Seq<char>>, Seq<usize>)>
    decreases k,
{
    if k <= 0 || k > groups.len() {
        Seq::empty()
    } else {
        let g = groups[k - 1];
        group_rows(groups, columns, k - 1) + seq![(Some(group_header(g.0, g.1.len())), Seq::<usize>::empty())]
            + plain_rows(chunks_from(g.1, columns, 0))
    }
}

/// The rows of the grid: the visible slots in rows when nothing is grouped, else each
/// group under its header.
pub open spec fn grid_rows(visible: nat, groups: Seq<(Seq<char>, Seq<usize>)>, columns: nat) -> Seq<(Option<Seq<char>>, Seq<usize>)> {
    if groups.len() == 0 {
        plain_rows(chunks_from(Seq::new(visible, |i: int| i as usize), columns, 0))
    } else {
        group_rows(groups, columns, groups.len() as int)
    }
}

pub open spec fn rows_view(rows: Seq<(Option<String>, Vec<usize>)>) -> Seq<(Option<Seq<char>>, Seq<usize>)> {
    rows.map_values(|r: (Option<String>, Vec<usize>)| (crate::records::opt_str(r.0), r.1@))
}

pub open spec fn groups_text(groups: Seq<(String, Vec<usize>)>) -> Seq<(Seq<char>, Seq<usize>)> {
    groups.map_values(|g: (String, Vec<usize>)| (g.0@, g.1@))
}

proof fn lemma_chunks_step(s: Seq<usize>, columns: nat, from: int)
    requires
        columns > 0,
        0 <= from < s.len(),
    ensures
        chunks_from(s, columns, from) == seq![s.subrange(from, if from + columns < s.len() { from + columns } else { s.len() as int })]
            + chunks_from(s, columns, if from + columns < s.len() { from + columns } else { s.len() as int }),
{
}

/// Appends the slots of `s` in rows of `columns` to `out`.
fn push_chunks(out: &mut Vec<(Option<String>, Vec<usize>)>, s: &Vec<usize>, columns: usize)
    requires
        columns > 0,
    ensures
        rows_view(final(out)@) == rows_view(old(out)@) + plain_rows(chunks_from(s@, columns as nat, 0)),
{
    let ghost start = rows_view(out@);
    let mut from: usize = 0;
    while from < s.len()
        invariant
            columns > 0,
            from <= s.len(),
            start + plain_rows(chunks_from(s@, columns as nat, 0)) == rows_view(out@) + plain_rows(chunks_from(s@, columns as nat, from as int)),
        decreases s.len() - from,
    {
        let end = if columns < s.len() - from {
            from + columns
        } else {
            s.len()
        };
        let mut chunk: Vec<usize> = Vec::new();
        let mut k = from;
        while k < end
            invariant
                from <= k <= end <= s.len(),
                chunk@ == s@.subrange(from as int, k as int),
            decreases end - k,
        {
            chunk.push(s[k]);
            assert(chunk@ =~= s@.subrange(from as int, k + 1));
            k += 1;
        }
        proof {
            lemma_chunks_step(s@, columns as nat, from as int);
            let rest = chunks_from(s@, columns as nat, end as int);
            assert(plain_rows(seq![s@.subrange(from as int, end as int)] + rest) =~= seq![(None::<Seq<char>>, s@.subrange(from as int, end as int))] + plain_rows(rest));
        }
        let ghost before = rows_view(out@);
        out.push((None, chunk));
        assert(rows_view(out@) =~= before.push((None::<Seq<char>>, s@.subrange(from as int, end as int))));
        from = end;
    }
    assert(plain_rows(chunks_from(s@, columns as nat, from as int)) =~= Seq::<(Option<Seq<char>>, Seq<usize>)>::empty());
}

/// The rows of the grid for `visible` shown games in `columns` columns.
pub fn grid_rows_for(visible: usize, groups: &Vec<(String, Vec<usize>)>, columns: usize) -> (r: Vec<(Option<String>, Vec<usize>)>)
    requires
        columns > 0,
    ensures
        rows_view(r@) == grid_rows(visible as nat, groups_text(groups@), columns as nat),
{
    let mut out: Vec<(Option<String>, Vec<usize>)> = Vec::new();
    assert(rows_view(out@) =~= Seq::<(Option<Seq<char>>, Seq<usize>)>::empty());
    if groups.len() == 0 {
        let mut slots: Vec<usize> = Vec::new();
        let mut i: usize = 0;
        while i < visible
            invariant
                i <= visible,
                slots@ == Seq::new(i as nat, |k: int| k as usize),
            decreases visible - i,
        {
            slots.push(i);
            assert(slots@ =~= Seq::new((i + 1) as nat, |k: int| k as usize));
            i += 1;
        }
        push_chunks(&mut out, &slots, columns);
        return out;
    }
    let ghost gs = groups_text(groups@);
    let mut k: usize = 0;
    while k < groups.len()
        invariant
            columns > 0,
            k <= groups.len(),
            gs == groups_text(groups@),
            rows_view(out@) == group_rows(gs, columns as nat, k as int),
        decreases groups.len() - k,
    {
        let (label, slots) = (&groups[k].0, &groups[k].1);
        let mut header = label.clone();
        header.append(" \u{b7} ");
        crate::text::push_decimal(&mut header, slots.len() as u64);
        let ghost before = rows_view(out@);
        out.push((Some(header), Vec::new()));
        assert(rows_view(out@) =~= before.push((Some(group_header(gs[k as int].0, gs[k as int].1.len())), Seq::<usize>::empty())));
        push_chunks(&mut out, slots, columns);
        assert(rows_view(out@) =~= group_rows(gs, columns as nat, k + 1));
        k += 1;
    }
    out
}

/// The first row that holds `slot`, or the first row when none does.
pub open spec fn row_of(rows: Seq<(Option<Seq<char>>, Seq<usize>)>, slot: usize) -> int {
    if exists|i: int| 0 <= i < rows.len() && rows[i].1.contains(slot) && forall|j: int| 0 <= j < i ==> !(#[trigger] rows[j].1.contains(slot)) {
        choose|i: int| 0 <= i < rows.len() && rows[i].1.contains(slot) && forall|j: int| 0 <= j < i ==> !(#[trigger] rows[j].1.contains(slot))
    } else {
        0
    }
}

fn holds_slot(v: &Vec<usize>, slot: usize) -> (r: bool)
    ensures
        r == v@.contains(slot),
{
    let mut i: usize = 0;
    while i < v.len()
        invariant
            i <= v.len(),
            forall|k: int| 0 <= k < i ==> v@[k] != slot,
        decreases v.len() - i,
    {
        if v[i] == slot {
            assert(v@[i as int] == slot);
            return true;
        }
        i += 1;
    }
    false
}

/// The row to scroll to for `slot`.
pub fn row_for_slot(rows: &Vec<(Option<String>, Vec<usize>)>, slot: usize) -> (r: usize)
    ensures
        r as int == row_of(rows_view(rows@), slot),
{
    let ghost rv = rows_view(rows@);
    let mut i: usize = 0;
    while i < rows.len()
        invariant
            i <= rows.len(),
            rv == rows_view(rows@),
            forall|j: int| 0 <= j < i ==> !(#[trigger] rv[j].1.contains(slot)),
        decreases rows.len() - i,
    {
        if holds_slot(&rows[i].1, slot) {
            proof {
                assert(rv[i as int].1.contains(slot));
                let c = choose|c: int| 0 <= c < rv.len() && rv[c].1.contains(slot) && forall|j: int| 0 <= j < c ==> !(#[trigger] rv[j].1.contains(slot));
                if c < i {
                    assert(!rv[c].1.contains(slot));
                } else if c > i {
                    assert(!rv[i as int].1.contains(slot));
                }
            }
            return i;
        }
        i += 1;
    }
    0
}

/// The slots of the rows in order, each once, where it first appears.
pub open spec fn first_occurrences(s: Seq<usize>) -> Seq<usize>
    decreases s.len(),
{
    if s.len() == 0 {
        Seq::empty()
    } else {
        let prev = first_occurrences(s.drop_last());
        if prev.contains(s.last()) {
            prev
        } else {
            prev.push(s.last())
        }
    }
}

pub open spec fn all_slots(rows: Seq<(Option<Seq<char>>, Seq<usize>)>) -> Seq<usize>
    decreases rows.len(),
{
    if rows.len() == 0 {
        Seq::empty()
    } else {
        all_slots(rows.drop_last()) + rows.last().1
    }
}

/// The keyboard order of the grid: its slots, row by row, each once.
pub fn keyboard_order(rows: &Vec<(Option<String>, Vec<usize>)>) -> (r: Vec<usize>)
    ensures
        r@ == first_occurrences(all_slots(rows_view(rows@))),
{
    let ghost rv = rows_view(rows@);
    let mut out: Vec<usize> = Vec::new();
    let ghost mut seen: Seq<usize> = Seq::empty();
    let mut i: usize = 0;
    while i < rows.len()
        invariant
            i <= rows.len(),
            rv == rows_view(rows@),
            seen == all_slots(rv.take(i as int)),
            out@ == first_occurrences(seen),
        decreases rows.len() - i,
    {
        let row = &rows[i].1;
        assert(rv.take(i + 1).drop_last() =~= rv.take(i as int));
        let mut k: usize = 0;
        while k < row.len()
            invariant
                i < rows.len(),
                rv == rows_view(rows@),
                row@ == rv[i as int].1,
                k <= row.len(),
                out@ == first_occurrences(seen + row@.take(k as int)),
            decreases row.len() - k,
        {
            let x = row[k];
            proof {
                let t = seen + row@.take(k + 1);
                assert(t.drop_last() =~= seen + row@.take(k as int));
                assert(t.last() == x);
            }
            if !holds_slot(&out, x) {
                out.push(x);
            }
            k += 1;
        }
        proof {
            assert(row@.take(row.len() as int) =~= row@);
            seen = seen + row@;
            assert(all_slots(rv.take(i + 1)) == all_slots(rv.take(i + 1).drop_last()) + rv.take(i + 1).last().1);
        }
        i += 1;
    }
    assert(rv.take(rows.len() as int) =~= rv);
    out
}

/// Where a move of `delta` stops: from the selected slot's place in the keyboard order,
/// clamped to the first and last stop; from no selection, the first stop.
pub open spec fn move_target(order: Seq<usize>, selected: Option<usize>, delta: int) -> Option<usize> {
    if order.len() == 0 {
        None
    } else {
        let p = match selected {
            Some(s) => if order.contains(s) {
                let q = choose|q: int| 0 <= q < order.len() && order[q] == s && forall|j: int| 0 <= j < q ==> #[trigger] order[j] != s;
                let moved = q + delta;
                if moved < 0 {
                    0
                } else if moved >= order.len() {
                    order.len() - 1
                } else {
                    moved
                }
            } else {
                0
            },
            None => 0,
        };
        Some(order[p])
    }
}

/// The slot a keyboard move of `delta` selects.
pub fn move_selection(order: &Vec<usize>, selected: Option<usize>, delta: isize) -> (r: Option<usize>)
    ensures
        r == move_target(order@, selected, delta as int),
{
    if order.len() == 0 {
        return None;
    }
    let mut position: Option<usize> = None;
    if let Some(s) = selected {
        let mut i: usize = 0;
        while i < order.len() && position.is_none()
            invariant
                i <= order.len(),
                position is None ==> forall|j: int| 0 <= j < i ==> #[trigger] order@[j] != s,
                position matches Some(q) ==> q < order.len() && order@[q as int] == s && forall|j: int| 0 <= j < q ==> #[trigger] order@[j] != s,
            decreases order.len() - i,
        {
            if order[i] == s {
                position = Some(i);
            }
            i += 1;
        }
        proof {
            if let Some(q) = position {
                assert(order@.contains(s));
                let c = choose|c: int| 0 <= c < order@.len() && order@[c] == s && forall|j: int| 0 <= j < c ==> #[trigger] order@[j] != s;
                if c < q {
                    assert(order@[c] != s);
                } else if c > q {
                    assert(order@[q as int] != s);
                }
            } else {
                assert(!order@.contains(s));
            }
        }
    }
    let p = match position {
        Some(q) => {
            let last = order.len() - 1;
            if delta < 0 {
                let back = (0 - (delta as i128)) as u128;
                if back > q as u128 {
                    0
                } else {
                    q - (back as usize)
                }
            } else {
                let ahead = delta as usize;
                if ahead >= last || q >= last - ahead {
                    last
                } else {
                    q + ahead
                }
            }
        },
        None => 0,
    };
    Some(order[p])
}

} // verus!
