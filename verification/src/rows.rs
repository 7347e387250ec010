use vstd::prelude::*;

use crate::board::{AppState, Item};
use crate::lexical::{TextOrder, lex_compare};
use crate::order::{is_stable_order, lemma_stable_order_unique, occurs_in, stable_order};
use crate::span::Span;
use crate::status::{ItemStatus, status_number};
use crate::text::{duration_text, expired_text, format_duration, lemma_expired_text_iff_run_out};

verus! {

/// Whether two texts are equal.
pub fn same_text(a: &str, b: &str) -> (same: bool)
    ensures
        same <==> a@ == b@,
{
    lex_compare(a, b) == TextOrder::Same
}

/// The status an item is shown with: one still being done with no whole
/// second left shows as expired.
pub open spec fn shown_status(status: ItemStatus, duration: Span) -> ItemStatus {
    if status == ItemStatus::DOING && duration.seconds <= 0 {
        ItemStatus::EXPIRED
    } else {
        status
    }
}

/// The status that the item is shown with.
pub fn effective_status(status: ItemStatus, duration: Span) -> (s: ItemStatus)
    ensures
        s == shown_status(status, duration),
{
    let dur = format_duration(duration);
    proof {
        reveal_strlit("expired");
        assert("expired"@ =~= expired_text());
        lemma_expired_text_iff_run_out(duration.seconds as int);
    }
    if same_text(dur.as_str(), "expired") && status == ItemStatus::DOING {
        ItemStatus::EXPIRED
    } else {
        status
    }
}

/// The name filter lets the item through: "All" or the item's own name.
pub open spec fn passes_filter(item: Item, selected: Seq<char>) -> bool {
    selected == "All"@ || item.name@ == selected
}

/// The item is listed in tab `tab` (0 doing, 1 done, 2 expired) under the
/// name filter `selected`.
pub open spec fn shown_in_tab(item: Item, selected: Seq<char>, tab: int) -> bool {
    passes_filter(item, selected) && status_number(shown_status(item.status, item.duration)) == tab
        + 1
}

/// Of the positions in `order`, those whose items are listed, in order.
pub open spec fn shown_positions(items: Seq<Item>, order: Seq<usize>, selected: Seq<char>, tab: int) -> Seq<
    usize,
>
    decreases order.len(),
{
    if order.len() == 0 {
        Seq::empty()
    } else {
        let rest = shown_positions(items, order.drop_last(), selected, tab);
        if shown_in_tab(items[order.last() as int], selected, tab) {
            rest.push(order.last())
        } else {
            rest
        }
    }
}

/// The key by which items are sorted: their remaining time in nanoseconds.
pub open spec fn duration_keys(items: Seq<Item>) -> Seq<i128> {
    items.map_values(|item: Item| item.duration@ as i128)
}

/// One row of the table.
#[derive(Debug)]
pub struct BoardRow {
    /// Position of the item in the board's items.
    pub index: usize,
    pub id: u32,
    pub name: String,
    pub title: String,
    /// The third cell: the remaining time while the item is being done,
    /// else the deadline as written.
    pub detail: String,
    /// The status the item is shown with.
    pub status: ItemStatus,
    /// Whether the row offers to mark the item done.
    pub can_complete: bool,
}

/// `row` shows the item at `index`.
pub open spec fn describes(row: BoardRow, items: Seq<Item>, index: int) -> bool {
    let item = items[index];
    let status = shown_status(item.status, item.duration);
    &&& row.index == index
    &&& row.id == item.id
    &&& row.name@ == item.name@
    &&& row.title@ == item.title@
    &&& row.status == status
    &&& row.detail@ == (if status == ItemStatus::DOING {
        duration_text(item.duration.seconds as int)
    } else {
        item.dead_time@
    })
    &&& row.can_complete == (status != ItemStatus::DONE)
}

/// `rows` show, one each, the items at `positions`.
pub open spec fn rows_show(rows: Seq<BoardRow>, items: Seq<Item>, positions: Seq<usize>) -> bool {
    &&& rows.len() == positions.len()
    &&& forall|k: int| 0 <= k < rows.len() ==> describes(#[trigger] rows[k], items, positions[k] as int)
}

fn row_for(items: &Vec<Item>, index: usize, status: ItemStatus) -> (row: BoardRow)
    requires
        index < items.len(),
        status == shown_status(items@[index as int].status, items@[index as int].duration),
    ensures
        describes(row, items@, index as int),
{
    let item = &items[index];
    let detail = if status == ItemStatus::DOING {
        format_duration(item.duration)
    } else {
        item.dead_time.clone()
    };
    BoardRow {
        index,
        id: item.id,
        name: item.name.clone(),
        title: item.title.clone(),
        detail,
        status,
        can_complete: status != ItemStatus::DONE,
    }
}

/// The rows of tab `current_tab` (0 doing, 1 done, 2 expired) under the
/// name filter `selected`: the items sorted by remaining time, shortest
/// first and ties in their stored order, that the filter lets through and
/// whose shown status belongs to the tab.
#[verifier::rlimit(40)]
pub fn board_rows(state: &AppState, selected: &str, current_tab: usize) -> (rows: Vec<BoardRow>)
    ensures
        exists|order: Seq<usize>|
            is_stable_order(duration_keys(state.items@), order) && rows_show(
                rows@,
                state.items@,
                shown_positions(state.items@, order, selected@, current_tab as int),
            ),
        forall|order: Seq<usize>|
            is_stable_order(duration_keys(state.items@), order) ==> rows_show(
                rows@,
                state.items@,
                #[trigger] shown_positions(state.items@, order, selected@, current_tab as int),
            ),
        forall|k: int|
            0 <= k < rows.len() ==> {
                let item = state.items@[rows[k].index as int];
                &&& (#[trigger] rows[k]).index < state.items@.len()
                &&& rows[k].id == item.id
                &&& rows[k].name@ == item.name@
                &&& rows[k].title@ == item.title@
                &&& rows[k].status == (if item.status == ItemStatus::DOING && item.duration.seconds <= 0 {
                    ItemStatus::EXPIRED
                } else {
                    item.status
                })
                &&& rows[k].detail@ == (if rows[k].status == ItemStatus::DOING {
                    duration_text(item.duration.seconds as int)
                } else {
                    item.dead_time@
                })
                &&& rows[k].can_complete == (rows[k].status != ItemStatus::DONE)
                &&& selected@ == "All"@ || item.name@ == selected@
                &&& status_number(rows[k].status) == current_tab + 1
            },
{
    let items = &state.items;
    let n = items.len();
    let mut keys: Vec<i128> = Vec::new();
    let mut i: usize = 0;
    while i < n
        invariant
            n == items.len(),
            i <= n,
            keys.len() == i,
            forall|j: int| 0 <= j < i ==> keys@[j] == #[trigger] items@[j].duration@,
        decreases n - i,
    {
        keys.push(items[i].duration.total_nanos());
        i = i + 1;
    }
    assert(keys@ =~= duration_keys(items@));
    let order = stable_order(&keys);
    let all = same_text(selected, "All");
    let mut rows: Vec<BoardRow> = Vec::new();
    let mut p: usize = 0;
    while p < n
        invariant
            n == items.len(),
            order.len() == n,
            is_stable_order(duration_keys(items@), order@),
            all <==> selected@ == "All"@,
            p <= n,
            rows_show(rows@, items@, shown_positions(items@, order@.take(p as int), selected@, current_tab as int)),
        decreases n - p,
    {
        let index = order[p];
        let item = &items[index];
        let status = effective_status(item.status, item.duration);
        let passes = all || same_text(item.name.as_str(), selected);
        let in_tab = status.to_usize() - 1 == current_tab;
        proof {
            assert(order@.take(p + 1).drop_last() =~= order@.take(p as int));
            assert(order@.take(p + 1).last() == index);
        }
        if passes && in_tab {
            let row = row_for(items, index, status);
            rows.push(row);
        }
        p = p + 1;
    }
    assert(order@.take(n as int) =~= order@);
    assert forall|other: Seq<usize>| is_stable_order(duration_keys(items@), other) implies rows_show(
        rows@,
        items@,
        #[trigger] shown_positions(items@, other, selected@, current_tab as int),
    ) by {
        lemma_stable_order_unique(duration_keys(items@), other, order@);
    }
    proof {
        lemma_board_row_cells(rows@, items@, order@, selected@, current_tab as int);
    }
    rows
}


/// The shown status is the one the remaining-time text gives: an item
/// being done whose time reads "expired" shows as expired.
pub proof fn lemma_shown_status_by_text(status: ItemStatus, duration: Span)
    ensures
        shown_status(status, duration) == (if duration_text(duration.seconds as int)
            == expired_text() && status == ItemStatus::DOING {
            ItemStatus::EXPIRED
        } else {
            status
        }),
{
    lemma_expired_text_iff_run_out(duration.seconds as int);
}

/// Item `a` comes before item `b` by remaining time, ties by position.
pub open spec fn ahead_of(items: Seq<Item>, a: int, b: int) -> bool {
    items[a].duration@ < items[b].duration@ || (items[a].duration@ == items[b].duration@ && a < b)
}

proof fn lemma_shown_positions_facts(
    items: Seq<Item>,
    order: Seq<usize>,
    selected: Seq<char>,
    tab: int,
)
    requires
        forall|p: int| 0 <= p < order.len() ==> #[trigger] order[p] < items.len(),
    ensures
        ({
            let shown = shown_positions(items, order, selected, tab);
            &&& forall|k: int|
                0 <= k < shown.len() ==> #[trigger] occurs_in(order, shown[k] as int)
                    && shown_in_tab(items[shown[k] as int], selected, tab)
            &&& forall|p: int|
                0 <= p < order.len() && shown_in_tab(items[#[trigger] order[p] as int], selected, tab)
                    ==> occurs_in(shown, order[p] as int)
            &&& (forall|p: int, q: int| 0 <= p < q < order.len() ==> #[trigger] order[p] != #[trigger] order[q])
                ==> forall|k: int, l: int| 0 <= k < l < shown.len() ==> #[trigger] shown[k] != #[trigger] shown[l]
            &&& (forall|p: int, q: int|
                0 <= p < q < order.len() ==> items[#[trigger] order[p] as int].duration@ <= items[#[trigger] order[q] as int].duration@)
                ==> forall|k: int, l: int|
                0 <= k < l < shown.len() ==> items[#[trigger] shown[k] as int].duration@ <= items[#[trigger] shown[l] as int].duration@
            &&& (forall|p: int, q: int|
                0 <= p < q < order.len() ==> ahead_of(items, #[trigger] order[p] as int, #[trigger] order[q] as int))
                ==> forall|k: int, l: int|
                0 <= k < l < shown.len() ==> ahead_of(items, #[trigger] shown[k] as int, #[trigger] shown[l] as int)
        }),
    decreases order.len(),
{
    let shown = shown_positions(items, order, selected, tab);
    if order.len() > 0 {
        let prefix = order.drop_last();
        let last = order.last();
        lemma_shown_positions_facts(items, prefix, selected, tab);
        let rest = shown_positions(items, prefix, selected, tab);
        assert forall|k: int| 0 <= k < shown.len() implies #[trigger] occurs_in(order, shown[k] as int)
            && shown_in_tab(items[shown[k] as int], selected, tab) by {
            if k < rest.len() {
                assert(shown[k] == rest[k]);
                assert(occurs_in(prefix, rest[k] as int));
                let p = choose|p: int| 0 <= p < prefix.len() && prefix[p] == rest[k] as int;
                assert(order[p] == shown[k]);
            } else {
                assert(order[order.len() - 1] == shown[k]);
            }
        }
        assert forall|p: int|
            0 <= p < order.len() && shown_in_tab(items[#[trigger] order[p] as int], selected, tab)
                implies occurs_in(shown, order[p] as int) by {
            if p < prefix.len() {
                assert(prefix[p] == order[p]);
                assert(occurs_in(rest, prefix[p] as int));
                let k = choose|k: int| 0 <= k < rest.len() && rest[k] == prefix[p] as int;
                assert(shown[k] == rest[k]);
            } else {
                assert(shown[rest.len() as int] == last);
            }
        }
        if forall|p: int, q: int| 0 <= p < q < order.len() ==> #[trigger] order[p] != #[trigger] order[q] {
            assert forall|p: int, q: int| 0 <= p < q < prefix.len() implies #[trigger] prefix[p]
                != #[trigger] prefix[q] by {
                assert(prefix[p] == order[p] && prefix[q] == order[q]);
            }
            assert forall|k: int, l: int| 0 <= k < l < shown.len() implies #[trigger] shown[k]
                != #[trigger] shown[l] by {
                if l < rest.len() {
                    assert(shown[k] == rest[k] && shown[l] == rest[l]);
                } else {
                    assert(shown[k] == rest[k]);
                    assert(occurs_in(prefix, rest[k] as int));
                    let p = choose|p: int| 0 <= p < prefix.len() && prefix[p] == rest[k] as int;
                    assert(order[p] == prefix[p]);
                    assert(order[p] != order[order.len() - 1]);
                }
            }
        }
        if forall|p: int, q: int|
            0 <= p < q < order.len() ==> items[#[trigger] order[p] as int].duration@ <= items[#[trigger] order[q] as int].duration@ {
            assert forall|p: int, q: int| 0 <= p < q < prefix.len() implies items[#[trigger] prefix[p] as int].duration@
                <= items[#[trigger] prefix[q] as int].duration@ by {
                assert(prefix[p] == order[p] && prefix[q] == order[q]);
            }
            assert forall|k: int, l: int| 0 <= k < l < shown.len() implies items[#[trigger] shown[k] as int].duration@
                <= items[#[trigger] shown[l] as int].duration@ by {
                if l < rest.len() {
                    assert(shown[k] == rest[k] && shown[l] == rest[l]);
                } else {
                    assert(shown[k] == rest[k]);
                    assert(occurs_in(prefix, rest[k] as int));
                    let p = choose|p: int| 0 <= p < prefix.len() && prefix[p] == rest[k] as int;
                    assert(order[p] == prefix[p]);
                    assert(items[order[p] as int].duration@ <= items[order[order.len() - 1] as int].duration@);
                }
            }
        }
        if forall|p: int, q: int|
            0 <= p < q < order.len() ==> ahead_of(items, #[trigger] order[p] as int, #[trigger] order[q] as int) {
            assert forall|p: int, q: int| 0 <= p < q < prefix.len() implies ahead_of(
                items,
                #[trigger] prefix[p] as int,
                #[trigger] prefix[q] as int,
            ) by {
                assert(prefix[p] == order[p] && prefix[q] == order[q]);
            }
            assert forall|k: int, l: int| 0 <= k < l < shown.len() implies ahead_of(
                items,
                #[trigger] shown[k] as int,
                #[trigger] shown[l] as int,
            ) by {
                if l < rest.len() {
                    assert(shown[k] == rest[k] && shown[l] == rest[l]);
                } else {
                    assert(shown[k] == rest[k]);
                    assert(occurs_in(prefix, rest[k] as int));
                    let p = choose|p: int| 0 <= p < prefix.len() && prefix[p] == rest[k] as int;
                    assert(order[p] == prefix[p]);
                    assert(ahead_of(items, order[p] as int, order[order.len() - 1] as int));
                }
            }
        }
    }
}

/// Each row shows its own item: its id, name and title, the shown status,
/// the remaining time or deadline, and a done button unless done; and the
/// item passes the name filter and belongs to the open tab.
pub proof fn lemma_board_row_cells(
    rows: Seq<BoardRow>,
    items: Seq<Item>,
    order: Seq<usize>,
    selected: Seq<char>,
    tab: int,
)
    requires
        is_stable_order(duration_keys(items), order),
        rows_show(rows, items, shown_positions(items, order, selected, tab)),
    ensures
        forall|k: int|
            0 <= k < rows.len() ==> {
                let item = items[rows[k].index as int];
                &&& (#[trigger] rows[k]).index < items.len()
                &&& rows[k].id == item.id
                &&& rows[k].name@ == item.name@
                &&& rows[k].title@ == item.title@
                &&& rows[k].status == (if item.status == ItemStatus::DOING && item.duration.seconds <= 0 {
                    ItemStatus::EXPIRED
                } else {
                    item.status
                })
                &&& rows[k].detail@ == (if rows[k].status == ItemStatus::DOING {
                    duration_text(item.duration.seconds as int)
                } else {
                    item.dead_time@
                })
                &&& rows[k].can_complete == (rows[k].status != ItemStatus::DONE)
                &&& selected == "All"@ || item.name@ == selected
                &&& status_number(rows[k].status) == tab + 1
            },
{
    let shown = shown_positions(items, order, selected, tab);
    lemma_shown_positions_facts(items, order, selected, tab);
    assert forall|k: int| 0 <= k < rows.len() implies describes(#[trigger] rows[k], items, shown[k] as int)
        && shown[k] < items.len() && shown_in_tab(items[shown[k] as int], selected, tab) by {
        assert(occurs_in(order, shown[k] as int));
    }
}

/// The rows come by remaining time, shortest first, ties in the order the
/// items are stored, and no item is listed twice.
pub proof fn lemma_board_rows_order(
    rows: Seq<BoardRow>,
    items: Seq<Item>,
    order: Seq<usize>,
    selected: Seq<char>,
    tab: int,
)
    requires
        is_stable_order(duration_keys(items), order),
        rows_show(rows, items, shown_positions(items, order, selected, tab)),
    ensures
        forall|k: int, l: int|
            0 <= k < l < rows.len() ==> items[#[trigger] rows[k].index as int].duration@
                <= items[#[trigger] rows[l].index as int].duration@,
        forall|k: int, l: int| 0 <= k < l < rows.len() ==> #[trigger] rows[k].index != #[trigger] rows[l].index,
        forall|k: int, l: int|
            0 <= k < l < rows.len() ==> ahead_of(items, #[trigger] rows[k].index as int, #[trigger] rows[l].index as int),
{
    let shown = shown_positions(items, order, selected, tab);
    let keys = duration_keys(items);
    lemma_shown_positions_facts(items, order, selected, tab);
    assert forall|p: int, q: int| 0 <= p < q < order.len() implies items[#[trigger] order[p] as int].duration@
        <= items[#[trigger] order[q] as int].duration@ by {
        assert(keys[order[p] as int] <= keys[order[q] as int]);
    }
    assert forall|p: int, q: int| 0 <= p < q < order.len() implies ahead_of(
        items,
        #[trigger] order[p] as int,
        #[trigger] order[q] as int,
    ) by {
        assert(keys[order[p] as int] <= keys[order[q] as int]);
        assert(keys[order[p] as int] == keys[order[q] as int] ==> order[p] < order[q]);
    }
    assert forall|k: int| 0 <= k < rows.len() implies #[trigger] rows[k].index == shown[k] by {
        assert(describes(rows[k], items, shown[k] as int));
    }
}

/// Every item of the open tab that passes the name filter is listed.
pub proof fn lemma_board_rows_complete(
    rows: Seq<BoardRow>,
    items: Seq<Item>,
    order: Seq<usize>,
    selected: Seq<char>,
    tab: int,
)
    requires
        is_stable_order(duration_keys(items), order),
        rows_show(rows, items, shown_positions(items, order, selected, tab)),
    ensures
        forall|v: int|
            0 <= v < items.len() && shown_in_tab(#[trigger] items[v], selected, tab) ==> exists|k: int|
                0 <= k < rows.len() && rows[k].index == v,
        forall|v: int|
            0 <= v < items.len() && (selected == "All"@ || (#[trigger] items[v]).name@ == selected)
                && status_number(
                if items[v].status == ItemStatus::DOING && items[v].duration.seconds <= 0 {
                    ItemStatus::EXPIRED
                } else {
                    items[v].status
                },
            ) == tab + 1 ==> exists|k: int| 0 <= k < rows.len() && rows[k].index == v,
{
    let shown = shown_positions(items, order, selected, tab);
    lemma_shown_positions_facts(items, order, selected, tab);
    assert forall|v: int| 0 <= v < items.len() && shown_in_tab(#[trigger] items[v], selected, tab) implies exists|k: int|
        0 <= k < rows.len() && rows[k].index == v by {
        assert(occurs_in(order, v));
        let p = choose|p: int| 0 <= p < order.len() && order[p] == v;
        assert(occurs_in(shown, order[p] as int));
        let k = choose|k: int| 0 <= k < shown.len() && shown[k] == order[p] as int;
        assert(describes(rows[k], items, shown[k] as int));
    }
}

/// What the rows of a tab are: each belongs to the open tab and passes the
/// name filter; they come by remaining time, shortest first; no item is
/// listed twice; and every item of the tab that passes the filter is listed.
/// (`lemma_board_rows_order`, `lemma_board_rows_complete` and
/// `lemma_board_row_cells` say more.)
pub proof fn lemma_board_rows(
    rows: Seq<BoardRow>,
    items: Seq<Item>,
    order: Seq<usize>,
    selected: Seq<char>,
    tab: int,
)
    requires
        is_stable_order(duration_keys(items), order),
        rows_show(rows, items, shown_positions(items, order, selected, tab)),
    ensures
        forall|k: int|
            0 <= k < rows.len() ==> #[trigger] rows[k].index < items.len() && shown_in_tab(
                items[rows[k].index as int],
                selected,
                tab,
            ) && status_number(rows[k].status) == tab + 1,
        forall|k: int, l: int|
            0 <= k < l < rows.len() ==> items[#[trigger] rows[k].index as int].duration@
                <= items[#[trigger] rows[l].index as int].duration@,
        forall|k: int, l: int| 0 <= k < l < rows.len() ==> #[trigger] rows[k].index != #[trigger] rows[l].index,
        forall|v: int|
            0 <= v < items.len() && shown_in_tab(#[trigger] items[v], selected, tab) ==> exists|k: int|
                0 <= k < rows.len() && rows[k].index == v,
{
    let shown = shown_positions(items, order, selected, tab);
    lemma_board_rows_order(rows, items, order, selected, tab);
    lemma_board_rows_complete(rows, items, order, selected, tab);
    lemma_shown_positions_facts(items, order, selected, tab);
    assert forall|k: int| 0 <= k < rows.len() implies #[trigger] rows[k].index < items.len()
        && shown_in_tab(items[rows[k].index as int], selected, tab) && status_number(rows[k].status)
        == tab + 1 by {
        assert(describes(rows[k], items, shown[k] as int));
        assert(occurs_in(order, shown[k] as int));
    }
}

} // verus!
