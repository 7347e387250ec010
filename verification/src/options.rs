use vstd::prelude::*;

use crate::board::Item;
use crate::lexical::{TextOrder, lex_compare, lex_less, lemma_lex_total, lemma_lex_transitive};

verus! {

/// The texts of `names` in strictly increasing `str` order.
pub open spec fn strictly_sorted(names: Seq<String>) -> bool {
    forall|i: int, j: int| 0 <= i < j < names.len() ==> lex_less(#[trigger] names[i]@, #[trigger] names[j]@)
}

/// Some entry of `names` reads `text`.
pub open spec fn lists_text(names: Seq<String>, text: Seq<char>) -> bool {
    exists|k: int| 0 <= k < names.len() && names[k]@ == text
}

/// Some item has the name `text`.
pub open spec fn has_item_named(items: Seq<Item>, text: Seq<char>) -> bool {
    exists|i: int| 0 <= i < items.len() && items[i].name@ == text
}

/// `names` holds exactly the item names, sorted and without repeats.
pub open spec fn sorted_names_of(items: Seq<Item>, names: Seq<String>) -> bool {
    &&& strictly_sorted(names)
    &&& forall|i: int| 0 <= i < items.len() ==> #[trigger] lists_text(names, items[i].name@)
    &&& forall|k: int| 0 <= k < names.len() ==> #[trigger] has_item_named(items, names[k]@)
}

/// Adds `name` to the sorted list `names` where it belongs, unless it is
/// there already.
fn insert_name(names: &mut Vec<String>, name: &String)
    requires
        strictly_sorted(old(names)@),
    ensures
        strictly_sorted(final(names)@),
        lists_text(final(names)@, name@),
        forall|t: Seq<char>| #[trigger] lists_text(final(names)@, t) <==> (lists_text(old(names)@, t) || t == name@),
{
    let n = names.len();
    let mut pos: usize = 0;
    while pos < n && lex_compare(names[pos].as_str(), name.as_str()) == TextOrder::Before
        invariant
            n == names.len(),
            pos <= n,
            forall|p: int| 0 <= p < pos ==> lex_less(#[trigger] names@[p]@, name@),
        decreases n - pos,
    {
        pos = pos + 1;
    }
    if pos < n && lex_compare(names[pos].as_str(), name.as_str()) == TextOrder::Same {
        assert(names@[pos as int]@ == name@);
        assert(lists_text(names@, name@));
        return;
    }
    let ghost before = names@;
    proof {
        if pos < n {
            lemma_lex_total(name@, before[pos as int]@);
        }
    }
    names.insert(pos, name.clone());
    proof {
        assert(names@ =~= before.insert(pos as int, *name));
        assert forall|i: int, j: int| 0 <= i < j < names.len() implies lex_less(
            #[trigger] names@[i]@,
            #[trigger] names@[j]@,
        ) by {
            if j < pos {
                assert(names@[i] == before[i] && names@[j] == before[j]);
            } else if j == pos {
                assert(names@[i] == before[i]);
            } else if i < pos {
                assert(names@[i] == before[i] && names@[j] == before[j - 1]);
                assert(lex_less(before[i]@, before[j - 1]@));
            } else if i == pos {
                assert(names@[j] == before[j - 1]);
                if j - 1 > pos {
                    assert(lex_less(before[pos as int]@, before[j - 1]@));
                    lemma_lex_transitive(name@, before[pos as int]@, before[j - 1]@);
                }
            } else {
                assert(names@[i] == before[i - 1] && names@[j] == before[j - 1]);
            }
        }
        assert(names@[pos as int]@ == name@);
        assert forall|t: Seq<char>| #[trigger] lists_text(names@, t) <==> (lists_text(before, t) || t == name@) by {
            if lists_text(names@, t) {
                let k = choose|k: int| 0 <= k < names@.len() && names@[k]@ == t;
                if k < pos {
                    assert(before[k]@ == t);
                } else if k > pos {
                    assert(before[k - 1]@ == t);
                }
            }
            if lists_text(before, t) {
                let k = choose|k: int| 0 <= k < before.len() && before[k]@ == t;
                if k < pos {
                    assert(names@[k]@ == t);
                } else {
                    assert(names@[k + 1]@ == t);
                }
            }
        }
    }
}

/// The item names, sorted by `str` order and without repeats.
pub fn sorted_unique_names(items: &Vec<Item>) -> (names: Vec<String>)
    ensures
        sorted_names_of(items@, names@),
{
    let mut names: Vec<String> = Vec::new();
    let n = items.len();
    let mut i: usize = 0;
    while i < n
        invariant
            n == items.len(),
            i <= n,
            strictly_sorted(names@),
            forall|j: int| 0 <= j < i ==> #[trigger] lists_text(names@, items@[j].name@),
            forall|k: int| 0 <= k < names.len() ==> #[trigger] has_item_named(items@.take(i as int), names@[k]@),
        decreases n - i,
    {
        let ghost before = names@;
        insert_name(&mut names, &items[i].name);
        proof {
            assert forall|j: int| 0 <= j < i + 1 implies #[trigger] lists_text(names@, items@[j].name@) by {
                if j < i {
                    assert(lists_text(before, items@[j].name@));
                }
            }
            assert forall|k: int| 0 <= k < names.len() implies #[trigger] has_item_named(
                items@.take(i + 1),
                names@[k]@,
            ) by {
                assert(lists_text(names@, names@[k]@));
                if lists_text(before, names@[k]@) {
                    let m = choose|m: int| 0 <= m < before.len() && before[m]@ == names@[k]@;
                    assert(has_item_named(items@.take(i as int), before[m]@));
                    let w = choose|w: int| 0 <= w < i && items@.take(i as int)[w].name@ == before[m]@;
                    assert(items@.take(i + 1)[w] == items@[w]);
                } else {
                    assert(items@.take(i + 1)[i as int] == items@[i as int]);
                }
            }
        }
        i = i + 1;
    }
    proof {
        assert(items@.take(n as int) =~= items@);
    }
    names
}

/// The choices of the name filter: "All", then every item name once, in
/// `str` order.
pub fn filter_options(items: &Vec<Item>) -> (options: Vec<String>)
    ensures
        options.len() >= 1,
        options@[0]@ == "All"@,
        sorted_names_of(items@, options@.skip(1)),
{
    let mut names = sorted_unique_names(items);
    let mut options: Vec<String> = Vec::new();
    options.push(String::from_str("All"));
    let ghost sorted = names@;
    options.append(&mut names);
    proof {
        assert(options@.skip(1) =~= sorted);
    }
    options
}

} // verus!
