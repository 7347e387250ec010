use vstd::prelude::*;

verus! {

/// Where an item stands.
#[allow(non_camel_case_types)]
#[derive(Clone, Copy, Debug, PartialEq, Eq, Structural)]
pub enum ItemStatus {
    DOING,
    DONE,
    EXPIRED,
}

/// The number of a status: 1, 2 and 3, in the order of the variants.
pub open spec fn status_number(s: ItemStatus) -> int {
    match s {
        ItemStatus::DOING => 1,
        ItemStatus::DONE => 2,
        ItemStatus::EXPIRED => 3,
    }
}

/// The status with a given number; any number other than 2 and 3 reads as `DOING`.
pub open spec fn status_of_number(value: int) -> ItemStatus {
    if value == 2 {
        ItemStatus::DONE
    } else if value == 3 {
        ItemStatus::EXPIRED
    } else {
        ItemStatus::DOING
    }
}

impl ItemStatus {
    /// The status whose number is `value`; an unknown number gives `DOING`.
    pub fn to_item_status(value: usize) -> (s: ItemStatus)
        ensures
            s == status_of_number(value as int),
    {
        match value {
            1 => ItemStatus::DOING,
            2 => ItemStatus::DONE,
            3 => ItemStatus::EXPIRED,
            _ => ItemStatus::DOING,
        }
    }

    /// The number of this status.
    pub fn to_usize(&self) -> (n: usize)
        ensures
            n == status_number(*self),
    {
        match self {
            ItemStatus::DOING => 1,
            ItemStatus::DONE => 2,
            ItemStatus::EXPIRED => 3,
        }
    }
}

/// The name of the tab that lists items of a status.
pub open spec fn status_tab_name(status: ItemStatus) -> Seq<char> {
    match status {
        ItemStatus::DOING => "doing"@,
        ItemStatus::DONE => "done"@,
        ItemStatus::EXPIRED => "expired"@,
    }
}

/// The name of the tab that lists items of the given status.
pub fn value_in_status(status: &ItemStatus) -> (name: &'static str)
    ensures
        name@ == status_tab_name(*status),
{
    match status {
        ItemStatus::DOING => "doing",
        ItemStatus::DONE => "done",
        ItemStatus::EXPIRED => "expired",
    }
}

/// Reading back the number of a status gives the status again.
pub proof fn lemma_status_number_round_trip(s: ItemStatus)
    ensures
        status_of_number(status_number(s)) == s,
        1 <= status_number(s) <= 3,
{
}

/// For the numbers 1 to 3, the status read from a number has that number.
pub proof fn lemma_number_status_round_trip(value: int)
    requires
        1 <= value <= 3,
    ensures
        status_number(status_of_number(value)) == value,
{
}

} // verus!
