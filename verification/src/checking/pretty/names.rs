//! Names that are not in use.

use crate::collections::NameSet;
use crate::text::{decimal, digit, push_decimal};
use vstd::prelude::*;
use vstd::set_lib::{lemma_int_range, lemma_len_subset, lemma_map_size, set_int_range};

verus! {

/// Hands out names that are not in use: a name as it is, or with the smallest number
/// behind it that makes it one that is not in use.
pub struct PrettyNames {
    used: NameSet,
}

impl View for PrettyNames {
    type V = Set<Seq<char>>;

    closed spec fn view(&self) -> Set<Seq<char>> {
        self.used@
    }
}

/// The name with a number behind it.
pub open spec fn suffixed(base: Seq<char>, number: nat) -> Seq<char> {
    base + decimal(number)
}

/// The number is the smallest one that makes a name which is not in use.
pub open spec fn is_first_free(used: Set<Seq<char>>, base: Seq<char>, number: nat) -> bool {
    &&& number >= 1
    &&& !used.contains(suffixed(base, number))
    &&& forall|other: nat| 1 <= other < number ==> used.contains(#[trigger] suffixed(base, other))
}

/// The name that is handed out for another one.
pub open spec fn display_name(used: Set<Seq<char>>, base: Seq<char>) -> Seq<char> {
    if used.contains(base) {
        suffixed(base, choose|number: nat| #[trigger] is_first_free(used, base, number))
    } else {
        base
    }
}

proof fn lemma_decimal_len(number: nat)
    ensures
        decimal(number).len() >= 1,
        number < 10 <==> decimal(number).len() == 1,
    decreases number,
{
    if number >= 10 {
        lemma_decimal_len(number / 10);
    }
}

/// Different numbers are written differently.
pub proof fn lemma_decimal_injective(left: nat, right: nat)
    requires
        decimal(left) == decimal(right),
    ensures
        left == right,
    decreases left,
{
    lemma_decimal_len(left);
    lemma_decimal_len(right);
    if left < 10 {
        assert(decimal(left)[0] == digit(left));
        assert(decimal(right)[0] == digit(right));
        lemma_digit_injective(left, right);
    } else {
        let first = decimal(left / 10).push(digit(left % 10));
        let second = decimal(right / 10).push(digit(right % 10));
        assert(first.last() == second.last());
        assert(first.drop_last() =~= decimal(left / 10));
        assert(second.drop_last() =~= decimal(right / 10));
        lemma_digit_injective(left % 10, right % 10);
        lemma_decimal_injective(left / 10, right / 10);
    }
}

proof fn lemma_digit_injective(left: nat, right: nat)
    requires
        left < 10,
        right < 10,
        digit(left) == digit(right),
    ensures
        left == right,
{
}

proof fn lemma_suffixed_injective(base: Seq<char>, left: nat, right: nat)
    requires
        suffixed(base, left) == suffixed(base, right),
    ensures
        left == right,
{
    let count = base.len() as int;
    assert(suffixed(base, left).skip(count) =~= decimal(left));
    assert(suffixed(base, right).skip(count) =~= decimal(right));
    lemma_decimal_injective(left, right);
}

/// Where a name is in use, not all of the first ones with a number behind it can be.
proof fn lemma_some_free(used: Set<Seq<char>>, base: Seq<char>)
    requires
        used.finite(),
        used.contains(base),
    ensures
        exists|number: nat|
            1 <= number <= used.len() && !used.contains(#[trigger] suffixed(base, number)),
{
    let count = used.len() as int;
    let numbers = set_int_range(1, count + 1);
    let name = |number: int| suffixed(base, number as nat);
    let names = numbers.map(name);
    lemma_int_range(1, count + 1);
    assert(vstd::relations::injective_on(name, numbers)) by {
        assert forall|left: int, right: int|
            numbers.contains(left) && numbers.contains(right) && #[trigger] name(left)
                == #[trigger] name(right) implies left == right by {
            lemma_suffixed_injective(base, left as nat, right as nat);
        }
    }
    lemma_map_size(numbers, names, name);
    assert(!names.contains(base)) by {
        if names.contains(base) {
            let number = choose|number: int| numbers.contains(number) && base == name(number);
            lemma_decimal_len(number as nat);
            assert(suffixed(base, number as nat).len() > base.len());
        }
    }
    if names.insert(base).subset_of(used) {
        lemma_len_subset(names.insert(base), used);
    } else {
        let text = choose|text: Seq<char>|
            names.insert(base).contains(text) && !used.contains(text);
        let number = choose|number: int| numbers.contains(number) && text == name(number);
        assert(!used.contains(suffixed(base, number as nat)));
    }
}

proof fn lemma_first_free_unique(used: Set<Seq<char>>, base: Seq<char>, left: nat, right: nat)
    requires
        is_first_free(used, base, left),
        is_first_free(used, base, right),
    ensures
        left == right,
{
    if left < right {
        assert(used.contains(suffixed(base, left)));
    } else if right < left {
        assert(used.contains(suffixed(base, right)));
    }
}

impl PrettyNames {
    pub fn new() -> (names: PrettyNames)
        ensures
            names@ == Set::<Seq<char>>::empty(),
    {
        PrettyNames { used: NameSet::new() }
    }

    /// A name that no earlier call has returned.
    pub fn allocate_display_name(&mut self, base: String) -> (name: String)
        ensures
            name@ == display_name(old(self)@, base@),
            final(self)@ == old(self)@.insert(name@),
    {
        let ghost used = self@;
        if !self.used.contains(base.as_str()) {
            self.used.insert(base.clone());
            return base;
        }
        let count: usize = self.used.len();
        let mut number: u64 = 1;
        let mut name = base.clone();
        push_decimal(&mut name, number);
        while self.used.contains(name.as_str())
            invariant
                *self == *old(self),
                used == self@,
                used == self.used@,
                used.finite(),
                used.len() == count,
                used.contains(base@),
                1 <= number,
                number <= count || number == 1,
                name@ == suffixed(base@, number as nat),
                forall|other: nat|
                    1 <= other < number ==> used.contains(#[trigger] suffixed(base@, other)),
            decreases count + 1 - number,
        {
            proof {
                lemma_some_free(used, base@);
                let free = choose|free: nat|
                    1 <= free <= used.len() && !used.contains(#[trigger] suffixed(base@, free));
                assert(number < free);
            }
            number = number + 1;
            name = base.clone();
            push_decimal(&mut name, number);
        }
        proof {
            assert(is_first_free(used, base@, number as nat));
            let chosen = choose|other: nat| #[trigger] is_first_free(used, base@, other);
            lemma_first_free_unique(used, base@, number as nat, chosen);
        }
        self.used.insert(name.clone());
        name
    }
}

/// A name that is handed out is not in use.
pub proof fn lemma_display_name_free(used: Set<Seq<char>>, base: Seq<char>)
    requires
        used.finite(),
    ensures
        !used.contains(display_name(used, base)),
{
    if used.contains(base) {
        lemma_first_free_exists(used, base, 1);
        let number = choose|number: nat| #[trigger] is_first_free(used, base, number);
        assert(is_first_free(used, base, number));
    }
}

proof fn lemma_first_free_exists(used: Set<Seq<char>>, base: Seq<char>, number: nat)
    requires
        used.finite(),
        used.contains(base),
        1 <= number <= used.len() + 1,
        forall|other: nat| 1 <= other < number ==> used.contains(#[trigger] suffixed(base, other)),
    ensures
        exists|free: nat| #[trigger] is_first_free(used, base, free),
    decreases used.len() + 1 - number,
{
    if number == used.len() + 1 {
        lemma_some_free(used, base);
    } else if used.contains(suffixed(base, number)) {
        lemma_first_free_exists(used, base, number + 1);
    } else {
        assert(is_first_free(used, base, number));
    }
}

} // verus!
