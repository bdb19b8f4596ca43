//! Currencies, cash amounts and accounts that hold several currencies.

pub mod converter;

use vstd::prelude::*;
use crate::decimal::Decimal;

verus! {

/// Whether `c` is one of the letters `A` to `Z`.
pub open spec fn is_code_letter(c: char) -> bool {
    'A' <= c <= 'Z'
}

/// Whether `code` is a currency code: three capital letters.
pub open spec fn is_currency_code(code: Seq<char>) -> bool {
    &&& code.len() == 3
    &&& is_code_letter(code[0])
    &&& is_code_letter(code[1])
    &&& is_code_letter(code[2])
}

/// A currency: its three-letter code and the number of decimal places that
/// its amounts are rounded to.
#[derive(Clone, Copy, Debug, PartialEq, Eq, Structural)]
pub struct Currency {
    pub first: char,
    pub second: char,
    pub third: char,
    pub precision: u32,
}

impl Currency {
    /// The code of the currency as a sequence of characters.
    pub open spec fn code(&self) -> Seq<char> {
        seq![self.first, self.second, self.third]
    }

    /// The currency with the given code and precision, or `None` where the
    /// code is not made of three capital letters.
    pub fn new(code: &str, precision: u32) -> (currency: Option<Currency>)
        ensures
            currency == (if is_currency_code(code@) {
                Some(Currency { first: code@[0], second: code@[1], third: code@[2], precision })
            } else {
                None
            }),
    {
        if code.unicode_len() != 3 {
            return None;
        }
        let a = code.get_char(0);
        let b = code.get_char(1);
        let c = code.get_char(2);
        if 'A' <= a && a <= 'Z' && 'A' <= b && b <= 'Z' && 'A' <= c && c <= 'Z' {
            Some(Currency { first: a, second: b, third: c, precision })
        } else {
            None
        }
    }
}

/// An amount of money in whole minor units of its currency: `units` stands
/// for `units / 10^currency.precision`.
#[derive(Clone, Copy, Debug, PartialEq, Eq, Structural)]
pub struct Cash {
    pub currency: Currency,
    pub units: i64,
}

impl Cash {
    /// What `round` returns.
    pub open spec fn rounded(currency: Currency, amount: Decimal) -> Option<Cash> {
        match amount.rounded(currency.precision) {
            Some(units) => Some(Cash { currency, units }),
            None => None,
        }
    }

    /// The amount `units` of `currency`.
    pub fn new(currency: Currency, units: i64) -> (cash: Cash)
        ensures
            cash == (Cash { currency, units }),
    {
        Cash { currency, units }
    }

    /// The exact `amount` rounded to the precision of `currency`, a tie going
    /// away from zero, or `None` where the minor units do not fit.
    pub fn round(currency: Currency, amount: &Decimal) -> (cash: Option<Cash>)
        ensures
            cash == Cash::rounded(currency, *amount),
    {
        match amount.round_to(currency.precision) {
            Some(units) => Some(Cash { currency, units }),
            None => None,
        }
    }

    /// The sum of two amounts of one currency.
    pub fn add(self, other: Cash) -> (sum: Cash)
        requires
            self.currency == other.currency,
            i64::MIN <= self.units + other.units <= i64::MAX,
        ensures
            sum == (Cash { currency: self.currency, units: (self.units + other.units) as i64 }),
    {
        Cash { currency: self.currency, units: self.units + other.units }
    }

    /// The difference of two amounts of one currency.
    pub fn sub(self, other: Cash) -> (difference: Cash)
        requires
            self.currency == other.currency,
            i64::MIN <= self.units - other.units <= i64::MAX,
        ensures
            difference == (Cash {
                currency: self.currency,
                units: (self.units - other.units) as i64,
            }),
    {
        Cash { currency: self.currency, units: self.units - other.units }
    }
}

/// The balance of one currency in an account.
#[derive(Clone, Copy, Debug, PartialEq, Eq, Structural)]
pub struct Balance {
    pub currency: Currency,
    pub units: i128,
}

/// The balances that a sequence of deposits leaves, by currency.
pub open spec fn balances_of(buckets: Seq<Balance>) -> Map<Currency, int>
    decreases buckets.len(),
{
    if buckets.len() == 0 {
        Map::empty()
    } else {
        balances_of(buckets.drop_last()).insert(
            buckets.last().currency,
            buckets.last().units as int,
        )
    }
}

/// Whether no currency has two buckets.
pub open spec fn distinct_currencies(buckets: Seq<Balance>) -> bool {
    forall|i: int, j: int|
        0 <= i < j < buckets.len() ==> buckets[i].currency != buckets[j].currency
}

/// Whether one of the buckets is of `currency`.
pub open spec fn has_bucket(buckets: Seq<Balance>, currency: Currency) -> bool {
    exists|i: int| #![trigger buckets[i]] 0 <= i < buckets.len() && buckets[i].currency == currency
}

/// The domain of `balances_of` is the set of the buckets' currencies, and
/// with distinct currencies each bucket's balance is the one of its currency.
pub proof fn lemma_balances_of(buckets: Seq<Balance>)
    ensures
        forall|c: Currency| #[trigger]
            balances_of(buckets).dom().contains(c) <==> has_bucket(buckets, c),
        distinct_currencies(buckets) ==> forall|i: int|
            #![trigger buckets[i]]
            0 <= i < buckets.len() ==> balances_of(buckets)[buckets[i].currency]
                == buckets[i].units,
    decreases buckets.len(),
{
    if buckets.len() > 0 {
        let front = buckets.drop_last();
        let last = buckets.last();
        lemma_balances_of(front);
        assert forall|c: Currency| #[trigger]
            balances_of(buckets).dom().contains(c) <==> has_bucket(buckets, c) by {
            if balances_of(buckets).dom().contains(c) {
                if c == last.currency {
                    assert(buckets[buckets.len() - 1].currency == c);
                } else {
                    assert(balances_of(front).dom().contains(c));
                    assert(has_bucket(front, c));
                    let i = choose|i: int|
                        #![trigger front[i]]
                        0 <= i < front.len() && front[i].currency == c;
                    assert(buckets[i].currency == c);
                }
            }
            if has_bucket(buckets, c) {
                let i = choose|i: int|
                    #![trigger buckets[i]]
                    0 <= i < buckets.len() && buckets[i].currency == c;
                if i < front.len() {
                    assert(front[i].currency == c);
                    assert(has_bucket(front, c));
                }
            }
        }
        if distinct_currencies(buckets) {
            assert(distinct_currencies(front)) by {
                assert forall|i: int, j: int| 0 <= i < j < front.len() implies front[i].currency
                    != front[j].currency by {
                    assert(buckets[i].currency != buckets[j].currency);
                }
            }
            assert forall|i: int| #![trigger buckets[i]] 0 <= i < buckets.len() implies balances_of(
                buckets,
            )[buckets[i].currency] == buckets[i].units by {
                if i < front.len() {
                    assert(front[i].currency == buckets[i].currency);
                    assert(buckets[i].currency != buckets[buckets.len() - 1].currency);
                }
            }
        }
    }
}

/// Replacing the balance of one bucket keeps the currencies distinct and
/// changes the balance of that bucket's currency alone.
proof fn lemma_replaced_balance(before: Seq<Balance>, i: int, units: i128)
    requires
        distinct_currencies(before),
        0 <= i < before.len(),
    ensures
        distinct_currencies(before.update(i, Balance { currency: before[i].currency, units })),
        balances_of(before.update(i, Balance { currency: before[i].currency, units }))
            == balances_of(before).insert(before[i].currency, units as int),
{
    let currency = before[i].currency;
    let after = before.update(i, Balance { currency, units });
    assert(distinct_currencies(after)) by {
        assert forall|a: int, b: int| 0 <= a < b < after.len() implies after[a].currency
            != after[b].currency by {
            assert(before[a].currency != before[b].currency);
        }
    }
    lemma_balances_of(before);
    lemma_balances_of(after);
    let expected = balances_of(before).insert(currency, units as int);
    assert forall|c: Currency|
        balances_of(after).dom().contains(c) <==> expected.dom().contains(c) by {
        if balances_of(after).dom().contains(c) {
            assert(has_bucket(after, c));
            let k = choose|k: int|
                #![trigger after[k]]
                0 <= k < after.len() && after[k].currency == c;
            assert(before[k].currency == c);
            assert(has_bucket(before, c));
        }
        if expected.dom().contains(c) {
            if c == currency {
                assert(after[i].currency == c);
            } else {
                assert(has_bucket(before, c));
                let k = choose|k: int|
                    #![trigger before[k]]
                    0 <= k < before.len() && before[k].currency == c;
                assert(after[k].currency == c);
            }
            assert(has_bucket(after, c));
        }
    }
    assert forall|c: Currency| balances_of(after).dom().contains(c) implies balances_of(after)[c]
        == expected[c] by {
        assert(has_bucket(after, c));
        let k = choose|k: int| #![trigger after[k]] 0 <= k < after.len() && after[k].currency == c;
        assert(balances_of(after)[after[k].currency] == after[k].units);
        if k != i {
            assert(balances_of(before)[before[k].currency] == before[k].units);
        }
    }
    assert(balances_of(after) =~= expected);
}

/// Running totals of cash, one for each currency that was deposited.
pub struct MultiCurrencyCashAccount {
    buckets: Vec<Balance>,
}

impl View for MultiCurrencyCashAccount {
    type V = Map<Currency, int>;

    /// The balance of each currency that the account holds.
    closed spec fn view(&self) -> Map<Currency, int> {
        balances_of(self.buckets@)
    }
}

impl MultiCurrencyCashAccount {
    #[verifier::type_invariant]
    spec fn well_formed(&self) -> bool {
        distinct_currencies(self.buckets@)
    }

    /// The balance of `currency`: zero where nothing of it was deposited.
    pub open spec fn total(&self, currency: Currency) -> int {
        if self@.dom().contains(currency) {
            self@[currency]
        } else {
            0
        }
    }

    /// An account that holds nothing.
    pub fn new() -> (account: MultiCurrencyCashAccount)
        ensures
            account@ == Map::<Currency, int>::empty(),
    {
        MultiCurrencyCashAccount { buckets: Vec::new() }
    }

    /// The balance of `currency`, if the account holds that currency.
    pub fn get(&self, currency: Currency) -> (balance: Option<i128>)
        ensures
            match balance {
                Some(units) => self@.dom().contains(currency) && self@[currency] == units,
                None => !self@.dom().contains(currency),
            },
    {
        proof {
            use_type_invariant(self);
            lemma_balances_of(self.buckets@);
        }
        let mut i: usize = 0;
        while i < self.buckets.len()
            invariant
                i <= self.buckets.len(),
                forall|j: int| 0 <= j < i ==> self.buckets@[j].currency != currency,
            decreases self.buckets.len() - i,
        {
            if self.buckets[i].currency == currency {
                proof {
                    use_type_invariant(self);
                    lemma_balances_of(self.buckets@);
                    assert(self.buckets@[i as int].currency == currency);
                }
                return Some(self.buckets[i].units);
            }
            i = i + 1;
        }
        proof {
            lemma_balances_of(self.buckets@);
        }
        None
    }

    /// Adds `cash` to the balance of its currency, which starts at zero.
    pub fn deposit(&mut self, cash: Cash)
        requires
            i128::MIN <= old(self).total(cash.currency) + cash.units <= i128::MAX,
        ensures
            final(self)@ == old(self)@.insert(
                cash.currency,
                old(self).total(cash.currency) + cash.units,
            ),
    {
        proof {
            use_type_invariant(&*self);
            lemma_balances_of(self.buckets@);
        }
        let ghost before = self.buckets@;
        let mut buckets = self.buckets.clone();
        assert(buckets@ =~= before);
        let mut i: usize = 0;
        while i < buckets.len()
            invariant
                i <= buckets.len(),
                buckets@ == before,
                before == old(self).buckets@,
                distinct_currencies(before),
                i128::MIN <= old(self).total(cash.currency) + cash.units <= i128::MAX,
                forall|j: int| 0 <= j < i ==> before[j].currency != cash.currency,
            decreases buckets.len() - i,
        {
            if buckets[i].currency == cash.currency {
                proof {
                    lemma_balances_of(before);
                    assert(before[i as int].currency == cash.currency);
                }
                let units: i128 = buckets[i].units + (cash.units as i128);
                buckets.set(i, Balance { currency: cash.currency, units });
                proof {
                    lemma_replaced_balance(before, i as int, units);
                }
                self.buckets = buckets;
                return;
            }
            i = i + 1;
        }
        buckets.push(Balance { currency: cash.currency, units: cash.units as i128 });
        proof {
            let after = buckets@;
            lemma_balances_of(before);
            assert(after.drop_last() =~= before);
            assert(distinct_currencies(after)) by {
                assert forall|a: int, b: int| 0 <= a < b < after.len() implies after[a].currency
                    != after[b].currency by {
                    if b < before.len() {
                        assert(before[a].currency != before[b].currency);
                    }
                }
            }
        }
        self.buckets = buckets;
    }

    /// The balances, one for each currency, in the order of first deposit.
    pub fn to_display(&self) -> (balances: Vec<Balance>)
        ensures
            distinct_currencies(balances@),
            balances_of(balances@) == self@,
    {
        proof {
            use_type_invariant(self);
        }
        self.buckets.clone()
    }
}

} // verus!
