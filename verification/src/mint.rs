//! The allocator of subscriber ids, `idmint::StackMint`, and what the bus
//! keeps true of it.
//!
//! A `StackMint` hands out fresh values counting up from its next value and
//! keeps a bitmap of values given back; `used` is the next value minus the
//! count of values given back.
use vstd::prelude::*;

use idmint::StackMint;

verus! {

/// Declares `idmint::StackMint`.
#[verifier::external_type_specification]
#[verifier::external_body]
pub struct ExStackMint(idmint::StackMint);

/// The values a `StackMint` holds as given back: those whose bit is set in
/// its bitmap.
pub uninterp spec fn mint_returned(m: StackMint) -> Set<u8>;

/// The next fresh value of a `StackMint` and its count of values given back.
pub uninterp spec fn mint_counters(m: StackMint) -> (u8, u8);

pub open spec fn mint_next(m: StackMint) -> u8 {
    mint_counters(m).0
}

pub open spec fn mint_returned_count(m: StackMint) -> u8 {
    mint_counters(m).1
}

/// The least value of `s`.
pub open spec fn least(s: Set<u8>) -> u8 {
    choose|v: u8| s.contains(v) && forall|w: u8| s.contains(w) ==> v <= w
}

/// `StackMint::new`: its source sets the next value to `reserved`, the count
/// of values given back to 0 and clears the bitmap.
#[verifier::external_body]
fn mint_new(reserved: u8) -> (r: StackMint)
    ensures
        mint_counters(r) == (reserved, 0u8),
        mint_returned(r) == Set::<u8>::empty(),
{
    StackMint::new(reserved)
}

/// `StackMint::issue`. Its source: while some value was given back it finds
/// the first nonzero byte of the bitmap (the byte of the least value given
/// back, at index `least / 8`), clears the bit of the value `least / 8` and
/// returns `least / 8 + 2`, the counters unchanged; otherwise it returns the
/// next value and counts it, or `None` when the next value is 255. With a
/// count but an empty bitmap its search would read past what it found, so
/// that state is excluded.
#[verifier::external_body]
fn mint_issue(mint: &mut StackMint) -> (r: Option<u8>)
    requires
        mint_returned_count(*old(mint)) != 0 ==> exists|v: u8| mint_returned(*old(mint)).contains(v),
    ensures
        mint_returned_count(*old(mint)) != 0 ==> {
            let v = least(mint_returned(*old(mint)));
            &&& r == Some((v / 8 + 2) as u8)
            &&& mint_returned(*final(mint)) == mint_returned(*old(mint)).remove(v / 8)
            &&& mint_counters(*final(mint)) == mint_counters(*old(mint))
        },
        mint_returned_count(*old(mint)) == 0 && mint_next(*old(mint)) != 255 ==> {
            &&& r == Some(mint_next(*old(mint)))
            &&& mint_counters(*final(mint)) == ((mint_next(*old(mint)) + 1) as u8, 0u8)
            &&& mint_returned(*final(mint)) == mint_returned(*old(mint))
        },
        mint_returned_count(*old(mint)) == 0 && mint_next(*old(mint)) == 255 ==> {
            &&& r is None
            &&& mint_counters(*final(mint)) == mint_counters(*old(mint))
            &&& mint_returned(*final(mint)) == mint_returned(*old(mint))
        },
{
    mint.issue()
}

/// `StackMint::recycle`. Its source: a value equal to the next one, or
/// already given back, changes nothing; the value just below the next one
/// lowers the next value; any other value is set in the bitmap and counted.
/// The lowering subtracts one from the next value and the counting adds one
/// to the count, so a next value of 0 or a count of 255 is excluded there.
#[verifier::external_body]
fn mint_recycle(mint: &mut StackMint, value: u8)
    requires
        value == mint_next(*old(mint)) || mint_returned(*old(mint)).contains(value) || (mint_next(
            *old(mint),
        ) >= 1 && (value == mint_next(*old(mint)) - 1 || mint_returned_count(*old(mint)) < 255)),
    ensures
        value == mint_next(*old(mint)) || mint_returned(*old(mint)).contains(value) ==> {
            &&& mint_counters(*final(mint)) == mint_counters(*old(mint))
            &&& mint_returned(*final(mint)) == mint_returned(*old(mint))
        },
        value != mint_next(*old(mint)) && !mint_returned(*old(mint)).contains(value) && value
            == mint_next(*old(mint)) - 1 ==> {
            &&& mint_counters(*final(mint)) == (value, mint_returned_count(*old(mint)))
            &&& mint_returned(*final(mint)) == mint_returned(*old(mint))
        },
        value != mint_next(*old(mint)) && !mint_returned(*old(mint)).contains(value) && value
            != mint_next(*old(mint)) - 1 ==> {
            &&& mint_counters(*final(mint)) == (
                mint_next(*old(mint)),
                (mint_returned_count(*old(mint)) + 1) as u8,
            )
            &&& mint_returned(*final(mint)) == mint_returned(*old(mint)).insert(value)
        },
{
    mint.recycle(value)
}

/// `StackMint::last`: the next value less one, saturating at 0.
#[verifier::external_body]
fn mint_last(mint: &StackMint) -> (r: u8)
    ensures
        r == if mint_next(*mint) == 0 {
            0
        } else {
            mint_next(*mint) - 1
        },
{
    mint.last()
}

/// `StackMint::used`: the next value less the count of values given back; a
/// count above the next value is excluded, where the subtraction overflows.
#[verifier::external_body]
fn mint_used(mint: &StackMint) -> (r: u8)
    requires
        mint_returned_count(*mint) <= mint_next(*mint),
    ensures
        r == mint_next(*mint) - mint_returned_count(*mint),
{
    mint.used()
}

/// What the bus keeps true of its mint: values count up from 1, and the
/// values given back are below the next value, none of them 0, one bit each.
pub open spec fn mint_ok(m: StackMint) -> bool {
    &&& mint_next(m) >= 1
    &&& mint_returned(m).finite()
    &&& mint_returned(m).len() == mint_returned_count(m)
    &&& forall|v: u8| #[trigger] mint_returned(m).contains(v) ==> 1 <= v < mint_next(m)
}

/// The values `1..n`.
pub open spec fn range_from_one(n: int) -> Set<u8> {
    Set::new(|v: u8| 1 <= v < n)
}

proof fn lemma_range_len(n: int)
    requires
        1 <= n <= 256,
    ensures
        range_from_one(n).finite(),
        range_from_one(n).len() == n - 1,
    decreases n,
{
    if n == 1 {
        assert(range_from_one(1) =~= Set::<u8>::empty());
    } else {
        lemma_range_len(n - 1);
        assert(range_from_one(n) =~= range_from_one(n - 1).insert((n - 1) as u8));
    }
}

/// A mint the bus keeps has given back fewer values than its next value.
proof fn lemma_mint_counts(m: StackMint)
    requires
        mint_ok(m),
    ensures
        mint_returned_count(m) < mint_next(m),
{
    lemma_range_len(mint_next(m) as int);
    assert(mint_returned(m).subset_of(range_from_one(mint_next(m) as int)));
    vstd::set_lib::lemma_len_subset(mint_returned(m), range_from_one(mint_next(m) as int));
}

proof fn lemma_least(s: Set<u8>, v: u8)
    requires
        s.contains(v),
    ensures
        s.contains(least(s)),
        forall|w: u8| s.contains(w) ==> least(s) <= w,
    decreases v,
{
    if exists|w: u8| s.contains(w) && w < v {
        let w = choose|w: u8| s.contains(w) && w < v;
        lemma_least(s, w);
    } else {
        assert(s.contains(v) && forall|w: u8| s.contains(w) ==> v <= w);
    }
}

/// The state of a mint: its next value, its count of values given back and
/// the set of values given back.
pub open spec fn mint_state(m: StackMint) -> (u8, u8, Set<u8>) {
    (mint_next(m), mint_returned_count(m), mint_returned(m))
}

/// The value the mint issues next: while values were given back, the byte
/// index of the least of them plus two; else its next value, unless that is
/// 255.
pub open spec fn issued(m: StackMint) -> Option<u8> {
    if mint_returned_count(m) != 0 {
        Some((least(mint_returned(m)) / 8 + 2) as u8)
    } else if mint_next(m) != 255 {
        Some(mint_next(m))
    } else {
        None
    }
}

/// The state of a mint after it issued a value from the state `st`: only a
/// fresh value moves the next value on.
pub open spec fn issue_effect(st: (u8, u8, Set<u8>)) -> (u8, u8, Set<u8>) {
    if st.1 == 0 && st.0 != 255 {
        ((st.0 + 1) as u8, 0u8, st.2)
    } else {
        st
    }
}

/// The state of a mint after `value` was given back in the state `st`.
pub open spec fn recycle_effect(st: (u8, u8, Set<u8>), value: u8) -> (u8, u8, Set<u8>) {
    if value == st.0 || st.2.contains(value) {
        st
    } else if value == st.0 - 1 {
        (value, st.1, st.2)
    } else {
        (st.0, (st.1 + 1) as u8, st.2.insert(value))
    }
}

/// A mint that hands out ids from 1 on.
pub fn new_mint() -> (r: StackMint)
    ensures
        mint_ok(r),
        mint_next(r) == 1,
        mint_returned(r) == Set::<u8>::empty(),
{
    mint_new(1)
}

/// The next id of the mint, or `None` when it has handed out every value
/// below 255; the id is never 0 and never above the mint's next value.
///
/// While values were given back, the id is the byte index of the least of
/// them plus two and the mint keeps its state; otherwise it is the next value,
/// which the mint then counts as handed out.
pub fn issue_id(mint: &mut StackMint) -> (r: Option<u8>)
    requires
        mint_ok(*old(mint)),
    ensures
        mint_ok(*final(mint)),
        r matches Some(v) ==> 1 <= v <= mint_next(*final(mint)),
        r == issued(*old(mint)),
        mint_state(*final(mint)) == issue_effect(mint_state(*old(mint))),
        mint_returned_count(*old(mint)) != 0 ==> {
            &&& r == Some((least(mint_returned(*old(mint))) / 8 + 2) as u8)
            &&& mint_counters(*final(mint)) == mint_counters(*old(mint))
            &&& mint_returned(*final(mint)) == mint_returned(*old(mint))
        },
        mint_returned_count(*old(mint)) == 0 && mint_next(*old(mint)) != 255 ==> {
            &&& r == Some(mint_next(*old(mint)))
            &&& mint_counters(*final(mint)) == ((mint_next(*old(mint)) + 1) as u8, 0u8)
            &&& mint_returned(*final(mint)) == mint_returned(*old(mint))
        },
        mint_returned_count(*old(mint)) == 0 && mint_next(*old(mint)) == 255 ==> {
            &&& r is None
            &&& mint_counters(*final(mint)) == mint_counters(*old(mint))
            &&& mint_returned(*final(mint)) == mint_returned(*old(mint))
        },
{
    let ghost s = mint_returned(*mint);
    proof {
        if mint_returned_count(*mint) != 0 {
            vstd::set_lib::lemma_set_empty_equivalency_len(s);
            let v = choose|v: u8| s.contains(v);
            lemma_least(s, v);
            let l = least(s);
            assert(!s.contains(l / 8)) by {
                if s.contains(l / 8) {
                    assert(l <= l / 8);
                }
            }
            assert(s.remove(l / 8) =~= s);
            assert(l / 8 + 2 <= mint_next(*mint));
        }
    }
    mint_issue(mint)
}

/// Gives `value`, an id the mint handed out, back to the mint: the next
/// value and a value already given back change nothing, the value just below
/// the next one lowers the next value, and any other value is recorded as
/// given back.
pub fn recycle_id(mint: &mut StackMint, value: u8)
    requires
        mint_ok(*old(mint)),
        1 <= value <= mint_next(*old(mint)),
    ensures
        mint_ok(*final(mint)),
        mint_state(*final(mint)) == recycle_effect(mint_state(*old(mint)), value),
        value == mint_next(*old(mint)) || mint_returned(*old(mint)).contains(value) ==> {
            &&& mint_counters(*final(mint)) == mint_counters(*old(mint))
            &&& mint_returned(*final(mint)) == mint_returned(*old(mint))
        },
        value != mint_next(*old(mint)) && !mint_returned(*old(mint)).contains(value) && value
            == mint_next(*old(mint)) - 1 ==> {
            &&& mint_counters(*final(mint)) == (value, mint_returned_count(*old(mint)))
            &&& mint_returned(*final(mint)) == mint_returned(*old(mint))
        },
        value != mint_next(*old(mint)) && !mint_returned(*old(mint)).contains(value) && value
            != mint_next(*old(mint)) - 1 ==> {
            &&& mint_counters(*final(mint)) == (
                mint_next(*old(mint)),
                (mint_returned_count(*old(mint)) + 1) as u8,
            )
            &&& mint_returned(*final(mint)) == mint_returned(*old(mint)).insert(value)
        },
{
    proof {
        lemma_mint_counts(*mint);
    }
    let ghost s = mint_returned(*mint);
    let ghost next = mint_next(*mint);
    mint_recycle(mint, value);
    proof {
        if value != next && !s.contains(value) && value != next - 1 {
            assert(s.insert(value).len() == s.len() + 1);
        }
    }
}

/// The highest value the mint has handed out: its next value less one.
pub fn last_id(mint: &StackMint) -> (r: u8)
    requires
        mint_ok(*mint),
    ensures
        r == mint_next(*mint) - 1,
{
    mint_last(mint)
}

/// The number of values in use, counting the reserved 0: at least one.
pub fn used_ids(mint: &StackMint) -> (r: u8)
    requires
        mint_ok(*mint),
    ensures
        r == mint_next(*mint) - mint_returned_count(*mint),
        r >= 1,
{
    proof {
        lemma_mint_counts(*mint);
    }
    mint_used(mint)
}

} // verus!
