//! The uid and gid maps written into a fresh user namespace.
use vstd::prelude::*;

use crate::bytes::{decimal, digits_value, is_digit, lemma_decimal_round_trip, push_decimal};

verus! {

/// One line of a `uid_map` or `gid_map`: the first id inside the namespace,
/// the first id outside it, and how many ids follow, separated by spaces.
pub open spec fn map_entry(inside: nat, outside: nat, count: nat) -> Seq<u8> {
    decimal(inside) + seq![32u8] + decimal(outside) + seq![32u8] + decimal(count)
}

/// The whole map that keeps the id `id` as it is: a single entry mapping
/// `id` to itself, and nothing else.
pub fn identity_map(id: u32) -> (r: Vec<u8>)
    ensures
        r@ == map_entry(id as nat, id as nat, 1),
{
    let mut r: Vec<u8> = Vec::new();
    push_decimal(&mut r, id);
    r.push(32u8);
    push_decimal(&mut r, id);
    r.push(32u8);
    push_decimal(&mut r, 1);
    proof {
        assert(r@ =~= map_entry(id as nat, id as nat, 1));
    }
    r
}

/// The identity map is one line with exactly three fields of digits, the
/// first two reading back as `id` and the last as 1: it maps the caller's id
/// to itself, a range of one id, and no other id.
pub proof fn lemma_identity_map_single_entry(id: nat)
    ensures
        ({
            let m = map_entry(id, id, 1);
            let n = decimal(id).len() as int;
            &&& m.len() == 2 * n + 3
            &&& m.subrange(0, n) == decimal(id)
            &&& m[n] == 32u8
            &&& m.subrange(n + 1, 2 * n + 1) == decimal(id)
            &&& m[2 * n + 1] == 32u8
            &&& m[2 * n + 2] == 49u8
            &&& forall|k: int|
                0 <= k < m.len() && k != n && k != 2 * n + 1 ==> is_digit(#[trigger] m[k])
            &&& digits_value(decimal(id)) == id
        }),
{
    lemma_decimal_round_trip(id);
    lemma_decimal_round_trip(1);
    let m = map_entry(id, id, 1);
    let d = decimal(id);
    let n = d.len() as int;
    assert(decimal(1) =~= seq![49u8]);
    assert(m.subrange(0, n) =~= d);
    assert(m.subrange(n + 1, 2 * n + 1) =~= d);
    assert forall|k: int|
        0 <= k < m.len() && k != n && k != 2 * n + 1 implies is_digit(#[trigger] m[k]) by {
        if k < n {
            assert(m[k] == d[k]);
        } else if k < 2 * n + 1 {
            assert(m[k] == d[k - n - 1]);
        }
    }
}

} // verus!
