use vstd::prelude::*;

verus! {

/// A user's standing in one market: collateral and debt scaled balances, the
/// collateral-enabled flag, and the trust-based uncollateralized borrowing
/// allowance for the denom. One entry exists per (user, denom) pair that has
/// ever been touched.
pub struct Position {
    pub denom: String,
    pub collateral_scaled: u128,
    pub enabled_as_collateral: bool,
    pub debt_scaled: u128,
    pub uncollateralized_limit: u128,
}

impl Clone for Position {
    fn clone(&self) -> (r: Self)
        ensures
            r == *self,
    {
        Position {
            denom: self.denom.clone(),
            collateral_scaled: self.collateral_scaled,
            enabled_as_collateral: self.enabled_as_collateral,
            debt_scaled: self.debt_scaled,
            uncollateralized_limit: self.uncollateralized_limit,
        }
    }
}

/// No two entries of an account name the same denom.
pub open spec fn denoms_unique(ps: Seq<Position>) -> bool {
    forall|i: int, j: int|
        0 <= i < ps.len() && 0 <= j < ps.len() && i != j ==> ps[i].denom@ != ps[j].denom@
}

/// Whether the account holds an entry for the denom.
pub open spec fn spec_has(ps: Seq<Position>, denom: Seq<char>) -> bool {
    exists|i: int| 0 <= i < ps.len() && ps[i].denom@ == denom
}

/// The index of the denom's entry; meaningful only under [`spec_has`], and
/// unique under [`denoms_unique`].
pub open spec fn spec_index_of(ps: Seq<Position>, denom: Seq<char>) -> int {
    choose|i: int| 0 <= i < ps.len() && ps[i].denom@ == denom
}

/// The denom's entry; meaningful only under [`spec_has`].
pub open spec fn spec_position(ps: Seq<Position>, denom: Seq<char>) -> Position {
    ps[spec_index_of(ps, denom)]
}

/// The account's collateral scaled balance in the denom; zero when no entry
/// exists.
pub open spec fn spec_collateral_scaled(ps: Seq<Position>, denom: Seq<char>) -> u128 {
    if spec_has(ps, denom) {
        spec_position(ps, denom).collateral_scaled
    } else {
        0
    }
}

/// The account's debt scaled balance in the denom; zero when no entry exists.
pub open spec fn spec_debt_scaled(ps: Seq<Position>, denom: Seq<char>) -> u128 {
    if spec_has(ps, denom) {
        spec_position(ps, denom).debt_scaled
    } else {
        0
    }
}

/// The account's uncollateralized loan limit in the denom; zero when no entry
/// exists.
pub open spec fn spec_limit(ps: Seq<Position>, denom: Seq<char>) -> u128 {
    if spec_has(ps, denom) {
        spec_position(ps, denom).uncollateralized_limit
    } else {
        0
    }
}

/// Whether the account's collateral in the denom counts toward its health.
pub open spec fn spec_collateral_enabled(ps: Seq<Position>, denom: Seq<char>) -> bool {
    if spec_has(ps, denom) {
        spec_position(ps, denom).enabled_as_collateral
    } else {
        false
    }
}

/// How every balance-changing operation reshapes an account: the denom's
/// entry is rewritten in place when it exists, else a new entry for the denom
/// is appended; all other entries stay as they were.
pub open spec fn account_updated_at(pre: Seq<Position>, post: Seq<Position>, denom: Seq<char>) -> bool {
    if spec_has(pre, denom) {
        let i = spec_index_of(pre, denom);
        &&& post.len() == pre.len()
        &&& post[i].denom@ == denom
        &&& forall|j: int| 0 <= j < pre.len() && j != i ==> post[j] == pre[j]
    } else {
        &&& post.len() == pre.len() + 1
        &&& post[pre.len() as int].denom@ == denom
        &&& forall|j: int| 0 <= j < pre.len() ==> post[j] == pre[j]
    }
}

/// The index the reshaped entry stands at.
pub open spec fn updated_index(pre: Seq<Position>, denom: Seq<char>) -> int {
    if spec_has(pre, denom) {
        spec_index_of(pre, denom)
    } else {
        pre.len() as int
    }
}

/// Reshaping one denom's entry keeps the account's denoms unique, keeps every
/// other denom's entry and lookup unchanged, and makes the reshaped entry the
/// one the denom's lookup finds.
pub proof fn lemma_lookup_after_update(pre: Seq<Position>, post: Seq<Position>, denom: Seq<char>)
    requires
        denoms_unique(pre),
        account_updated_at(pre, post, denom),
    ensures
        denoms_unique(post),
        spec_has(post, denom),
        spec_index_of(post, denom) == updated_index(pre, denom),
        spec_position(post, denom) == post[updated_index(pre, denom)],
        forall|d2: Seq<char>|
            d2 != denom ==> (#[trigger] spec_has(post, d2)) == spec_has(pre, d2),
        forall|d2: Seq<char>|
            d2 != denom && spec_has(pre, d2) ==> #[trigger] spec_position(post, d2)
                == spec_position(pre, d2),
{
    let i = updated_index(pre, denom);
    if spec_has(pre, denom) {
        assert(0 <= i < pre.len() && pre[i].denom@ == denom);
    }
    assert forall|a: int, b: int|
        0 <= a < post.len() && 0 <= b < post.len() && a != b implies post[a].denom@
        != post[b].denom@ by {
        if a != i && b != i {
            assert(post[a] == pre[a]);
            assert(post[b] == pre[b]);
        } else if a == i {
            assert(post[b] == pre[b]);
            if spec_has(pre, denom) {
            } else {
                assert(!(pre[b].denom@ == denom));
            }
        } else {
            assert(post[a] == pre[a]);
            if spec_has(pre, denom) {
            } else {
                assert(!(pre[a].denom@ == denom));
            }
        }
    }
    assert(spec_has(post, denom)) by {
        assert(0 <= i < post.len() && post[i].denom@ == denom);
    }
    assert(spec_index_of(post, denom) == i) by {
        let k = spec_index_of(post, denom);
        assert(0 <= k < post.len() && post[k].denom@ == denom);
    }
    assert forall|d2: Seq<char>| d2 != denom implies (#[trigger] spec_has(post, d2)) == spec_has(
        pre,
        d2,
    ) by {
        if spec_has(pre, d2) {
            let j = spec_index_of(pre, d2);
            assert(0 <= j < pre.len() && pre[j].denom@ == d2);
            assert(j != i || !spec_has(pre, denom));
            if j == i {
                assert(pre[i].denom@ == d2);
                assert(spec_has(pre, denom) ==> pre[i].denom@ == denom);
            }
            assert(post[j] == pre[j]);
            assert(spec_has(post, d2));
        }
        if spec_has(post, d2) {
            let k = spec_index_of(post, d2);
            assert(0 <= k < post.len() && post[k].denom@ == d2);
            assert(k != i);
            assert(post[k] == pre[k]);
            assert(spec_has(pre, d2));
        }
    }
    assert forall|d2: Seq<char>| d2 != denom && spec_has(pre, d2) implies #[trigger] spec_position(
        post,
        d2,
    ) == spec_position(pre, d2) by {
        let j = spec_index_of(pre, d2);
        assert(0 <= j < pre.len() && pre[j].denom@ == d2);
        if j == i {
            assert(spec_has(pre, denom) ==> pre[i].denom@ == denom);
            assert(!spec_has(pre, denom));
        }
        assert(post[j] == pre[j]);
        let k = spec_index_of(post, d2);
        assert(0 <= k < post.len() && post[k].denom@ == d2);
        assert(k == j);
    }
}

/// Finds the denom's entry by linear search. Under a unique-denoms account
/// the returned index is exactly [`spec_index_of`].
pub fn find_position(ps: &Vec<Position>, denom: &String) -> (r: Option<usize>)
    requires
        denoms_unique(ps@),
    ensures
        match r {
            Some(i) => spec_has(ps@, denom@) && i == spec_index_of(ps@, denom@) && i < ps@.len()
                && ps@[i as int].denom@ == denom@,
            None => !spec_has(ps@, denom@),
        },
{
    let mut i: usize = 0;
    while i < ps.len()
        invariant
            i <= ps@.len(),
            denoms_unique(ps@),
            forall|j: int| 0 <= j < i ==> ps@[j].denom@ != denom@,
        decreases ps@.len() - i,
    {
        if ps[i].denom == *denom {
            proof {
                let k = spec_index_of(ps@, denom@);
                assert(0 <= k < ps@.len() && ps@[k].denom@ == denom@);
            }
            return Some(i);
        }
        i = i + 1;
    }
    None
}

/// A field-exact copy of an account's entries.
pub fn clone_positions(ps: &Vec<Position>) -> (r: Vec<Position>)
    ensures
        r@ == ps@,
{
    let mut r: Vec<Position> = Vec::new();
    let mut i: usize = 0;
    while i < ps.len()
        invariant
            i <= ps@.len(),
            r@ == ps@.subrange(0, i as int),
        decreases ps@.len() - i,
    {
        r.push(ps[i].clone());
        proof {
            assert(r@ =~= ps@.subrange(0, i + 1 as int));
        }
        i = i + 1;
    }
    proof {
        assert(r@ =~= ps@);
    }
    r
}

} // verus!
