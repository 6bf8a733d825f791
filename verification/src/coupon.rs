//! Coupon ledger: discount grants consumed at most once by binding to a ride.
//!
//! Coupons are appended in grant order, so the position in the ledger is the
//! grant order; "earliest granted" always means "lowest index".

use vstd::prelude::*;

verus! {

/// Which issuance campaign a coupon belongs to.  Invitation and reward
/// coupons carry the invitation code they were redeemed under.
#[derive(Clone, Copy, Debug, PartialEq, Eq, Structural)]
pub enum CouponCode {
    /// Fixed signup bonus granted to every new user.
    Signup,
    /// Granted to a new user who registered with another user's invitation code.
    Invitation(u64),
    /// Granted to the inviter when its invitation code is redeemed.
    Reward(u64),
}

/// A discount grant.  `used_by` holds the ride the coupon is bound to, set at
/// most once and never cleared.
#[derive(Clone, Copy, Debug, PartialEq, Eq, Structural)]
pub struct Coupon {
    pub user_id: u64,
    pub code: CouponCode,
    pub discount: i64,
    /// Grant timestamp in milliseconds.
    pub granted_at: i64,
    pub used_by: Option<u64>,
}

/// Discount of the signup bonus coupon.
pub const SIGNUP_DISCOUNT: i64 = 3000;

/// Discount of the coupon granted to an invited new user.
pub const INVITATION_DISCOUNT: i64 = 1500;

/// Discount of the reward coupon granted to the inviter.
pub const REWARD_DISCOUNT: i64 = 1000;

/// How many redemption coupons one invitation code may ever have.
pub const INVITATION_CAP: usize = 3;

/// The smallest index of `s` whose element satisfies `pred`, or `-1`.
pub open spec fn first_match<A>(s: Seq<A>, pred: spec_fn(A) -> bool) -> int
    decreases s.len(),
{
    if s.len() == 0 {
        -1
    } else if pred(s[0]) {
        0
    } else {
        let rest = first_match(s.skip(1), pred);
        if rest < 0 {
            -1
        } else {
            rest + 1
        }
    }
}

/// `first_match` finds exactly the smallest matching index.
pub proof fn lemma_first_match_is<A>(s: Seq<A>, pred: spec_fn(A) -> bool, i: int)
    requires
        0 <= i < s.len(),
        pred(s[i]),
        forall|j: int| 0 <= j < i ==> !pred(#[trigger] s[j]),
    ensures
        first_match(s, pred) == i,
    decreases s.len(),
{
    if i == 0 {
    } else {
        assert(!pred(s[0]));
        assert(s.skip(1)[i - 1] == s[i]);
        assert(forall|j: int| 0 <= j < i - 1 ==> !pred(#[trigger] s.skip(1)[j]));
        lemma_first_match_is(s.skip(1), pred, i - 1);
    }
}

/// When nothing matches, `first_match` reports `-1`.
pub proof fn lemma_first_match_none<A>(s: Seq<A>, pred: spec_fn(A) -> bool)
    requires
        forall|j: int| 0 <= j < s.len() ==> !pred(#[trigger] s[j]),
    ensures
        first_match(s, pred) == -1,
    decreases s.len(),
{
    if s.len() > 0 {
        assert(forall|j: int| 0 <= j < s.skip(1).len() ==> !pred(#[trigger] s.skip(1)[j]));
        lemma_first_match_none(s.skip(1), pred);
    }
}

/// A found index matches, and nothing before it does.
pub proof fn lemma_first_match_found<A>(s: Seq<A>, pred: spec_fn(A) -> bool)
    requires
        first_match(s, pred) >= 0,
    ensures
        0 <= first_match(s, pred) < s.len(),
        pred(s[first_match(s, pred)]),
        forall|j: int| 0 <= j < first_match(s, pred) ==> !pred(#[trigger] s[j]),
    decreases s.len(),
{
    if s.len() > 0 && !pred(s[0]) {
        lemma_first_match_found(s.skip(1), pred);
        let k = first_match(s.skip(1), pred);
        assert(s.skip(1)[k] == s[k + 1]);
        assert(forall|j: int| 1 <= j < k + 1 ==> s.skip(1)[j - 1] == #[trigger] s[j]);
    }
}

/// A miss means nothing matches anywhere.
pub proof fn lemma_first_match_miss<A>(s: Seq<A>, pred: spec_fn(A) -> bool)
    requires
        first_match(s, pred) == -1,
    ensures
        forall|j: int| 0 <= j < s.len() ==> !pred(#[trigger] s[j]),
    decreases s.len(),
{
    if s.len() > 0 {
        lemma_first_match_miss(s.skip(1), pred);
        assert forall|j: int| 0 <= j < s.len() implies !pred(#[trigger] s[j]) by {
            if j > 0 {
                assert(s.skip(1)[j - 1] == s[j]);
            }
        }
    }
}

/// How appending one element moves the first match: an existing match stays,
/// otherwise the new element matches at the end or nothing does.
pub proof fn lemma_first_match_push<A>(s: Seq<A>, x: A, pred: spec_fn(A) -> bool)
    ensures
        first_match(s.push(x), pred) == if first_match(s, pred) >= 0 {
            first_match(s, pred)
        } else if pred(x) {
            s.len() as int
        } else {
            -1
        },
{
    let k = first_match(s, pred);
    if k >= 0 {
        lemma_first_match_found(s, pred);
        assert(s.push(x)[k] == s[k]);
        assert(forall|j: int| 0 <= j < k ==> s.push(x)[j] == #[trigger] s[j]);
        lemma_first_match_is(s.push(x), pred, k);
    } else {
        lemma_first_match_miss(s, pred);
        if pred(x) {
            assert(s.push(x)[s.len() as int] == x);
            assert(forall|j: int| 0 <= j < s.len() ==> s.push(x)[j] == #[trigger] s[j]);
            lemma_first_match_is(s.push(x), pred, s.len() as int);
        } else {
            assert(forall|j: int| 0 <= j < s.push(x).len() ==> !pred(#[trigger] s.push(x)[j]));
            lemma_first_match_none(s.push(x), pred);
        }
    }
}

/// How many coupons in `s` are redemption coupons of invitation code `code`.
pub open spec fn count_invitation(s: Seq<Coupon>, code: u64) -> int
    decreases s.len(),
{
    if s.len() == 0 {
        0
    } else {
        count_invitation(s.drop_last(), code) + if s.last().code == CouponCode::Invitation(code) {
            1int
        } else {
            0int
        }
    }
}

/// Appending a coupon raises the invitation count of exactly the code it
/// redeems, by one, and no other.
pub proof fn lemma_count_invitation_push(s: Seq<Coupon>, c: Coupon, code: u64)
    ensures
        count_invitation(s.push(c), code) == count_invitation(s, code) + if c.code
            == CouponCode::Invitation(code) {
            1int
        } else {
            0int
        },
{
    assert(s.push(c).drop_last() == s);
    assert(s.push(c).last() == c);
}

/// The invitation count never goes negative and never exceeds the length.
pub proof fn lemma_count_invitation_bounds(s: Seq<Coupon>, code: u64)
    ensures
        0 <= count_invitation(s, code) <= s.len(),
    decreases s.len(),
{
    if s.len() > 0 {
        lemma_count_invitation_bounds(s.drop_last(), code);
    }
}

/// Updating the `used_by` of one coupon leaves every invitation count as it
/// was: consumption never changes issuance.
pub proof fn lemma_count_invitation_update_used(s: Seq<Coupon>, i: int, c: Coupon, code: u64)
    requires
        0 <= i < s.len(),
        c.code == s[i].code,
    ensures
        count_invitation(s.update(i, c), code) == count_invitation(s, code),
    decreases s.len(),
{
    let n = s.len() as int;
    if i == n - 1 {
        assert(s.update(i, c).drop_last() == s.drop_last());
    } else {
        assert(s.update(i, c).drop_last() == s.drop_last().update(i, c));
        lemma_count_invitation_update_used(s.drop_last(), i, c, code);
    }
}

/// Whether `c` is an unused coupon of `uid`.
pub open spec fn unused_of(c: Coupon, uid: u64) -> bool {
    c.user_id == uid && c.used_by is None
}

/// Whether `c` is the unused signup bonus of `uid`.
pub open spec fn unused_signup_of(c: Coupon, uid: u64) -> bool {
    c.user_id == uid && c.code == CouponCode::Signup && c.used_by is None
}

/// Index of the unused signup bonus of `uid`, or `-1`.
pub open spec fn signup_choice(s: Seq<Coupon>, uid: u64) -> int {
    first_match(s, |c: Coupon| unused_signup_of(c, uid))
}

/// Index of the earliest-granted unused coupon of `uid`, or `-1`.
pub open spec fn fifo_choice(s: Seq<Coupon>, uid: u64) -> int {
    first_match(s, |c: Coupon| unused_of(c, uid))
}

/// The coupon a ride-creation binds: the signup bonus for the user's
/// first-ever ride when it is still unused, otherwise the earliest-granted
/// unused coupon, or none.
pub open spec fn creation_choice(s: Seq<Coupon>, uid: u64, first_ride: bool) -> int {
    if first_ride && signup_choice(s, uid) >= 0 {
        signup_choice(s, uid)
    } else {
        fifo_choice(s, uid)
    }
}

/// The discount a pre-creation estimate quotes: the unused signup bonus if
/// present, otherwise the earliest-granted unused coupon, otherwise zero.
pub open spec fn estimate_discount(s: Seq<Coupon>, uid: u64) -> int {
    if signup_choice(s, uid) >= 0 {
        s[signup_choice(s, uid)].discount as int
    } else if fifo_choice(s, uid) >= 0 {
        s[fifo_choice(s, uid)].discount as int
    } else {
        0
    }
}

/// The coupon `c` after being bound to ride `rid`.
pub open spec fn consumed(c: Coupon, rid: u64) -> Coupon {
    Coupon { used_by: Some(rid), ..c }
}

/// Index of the coupon bound to ride `rid`, or `-1`.  Well-formed ledgers
/// bind at most one coupon to a ride, so this is the only such coupon.
pub open spec fn bound_choice(s: Seq<Coupon>, rid: u64) -> int {
    first_match(s, |c: Coupon| c.used_by == Some(rid))
}

/// The discount bound to ride `rid`, or zero when the ride carries no coupon.
pub open spec fn bound_discount(s: Seq<Coupon>, rid: u64) -> int {
    if bound_choice(s, rid) >= 0 {
        s[bound_choice(s, rid)].discount as int
    } else {
        0
    }
}

} // verus!
