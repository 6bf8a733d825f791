//! Registration operations: users (with signup bonus and invitation
//! redemption), owners, chairs, activity flags and payment credentials.

use crate::coupon::{
    count_invitation, lemma_count_invitation_bounds, lemma_count_invitation_push, Coupon,
    CouponCode, INVITATION_CAP, INVITATION_DISCOUNT, REWARD_DISCOUNT, SIGNUP_DISCOUNT,
};
use crate::world::{
    evolves, lemma_chair_ids_unchanged, lemma_existence_unchanged, lemma_has_owner_unchanged,
    lemma_has_user_unchanged, lemma_ride_ids_unchanged, Chair, DomainError, Owner, User, World,
};
use vstd::prelude::*;

verus! {

impl World {
    /// Whether some user owns this invitation code.
    pub open spec fn has_invitation_code(self, code: u64) -> bool {
        exists|i: int|
            0 <= i < self.users@.len() && (#[trigger] self.users@[i]).invitation_code == code
    }

    /// How many redemption coupons the invitation code has so far.
    pub fn count_invitation_coupons(&self, code: u64) -> (n: usize)
        ensures
            n as int == count_invitation(self.coupons@, code),
    {
        let len = self.coupons.len();
        let mut n: usize = 0;
        let mut i: usize = 0;
        proof {
            assert(self.coupons@.take(0int) =~= Seq::<Coupon>::empty());
        }
        while i < len
            invariant
                i <= len,
                n <= i,
                len == self.coupons@.len(),
                n as int == count_invitation(self.coupons@.take(i as int), code),
            decreases len - i,
        {
            let c = self.coupons[i];
            proof {
                assert(self.coupons@.take(i + 1int).drop_last() =~= self.coupons@.take(i as int));
                assert(self.coupons@.take(i + 1int).last() == self.coupons@[i as int]);
            }
            let is_redemption = match c.code {
                CouponCode::Invitation(x) => x == code,
                _ => false,
            };
            if is_redemption {
                n = n + 1;
            }
            i = i + 1;
        }
        proof {
            assert(self.coupons@.take(len as int) =~= self.coupons@);
        }
        n
    }

    /// Register a new user.  The signup bonus coupon is always granted.  With
    /// an invitation code, redemption is rejected when the code already has
    /// [`INVITATION_CAP`] redemption coupons or no user owns it; on success
    /// the invitee and the inviter each receive their coupon, atomically with
    /// the new user row.  Returns the new user's id, which is also its own
    /// invitation code.
    #[verifier::rlimit(100)]
    pub fn register_user(&mut self, now: i64, invitation: Option<u64>) -> (r: Result<
        u64,
        DomainError,
    >)
        requires
            old(self).wf(),
            now >= old(self).clock,
            old(self).next_id < u64::MAX,
        ensures
            final(self).wf(),
            evolves(*old(self), *final(self)),
            r is Err ==> *final(self) == *old(self),
            invitation matches Some(code) && count_invitation(old(self).coupons@, code)
                >= INVITATION_CAP ==> r == Err::<u64, DomainError>(DomainError::InvitationExhausted),
            invitation matches Some(code) && count_invitation(old(self).coupons@, code)
                < INVITATION_CAP && !old(self).has_invitation_code(code) ==> r == Err::<
                u64,
                DomainError,
            >(DomainError::InvitationNotFound),
            r is Ok <==> (invitation is None || (count_invitation(
                old(self).coupons@,
                invitation->0,
            ) < INVITATION_CAP && old(self).has_invitation_code(invitation->0))),
            r matches Ok(uid) ==> ({
                &&& uid == old(self).next_id
                &&& final(self).users@ == old(self).users@.push(
                    (User { id: uid, invitation_code: uid }),
                )
                &&& (invitation is None ==> final(self).coupons@ == old(self).coupons@.push(
                    (Coupon {
                        user_id: uid,
                        code: CouponCode::Signup,
                        discount: SIGNUP_DISCOUNT,
                        granted_at: now,
                        used_by: None,
                    }),
                ))
                &&& (invitation matches Some(code) ==> final(self).coupons@ == old(
                    self,
                ).coupons@.push(
                    (Coupon {
                        user_id: uid,
                        code: CouponCode::Signup,
                        discount: SIGNUP_DISCOUNT,
                        granted_at: now,
                        used_by: None,
                    }),
                ).push(
                    (Coupon {
                        user_id: uid,
                        code: CouponCode::Invitation(code),
                        discount: INVITATION_DISCOUNT,
                        granted_at: now,
                        used_by: None,
                    }),
                ).push(
                    (Coupon {
                        user_id: old(self).users@[old(self).user_index_by_invitation(code)].id,
                        code: CouponCode::Reward(code),
                        discount: REWARD_DISCOUNT,
                        granted_at: now,
                        used_by: None,
                    }),
                ))
                &&& final(self).rides@ == old(self).rides@
                &&& final(self).events@ == old(self).events@
                &&& final(self).chairs@ == old(self).chairs@
                &&& final(self).owners@ == old(self).owners@
                &&& final(self).pings@ == old(self).pings@
                &&& final(self).payment_tokens@ == old(self).payment_tokens@
                &&& final(self).next_id == old(self).next_id + 1
                &&& final(self).clock == now
            }),
    {
        let user_id = self.next_id;
        let ghost pre = *old(self);

        let mut inviter_id: Option<u64> = None;
        if let Some(code) = invitation {
            let redeemed = self.count_invitation_coupons(code);
            proof {
                lemma_count_invitation_bounds(self.coupons@, code);
            }
            if redeemed >= INVITATION_CAP {
                return Err(DomainError::InvitationExhausted);
            }
            match self.find_user_by_invitation(code) {
                Some(i) => {
                    proof {
                        let j = self.user_index_by_invitation(code);
                        assert(0 <= j < self.users@.len() && self.users@[j].invitation_code
                            == code);
                        if i as int != j {
                            assert(self.users@[i as int].invitation_code
                                != self.users@[j].invitation_code);
                        }
                    }
                    inviter_id = Some(self.users[i].id);
                },
                None => {
                    return Err(DomainError::InvitationNotFound);
                },
            }
        }

        self.users.push(User { id: user_id, invitation_code: user_id });
        self.coupons.push(
            Coupon {
                user_id,
                code: CouponCode::Signup,
                discount: SIGNUP_DISCOUNT,
                granted_at: now,
                used_by: None,
            },
        );
        if let Some(code) = invitation {
            let inviter = match inviter_id {
                Some(x) => x,
                None => {
                    proof {
                        assert(false);
                    }
                    0
                },
            };
            self.coupons.push(
                Coupon {
                    user_id,
                    code: CouponCode::Invitation(code),
                    discount: INVITATION_DISCOUNT,
                    granted_at: now,
                    used_by: None,
                },
            );
            self.coupons.push(
                Coupon {
                    user_id: inviter,
                    code: CouponCode::Reward(code),
                    discount: REWARD_DISCOUNT,
                    granted_at: now,
                    used_by: None,
                },
            );
        }
        self.next_id = self.next_id + 1;
        self.clock = now;
        proof {
            let post = *self;
            // New identities are fresh, and old existence facts carry over.
            assert forall|x: u64| pre.has_user(x) implies post.has_user(x) by {
                let j = choose|j: int|
                    0 <= j < pre.users@.len() && (#[trigger] pre.users@[j]).id == x;
                assert(post.users@[j].id == x);
            }
            assert(post.users@[pre.users@.len() as int].id == user_id);
            assert(post.has_user(user_id));
            lemma_ride_ids_unchanged(pre, post);
            lemma_has_owner_unchanged(pre, post);
            lemma_chair_ids_unchanged(pre, post);
            // Every invitation count stays under the cap.
            let s0 = pre.coupons@;
            let signup = Coupon {
                user_id,
                code: CouponCode::Signup,
                discount: SIGNUP_DISCOUNT,
                granted_at: now,
                used_by: None,
            };
            let s1 = s0.push(signup);
            assert forall|c: u64| #[trigger] count_invitation(s1, c) == count_invitation(
                s0,
                c,
            ) by {
                lemma_count_invitation_push(s0, signup, c);
            }
            match invitation {
                Some(code) => {
                    let invc = Coupon {
                        user_id,
                        code: CouponCode::Invitation(code),
                        discount: INVITATION_DISCOUNT,
                        granted_at: now,
                        used_by: None,
                    };
                    let inviter = old(self).users@[old(self).user_index_by_invitation(code)].id;
                    let rwd = Coupon {
                        user_id: inviter,
                        code: CouponCode::Reward(code),
                        discount: REWARD_DISCOUNT,
                        granted_at: now,
                        used_by: None,
                    };
                    let s2 = s1.push(invc);
                    let s3 = s2.push(rwd);
                    assert(post.coupons@ == s3);
                    assert forall|c: u64| #[trigger] count_invitation(s3, c) <= INVITATION_CAP by {
                        lemma_count_invitation_push(s1, invc, c);
                        lemma_count_invitation_push(s2, rwd, c);
                        assert(count_invitation(pre.coupons@, c) <= INVITATION_CAP);
                        if c == code {
                            assert(count_invitation(pre.coupons@, c) < INVITATION_CAP);
                        }
                    }
                    assert(post.has_user(inviter));
                },
                None => {
                    assert(post.coupons@ == s1);
                },
            }
            assert(post.ids_ok());
            assert(post.clock_ok());
            assert(post.rides_ok());
            assert(post.coupons_ok());
            assert(post.invitation_cap_ok());
            assert(post.active_ok());
            assert(pre.users@.is_prefix_of(post.users@)) by {
                assert(post.users@.take(pre.users@.len() as int) =~= pre.users@);
            }
            assert(evolves(pre, post));
        }
        Ok(user_id)
    }

    /// Register a chair owner, returning its id.
    pub fn register_owner(&mut self, now: i64) -> (oid: u64)
        requires
            old(self).wf(),
            now >= old(self).clock,
            old(self).next_id < u64::MAX,
        ensures
            final(self).wf(),
            evolves(*old(self), *final(self)),
            oid == old(self).next_id,
            final(self).owners@ == old(self).owners@.push((Owner { id: oid })),
            final(self).users@ == old(self).users@,
            final(self).chairs@ == old(self).chairs@,
            final(self).rides@ == old(self).rides@,
            final(self).events@ == old(self).events@,
            final(self).coupons@ == old(self).coupons@,
            final(self).pings@ == old(self).pings@,
            final(self).payment_tokens@ == old(self).payment_tokens@,
            final(self).next_id == old(self).next_id + 1,
            final(self).clock == now,
    {
        let oid = self.next_id;
        self.owners.push(Owner { id: oid });
        self.next_id = self.next_id + 1;
        self.clock = now;
        proof {
            let pre = *old(self);
            let post = *self;
            assert forall|x: u64| pre.has_owner(x) implies post.has_owner(x) by {
                let j = choose|j: int|
                    0 <= j < pre.owners@.len() && (#[trigger] pre.owners@[j]).id == x;
                assert(post.owners@[j].id == x);
            }
            lemma_ride_ids_unchanged(pre, post);
            lemma_has_user_unchanged(pre, post);
            lemma_chair_ids_unchanged(pre, post);
            assert(post.wf());
            assert(pre.owners@.is_prefix_of(post.owners@)) by {
                assert(post.owners@.take(pre.owners@.len() as int) =~= pre.owners@);
            }
        }
        oid
    }

    /// Register a chair under an owner, initially inactive, returning its id.
    pub fn register_chair(&mut self, now: i64, owner_id: u64) -> (r: Result<u64, DomainError>)
        requires
            old(self).wf(),
            now >= old(self).clock,
            old(self).next_id < u64::MAX,
        ensures
            final(self).wf(),
            evolves(*old(self), *final(self)),
            r is Err ==> *final(self) == *old(self),
            r is Ok <==> old(self).has_owner(owner_id),
            !old(self).has_owner(owner_id) ==> r == Err::<u64, DomainError>(
                DomainError::OwnerNotFound,
            ),
            r matches Ok(cid) ==> ({
                &&& cid == old(self).next_id
                &&& final(self).chairs@ == old(self).chairs@.push(
                    (Chair { id: cid, owner_id, is_active: false }),
                )
                &&& final(self).users@ == old(self).users@
                &&& final(self).owners@ == old(self).owners@
                &&& final(self).rides@ == old(self).rides@
                &&& final(self).events@ == old(self).events@
                &&& final(self).coupons@ == old(self).coupons@
                &&& final(self).pings@ == old(self).pings@
                &&& final(self).payment_tokens@ == old(self).payment_tokens@
                &&& final(self).next_id == old(self).next_id + 1
                &&& final(self).clock == now
            }),
    {
        if self.find_owner(owner_id).is_none() {
            return Err(DomainError::OwnerNotFound);
        }
        let cid = self.next_id;
        self.chairs.push(Chair { id: cid, owner_id, is_active: false });
        self.next_id = self.next_id + 1;
        self.clock = now;
        proof {
            let pre = *old(self);
            let post = *self;
            assert forall|x: u64| pre.has_chair(x) implies post.has_chair(x) by {
                let j = choose|j: int|
                    0 <= j < pre.chairs@.len() && (#[trigger] pre.chairs@[j]).id == x;
                assert(post.chairs@[j].id == x);
            }
            lemma_ride_ids_unchanged(pre, post);
            lemma_has_user_unchanged(pre, post);
            lemma_has_owner_unchanged(pre, post);
            assert(post.wf());
            assert(pre.chairs@.is_prefix_of(post.chairs@)) by {
                assert(post.chairs@.take(pre.chairs@.len() as int) =~= pre.chairs@);
            }
        }
        Ok(cid)
    }

    /// Flip a chair's activity flag.
    pub fn set_chair_activity(&mut self, chair_id: u64, is_active: bool) -> (r: Result<
        (),
        DomainError,
    >)
        requires
            old(self).wf(),
        ensures
            final(self).wf(),
            evolves(*old(self), *final(self)),
            r is Err ==> *final(self) == *old(self),
            r is Ok <==> old(self).has_chair(chair_id),
            !old(self).has_chair(chair_id) ==> r == Err::<(), DomainError>(
                DomainError::ChairNotFound,
            ),
            r is Ok ==> ({
                &&& exists|i: int|
                    0 <= i < old(self).chairs@.len() && (#[trigger] old(self).chairs@[i]).id
                        == chair_id && final(self).chairs@ == old(self).chairs@.update(
                        i,
                        (Chair { is_active, ..old(self).chairs@[i] }),
                    )
                &&& final(self).users@ == old(self).users@
                &&& final(self).owners@ == old(self).owners@
                &&& final(self).rides@ == old(self).rides@
                &&& final(self).events@ == old(self).events@
                &&& final(self).coupons@ == old(self).coupons@
                &&& final(self).pings@ == old(self).pings@
                &&& final(self).payment_tokens@ == old(self).payment_tokens@
                &&& final(self).next_id == old(self).next_id
                &&& final(self).clock == old(self).clock
            }),
    {
        let i = match self.find_chair(chair_id) {
            Some(i) => i,
            None => {
                return Err(DomainError::ChairNotFound);
            },
        };
        let c = self.chairs[i];
        self.chairs[i] = Chair { id: c.id, owner_id: c.owner_id, is_active };
        proof {
            let pre = *old(self);
            let post = *self;
            assert forall|a: int| 0 <= a < post.chairs@.len() implies (
            #[trigger] post.chairs@[a]).id == pre.chairs@[a].id && post.chairs@[a].owner_id
                == pre.chairs@[a].owner_id by {}
            lemma_chair_ids_unchanged(pre, post);
            lemma_has_user_unchanged(pre, post);
            lemma_has_owner_unchanged(pre, post);
            lemma_ride_ids_unchanged(pre, post);
            assert(post.wf());
        }
        Ok(())
    }

    /// Register the user's payment credential; registering again is
    /// idempotent.
    pub fn register_payment_token(&mut self, user_id: u64) -> (r: Result<(), DomainError>)
        requires
            old(self).wf(),
        ensures
            final(self).wf(),
            evolves(*old(self), *final(self)),
            r is Err ==> *final(self) == *old(self),
            r is Ok <==> old(self).has_user(user_id),
            !old(self).has_user(user_id) ==> r == Err::<(), DomainError>(DomainError::UserNotFound),
            r is Ok ==> ({
                &&& final(self).has_payment_token(user_id)
                &&& (old(self).has_payment_token(user_id) ==> *final(self) == *old(self))
                &&& (!old(self).has_payment_token(user_id) ==> final(self).payment_tokens@ == old(
                    self,
                ).payment_tokens@.push(user_id))
                &&& final(self).users@ == old(self).users@
                &&& final(self).rides@ == old(self).rides@
                &&& final(self).events@ == old(self).events@
                &&& final(self).coupons@ == old(self).coupons@
                &&& final(self).clock == old(self).clock
            }),
    {
        if self.find_user(user_id).is_none() {
            return Err(DomainError::UserNotFound);
        }
        if self.payment_token_registered(user_id) {
            return Ok(());
        }
        self.payment_tokens.push(user_id);
        proof {
            let pre = *old(self);
            let post = *self;
            lemma_existence_unchanged(pre, post);
            lemma_ride_ids_unchanged(pre, post);
            assert(post.payment_tokens@.last() == user_id);
            assert(post.has_payment_token(user_id));
            assert(post.wf());
        }
        Ok(())
    }
}

} // verus!
