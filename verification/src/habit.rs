//! One tracked habit: its fields, its view, and the completion-history
//! mutation that keeps the history sorted and unique per calendar date.

use vstd::prelude::*;

use crate::ts::Timestamp;

verus! {

/// One tracked behavior. `id` is assigned at creation and never changes;
/// `completions` holds at most one timestamp per calendar date, sorted
/// ascending.
pub struct Habit {
    pub id: u128,
    pub name: String,
    pub description: Option<String>,
    pub created_at: Timestamp,
    pub completions: Vec<Timestamp>,
    pub target_frequency: Option<u32>,
    pub is_active: bool,
}

/// The mathematical model of a habit record.
pub struct HabitView {
    pub id: u128,
    pub name: Seq<char>,
    pub description: Option<Seq<char>>,
    pub created_at: Timestamp,
    pub completions: Seq<Timestamp>,
    pub target_frequency: Option<u32>,
    pub is_active: bool,
}

impl View for Habit {
    type V = HabitView;

    open spec fn view(&self) -> HabitView {
        HabitView {
            id: self.id,
            name: self.name@,
            description: match self.description {
                Option::Some(d) => Option::Some(d@),
                Option::None => Option::None,
            },
            created_at: self.created_at,
            completions: self.completions@,
            target_frequency: self.target_frequency,
            is_active: self.is_active,
        }
    }
}

/// The completion history is strictly sorted in time and holds at most one
/// entry per calendar date.
pub open spec fn completions_wf(s: Seq<Timestamp>) -> bool {
    &&& forall|i: int, j: int| 0 <= i < j < s.len() ==> s[i].lt(s[j])
    &&& forall|i: int, j: int| 0 <= i < j < s.len() ==> !s[i].same_date(s[j])
}

/// Every timestamp of the history is representable.
pub open spec fn completions_valid(s: Seq<Timestamp>) -> bool {
    forall|i: int| 0 <= i < s.len() ==> s[i].valid()
}

/// Some entry of the history falls on `t`'s calendar date.
pub open spec fn has_date(s: Seq<Timestamp>, t: Timestamp) -> bool {
    exists|i: int| 0 <= i < s.len() && s[i].same_date(t)
}

impl HabitView {
    /// A well-formed record: a representable creation time and a sorted,
    /// date-unique, representable completion history.
    pub open spec fn wf(self) -> bool {
        &&& self.created_at.valid()
        &&& completions_wf(self.completions)
        &&& completions_valid(self.completions)
    }
}

/// The insertion point `k` is the sorted position for `t`: everything before
/// it is not after `t`, and the entry at it (if any) is after `t`.
pub open spec fn sorted_position(pre: Seq<Timestamp>, t: Timestamp, k: int) -> bool {
    &&& 0 <= k <= pre.len()
    &&& (forall|j: int| 0 <= j < k ==> !t.lt(pre[j]))
    &&& (k < pre.len() ==> t.lt(pre[k]))
}

/// What one `mark_complete` call does to a completion history: it refuses a
/// timestamp whose calendar date is already present, and otherwise inserts
/// the timestamp at its sorted position.
pub open spec fn mark_complete_rel(
    pre: Seq<Timestamp>,
    t: Timestamp,
    post: Seq<Timestamp>,
    r: bool,
) -> bool {
    &&& r == !has_date(pre, t)
    &&& (!r ==> post == pre)
    &&& (r ==> exists|k: int| sorted_position(pre, t, k) && post == pre.insert(k, t))
}

/// Inserting a timestamp of an absent calendar date at its sorted position
/// keeps the history sorted and date-deduplicated.
pub proof fn lemma_insert_keeps_wf(pre: Seq<Timestamp>, t: Timestamp, k: int)
    requires
        completions_wf(pre),
        !has_date(pre, t),
        sorted_position(pre, t, k),
    ensures
        completions_wf(pre.insert(k, t)),
{
    let post = pre.insert(k, t);
    pre.insert_ensures(k, t);
    assert forall|j: int| 0 <= j < k implies pre[j].lt(t) by {
        crate::ts::lemma_lt_total(pre[j], t);
        if pre[j] == t {
            assert(pre[j].same_date(t));
        }
    }
    assert forall|i2: int, j2: int| 0 <= i2 < j2 < post.len() implies post[i2].lt(post[j2])
        && !post[i2].same_date(post[j2]) by {
        if j2 < k {
            assert(post[i2] == pre[i2] && post[j2] == pre[j2]);
        } else if i2 < k && j2 == k {
            assert(post[i2] == pre[i2] && post[j2] == t);
        } else if i2 < k && j2 > k {
            assert(post[i2] == pre[i2] && post[j2] == pre[j2 - 1]);
            if i2 == j2 - 1 {
                assert(false);
            }
        } else if i2 == k && j2 > k {
            assert(post[i2] == t && post[j2] == pre[j2 - 1]);
            if j2 - 1 > k {
                crate::ts::lemma_lt_trans(t, pre[k], pre[j2 - 1]);
            }
        } else {
            assert(i2 > k && j2 > k);
            assert(post[i2] == pre[i2 - 1] && post[j2] == pre[j2 - 1]);
        }
    }
}

/// Completing is idempotent per calendar date: after a completion lands on
/// some date, a second attempt with any timestamp of that date is refused
/// and changes nothing, whatever the two calls' exact times were.
pub proof fn lemma_complete_idempotent_per_date(
    pre: Seq<Timestamp>,
    t1: Timestamp,
    t2: Timestamp,
    mid: Seq<Timestamp>,
    r1: bool,
    post: Seq<Timestamp>,
    r2: bool,
)
    requires
        t1.same_date(t2),
        mark_complete_rel(pre, t1, mid, r1),
        mark_complete_rel(mid, t2, post, r2),
    ensures
        !r2,
        post == mid,
{
    if r1 {
        let k = choose|k: int| sorted_position(pre, t1, k) && mid == pre.insert(k, t1);
        pre.insert_ensures(k, t1);
        assert(mid[k] == t1);
        assert(mid[k].same_date(t2));
        assert(has_date(mid, t2));
    } else {
        let i = choose|i: int| 0 <= i < pre.len() && pre[i].same_date(t1);
        assert(mid[i].same_date(t2));
        assert(has_date(mid, t2));
    }
}

/// A fresh history satisfies the completion invariant, and every
/// `mark_complete` keeps it: sorted ascending, one entry per calendar date.
pub proof fn lemma_completions_always_wf(
    pre: Seq<Timestamp>,
    t: Timestamp,
    post: Seq<Timestamp>,
    r: bool,
)
    requires
        completions_wf(pre),
        mark_complete_rel(pre, t, post, r),
    ensures
        completions_wf(post),
        completions_wf(Seq::<Timestamp>::empty()),
{
    if r {
        let k = choose|k: int| sorted_position(pre, t, k) && post == pre.insert(k, t);
        lemma_insert_keeps_wf(pre, t, k);
    }
}

impl Habit {
    /// A fresh record: the given fields, an empty history, active.
    pub fn new(
        id: u128,
        name: String,
        description: Option<String>,
        target_frequency: Option<u32>,
        created_at: Timestamp,
    ) -> (h: Habit)
        ensures
            h@ == (HabitView {
                id,
                name: name@,
                description: match description {
                    Option::Some(d) => Option::Some(d@),
                    Option::None => Option::None,
                },
                created_at,
                completions: Seq::<Timestamp>::empty(),
                target_frequency,
                is_active: true,
            }),
    {
        let h = Habit {
            id,
            name,
            description,
            created_at,
            completions: Vec::new(),
            target_frequency,
            is_active: true,
        };
        proof {
            assert(h@.completions =~= Seq::<Timestamp>::empty());
        }
        h
    }

    /// A field-for-field copy of the record.
    pub fn clone_record(&self) -> (h: Habit)
        ensures
            h@ == self@,
    {
        let n = self.completions.len();
        let mut cs: Vec<Timestamp> = Vec::new();
        let mut i: usize = 0;
        while i < n
            invariant
                n == self.completions.len(),
                i <= n,
                cs@ == self.completions@.subrange(0, i as int),
            decreases n - i,
        {
            cs.push(self.completions[i]);
            proof {
                assert(cs@ =~= self.completions@.subrange(0, i as int + 1));
            }
            i += 1;
        }
        proof {
            assert(cs@ =~= self.completions@);
        }
        let h = Habit {
            id: self.id,
            name: self.name.clone(),
            description: match &self.description {
                Some(d) => Some(d.clone()),
                None => None,
            },
            created_at: self.created_at,
            completions: cs,
            target_frequency: self.target_frequency,
            is_active: self.is_active,
        };
        h
    }

    pub fn name_ref(&self) -> (r: &str)
        ensures
            r@ == self.name@,
    {
        self.name.as_str()
    }

    pub fn recent_completions(&self) -> (r: &Vec<Timestamp>)
        ensures
            r@ == self@.completions,
    {
        &self.completions
    }

    /// Records a completion, unless one of the same calendar date exists.
    /// Keeps the history sorted and date-unique, and touches no other field.
    pub fn mark_complete(&mut self, t: Timestamp) -> (r: bool)
        ensures
            mark_complete_rel(old(self)@.completions, t, final(self)@.completions, r),
            final(self).id == old(self).id,
            final(self).name == old(self).name,
            final(self).description == old(self).description,
            final(self).created_at == old(self).created_at,
            final(self).target_frequency == old(self).target_frequency,
            final(self).is_active == old(self).is_active,
            !r ==> *final(self) == *old(self),
            (r && completions_wf(old(self)@.completions)) ==> completions_wf(
                final(self)@.completions,
            ),
            (r && completions_valid(old(self)@.completions) && t.valid()) ==> completions_valid(
                final(self)@.completions,
            ),
    {
        let n = self.completions.len();
        let mut i: usize = 0;
        while i < n
            invariant
                *self == *old(self),
                n == self.completions.len(),
                i <= n,
                forall|j: int| 0 <= j < i ==> !self.completions@[j].same_date(t),
            decreases n - i,
        {
            if self.completions[i].date_eq(&t) {
                return false;
            }
            i += 1;
        }
        // No entry shares t's date; find the sorted insertion point.
        let mut k: usize = 0;
        loop
            invariant
                *self == *old(self),
                n == self.completions.len(),
                k <= n,
                forall|j: int| 0 <= j < n ==> !self.completions@[j].same_date(t),
                forall|j: int| 0 <= j < k ==> !t.lt(self.completions@[j]),
            ensures
                *self == *old(self),
                k <= n,
                forall|j: int| 0 <= j < k ==> !t.lt(self.completions@[j]),
                k < n ==> t.lt(self.completions@[k as int]),
            decreases n - k,
        {
            if k >= n {
                break ;
            }
            if t.time_lt(&self.completions[k]) {
                break ;
            }
            k += 1;
        }
        self.completions.insert(k, t);
        proof {
            let ki = k as int;
            let pre = old(self)@.completions;
            let post = self.completions@;
            assert(post == pre.insert(ki, t));
            pre.insert_ensures(ki, t);
            assert(!has_date(pre, t));
            assert(exists|j: int| sorted_position(pre, t, j) && post == pre.insert(j, t)) by {
                assert(sorted_position(pre, t, ki) && post == pre.insert(ki, t));
            }
            if completions_wf(pre) {
                lemma_insert_keeps_wf(pre, t, ki);
            }
        }
        true
    }
}

} // verus!
