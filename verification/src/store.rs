//! The habit store: the full collection of records, identifier resolution
//! (by unique id, else by case-insensitive name), insertion and removal.

use vstd::prelude::*;
use vstd::string::StrSliceExecFns;

use crate::habit::Habit;
use crate::habit::HabitView;

verus! {

/// The full in-memory collection, the unit of persistence. Order is
/// insertion order.
pub struct HabitStore {
    pub habits: Vec<Habit>,
}

impl View for HabitStore {
    type V = Seq<HabitView>;

    open spec fn view(&self) -> Seq<HabitView> {
        self.habits@.map_values(|h: Habit| h@)
    }
}

/// Every record of the store is well formed.
pub open spec fn store_wf(s: Seq<HabitView>) -> bool {
    forall|i: int| 0 <= i < s.len() ==> (#[trigger] s[i]).wf()
}

/// The 128-bit value a string denotes when it is one of the textual unique-id
/// forms that identifier resolution accepts, if any.
pub uninterp spec fn uuid_of(s: Seq<char>) -> Option<u128>;

/// Relies on uuid::Uuid::try_parse (and Uuid::as_u128): whether a string is
/// one of the accepted textual UUID forms (simple, hyphenated, urn, braced),
/// and which 128-bit value it denotes, depend on the characters alone.
#[verifier::external_body]
fn parse_uuid(s: &str) -> (r: Option<u128>)
    ensures
        r == uuid_of(s@),
{
    match uuid::Uuid::try_parse(s) {
        Ok(u) => Some(u.as_u128()),
        Err(_) => None,
    }
}

/// The ASCII-case-folded code of a character: letters 'A' to 'Z' fold to
/// their lower-case counterparts, every other character stands for itself.
pub open spec fn lower_code(c: char) -> int {
    if 65 <= c as u32 <= 90 {
        c as u32 + 32
    } else {
        c as u32 as int
    }
}

/// Case-insensitive equality: equal lengths and equal folded characters.
pub open spec fn eq_ignore_case(a: Seq<char>, b: Seq<char>) -> bool {
    a.len() == b.len() && (forall|i: int|
        0 <= i < a.len() ==> lower_code(a[i]) == lower_code(b[i]))
}

fn lower_code_x(c: char) -> (r: u32)
    ensures
        r == lower_code(c),
{
    let u = c as u32;
    if 65 <= u && u <= 90 {
        u + 32
    } else {
        u
    }
}

/// ASCII-case-insensitive string equality.
pub fn eq_ignore_case_str(a: &str, b: &str) -> (r: bool)
    ensures
        r == eq_ignore_case(a@, b@),
{
    let la = a.unicode_len();
    let lb = b.unicode_len();
    if la != lb {
        return false;
    }
    let mut i: usize = 0;
    while i < la
        invariant
            la == a@.len(),
            la == b@.len(),
            i <= la,
            forall|j: int| 0 <= j < i ==> lower_code(a@[j]) == lower_code(b@[j]),
        decreases la - i,
    {
        if lower_code_x(a.get_char(i)) != lower_code_x(b.get_char(i)) {
            return false;
        }
        i += 1;
    }
    true
}

/// A record matches a plain unique id.
pub open spec fn id_matches(h: HabitView, id: u128) -> bool {
    h.id == id
}

/// A record matches a user identifier: by id when the identifier is a
/// textual unique id, else by case-insensitive name.
pub open spec fn ident_matches(h: HabitView, ident: Seq<char>) -> bool {
    match uuid_of(ident) {
        Option::Some(id) => id_matches(h, id),
        Option::None => eq_ignore_case(h.name, ident),
    }
}

/// `r` is the first match for the identifier in collection order, or no
/// record matches.
pub open spec fn resolve_rel(s: Seq<HabitView>, ident: Seq<char>, r: Option<int>) -> bool {
    match r {
        Option::Some(i) => 0 <= i < s.len() && ident_matches(s[i], ident) && (forall|j: int|
            0 <= j < i ==> !ident_matches(s[j], ident)),
        Option::None => forall|j: int| 0 <= j < s.len() ==> !ident_matches(s[j], ident),
    }
}

/// `r` is the first record holding the given id, or none does.
pub open spec fn resolve_by_id_rel(s: Seq<HabitView>, id: u128, r: Option<int>) -> bool {
    match r {
        Option::Some(i) => 0 <= i < s.len() && id_matches(s[i], id) && (forall|j: int|
            0 <= j < i ==> !id_matches(s[j], id)),
        Option::None => forall|j: int| 0 <= j < s.len() ==> !id_matches(s[j], id),
    }
}

impl HabitStore {
    /// The empty store.
    pub fn empty() -> (s: HabitStore)
        ensures
            s@ == Seq::<HabitView>::empty(),
    {
        let s = HabitStore { habits: Vec::new() };
        proof {
            assert(s@ =~= Seq::<HabitView>::empty());
        }
        s
    }

    /// Appends a record at the end of the collection. No uniqueness check:
    /// ids are kept unique by the caller handing in fresh ones.
    pub fn add(&mut self, h: Habit)
        ensures
            final(self)@ == old(self)@.push(h@),
    {
        let ghost hv = h@;
        self.habits.push(h);
        proof {
            assert(self@ =~= old(self)@.push(hv));
        }
    }

    /// Resolves a user identifier to the index of the first matching record:
    /// by exact id when the identifier parses as a unique id, else by
    /// case-insensitive exact name.
    pub fn find_by_ident(&self, ident: &str) -> (r: Option<usize>)
        ensures
            resolve_rel(
                self@,
                ident@,
                match r {
                    Option::Some(i) => Option::Some(i as int),
                    Option::None => Option::None,
                },
            ),
    {
        let parsed = parse_uuid(ident);
        let n = self.habits.len();
        let mut i: usize = 0;
        while i < n
            invariant
                parsed == uuid_of(ident@),
                n == self.habits.len(),
                i <= n,
                forall|j: int| 0 <= j < i ==> !ident_matches(self@[j], ident@),
            decreases n - i,
        {
            let found = match parsed {
                Option::Some(id) => self.habits[i].id == id,
                Option::None => eq_ignore_case_str(self.habits[i].name.as_str(), ident),
            };
            if found {
                return Some(i);
            }
            i += 1;
        }
        None
    }

    /// Removes every record matching the identifier, keeping the others in
    /// order. Returns whether any record matched.
    pub fn remove_by_ident(&mut self, ident: &str) -> (removed: bool)
        ensures
            final(self)@ == old(self)@.filter(|h: HabitView| !ident_matches(h, ident@)),
            removed == exists|j: int|
                0 <= j < old(self)@.len() && ident_matches(#[trigger] old(self)@[j], ident@),
            !removed ==> final(self)@ == old(self)@,
    {
        let ghost pred = |h: HabitView| !ident_matches(h, ident@);
        let parsed = parse_uuid(ident);
        let n = self.habits.len();
        let mut kept: Vec<Habit> = Vec::new();
        let mut any: bool = false;
        let mut i: usize = 0;
        while i < n
            invariant
                parsed == uuid_of(ident@),
                n == self.habits.len(),
                *self == *old(self),
                i <= n,
                kept@.map_values(|h: Habit| h@) == self@.subrange(0, i as int).filter(pred),
                pred == (|h: HabitView| !ident_matches(h, ident@)),
                any == exists|j: int| 0 <= j < i && ident_matches(#[trigger] self@[j], ident@),
            decreases n - i,
        {
            let matched = match parsed {
                Option::Some(id) => self.habits[i].id == id,
                Option::None => eq_ignore_case_str(self.habits[i].name.as_str(), ident),
            };
            let ghost prefix = self@.subrange(0, i as int);
            let ghost prefix1 = self@.subrange(0, i as int + 1);
            proof {
                reveal(Seq::filter);
                assert(prefix1.drop_last() =~= prefix);
                assert(prefix1.last() == self@[i as int]);
            }
            if matched {
                proof {
                    reveal(Seq::filter);
                    assert(ident_matches(self@[i as int], ident@));
                    assert(prefix1.filter(pred) =~= prefix.filter(pred));
                }
                any = true;
            } else {
                let h = self.habits[i].clone_record();
                proof {
                    assert(h@ == self@[i as int]);
                }
                kept.push(h);
                proof {
                    reveal(Seq::filter);
                    assert(prefix1.filter(pred) =~= prefix.filter(pred).push(self@[i as int]));
                    assert(kept@.map_values(|h2: Habit| h2@) =~= prefix1.filter(pred));
                }
            }
            i += 1;
        }
        proof {
            assert(self@.subrange(0, n as int) =~= self@);
        }
        self.habits = kept;
        proof {
            if !any {
                assert forall|j: int| 0 <= j < old(self)@.len() implies pred(
                    #[trigger] old(self)@[j],
                ) by {}
                lemma_filter_all_kept(old(self)@, pred);
            }
        }
        any
    }
}

/// Every element of a filtered sequence is an element of the source.
pub proof fn lemma_filter_elems<A>(s: Seq<A>, pred: spec_fn(A) -> bool)
    ensures
        forall|i: int|
            0 <= i < s.filter(pred).len() ==> s.contains(#[trigger] s.filter(pred)[i]),
    decreases s.len(),
{
    reveal(Seq::filter);
    if s.len() > 0 {
        lemma_filter_elems(s.drop_last(), pred);
        let out = s.filter(pred);
        let sub = s.drop_last().filter(pred);
        assert forall|i: int| 0 <= i < out.len() implies s.contains(out[i]) by {
            if i < sub.len() {
                assert(sub[i] == out[i]);
                let j = choose|j: int| 0 <= j < s.drop_last().len() && s.drop_last()[j] == sub[i];
                assert(s[j] == out[i]);
            } else {
                assert(out[i] == s.last());
                assert(s[s.len() - 1] == out[i]);
            }
        }
    }
}

/// A filter that keeps every element returns the sequence unchanged.
pub proof fn lemma_filter_all_kept<A>(s: Seq<A>, pred: spec_fn(A) -> bool)
    requires
        forall|j: int| 0 <= j < s.len() ==> pred(#[trigger] s[j]),
    ensures
        s.filter(pred) == s,
    decreases s.len(),
{
    reveal(Seq::filter);
    if s.len() == 0 {
        assert(s.filter(pred) =~= s);
    } else {
        lemma_filter_all_kept(s.drop_last(), pred);
        assert(s.filter(pred) =~= s);
    }
}

/// A record added under an id no existing record holds is resolved by that
/// id as the first (and only) match, with its fields intact.
pub proof fn lemma_create_then_resolve_by_id(s: Seq<HabitView>, h: HabitView)
    requires
        forall|j: int| 0 <= j < s.len() ==> (#[trigger] s[j]).id != h.id,
    ensures
        resolve_by_id_rel(s.push(h), h.id, Option::Some(s.len() as int)),
        s.push(h)[s.len() as int] == h,
{
}

/// Resolution precedence: when the identifier parses as a unique id, a
/// resolution outcome is an outcome of id lookup alone; name equality plays
/// no part.
pub proof fn lemma_resolution_precedence(s: Seq<HabitView>, ident: Seq<char>, r: Option<int>)
    ensures
        match uuid_of(ident) {
            Option::Some(id) => resolve_rel(s, ident, r) ==> resolve_by_id_rel(s, id, r),
            Option::None => true,
        },
{
}

} // verus!
