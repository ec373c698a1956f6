//! The command-execution layer: one parsed command is applied to a loaded
//! store, yielding the mutated store and a structured outcome or an error.
//! The caller loads the store first, saves it afterwards on success, and
//! renders the outcome; nothing here touches a file.

use vstd::prelude::*;
use vstd::string::StrSliceExecFns;
use vstd::string::StringExecFns;

use crate::error::ErrorView;
use crate::error::HabitError;
use crate::habit::Habit;
use crate::habit::HabitView;
use crate::habit::has_date;
use crate::habit::mark_complete_rel;
use crate::num::spec_parse_u32;
use crate::num::parse_u32_str;
use crate::store::HabitStore;
use crate::store::eq_ignore_case;
use crate::store::eq_ignore_case_str;
use crate::store::ident_matches;
use crate::store::resolve_rel;
use crate::ts::Timestamp;

verus! {

/// A whitespace character, by the Unicode White_Space property.
pub open spec fn is_ws_char(c: char) -> bool {
    let u = c as u32;
    u == 0x20 || (0x9 <= u && u <= 0xD) || u == 0x85 || u == 0xA0 || u == 0x1680 || (0x2000 <= u
        && u <= 0x200A) || u == 0x2028 || u == 0x2029 || u == 0x202F || u == 0x205F || u == 0x3000
}

/// The string is empty after trimming: every character is whitespace.
pub open spec fn is_blank(s: Seq<char>) -> bool {
    forall|i: int| 0 <= i < s.len() ==> is_ws_char(#[trigger] s[i])
}

/// Whether a name is empty after trimming.
pub fn is_blank_str(s: &str) -> (r: bool)
    ensures
        r == is_blank(s@),
{
    let len = s.unicode_len();
    let mut i: usize = 0;
    while i < len
        invariant
            len == s@.len(),
            i <= len,
            forall|j: int| 0 <= j < i ==> is_ws_char(#[trigger] s@[j]),
        decreases len - i,
    {
        let u = s.get_char(i) as u32;
        let ws = u == 0x20 || (0x9 <= u && u <= 0xD) || u == 0x85 || u == 0xA0 || u == 0x1680 || (
        0x2000 <= u && u <= 0x200A) || u == 0x2028 || u == 0x2029 || u == 0x202F || u == 0x205F
            || u == 0x3000;
        if !ws {
            return false;
        }
        i += 1;
    }
    true
}

/// A parsed command-line request.
pub struct Cli {
    pub command: Commands,
}

/// The command surface: one variant per user-facing command, with
/// already-parsed arguments.
pub enum Commands {
    /// Add a new habit.
    Add { name: String, description: Option<String>, frequency: Option<u32> },
    /// List habits, all or only the active ones.
    List { active: bool },
    /// Mark a habit complete for the given moment's calendar date.
    Complete { identifier: String },
    /// Remove every habit matching an identifier.
    Remove { identifier: String },
    /// Edit a habit's metadata; "null" clears an optional field.
    Edit {
        identifier: String,
        name: Option<String>,
        description: Option<String>,
        frequency: Option<String>,
        active: Option<bool>,
    },
}

/// What a successful command reports back.
pub enum Outcome {
    Added { id: u128, name: String },
    Listed { habits: Vec<Habit> },
    Completed { name: String },
    Removed { identifier: String },
    Edited { name: String },
}

pub open spec fn opt_view(o: Option<String>) -> Option<Seq<char>> {
    match o {
        Option::Some(s) => Option::Some(s@),
        Option::None => Option::None,
    }
}

/// The record `add` creates: the given fields, an empty history, active.
pub open spec fn created_view(
    id: u128,
    name: Seq<char>,
    description: Option<Seq<char>>,
    frequency: Option<u32>,
    now: Timestamp,
) -> HabitView {
    HabitView {
        id,
        name,
        description,
        created_at: now,
        completions: Seq::empty(),
        target_frequency: frequency,
        is_active: true,
    }
}

/// What `add` does: a blank name is refused, otherwise the new record is
/// appended and announced under its fresh id.
pub open spec fn add_rel(
    pre: Seq<HabitView>,
    post: Seq<HabitView>,
    name: Seq<char>,
    description: Option<Seq<char>>,
    frequency: Option<u32>,
    now: Timestamp,
    fresh_id: u128,
    r: Result<Outcome, HabitError>,
) -> bool {
    if is_blank(name) {
        &&& post == pre
        &&& (r matches Err(e) && e@ == ErrorView::InvalidName(name))
    } else {
        &&& post == pre.push(created_view(fresh_id, name, description, frequency, now))
        &&& (r matches Ok(o) && o matches Outcome::Added { id, name: n } && id == fresh_id && n@
            == name)
    }
}

/// What `list` does: the store is untouched and the matching records are
/// reported in order, all of them or only the active ones.
pub open spec fn list_rel(
    pre: Seq<HabitView>,
    post: Seq<HabitView>,
    active: bool,
    r: Result<Outcome, HabitError>,
) -> bool {
    &&& post == pre
    &&& (r matches Ok(o) && o matches Outcome::Listed { habits } && habits@.map_values(
        |h: Habit| h@,
    ) == pre.filter(|h: HabitView| !active || h.is_active))
}

/// What `complete` does: the first record matching the identifier gets the
/// timestamp recorded, unless none matches or its date is already recorded.
pub open spec fn complete_rel(
    pre: Seq<HabitView>,
    post: Seq<HabitView>,
    identifier: Seq<char>,
    now: Timestamp,
    r: Result<Outcome, HabitError>,
) -> bool {
    match r {
        Result::Ok(o) => exists|i: int|
            #![auto]
            {
                &&& resolve_rel(pre, identifier, Option::Some(i))
                &&& post == pre.update(i, post[i])
                &&& mark_complete_rel(pre[i].completions, now, post[i].completions, true)
                &&& (post[i] == (HabitView { completions: post[i].completions, ..pre[i] }))
                &&& (o matches Outcome::Completed { name } && name@ == pre[i].name)
            },
        Result::Err(e) => {
            &&& post == pre
            &&& ((e@ == ErrorView::NotFound(identifier) && resolve_rel(
                pre,
                identifier,
                Option::None,
            )) || (exists|i: int|
                #![auto]
                {
                    &&& resolve_rel(pre, identifier, Option::Some(i))
                    &&& has_date(pre[i].completions, now)
                    &&& e@ == ErrorView::AlreadyCompleted(pre[i].name)
                }))
        },
    }
}

/// What `remove` does: every matching record is dropped, and an identifier
/// nothing matches is an error that changes nothing.
pub open spec fn remove_rel(
    pre: Seq<HabitView>,
    post: Seq<HabitView>,
    identifier: Seq<char>,
    r: Result<Outcome, HabitError>,
) -> bool {
    match r {
        Result::Ok(o) => {
            &&& post == pre.filter(|h: HabitView| !ident_matches(h, identifier))
            &&& (exists|j: int|
                0 <= j < pre.len() && ident_matches(#[trigger] pre[j], identifier))
            &&& (o matches Outcome::Removed { identifier: out } && out@ == identifier)
        },
        Result::Err(e) => {
            &&& post == pre
            &&& (forall|j: int|
                0 <= j < pre.len() ==> !ident_matches(#[trigger] pre[j], identifier))
            &&& e@ == ErrorView::NotFound(identifier)
        },
    }
}

/// The record an `edit` produces: each given field replaces the old one,
/// the word "null" (any case) clearing the description or the target.
pub open spec fn edited_view(
    h: HabitView,
    name: Option<Seq<char>>,
    description: Option<Seq<char>>,
    frequency: Option<Seq<char>>,
    active: Option<bool>,
) -> HabitView {
    HabitView {
        id: h.id,
        name: match name {
            Option::Some(n) => n,
            Option::None => h.name,
        },
        description: match description {
            Option::Some(d) => if eq_ignore_case(d, "null"@) {
                Option::None
            } else {
                Option::Some(d)
            },
            Option::None => h.description,
        },
        created_at: h.created_at,
        completions: h.completions,
        target_frequency: match frequency {
            Option::Some(f) => if eq_ignore_case(f, "null"@) {
                Option::None
            } else {
                match spec_parse_u32(f) {
                    Option::Some(v) => Option::Some(v),
                    Option::None => h.target_frequency,
                }
            },
            Option::None => h.target_frequency,
        },
        is_active: match active {
            Option::Some(a) => a,
            Option::None => h.is_active,
        },
    }
}

/// A given frequency string is acceptable: the clearing word "null" or a
/// 32-bit decimal.
pub open spec fn frequency_ok(frequency: Option<Seq<char>>) -> bool {
    match frequency {
        Option::Some(f) => eq_ignore_case(f, "null"@) || spec_parse_u32(f) is Some,
        Option::None => true,
    }
}

/// What `edit` does: resolution first, then name validation, then frequency
/// validation, and only then the in-place update; every error leaves the
/// store unchanged.
pub open spec fn edit_rel(
    pre: Seq<HabitView>,
    post: Seq<HabitView>,
    identifier: Seq<char>,
    name: Option<Seq<char>>,
    description: Option<Seq<char>>,
    frequency: Option<Seq<char>>,
    active: Option<bool>,
    r: Result<Outcome, HabitError>,
) -> bool {
    match r {
        Result::Ok(o) => exists|i: int|
            #![auto]
            {
                &&& resolve_rel(pre, identifier, Option::Some(i))
                &&& (name matches Option::Some(n) ==> !is_blank(n))
                &&& frequency_ok(frequency)
                &&& post == pre.update(i, edited_view(pre[i], name, description, frequency, active))
                &&& (o matches Outcome::Edited { name: out } && out@ == edited_view(
                    pre[i],
                    name,
                    description,
                    frequency,
                    active,
                ).name)
            },
        Result::Err(e) => {
            &&& post == pre
            &&& ((e@ == ErrorView::NotFound(identifier) && resolve_rel(
                pre,
                identifier,
                Option::None,
            )) || ((exists|i: int| resolve_rel(pre, identifier, Option::Some(i))) && (
            match name {
                Option::Some(n) => is_blank(n) && e@ == ErrorView::InvalidName(n),
                Option::None => false,
            } || ((name matches Option::Some(n) ==> !is_blank(n)) && !frequency_ok(frequency) && e@
                == ErrorView::InvalidName("frequency"@)))))
        },
    }
}

/// Applies one command to the store. Mutating commands leave the store ready
/// to be saved; `List` leaves it untouched. `now` is the moment the command
/// runs at and `fresh_id` a new unique id for `Add`.
pub fn run(store: &mut HabitStore, cli: Cli, now: Timestamp, fresh_id: u128) -> (r: Result<
    Outcome,
    HabitError,
>)
    ensures
        match cli.command {
            Commands::Add { name, description, frequency } => add_rel(
                old(store)@,
                final(store)@,
                name@,
                opt_view(description),
                frequency,
                now,
                fresh_id,
                r,
            ),
            Commands::List { active } => list_rel(old(store)@, final(store)@, active, r),
            Commands::Complete { identifier } => complete_rel(
                old(store)@,
                final(store)@,
                identifier@,
                now,
                r,
            ),
            Commands::Remove { identifier } => remove_rel(
                old(store)@,
                final(store)@,
                identifier@,
                r,
            ),
            Commands::Edit { identifier, name, description, frequency, active } => edit_rel(
                old(store)@,
                final(store)@,
                identifier@,
                opt_view(name),
                opt_view(description),
                opt_view(frequency),
                active,
                r,
            ),
        },
        (crate::store::store_wf(old(store)@) && now.valid()) ==> crate::store::store_wf(
            final(store)@,
        ),
{
    let ghost prewf = crate::store::store_wf(store@) && now.valid();
    match cli.command {
        Commands::Add { name, description, frequency } => {
            if is_blank_str(name.as_str()) {
                return Err(HabitError::InvalidName(name));
            }
            let title = name.clone();
            let habit = Habit::new(fresh_id, name, description, frequency, now);
            proof {
                assert(habit@ == created_view(fresh_id, name@, opt_view(description), frequency, now));
            }
            store.add(habit);
            proof {
                assert(store@ == old(store)@.push(
                    created_view(fresh_id, name@, opt_view(description), frequency, now),
                ));
                assert(title@ == name@);
                assert(!is_blank(name@));
                if prewf {
                    let nv = created_view(fresh_id, name@, opt_view(description), frequency, now);
                    assert(crate::habit::completions_wf(nv.completions));
                    assert(crate::habit::completions_valid(nv.completions));
                    assert(nv.wf());
                    assert forall|k: int| 0 <= k < store@.len() implies (
                    #[trigger] store@[k]).wf() by {
                        if k < old(store)@.len() {
                            assert(old(store)@[k].wf());
                        }
                    }
                }
            }
            Ok(Outcome::Added { id: fresh_id, name: title })
        },
        Commands::List { active } => {
            let ghost pred = |h: HabitView| !active || h.is_active;
            let n = store.habits.len();
            let mut entries: Vec<Habit> = Vec::new();
            let mut i: usize = 0;
            while i < n
                invariant
                    n == store.habits.len(),
                    *store == *old(store),
                    i <= n,
                    entries@.map_values(|h: Habit| h@) == store@.subrange(0, i as int).filter(pred),
                    pred == (|h: HabitView| !active || h.is_active),
                decreases n - i,
            {
                let ghost prefix = store@.subrange(0, i as int);
                let ghost prefix1 = store@.subrange(0, i as int + 1);
                proof {
                    reveal(Seq::filter);
                    assert(prefix1.drop_last() =~= prefix);
                    assert(prefix1.last() == store@[i as int]);
                }
                if !active || store.habits[i].is_active {
                    let h = store.habits[i].clone_record();
                    proof {
                        assert(h@ == store@[i as int]);
                    }
                    entries.push(h);
                    proof {
                        reveal(Seq::filter);
                        assert(prefix1.filter(pred) =~= prefix.filter(pred).push(
                            store@[i as int],
                        ));
                        assert(entries@.map_values(|h2: Habit| h2@) =~= prefix1.filter(pred));
                    }
                } else {
                    proof {
                        reveal(Seq::filter);
                        assert(prefix1.filter(pred) =~= prefix.filter(pred));
                    }
                }
                i += 1;
            }
            proof {
                assert(store@.subrange(0, n as int) =~= store@);
            }
            Ok(Outcome::Listed { habits: entries })
        },
        Commands::Complete { identifier } => {
            let found = store.find_by_ident(identifier.as_str());
            match found {
                None => Err(HabitError::NotFound(identifier)),
                Some(i) => {
                    proof {
                        assert(store@.len() == store.habits@.len());
                    }
                    let ghost pre = store@;
                    let ghost oldh = store@[i as int];
                    let mut h = store.habits.remove(i);
                    proof {
                        assert(h@ == oldh);
                    }
                    let ok = h.mark_complete(now);
                    let title = h.name.clone();
                    let ghost hv = h@;
                    store.habits.insert(i, h);
                    proof {
                        assert(store@ =~= pre.update(i as int, hv));
                        if !ok {
                            assert(hv == oldh);
                            assert(store@ =~= pre);
                        }
                    }
                    if !ok {
                        proof {
                            let gi = i as int;
                            assert(resolve_rel(pre, identifier@, Option::Some(gi)));
                            assert(has_date(pre[gi].completions, now));
                            assert(title@ == pre[gi].name);
                        }
                        Err(HabitError::AlreadyCompleted(title))
                    } else {
                        proof {
                            let gi = i as int;
                            assert(resolve_rel(pre, identifier@, Option::Some(gi)));
                            assert(store@ == pre.update(gi, hv));
                            assert(store@[gi] == hv);
                            assert(mark_complete_rel(
                                pre[gi].completions,
                                now,
                                store@[gi].completions,
                                true,
                            ));
                            assert(store@[gi] == (HabitView {
                                completions: store@[gi].completions,
                                ..pre[gi]
                            }));
                            assert(title@ == pre[gi].name);
                            if prewf {
                                assert(pre[gi].wf());
                                assert(hv.wf());
                                assert forall|k: int| 0 <= k < store@.len() implies (
                                #[trigger] store@[k]).wf() by {
                                    if k != gi {
                                        assert(store@[k] == pre[k]);
                                    }
                                }
                            }
                        }
                        Ok(Outcome::Completed { name: title })
                    }
                },
            }
        },
        Commands::Remove { identifier } => {
            let removed = store.remove_by_ident(identifier.as_str());
            proof {
                if prewf {
                    let pred = |h: HabitView| !ident_matches(h, identifier@);
                    crate::store::lemma_filter_elems(old(store)@, pred);
                    assert forall|k: int| 0 <= k < store@.len() implies (
                    #[trigger] store@[k]).wf() by {
                        assert(old(store)@.contains(store@[k]));
                        let j = choose|j: int|
                            0 <= j < old(store)@.len() && old(store)@[j] == store@[k];
                        assert(old(store)@[j].wf());
                    }
                }
            }
            if removed {
                Ok(Outcome::Removed { identifier })
            } else {
                Err(HabitError::NotFound(identifier))
            }
        },
        Commands::Edit { identifier, name, description, frequency, active } => {
            let found = store.find_by_ident(identifier.as_str());
            let i = match found {
                None => {
                    return Err(HabitError::NotFound(identifier));
                },
                Some(i) => i,
            };
            let new_name: Option<String> = match name {
                Some(n) => {
                    if is_blank_str(n.as_str()) {
                        return Err(HabitError::InvalidName(n));
                    }
                    Some(n)
                },
                None => None,
            };
            let new_freq: Option<Option<u32>> = match frequency {
                Some(f) => {
                    if eq_ignore_case_str(f.as_str(), "null") {
                        Some(None)
                    } else {
                        match parse_u32_str(f.as_str()) {
                            Some(v) => Some(Some(v)),
                            None => {
                                return Err(HabitError::InvalidName(String::from_str("frequency")));
                            },
                        }
                    }
                },
                None => None,
            };
            let new_desc: Option<Option<String>> = match description {
                Some(d) => {
                    if eq_ignore_case_str(d.as_str(), "null") {
                        Some(None)
                    } else {
                        Some(Some(d))
                    }
                },
                None => None,
            };
            proof {
                assert(store@.len() == store.habits@.len());
            }
            let mut h = store.habits.remove(i);
            match new_name {
                Some(n) => {
                    h.name = n;
                },
                None => {},
            }
            match new_desc {
                Some(d) => {
                    h.description = d;
                },
                None => {},
            }
            match new_freq {
                Some(f) => {
                    h.target_frequency = f;
                },
                None => {},
            }
            match active {
                Some(a) => {
                    h.is_active = a;
                },
                None => {},
            }
            let title = h.name.clone();
            let ghost hv = h@;
            store.habits.insert(i, h);
            proof {
                assert(store@ =~= old(store)@.update(i as int, hv));
                if prewf {
                    assert(old(store)@[i as int].wf());
                    assert(hv.completions == old(store)@[i as int].completions);
                    assert(hv.created_at == old(store)@[i as int].created_at);
                    assert(hv.wf());
                    assert forall|k: int| 0 <= k < store@.len() implies (
                    #[trigger] store@[k]).wf() by {
                        if k != i as int {
                            assert(store@[k] == old(store)@[k]);
                        }
                    }
                }
            }
            Ok(Outcome::Edited { name: title })
        },
    }
}

} // verus!
