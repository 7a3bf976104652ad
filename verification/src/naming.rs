//! Naming-convention advice for user-defined word names.
use crate::text::{seq_starts_with, spec_to_uppercase, str_equal, str_starts_with, to_uppercase};
use vstd::prelude::*;

verus! {

pub const AMBIGUOUS_PREFIX_COUNT: usize = 6;

pub const AMBIGUOUS_NAME_COUNT: usize = 8;

/// The verb prefixes that name no particular action.
pub open spec fn ambiguous_prefix(i: int) -> &'static str {
    if i == 0 {
        "DO-"
    } else if i == 1 {
        "HANDLE-"
    } else if i == 2 {
        "PROCESS-"
    } else if i == 3 {
        "MANAGE-"
    } else if i == 4 {
        "UTIL-"
    } else {
        "HELPER-"
    }
}

/// Whole names too vague to describe a word.
pub open spec fn ambiguous_name(i: int) -> &'static str {
    if i == 0 {
        "CALC"
    } else if i == 1 {
        "RUN"
    } else if i == 2 {
        "EXEC2"
    } else if i == 3 {
        "TEMP"
    } else if i == 4 {
        "MAIN"
    } else if i == 5 {
        "TEST"
    } else if i == 6 {
        "STUFF"
    } else {
        "THING"
    }
}

/// The first ambiguous prefix (at index `i` or later) that `u` starts with.
pub open spec fn first_prefix_match(u: Seq<char>, i: int) -> Option<int>
    decreases 6 - i,
{
    if i >= 6 || i < 0 {
        None
    } else if seq_starts_with(u, ambiguous_prefix(i)@) {
        Some(i)
    } else {
        first_prefix_match(u, i + 1)
    }
}

pub open spec fn is_ambiguous_name(u: Seq<char>) -> bool {
    exists|i: int| 0 <= i < 8 && ambiguous_name(i)@ == u
}

/// The advice for the ambiguous verb `verb` in the upper-cased name `u`.
pub open spec fn verb_message(u: Seq<char>, verb: Seq<char>) -> Seq<char> {
    "Warning: '"@ + u + "': naming convention violation: ambiguous verb '"@ + verb
        + "'. Consider: 'APPLY-...' or 'RESOLVE-...'\n  See: §DEV-NAMING-INDEX"@
}

/// The advice for the ambiguous whole name `u`.
pub open spec fn name_message(u: Seq<char>) -> Seq<char> {
    "Warning: '"@ + u
        + "': naming convention violation: ambiguous word name. Consider a more specific action_object name.\n  See: §DEV-NAMING-INDEX"@
}

/// The advice for an upper-cased word name: an ambiguous verb prefix first
/// (its verb is the prefix without the hyphen), then an ambiguous whole name;
/// every other name passes.
pub open spec fn naming_advice(u: Seq<char>) -> Option<Seq<char>> {
    match first_prefix_match(u, 0) {
        Some(i) => Some(verb_message(u, ambiguous_prefix(i)@.drop_last())),
        None => if is_ambiguous_name(u) {
            Some(name_message(u))
        } else {
            None
        },
    }
}

fn prefix_at(i: usize) -> (r: &'static str)
    requires
        i < 6,
    ensures
        r == ambiguous_prefix(i as int),
        r@.len() >= 1,
{
    if i == 0 {
        proof {
            reveal_strlit("DO-");
        }
        "DO-"
    } else if i == 1 {
        proof {
            reveal_strlit("HANDLE-");
        }
        "HANDLE-"
    } else if i == 2 {
        proof {
            reveal_strlit("PROCESS-");
        }
        "PROCESS-"
    } else if i == 3 {
        proof {
            reveal_strlit("MANAGE-");
        }
        "MANAGE-"
    } else if i == 4 {
        proof {
            reveal_strlit("UTIL-");
        }
        "UTIL-"
    } else {
        proof {
            reveal_strlit("HELPER-");
        }
        "HELPER-"
    }
}

fn name_at(i: usize) -> (r: &'static str)
    requires
        i < 8,
    ensures
        r == ambiguous_name(i as int),
{
    if i == 0 {
        "CALC"
    } else if i == 1 {
        "RUN"
    } else if i == 2 {
        "EXEC2"
    } else if i == 3 {
        "TEMP"
    } else if i == 4 {
        "MAIN"
    } else if i == 5 {
        "TEST"
    } else if i == 6 {
        "STUFF"
    } else {
        "THING"
    }
}

/// The advice for a name that is already upper-cased.
pub fn naming_advice_for_upper(upper: &str) -> (r: Option<String>)
    ensures
        r matches Some(m) ==> naming_advice(upper@) == Some(m@),
        r is None ==> naming_advice(upper@) is None,
{
    let mut i: usize = 0;
    while i < AMBIGUOUS_PREFIX_COUNT
        invariant
            0 <= i <= 6,
            first_prefix_match(upper@, 0) == first_prefix_match(upper@, i as int),
        decreases 6 - i,
    {
        let p = prefix_at(i);
        if str_starts_with(upper, p) {
            let plen = p.unicode_len();
            let verb = p.substring_char(0, plen - 1);
            let mut m = String::from_str("Warning: '");
            m.append(upper);
            m.append("': naming convention violation: ambiguous verb '");
            m.append(verb);
            m.append("'. Consider: 'APPLY-...' or 'RESOLVE-...'\n  See: §DEV-NAMING-INDEX");
            proof {
                assert(verb@ == p@.drop_last());
            }
            return Some(m);
        }
        i = i + 1;
    }
    let mut j: usize = 0;
    while j < AMBIGUOUS_NAME_COUNT
        invariant
            0 <= j <= 8,
            first_prefix_match(upper@, 0) is None,
            forall|k: int| 0 <= k < j ==> ambiguous_name(k)@ != upper@,
        decreases 8 - j,
    {
        if str_equal(name_at(j), upper) {
            let mut m = String::from_str("Warning: '");
            m.append(upper);
            m.append(
                "': naming convention violation: ambiguous word name. Consider a more specific action_object name.\n  See: §DEV-NAMING-INDEX",
            );
            return Some(m);
        }
        j = j + 1;
    }
    None
}

/// Naming-convention advice for a word name, compared case-insensitively: a
/// warning naming the ambiguous verb or the ambiguous name, or `None` when
/// the name follows the convention.
pub fn check_word_name_convention(name: &str) -> (r: Option<String>)
    ensures
        r matches Some(m) ==> naming_advice(spec_to_uppercase(name@)) == Some(m@),
        r is None ==> naming_advice(spec_to_uppercase(name@)) is None,
{
    let upper = to_uppercase(name);
    naming_advice_for_upper(upper.as_str())
}

} // verus!
