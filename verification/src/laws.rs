//! Library-wide guarantees, stated and proved once over the model.
//!
//! Each law speaks about every argument vector through the spec functions
//! that the handler's contracts use: `flag_present`, `find_spec`,
//! `parse_outcome` and `list_outcome` from [`crate::model`].

use crate::model::{
    dashed, find_spec, flag_present, lemma_find_spec_at, lemma_find_spec_first_match,
    list_outcome, parse_outcome, raw_value,
};
use crate::value::FlagValue;
use vstd::prelude::*;

verus! {

/// A flag that no argument carries falls back to every default: lookup
/// fails, so a presence query answers false and value and list queries
/// yield nothing, leaving callers their defaults.
pub proof fn lemma_absent_flag_defaults<T: FlagValue>(args: Seq<Seq<char>>, name: Seq<char>)
    requires
        !flag_present(args, name),
    ensures
        find_spec(args, name) is None,
        parse_outcome::<T>(args, name) is None,
        list_outcome::<T>(args, name) is None,
{
    lemma_find_spec_first_match(args, name);
    if let Some(i) = find_spec(args, name) {
        assert(flag_present(args, name));
    }
    assert(raw_value(args, name) == Seq::<char>::empty());
}

/// A bare `-<name>` token makes the flag present, wherever it stands in
/// the argument vector.
pub proof fn lemma_present_at(args: Seq<Seq<char>>, name: Seq<char>, i: int)
    requires
        0 <= i < args.len(),
        args[i] == dashed(name),
    ensures
        flag_present(args, name),
        find_spec(args, name) is Some,
{
    lemma_find_spec_first_match(args, name);
    if find_spec(args, name) is None {
        assert(args[i] != dashed(name));
    }
}

/// A readable token right after the first `-<name>` is what a typed value
/// query yields — the parsed value, never the default.
pub proof fn lemma_value_parsed<T: FlagValue>(
    args: Seq<Seq<char>>,
    name: Seq<char>,
    i: int,
    v: T::V,
)
    requires
        find_spec(args, name) == Some(i),
        i + 1 < args.len(),
        T::from_str_spec(args[i + 1]) == Some(v),
    ensures
        parse_outcome::<T>(args, name) == Some(v),
{
}

/// When the first `-<name>` is the last argument, a typed value query
/// yields nothing, leaving the caller the default.
pub proof fn lemma_value_missing<T: FlagValue>(args: Seq<Seq<char>>, name: Seq<char>, i: int)
    requires
        find_spec(args, name) == Some(i),
        i + 1 == args.len(),
    ensures
        parse_outcome::<T>(args, name) is None,
{
    lemma_find_spec_first_match(args, name);
}

/// When the token after the first `-<name>` does not read as a `T`, a
/// typed value query yields nothing, leaving the caller the default.
pub proof fn lemma_value_unreadable<T: FlagValue>(args: Seq<Seq<char>>, name: Seq<char>, i: int)
    requires
        find_spec(args, name) == Some(i),
        i + 1 < args.len(),
        T::from_str_spec(args[i + 1]) is None,
    ensures
        parse_outcome::<T>(args, name) is None,
{
}

/// The first occurrence wins: a position holding `-<name>` with no match
/// before it is the one that lookup returns, so value queries read the
/// token right after it and no later occurrence matters.
pub proof fn lemma_first_occurrence_wins<T: FlagValue>(args: Seq<Seq<char>>, name: Seq<char>, i: int)
    requires
        0 <= i < args.len(),
        args[i] == dashed(name),
        forall|j: int| 0 <= j < i ==> args[j] != dashed(name),
    ensures
        find_spec(args, name) == Some(i),
        parse_outcome::<T>(args, name) == (if i + 1 < args.len() {
            T::from_str_spec(args[i + 1])
        } else {
            None
        }),
{
    lemma_find_spec_at(args, name, i);
}

} // verus!
