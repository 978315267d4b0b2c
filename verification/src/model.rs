//! Mathematical model of flag lookup.
//!
//! A flag named `name` is carried on the command line as the token
//! `-<name>`. Lookup scans the argument snapshot left to right and the
//! first exact match wins. The spec functions here define that search over
//! a `Seq<Seq<char>>` view of the argument vector; the executable code in
//! [`crate::handler`] is proved against them.

use crate::value::FlagValue;
use vstd::prelude::*;

verus! {

/// The token that marks the flag `name` on the command line: `-<name>`.
pub open spec fn dashed(name: Seq<char>) -> Seq<char> {
    seq!['-'] + name
}

/// True when some argument is exactly the token `-<name>`.
pub open spec fn flag_present(args: Seq<Seq<char>>, name: Seq<char>) -> bool {
    exists|i: int| 0 <= i < args.len() && args[i] == dashed(name)
}

/// Index of the first argument equal to `-<name>`, scanning left to right;
/// `None` when no argument matches.
pub open spec fn find_spec(args: Seq<Seq<char>>, name: Seq<char>) -> Option<int>
    decreases args.len(),
{
    if args.len() == 0 {
        None
    } else if args[0] == dashed(name) {
        Some(0)
    } else {
        match find_spec(args.drop_first(), name) {
            Some(i) => Some(i + 1),
            None => None,
        }
    }
}

/// `find_spec` returns the lowest matching index: the returned position
/// holds the token `-<name>` and every earlier position does not; when it
/// returns `None`, no position holds the token.
pub proof fn lemma_find_spec_first_match(args: Seq<Seq<char>>, name: Seq<char>)
    ensures
        match find_spec(args, name) {
            Some(i) => 0 <= i < args.len() && args[i] == dashed(name) && (forall|j: int|
                0 <= j < i ==> args[j] != dashed(name)),
            None => forall|j: int| 0 <= j < args.len() ==> args[j] != dashed(name),
        },
    decreases args.len(),
{
    if args.len() == 0 {
    } else if args[0] == dashed(name) {
    } else {
        lemma_find_spec_first_match(args.drop_first(), name);
        match find_spec(args.drop_first(), name) {
            Some(i) => {
                assert(args.drop_first()[i] == args[i + 1]);
                assert forall|j: int| 0 <= j < i + 1 implies args[j] != dashed(name) by {
                    if j > 0 {
                        assert(args.drop_first()[j - 1] == args[j]);
                    }
                }
            },
            None => {
                assert forall|j: int| 0 <= j < args.len() implies args[j] != dashed(name) by {
                    if j > 0 {
                        assert(args.drop_first()[j - 1] == args[j]);
                    }
                }
            },
        }
    }
}

/// A position that matches while all earlier ones do not is exactly what
/// `find_spec` returns.
pub proof fn lemma_find_spec_at(args: Seq<Seq<char>>, name: Seq<char>, i: int)
    requires
        0 <= i < args.len(),
        args[i] == dashed(name),
        forall|j: int| 0 <= j < i ==> args[j] != dashed(name),
    ensures
        find_spec(args, name) == Some(i),
{
    lemma_find_spec_first_match(args, name);
    match find_spec(args, name) {
        Some(k) => {
            if k < i {
                assert(args[k] != dashed(name));
            }
            if i < k {
                assert(args[i] != dashed(name));
            }
        },
        None => {
            assert(args[i] != dashed(name));
        },
    }
}

/// When no position matches, `find_spec` returns `None`.
pub proof fn lemma_find_spec_absent(args: Seq<Seq<char>>, name: Seq<char>)
    requires
        forall|j: int| 0 <= j < args.len() ==> args[j] != dashed(name),
    ensures
        find_spec(args, name) is None,
{
    lemma_find_spec_first_match(args, name);
    if let Some(i) = find_spec(args, name) {
        assert(args[i] != dashed(name));
    }
}

/// The views of a sequence's elements.
pub open spec fn seq_view<T: View>(s: Seq<T>) -> Seq<T::V> {
    s.map(|i: int, v: T| v@)
}

/// The value that a typed query for flag `name` yields, if any: the
/// argument right after the first `-<name>`, when it exists, read as a
/// value of `T`. `None` covers all three fallback paths: flag absent,
/// flag last, or the following token not a `T`.
pub open spec fn parse_outcome<T: FlagValue>(args: Seq<Seq<char>>, name: Seq<char>) -> Option<
    T::V,
> {
    match find_spec(args, name) {
        Some(i) => if i + 1 < args.len() {
            T::from_str_spec(args[i + 1])
        } else {
            None
        },
        None => None,
    }
}

/// The raw text that a list query works on: the token after the first
/// `-<name>`, or the empty string on any fallback path.
pub open spec fn raw_value(args: Seq<Seq<char>>, name: Seq<char>) -> Seq<char> {
    match parse_outcome::<String>(args, name) {
        Some(s) => s,
        None => Seq::empty(),
    }
}

/// Splits `s` at every comma, keeping empty pieces; the empty string
/// yields one empty piece.
pub open spec fn split_commas(s: Seq<char>) -> Seq<Seq<char>>
    decreases s.len(),
{
    if s.len() == 0 {
        seq![Seq::<char>::empty()]
    } else if s[0] == ',' {
        seq![Seq::<char>::empty()] + split_commas(s.drop_first())
    } else {
        let rest = split_commas(s.drop_first());
        seq![seq![s[0]] + rest[0]] + rest.drop_first()
    }
}

/// Reads every segment as a `T`; one unreadable segment voids the whole
/// list.
pub open spec fn parse_segments<T: FlagValue>(segs: Seq<Seq<char>>) -> Option<Seq<T::V>>
    decreases segs.len(),
{
    if segs.len() == 0 {
        Some(Seq::empty())
    } else {
        match T::from_str_spec(segs[0]) {
            Some(v) => match parse_segments::<T>(segs.drop_first()) {
                Some(r) => Some(seq![v] + r),
                None => None,
            },
            None => None,
        }
    }
}

/// A list token: `[`, comma-separated segments, `]`. Anything else — the
/// empty string, missing brackets, or an unreadable segment — denotes no
/// list.
pub open spec fn list_from_str<T: FlagValue>(s: Seq<char>) -> Option<Seq<T::V>> {
    if s.len() == 0 || s[0] != '[' || s[s.len() - 1] != ']' {
        None
    } else {
        parse_segments::<T>(split_commas(s.subrange(1, s.len() - 1)))
    }
}

/// The list that a list query for flag `name` yields, if any.
pub open spec fn list_outcome<T: FlagValue>(args: Seq<Seq<char>>, name: Seq<char>) -> Option<
    Seq<T::V>,
> {
    list_from_str::<T>(raw_value(args, name))
}

/// A comma-free string is one whole segment.
pub proof fn lemma_split_commas_whole(s: Seq<char>)
    requires
        forall|j: int| 0 <= j < s.len() ==> s[j] != ',',
    ensures
        split_commas(s) == seq![s],
    decreases s.len(),
{
    if s.len() == 0 {
        assert(split_commas(s) =~~= seq![s]);
    } else {
        assert(forall|j: int|
            0 <= j < s.drop_first().len() ==> #[trigger] s.drop_first()[j] == s[j + 1]);
        lemma_split_commas_whole(s.drop_first());
        assert(seq![s[0]] + s.drop_first() =~= s);
        assert(split_commas(s) =~~= seq![s]);
    }
}

/// Splitting at the first comma: the text before it is the first segment,
/// and the rest of the string is split on its own.
pub proof fn lemma_split_commas_at(s: Seq<char>, p: int)
    requires
        0 <= p < s.len(),
        s[p] == ',',
        forall|j: int| 0 <= j < p ==> s[j] != ',',
    ensures
        split_commas(s) == seq![s.take(p)] + split_commas(s.skip(p + 1)),
    decreases p,
{
    if p == 0 {
        assert(s.take(0) =~= Seq::<char>::empty());
        assert(s.skip(1) =~= s.drop_first());
        assert(split_commas(s) =~~= seq![s.take(p)] + split_commas(s.skip(p + 1)));
    } else {
        assert(forall|j: int|
            0 <= j < s.drop_first().len() ==> #[trigger] s.drop_first()[j] == s[j + 1]);
        lemma_split_commas_at(s.drop_first(), p - 1);
        assert(seq![s[0]] + s.drop_first().take(p - 1) =~= s.take(p));
        assert(s.drop_first().skip(p) =~= s.skip(p + 1));
        let rest = split_commas(s.drop_first());
        assert(rest[0] == s.drop_first().take(p - 1));
        assert(rest.drop_first() =~= split_commas(s.skip(p + 1)));
        assert(split_commas(s) =~~= seq![s.take(p)] + split_commas(s.skip(p + 1)));
    }
}

} // verus!
