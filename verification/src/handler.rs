//! The flag handler: an immutable argument snapshot and its queries.

use crate::model::{
    dashed, find_spec, flag_present, lemma_find_spec_absent, lemma_find_spec_at,
    lemma_find_spec_first_match, lemma_split_commas_at, lemma_split_commas_whole, list_from_str,
    list_outcome, parse_outcome, parse_segments, raw_value, seq_view, split_commas,
};
use crate::value::{str_equal, FlagValue};
use vstd::prelude::*;
use vstd::string::StringExecFns;

verus! {

/// Holds an argument vector, captured once, and answers pure queries
/// against it: flag presence, a typed value after a flag, or a bracketed
/// list of values. Every query falls back to a caller-supplied default;
/// none ever fails.
pub struct FlagHandler {
    args: Vec<String>,
}

impl View for FlagHandler {
    type V = Seq<Seq<char>>;

    closed spec fn view(&self) -> Seq<Seq<char>> {
        self.args@.map(|i: int, s: String| s@)
    }
}

/// Builds the token `-<name>` that marks the flag on the command line.
fn make_key(name: &str) -> (r: String)
    ensures
        r@ == dashed(name@),
{
    proof {
        reveal_strlit("-");
        assert("-"@ =~= seq!['-']);
    }
    let mut key = "-".to_owned();
    key.append(name);
    key
}

impl FlagHandler {
    /// Captures the given argument vector as the immutable snapshot all
    /// queries run against. Pass the process arguments, program name
    /// included; taking them as an explicit parameter keeps the parsing
    /// logic independent of ambient process state.
    pub fn new(args: Vec<String>) -> (r: FlagHandler)
        ensures
            r@.len() == args@.len(),
            forall|i: int| 0 <= i < args@.len() ==> r@[i] == args@[i]@,
    {
        FlagHandler { args }
    }

    /// Index of the first argument that is exactly `-<name>`, if any.
    pub fn find(&self, name: &str) -> (r: Option<usize>)
        ensures
            match r {
                Some(i) => find_spec(self@, name@) == Some(i as int),
                None => find_spec(self@, name@) is None,
            },
    {
        let key = make_key(name);
        let mut i: usize = 0;
        while i < self.args.len()
            invariant
                i <= self.args.len(),
                key@ == dashed(name@),
                self@.len() == self.args@.len(),
                forall|j: int| 0 <= j < i ==> self@[j] != dashed(name@),
            decreases self.args.len() - i,
        {
            if str_equal(self.args[i].as_str(), key.as_str()) {
                proof {
                    lemma_find_spec_at(self@, name@, i as int);
                }
                return Some(i);
            }
            i += 1;
        }
        proof {
            lemma_find_spec_absent(self@, name@);
        }
        None
    }

    /// True when the snapshot holds the bare token `-<name>` anywhere.
    /// The description is inert; it only documents the call site.
    pub fn bool(&self, name: &str, _description: &str) -> (r: bool)
        ensures
            r == flag_present(self@, name@),
    {
        proof {
            lemma_find_spec_first_match(self@, name@);
        }
        match self.find(name) {
            Some(i) => {
                proof {
                    assert(self@[i as int] == dashed(name@));
                }
                true
            },
            None => {
                proof {
                    assert(!flag_present(self@, name@)) by {
                        if flag_present(self@, name@) {
                            let w = choose|w: int|
                                0 <= w < self@.len() && self@[w] == dashed(name@);
                            assert(self@[w] != dashed(name@));
                        }
                    }
                }
                false
            },
        }
    }

    /// Parses the argument right after the first `-<name>` as a `T`. When
    /// the flag is absent, stands last, or the following token does not
    /// read as a `T`, the given default comes back unchanged. The
    /// description is inert; it only documents the call site.
    pub fn parse<T: FlagValue>(&self, name: &str, value: T, _description: &str) -> (r: T)
        ensures
            match parse_outcome::<T>(self@, name@) {
                Some(v) => r@ == v,
                None => r == value,
            },
    {
        let index = match self.find(name) {
            Some(x) => x,
            None => {
                return value;
            },
        };
        proof {
            lemma_find_spec_first_match(self@, name@);
            assert(find_spec(self@, name@) == Some(index as int));
            assert((index as int) < self@.len());
            assert(self@.len() == self.args@.len());
            assert(index < self.args.len());
        }
        if index + 1 >= self.args.len() {
            return value;
        }
        match T::from_arg(self.args[index + 1].as_str()) {
            Some(x) => x,
            None => value,
        }
    }

    /// Parses the token after the first `-<name>` as a bracketed,
    /// comma-separated list of `T` values, e.g. `[1,2,3]`. When the flag
    /// is absent, its token is missing or not bracketed, or any segment
    /// does not read as a `T`, the given default list comes back
    /// unchanged — never a partial list. A bare `[]` holds one empty
    /// segment, so it yields a list only for element types that read the
    /// empty token (strings do; numbers fall back to the default).
    #[verifier::loop_isolation(false)]
    #[verifier::rlimit(30)]
    pub fn parse_vec<T: FlagValue>(&self, name: &str, value: Vec<T>, description: &str) -> (r:
        Vec<T>)
        ensures
            match list_outcome::<T>(self@, name@) {
                Some(l) => seq_view(r@) == l,
                None => r@ == value@,
            },
    {
        let str_vec = self.parse::<String>(name, String::new(), description);
        let ghost raw = raw_value(self@, name@);
        proof {
            assert(str_vec@ == raw);
        }
        let s = str_vec.as_str();
        let n = s.unicode_len();
        if n == 0 {
            return value;
        }
        if s.get_char(0) != '[' {
            return value;
        }
        if s.get_char(n - 1) != ']' {
            return value;
        }
        let end = n - 1;
        let ghost inner = raw.subrange(1, raw.len() - 1);
        proof {
            assert(list_from_str::<T>(raw) == parse_segments::<T>(split_commas(inner)));
        }
        let mut res: Vec<T> = Vec::new();
        let mut start: usize = 1;
        let mut i: usize = 1;
        proof {
            assert(inner.skip(0) =~= inner);
            assert(seq_view(res@) =~= Seq::<T::V>::empty());
            if let Some(t) = parse_segments::<T>(split_commas(inner)) {
                assert(Seq::<T::V>::empty() + t =~= t);
            }
        }
        while i < end
            invariant
                1 <= start,
                start <= i,
                i <= end,
                forall|j: int| start <= j < i ==> raw[j] != ',',
                match parse_segments::<T>(split_commas(inner.skip(start - 1))) {
                    Some(tail) => parse_segments::<T>(split_commas(inner)) == Some(
                        seq_view(res@) + tail,
                    ),
                    None => parse_segments::<T>(split_commas(inner)) is None,
                },
            decreases end - i,
        {
            if s.get_char(i) == ',' {
                let seg = s.substring_char(start, i);
                let ghost rem = inner.skip(start - 1);
                let ghost q: int = i as int - start as int;
                proof {
                    assert(rem[q] == raw[i as int]);
                    assert forall|t: int| 0 <= t < q implies rem[t] != ',' by {
                        assert(rem[t] == raw[t + start]);
                    }
                    lemma_split_commas_at(rem, q);
                    assert forall|t: int| 0 <= t < q implies rem.take(q)[t] == seg@[t] by {
                        assert(rem[t] == raw[t + start]);
                        assert(seg@[t] == raw[t + start]);
                    }
                    assert(seg@ =~= rem.take(q));
                    assert(split_commas(rem).drop_first() =~= split_commas(rem.skip(q + 1)));
                    assert forall|t: int|
                        0 <= t < rem.skip(q + 1).len() implies rem.skip(q + 1)[t] == inner.skip(
                        i as int,
                    )[t] by {
                        assert(rem.skip(q + 1)[t] == raw[t + i + 1]);
                        assert(inner.skip(i as int)[t] == raw[t + i + 1]);
                    }
                    assert(rem.skip(q + 1) =~= inner.skip(i as int));
                }
                let parsed = T::from_arg(seg);
                match parsed {
                    Some(v) => {
                        let ghost prev = res@;
                        res.push(v);
                        start = i + 1;
                        proof {
                            assert(seq_view(res@) =~= seq_view(prev).push(v@));
                            if let Some(t2) = parse_segments::<T>(
                                split_commas(inner.skip(i as int)),
                            ) {
                                assert(parse_segments::<T>(split_commas(rem)) == Some(
                                    seq![v@] + t2,
                                ));
                                assert(seq_view(prev) + (seq![v@] + t2) =~= seq_view(res@) + t2);
                            } else {
                                assert(parse_segments::<T>(split_commas(rem)) is None);
                            }
                        }
                    },
                    None => {
                        proof {
                            assert(parse_segments::<T>(split_commas(rem)) is None);
                        }
                        return value;
                    },
                }
            }
            i += 1;
        }
        let seg = s.substring_char(start, end);
        let ghost rem = inner.skip(start - 1);
        proof {
            assert forall|t: int| 0 <= t < rem.len() implies rem[t] != ',' by {
                assert(rem[t] == raw[t + start]);
            }
            lemma_split_commas_whole(rem);
            assert forall|t: int| 0 <= t < rem.len() implies rem[t] == seg@[t] by {
                assert(rem[t] == raw[t + start]);
                assert(seg@[t] == raw[t + start]);
            }
            assert(seg@ =~= rem);
        }
        let parsed = T::from_arg(seg);
        match parsed {
            Some(v) => {
                let ghost prev = res@;
                res.push(v);
                proof {
                    assert(seq_view(res@) =~= seq_view(prev).push(v@));
                    let segs = seq![rem];
                    assert(segs.drop_first() =~= Seq::<Seq<char>>::empty());
                    assert(parse_segments::<T>(Seq::<Seq<char>>::empty()) == Some(
                        Seq::<T::V>::empty(),
                    ));
                    assert(segs[0] == rem);
                    assert(T::from_str_spec(rem) == Some(v@));
                    assert(parse_segments::<T>(segs) == Some(seq![v@] + Seq::<T::V>::empty()));
                    assert(seq![v@] + Seq::<T::V>::empty() =~= seq![v@]);
                    assert(seq_view(prev) + seq![v@] =~= seq_view(res@));
                }
                res
            },
            None => {
                proof {
                    assert(parse_segments::<T>(split_commas(rem)) is None);
                }
                value
            },
        }
    }
}

} // verus!
