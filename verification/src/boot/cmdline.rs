//! Handles kernel cmdline processing.
//!
//! The boot command line is a single whitespace-separated string. Tokens
//! starting with `--` are options; `--key=value` splits on the first `=`
//! and a missing `=` means an empty value. Every declared handler whose
//! option matches a token is invoked, in declaration order; other tokens
//! are silently ignored.

use crate::decls::{RawDecl, Type};
use crate::util::{lemma_split_characterization, split_at_first, split_first_str, str_eq};
use vstd::prelude::*;

verus! {

/// The whitespace that separates command-line tokens.
pub open spec fn is_space(c: char) -> bool {
    c == ' ' || c == '\t' || c == '\n' || c == '\r'
}

/// The leading token of `s` and what follows it.
pub open spec fn take_token(s: Seq<char>) -> (Seq<char>, Seq<char>)
    decreases s.len(),
{
    if s.len() == 0 || is_space(s[0]) {
        (Seq::empty(), s)
    } else {
        let r = take_token(s.drop_first());
        (seq![s[0]] + r.0, r.1)
    }
}

/// Shape of `take_token`: it removes a non-empty maximal non-space prefix.
pub proof fn lemma_take_token(s: Seq<char>)
    ensures
        take_token(s).0.len() + take_token(s).1.len() == s.len(),
        s.len() > 0 && !is_space(s[0]) ==> take_token(s).0.len() >= 1,
        take_token(s).1 =~= s.skip(take_token(s).0.len() as int),
    decreases s.len(),
{
    if s.len() == 0 || is_space(s[0]) {
    } else {
        lemma_take_token(s.drop_first());
        let r = take_token(s.drop_first());
        assert(s.drop_first().skip(r.0.len() as int) =~= s.skip(r.0.len() as int + 1));
    }
}

/// When the first `k` characters are non-space and the character after them
/// (if any) is a space, the leading token is exactly those `k` characters.
pub proof fn lemma_take_token_scan(s: Seq<char>, k: int)
    requires
        0 <= k <= s.len(),
        forall|j: int| 0 <= j < k ==> !is_space(s[j]),
        k < s.len() ==> is_space(s[k]),
    ensures
        take_token(s) == (s.take(k), s.skip(k)),
    decreases k,
{
    if k == 0 {
        assert(s.take(0) =~= Seq::<char>::empty());
        assert(s.skip(0) =~= s);
    } else {
        assert(!is_space(s[0]));
        let s2 = s.drop_first();
        assert(forall|j: int| 0 <= j < k - 1 ==> s2[j] == s[j + 1] && !is_space(s2[j]));
        lemma_take_token_scan(s2, k - 1);
        assert(seq![s[0]] + s2.take(k - 1) =~= s.take(k));
        assert(s2.skip(k - 1) =~= s.skip(k));
    }
}

#[via_fn]
proof fn tokens_of_decreases(s: Seq<char>) {
    lemma_take_token(s);
}

/// The whitespace-separated tokens of `s`, in order.
pub open spec fn tokens_of(s: Seq<char>) -> Seq<Seq<char>>
    decreases s.len(),
    via tokens_of_decreases
{
    if s.len() == 0 {
        Seq::empty()
    } else if is_space(s[0]) {
        tokens_of(s.drop_first())
    } else {
        seq![take_token(s).0] + tokens_of(take_token(s).1)
    }
}

/// A token names an option when it starts with `--`.
pub open spec fn is_option_token(t: Seq<char>) -> bool {
    t.len() >= 2 && t[0] == '-' && t[1] == '-'
}

/// The `(key, value)` pair of an option token: the `--` is dropped and the
/// rest splits on the first `=`; without `=` the value is empty.
pub open spec fn pair_of_token(t: Seq<char>) -> (Seq<char>, Seq<char>) {
    split_at_first(t.skip(2), '=')
}

/// The `(key, value)` pairs of the option tokens, in order.
pub open spec fn pairs_of_tokens(ts: Seq<Seq<char>>) -> Seq<(Seq<char>, Seq<char>)>
    decreases ts.len(),
{
    if ts.len() == 0 {
        Seq::empty()
    } else {
        (if is_option_token(ts[0]) {
            seq![pair_of_token(ts[0])]
        } else {
            Seq::empty()
        }) + pairs_of_tokens(ts.drop_first())
    }
}

/// The option pairs of a whole command line.
pub open spec fn arg_pairs(s: Seq<char>) -> Seq<(Seq<char>, Seq<char>)> {
    pairs_of_tokens(tokens_of(s))
}

/// Unfolding of `pairs_of_tokens` over a leading token.
proof fn lemma_pairs_cons(ts: Seq<Seq<char>>, t: Seq<char>)
    ensures
        pairs_of_tokens(seq![t] + ts) == (if is_option_token(t) {
            seq![pair_of_token(t)]
        } else {
            Seq::empty()
        }) + pairs_of_tokens(ts),
{
    assert((seq![t] + ts).drop_first() =~= ts);
    assert((seq![t] + ts)[0] == t);
}

/// The handler invocations one `(key, value)` pair causes: one per declared
/// command-line option equal to `key`, in declaration order.
pub open spec fn pair_calls(ds: Seq<RawDecl>, key: Seq<char>, value: Seq<char>) -> Seq<
    (Seq<char>, Seq<char>),
>
    decreases ds.len(),
{
    if ds.len() == 0 {
        Seq::empty()
    } else {
        (match ds[0].decl {
            Type::CMDLine(c) => if c.option@ == key {
                seq![(key, value)]
            } else {
                Seq::empty()
            },
            Type::SelfTest(_) => Seq::empty(),
        }) + pair_calls(ds.drop_first(), key, value)
    }
}

/// All handler invocations a command line causes, in order.
pub open spec fn invocations_of(
    pairs: Seq<(Seq<char>, Seq<char>)>,
    ds: Seq<RawDecl>,
) -> Seq<(Seq<char>, Seq<char>)>
    decreases pairs.len(),
{
    if pairs.len() == 0 {
        Seq::empty()
    } else {
        pair_calls(ds, pairs[0].0, pairs[0].1) + invocations_of(pairs.drop_first(), ds)
    }
}

/// Unfolding of `invocations_of` over a leading pair.
proof fn lemma_invocations_cons(
    p: (Seq<char>, Seq<char>),
    pairs: Seq<(Seq<char>, Seq<char>)>,
    ds: Seq<RawDecl>,
)
    ensures
        invocations_of(seq![p] + pairs, ds) == pair_calls(ds, p.0, p.1) + invocations_of(
            pairs,
            ds,
        ),
{
    assert((seq![p] + pairs).drop_first() =~= pairs);
    assert((seq![p] + pairs)[0] == p);
}

/// One handler invocation: the matched option and the value handed to it.
pub struct Invocation {
    pub option: String,
    pub value: String,
}

/// The `(view of option, view of value)` sequence of a list of invocations.
pub open spec fn invocation_views(calls: Seq<Invocation>) -> Seq<(Seq<char>, Seq<char>)> {
    calls.map_values(|c: Invocation| (c.option@, c.value@))
}

/// Process the passed cmdline against the declared options.
///
/// Returns the handler invocations to make, in order: the cmdline is
/// tokenised on whitespace, tokens starting with `--` are split into key
/// and value on their first `=` (absent `=` means an empty value), and each
/// declared option equal to the key yields one invocation.
pub fn process(cmdline: &str, decls: &Vec<RawDecl>) -> (calls: Vec<Invocation>)
    ensures
        invocation_views(calls@) == invocations_of(arg_pairs(cmdline@), decls@),
{
    let mut calls: Vec<Invocation> = Vec::new();
    let n: usize = cmdline.unicode_len();
    let mut i: usize = 0;
    proof {
        assert(cmdline@.skip(0) =~= cmdline@);
        assert(invocation_views(calls@) =~= Seq::<(Seq<char>, Seq<char>)>::empty());
    }
    while i < n
        invariant
            i <= n,
            n == cmdline@.len(),
            invocations_of(arg_pairs(cmdline@), decls@) =~= invocation_views(calls@)
                + invocations_of(pairs_of_tokens(tokens_of(cmdline@.skip(i as int))), decls@),
        decreases n - i,
    {
        let ghost s = cmdline@;
        let c = cmdline.get_char(i);
        if c == ' ' || c == '\t' || c == '\n' || c == '\r' {
            proof {
                assert(s.skip(i as int).drop_first() =~= s.skip(i + 1));
            }
            i = i + 1;
        } else {
            // scan to the end of the token
            let start: usize = i;
            let mut k: usize = i;
            while k < n
                invariant
                    start <= k <= n,
                    n == s.len(),
                    s == cmdline@,
                    forall|j: int| start <= j < k ==> !is_space(s[j]),
                ensures
                    start <= k <= n,
                    forall|j: int| start <= j < k ==> !is_space(s[j]),
                    k < n ==> is_space(s[k as int]),
                decreases n - k,
            {
                let ck = cmdline.get_char(k);
                if ck == ' ' || ck == '\t' || ck == '\n' || ck == '\r' {
                    break ;
                }
                k = k + 1;
            }
            proof {
                let tail = s.skip(start as int);
                assert(forall|j: int|
                    0 <= j < k - start ==> tail[j] == s[j + start] && !is_space(tail[j]));
                if k < n {
                    assert(is_space(tail[k - start]));
                }
                lemma_take_token_scan(tail, k - start);
                assert(tail.take(k - start) =~= s.subrange(start as int, k as int));
                assert(tail.skip(k - start) =~= s.skip(k as int));
                assert(!is_space(tail[0]));
                assert(tokens_of(tail) == seq![s.subrange(start as int, k as int)] + tokens_of(
                    s.skip(k as int),
                ));
            }
            let ghost tok = s.subrange(start as int, k as int);
            // handle the token if it is an option
            if k - start >= 2 && cmdline.get_char(start) == '-' && cmdline.get_char(start + 1)
                == '-' {
                proof {
                    assert(tok[0] == '-' && tok[1] == '-');
                    assert(is_option_token(tok));
                }
                let rest = cmdline.substring_char(start + 2, k);
                let (key, value) = split_first_str(rest, '=');
                proof {
                    assert(rest@ =~= tok.skip(2));
                    lemma_split_characterization(rest@, '=', key@, value@);
                    assert(pair_of_token(tok) == (key@, value@));
                }
                // invoke every declared handler whose option matches
                let mut d: usize = 0;
                let ghost calls_before = invocation_views(calls@);
                proof {
                    assert(decls@.skip(0) =~= decls@);
                    assert(calls_before + pair_calls(decls@, key@, value@) =~= calls_before
                        + pair_calls(decls@.skip(0), key@, value@));
                }
                while d < decls.len()
                    invariant
                        d <= decls@.len(),
                        calls_before + pair_calls(decls@, key@, value@) =~= invocation_views(
                            calls@,
                        ) + pair_calls(decls@.skip(d as int), key@, value@),
                    decreases decls@.len() - d,
                {
                    let ghost before_push = calls@;
                    match &decls[d].decl {
                        Type::CMDLine(c) => {
                            if str_eq(c.option.as_str(), key) {
                                let call = Invocation {
                                    option: String::from_str(key),
                                    value: String::from_str(value),
                                };
                                calls.push(call);
                            }
                        },
                        Type::SelfTest(_) => {},
                    }
                    proof {
                        let dseq = decls@.skip(d as int);
                        assert(dseq[0] == decls@[d as int]);
                        assert(dseq.drop_first() =~= decls@.skip(d + 1));
                        if calls@.len() > before_push.len() {
                            assert(invocation_views(calls@) =~= invocation_views(
                                before_push,
                            ).push((key@, value@)));
                        }
                    }
                    d = d + 1;
                }
                proof {
                    assert(decls@.skip(decls@.len() as int) =~= Seq::<RawDecl>::empty());
                    assert(invocation_views(calls@) =~= calls_before + pair_calls(
                        decls@,
                        key@,
                        value@,
                    ));
                }
            } else {
                proof {
                    if tok.len() >= 2 && tok[0] == '-' && tok[1] == '-' {
                        assert(k - start >= 2 && s[start as int] == '-' && s[start + 1] == '-');
                    }
                    assert(!is_option_token(tok));
                }
            }
            proof {
                let rest = s.skip(k as int);
                let rest_pairs = pairs_of_tokens(tokens_of(rest));
                lemma_pairs_cons(tokens_of(rest), tok);
                if is_option_token(tok) {
                    let p = pair_of_token(tok);
                    lemma_invocations_cons(p, rest_pairs, decls@);
                    assert(pairs_of_tokens(tokens_of(s.skip(i as int))) == seq![p] + rest_pairs);
                    assert(invocation_views(calls@) + invocations_of(rest_pairs, decls@)
                        =~= invocations_of(arg_pairs(s), decls@));
                } else {
                    assert(Seq::<(Seq<char>, Seq<char>)>::empty() + rest_pairs =~= rest_pairs);
                    assert(pairs_of_tokens(tokens_of(s.skip(i as int))) == rest_pairs);
                }
            }
            i = k;
        }
    }
    proof {
        assert(cmdline@.skip(n as int) =~= Seq::<char>::empty());
        assert(invocations_of(arg_pairs(cmdline@), decls@) =~= invocation_views(calls@));
    }
    calls
}

/// The values a cmdline option may be set to that count as 'true'.
pub open spec fn truthy(s: Seq<char>) -> bool {
    s == "1"@ || s == "ON"@ || s == "on"@ || s == "TRUE"@ || s == "true"@ || s == "ENABLED"@ || s
        == "enabled"@
}

/// Test a `&str` for some notion of being 'true'.
///
/// Utility for testing cmdline options that have been set to a true value:
/// exactly `1`, `on`, `ON`, `true`, `TRUE`, `enabled` and `ENABLED` count.
pub fn option_is_true(value: &str) -> (r: bool)
    ensures
        r == truthy(value@),
{
    str_eq(value, "1") || str_eq(value, "ON") || str_eq(value, "on") || str_eq(value, "TRUE")
        || str_eq(value, "true") || str_eq(value, "ENABLED") || str_eq(value, "enabled")
}

/// Sets the retained copy of the cmdline, once allocation works.
///
/// This *should* be the same cmdline as was provided to `process`
/// initially, but there is no way to enforce that.
pub fn set(stored: &mut Option<String>, cmdline: &str)
    ensures
        (*final(stored)) matches Some(s) && s@ == cmdline@,
{
    *stored = Some(String::from_str(cmdline));
}

} // verus!
