//! The placeholder expander.
//!
//! Descriptor strings may hold `%NAME%` tokens. Expansion substitutes each
//! token with the value the environment snapshot gives the name, or with the
//! empty string when the name is unset; the escape form `%%` yields one
//! literal marker character. The pass is single-pass: substituted text is
//! not re-scanned.

use vstd::prelude::*;
use crate::envmap::{env_value_or_empty, EnvMap};
use crate::text::{is_word_char, lemma_word_end, lemma_word_end_unique, word_char, word_end};
use vstd::string::{StrSliceExecFns, StringExecFns};

verus! {

/// The expansion of `s` against snapshot `env`, scanned from the left: a
/// marker that opens a closed `%NAME%` token is replaced — by the snapshot
/// value (empty when unset) for a non-empty name, by one literal marker for
/// the empty name — and any other character passes through unchanged.
pub open spec fn spec_expand(s: Seq<char>, env: Map<Seq<char>, Seq<char>>) -> Seq<char>
    decreases s.len(),
    via spec_expand_decreases
{
    if s.len() == 0 {
        Seq::empty()
    } else if s[0] == '%' {
        let j = word_end(s, 1);
        if j < s.len() && s[j] == '%' {
            let name = s.subrange(1, j);
            let rep = if name.len() == 0 {
                seq!['%']
            } else {
                env_value_or_empty(env, name)
            };
            rep + spec_expand(s.subrange(j + 1, s.len() as int), env)
        } else {
            seq![s[0]] + spec_expand(s.drop_first(), env)
        }
    } else {
        seq![s[0]] + spec_expand(s.drop_first(), env)
    }
}

#[via_fn]
proof fn spec_expand_decreases(s: Seq<char>, env: Map<Seq<char>, Seq<char>>) {
    if s.len() > 0 && s[0] == '%' {
        lemma_word_end(s, 1);
    }
}

/// Expansion leaves a text without markers unchanged; in particular the
/// expander is idempotent on such texts.
pub proof fn lemma_expand_no_marker(s: Seq<char>, env: Map<Seq<char>, Seq<char>>)
    requires
        forall|i: int| 0 <= i < s.len() ==> s[i] != '%',
    ensures
        spec_expand(s, env) == s,
    decreases s.len(),
{
    if s.len() > 0 {
        lemma_expand_no_marker(s.drop_first(), env);
        assert(seq![s[0]] + s.drop_first() =~= s);
    }
}

/// Expands every `%NAME%` token of `input` against the snapshot `env`.
pub fn env_expand(input: &String, env: &EnvMap) -> (r: String)
    requires
        env.wf(),
    ensures
        r@ == spec_expand(input@, env@),
{
    let s = input.as_str();
    let len = s.unicode_len();
    let mut out = String::new();
    let mut i: usize = 0;
    proof {
        assert(s@.skip(0) =~= s@);
    }
    while i < len
        invariant
            env.wf(),
            len == s@.len(),
            i <= len,
            spec_expand(s@, env@) == out@ + spec_expand(s@.skip(i as int), env@),
        decreases len - i,
    {
        let ghost rest = s@.skip(i as int);
        proof {
            assert(rest[0] == s@[i as int]);
        }
        let c = s.get_char(i);
        if c == '%' {
            // Scan the candidate name that follows the opening marker.
            let mut j: usize = i + 1;
            while j < len && word_char(s.get_char(j))
                invariant
                    len == s@.len(),
                    i + 1 <= j <= len,
                    forall|t: int| i + 1 <= t < j ==> is_word_char(s@[t]),
                decreases len - j,
            {
                j = j + 1;
            }
            proof {
                assert forall|t: int| 1 <= t < j - i implies is_word_char(rest[t]) by {
                    assert(rest[t] == s@[i + t]);
                }
                if j < len {
                    assert(rest[j - i] == s@[j as int]);
                }
                lemma_word_end_unique(rest, 1, j - i);
            }
            if j < len && s.get_char(j) == '%' {
                if j == i + 1 {
                    // Empty name: the escape form for one literal marker.
                    crate::text::push_char(&mut out, '%');
                } else {
                    let name = s.substring_char(i + 1, j);
                    proof {
                        assert(name@ =~= rest.subrange(1, j - i));
                    }
                    match env.lookup(name) {
                        Some(v) => {
                            out.append(v.as_str());
                        },
                        None => {},
                    }
                }
                proof {
                    assert(rest.subrange(j - i + 1, rest.len() as int) =~= s@.skip(j as int + 1));
                }
                i = j + 1;
            } else {
                crate::text::push_char(&mut out, '%');
                proof {
                    assert(rest.drop_first() =~= s@.skip(i as int + 1));
                    assert(seq![rest[0]] =~= seq!['%']);
                }
                i = i + 1;
            }
        } else {
            crate::text::push_char(&mut out, c);
            proof {
                assert(rest.drop_first() =~= s@.skip(i as int + 1));
            }
            i = i + 1;
        }
    }
    proof {
        assert(s@.skip(len as int) =~= Seq::empty());
    }
    out
}

} // verus!

