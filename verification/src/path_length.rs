//! SVG 2 §9.6.1 `pathLength`: which text of the attribute is taken as
//! its `<number>`. The value is floating point and the dash rescaling it
//! drives is float arithmetic, both done by the caller.
use vstd::prelude::*;

use crate::length::{best_prefix, is_float_literal, not_numeric_fn};
use crate::strings::{find_char, lemma_find_char, str_chars, str_trim, string_from_chars, trim};

verus! {

/// The literal read from a `pathLength` value: after trimming, the
/// longest prefix of its run of `0-9 . + - e E` characters that is a
/// float literal. `None` when the attribute is absent, blank, has no such
/// prefix, or is negative (a literal with a leading `-`, `-0` included,
/// is sign-negative and SVG 2 treats it as an error).
pub open spec fn path_length_spec(v: Option<Seq<char>>) -> Option<Seq<char>> {
    match v {
        None => None,
        Some(s) => {
            let t = trim(s);
            let k = best_prefix(t, find_char(t, 0, not_numeric_fn()));
            if k == 0 || t[0] == '-' {
                None
            } else {
                Some(t.take(k))
            }
        },
    }
}

/// The text of the number a `pathLength` attribute gives, as
/// `f32::from_str` accepts it; see [`path_length_spec`].
pub fn path_length_literal(v: Option<&str>) -> (r: Option<String>)
    ensures
        match path_length_spec(
            match v {
                Some(s) => Some(s@),
                None => None,
            },
        ) {
            Some(n) => r is Some && r->Some_0@ == n,
            None => r is None,
        },
{
    let s = match v {
        Some(s) => s,
        None => return None,
    };
    let t = str_trim(s);
    let chars = str_chars(t);
    let mut run: usize = 0;
    proof {
        lemma_find_char(t@, 0, not_numeric_fn());
    }
    while run < chars.len() && (('0' <= chars[run] && chars[run] <= '9') || chars[run] == '.'
        || chars[run] == '+' || chars[run] == '-' || chars[run] == 'e' || chars[run] == 'E')
        invariant
            run <= chars.len(),
            chars@ == t@,
            find_char(t@, 0, not_numeric_fn()) == find_char(t@, run as int, not_numeric_fn()),
        decreases chars.len() - run,
    {
        run += 1;
    }
    let mut k: usize = run;
    while k > 0 && !is_float_literal(&chars, k)
        invariant
            k <= run <= chars.len(),
            chars@ == t@,
            best_prefix(t@, run as int) == best_prefix(t@, k as int),
        decreases k,
    {
        k -= 1;
    }
    if k == 0 || chars[0] == '-' {
        return None;
    }
    Some(string_from_chars(&chars, 0, k))
}

} // verus!
