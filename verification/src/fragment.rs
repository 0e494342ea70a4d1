//! SVG 2 §16.3 fragment identifiers: which initial view a URL fragment
//! selects (the root view, an `svgView(...)` specification, or an
//! element by id), and the `name(payload)` items of an `svgView`
//! specification. Applying the items (the `viewBox` numbers, the
//! transform) to the view is the caller's.

use vstd::prelude::*;
use vstd::string::*;

use crate::encoder::{replace_all, replace_chars};
use crate::strings::{
    find_char, lemma_find_char, push_str, semicolon_fn, split_by, split_trimmed, str_chars,
    str_trim, strs_view, to_owned_string, trim, trimmed_nonempty, Separator,
};

verus! {

/// What a fragment identifier addresses.
#[derive(Clone, Debug)]
pub enum FragmentTarget {
    /// The document's own root view: an empty fragment, or a spatial /
    /// temporal media fragment (`xywh=`, `t=`, `track=`, `id=`).
    Root,
    /// An `svgView(...)` specification, with the text between the
    /// parentheses.
    SvgView(String),
    /// A bare name, addressing an element by id.
    Name(String),
}

/// Mathematical model of a [`FragmentTarget`].
pub enum TargetModel {
    Root,
    SvgView(Seq<char>),
    Name(Seq<char>),
}

impl View for FragmentTarget {
    type V = TargetModel;

    open spec fn view(&self) -> TargetModel {
        match self {
            FragmentTarget::Root => TargetModel::Root,
            FragmentTarget::SvgView(s) => TargetModel::SvgView(s@),
            FragmentTarget::Name(s) => TargetModel::Name(s@),
        }
    }
}

/// `s` starts with `p`.
pub open spec fn has_prefix(s: Seq<char>, p: Seq<char>) -> bool {
    p.len() <= s.len() && s.take(p.len() as int) == p
}

/// The fragment without one leading `#`.
pub open spec fn strip_hash(f: Seq<char>) -> Seq<char> {
    if f.len() > 0 && f[0] == '#' {
        f.drop_first()
    } else {
        f
    }
}

/// The target of a fragment identifier (trimmed, one leading `#`
/// ignored).
pub open spec fn fragment_target_spec(fragment: Seq<char>) -> TargetModel {
    let f = strip_hash(trim(fragment));
    if f.len() == 0 {
        TargetModel::Root
    } else if has_prefix(f, "svgView("@) && f.len() > 8 && f.last() == ')' {
        TargetModel::SvgView(f.subrange(8, f.len() - 1))
    } else if has_prefix(f, "xywh="@) || has_prefix(f, "t="@) || has_prefix(f, "track="@)
        || has_prefix(f, "id="@) {
        TargetModel::Root
    } else {
        TargetModel::Name(f)
    }
}

fn has_prefix_x(v: &Vec<char>, start: usize, lit: &str) -> (b: bool)
    requires
        start <= v.len(),
    ensures
        b == has_prefix(v@.subrange(start as int, v@.len() as int), lit@),
{
    let l = str_chars(lit);
    let ghost f = v@.subrange(start as int, v@.len() as int);
    if l.len() > v.len() - start {
        return false;
    }
    let mut k: usize = 0;
    while k < l.len()
        invariant
            k <= l.len() <= v.len() - start,
            l@ == lit@,
            f == v@.subrange(start as int, v@.len() as int),
            forall|m: int| 0 <= m < k ==> f[m] == lit@[m],
        decreases l.len() - k,
    {
        if v[start + k] != l[k] {
            assert(f.take(l.len() as int)[k as int] != lit@[k as int]);
            return false;
        }
        k += 1;
    }
    assert(f.take(l.len() as int) =~= lit@);
    true
}

/// Classify a URL fragment (with or without its `#`).
pub fn fragment_target(fragment: &str) -> (r: FragmentTarget)
    ensures
        r@ == fragment_target_spec(fragment@),
{
    let t = str_trim(fragment);
    let v = str_chars(t);
    let start: usize = if v.len() > 0 && v[0] == '#' {
        1
    } else {
        0
    };
    let ghost f = strip_hash(t@);
    assert(v@.subrange(start as int, v@.len() as int) =~= f);
    let n: usize = v.len();
    if start == n {
        return FragmentTarget::Root;
    }
    let f_str = t.substring_char(start, n);
    if has_prefix_x(&v, start, "svgView(") && n - start > 8 && v[n - 1] == ')' {
        let inner = t.substring_char(start + 8, n - 1);
        assert(inner@ =~= f.subrange(8, f.len() - 1));
        return FragmentTarget::SvgView(to_owned_string(inner));
    }
    if has_prefix_x(&v, start, "xywh=") || has_prefix_x(&v, start, "t=") || has_prefix_x(
        &v,
        start,
        "track=",
    ) || has_prefix_x(&v, start, "id=") {
        return FragmentTarget::Root;
    }
    FragmentTarget::Name(to_owned_string(f_str))
}

pub open spec fn is_open_paren(c: char) -> bool {
    c == '('
}

pub open spec fn open_paren_fn() -> spec_fn(char) -> bool {
    |c: char| is_open_paren(c)
}

/// One trimmed, non-empty `svgView` item: `name(payload)` with the
/// name and payload trimmed; `None` when there is no `(` or the item
/// does not end with `)`.
pub open spec fn view_item(a: Seq<char>) -> Option<(Seq<char>, Seq<char>)> {
    let i = find_char(a, 0, open_paren_fn());
    if i >= a.len() {
        None
    } else {
        let payload = a.subrange(i + 1, a.len() as int);
        if payload.len() > 0 && payload.last() == ')' {
            Some((trim(a.take(i)), trim(payload.drop_last())))
        } else {
            None
        }
    }
}

/// The well-formed items, in order.
pub open spec fn view_items(ps: Seq<Seq<char>>) -> Seq<(Seq<char>, Seq<char>)>
    decreases ps.len(),
{
    if ps.len() == 0 {
        Seq::empty()
    } else {
        let r = view_items(ps.drop_last());
        match view_item(ps.last()) {
            Some(x) => r.push(x),
            None => r,
        }
    }
}

/// The items of an `svgView(...)` specification: `;` (or its escape
/// `%3B` / `%3b`) separated, each trimmed; empty and malformed items
/// are dropped.
pub open spec fn svg_view_spec(inner: Seq<char>) -> Seq<(Seq<char>, Seq<char>)> {
    let normalised = replace_all(replace_all(inner, "%3B"@, ";"@), "%3b"@, ";"@);
    view_items(trimmed_nonempty(split_by(normalised, semicolon_fn())))
}

pub open spec fn pairs_view(v: Seq<(String, String)>) -> Seq<(Seq<char>, Seq<char>)> {
    v.map_values(|x: (String, String)| (x.0@, x.1@))
}

/// Split the interior of an `svgView(...)` into its `(name, payload)`
/// items, in order.
pub fn svg_view_attributes(inner: &str) -> (r: Vec<(String, String)>)
    ensures
        pairs_view(r@) == svg_view_spec(inner@),
{
    proof {
        reveal_strlit("%3B");
        reveal_strlit("%3b");
    }
    let n1 = replace_chars(&str_chars(inner), "%3B", ";");
    let n2 = replace_chars(&str_chars(n1.as_str()), "%3b", ";");
    let pieces = split_trimmed(n2.as_str(), Separator::Semicolon);
    let ghost ps = strs_view(pieces@);
    let mut out: Vec<(String, String)> = Vec::new();
    let mut k: usize = 0;
    while k < pieces.len()
        invariant
            k <= pieces.len(),
            ps == strs_view(pieces@),
            pairs_view(out@) == view_items(ps.take(k as int)),
        decreases pieces.len() - k,
    {
        let a = pieces[k];
        let v = str_chars(a);
        assert(ps[k as int] == a@);
        assert(ps.take(k + 1).drop_last() =~= ps.take(k as int));
        assert(ps.take(k + 1).last() == a@);
        let mut i: usize = 0;
        proof {
            lemma_find_char(a@, 0, open_paren_fn());
        }
        while i < v.len() && v[i] != '('
            invariant
                i <= v.len(),
                v@ == a@,
                find_char(a@, 0, open_paren_fn()) == find_char(a@, i as int, open_paren_fn()),
            decreases v.len() - i,
        {
            i += 1;
        }
        if i < v.len() && v.len() - i >= 2 && v[v.len() - 1] == ')' {
            let name = str_trim(a.substring_char(0, i));
            let payload = str_trim(a.substring_char(i + 1, v.len() - 1));
            assert(a@.subrange(0, i as int) =~= a@.take(i as int));
            assert(a@.subrange(i + 1, v.len() - 1) =~= a@.subrange(i + 1, a@.len() as int).drop_last());
            let ghost before = pairs_view(out@);
            out.push((to_owned_string(name), to_owned_string(payload)));
            assert(pairs_view(out@) =~= before.push((name@, payload@)));
        } else {
            assert(i < v.len() ==> a@.subrange(i + 1, a@.len() as int).len() == 0 || a@.subrange(
                i + 1,
                a@.len() as int,
            ).last() != ')');
        }
        k += 1;
    }
    assert(ps.take(pieces.len() as int) =~= ps);
    out
}


/// What a fragment routes to is read from the fragment itself (leading
/// `#` and surrounding whitespace dropped): a view target is the text
/// inside `svgView(` … `)`; a name target is the whole fragment, never
/// empty; an empty fragment is the root.
pub proof fn lemma_fragment_targets(fragment: Seq<char>)
    ensures
        fragment_target_spec(fragment) matches TargetModel::SvgView(v) ==> strip_hash(trim(fragment))
            == "svgView("@ + v + ")"@,
        fragment_target_spec(fragment) matches TargetModel::Name(n) ==> n == strip_hash(trim(fragment))
            && n.len() > 0,
        strip_hash(trim(fragment)).len() == 0 ==> fragment_target_spec(fragment) == TargetModel::Root,
{
    reveal_strlit("svgView(");
    reveal_strlit(")");
    let f = strip_hash(trim(fragment));
    if has_prefix(f, "svgView("@) && f.len() > 8 && f.last() == ')' {
        let v = f.subrange(8, f.len() - 1);
        assert(f =~= "svgView("@ + v + ")"@);
    }
}

} // verus!
