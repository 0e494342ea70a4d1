//! Id assignment for shared `<defs>` entries.
//!
//! While writing a document the encoder meets the same gradient, clip
//! path or mask many times. Each distinct one (told apart by a structural
//! fingerprint string) is written once into `<defs>` under a synthetic id
//! `{prefix}{n}`, with `n` counting from 1 in order of first sight, and
//! every reference to it points at that id. An id that came from the
//! source document may replace the synthetic one.
use vstd::prelude::*;

use crate::strings::{push_char, str_eq, strings_view};

verus! {

/// The decimal digit character for `d < 10`.
pub open spec fn digit_char(d: nat) -> char {
    (48 + d) as char
}

/// The decimal representation of `n`, without sign or leading zeros.
pub open spec fn decimal(n: nat) -> Seq<char>
    decreases n,
{
    if n < 10 {
        seq![digit_char(n)]
    } else {
        decimal(n / 10).push(digit_char(n % 10))
    }
}

/// The synthetic id of the entry at position `i` (counting from 0).
pub open spec fn synth_id(prefix: Seq<char>, i: int) -> Seq<char> {
    prefix + decimal((i + 1) as nat)
}

/// The fingerprints after registering `fp`: unchanged when it is known,
/// else `fp` appended.
pub open spec fn with_fp(fps: Seq<Seq<char>>, fp: Seq<char>) -> Seq<Seq<char>> {
    if fps.contains(fp) {
        fps
    } else {
        fps.push(fp)
    }
}

/// The payloads after registering `fp` with `item`: the item is kept
/// only when `fp` is new.
pub open spec fn with_item<T>(fps: Seq<Seq<char>>, items: Seq<T>, fp: Seq<char>, item: T) -> Seq<T> {
    if fps.contains(fp) {
        items
    } else {
        items.push(item)
    }
}

/// The replacement recorded for `key` in `ovs`: the last pair with that key
/// wins, as with repeated map inserts.
pub open spec fn override_for(ovs: Seq<(Seq<char>, Seq<char>)>, key: Seq<char>) -> Option<Seq<char>>
    decreases ovs.len(),
{
    if ovs.len() == 0 {
        None
    } else if ovs.last().0 == key {
        Some(ovs.last().1)
    } else {
        override_for(ovs.drop_last(), key)
    }
}

/// The id written for synthetic id `synth`: its replacement when one was
/// recorded, else `synth` itself.
pub open spec fn resolved_id(ovs: Seq<(Seq<char>, Seq<char>)>, synth: Seq<char>) -> Seq<char> {
    match override_for(ovs, synth) {
        Some(o) => o,
        None => synth,
    }
}

/// Append the decimal representation of `n`.
pub fn push_decimal(out: &mut String, n: u128)
    ensures
        final(out)@ == old(out)@ + decimal(n as nat),
    decreases n,
{
    if n >= 10 {
        push_decimal(out, n / 10);
    }
    let d: u8 = (n % 10) as u8;
    let c: char = (48u8 + d) as char;
    push_char(out, c);
    assert(old(out)@ + decimal(n as nat) =~= final(out)@) by {
        if n >= 10 {
            assert(decimal(n as nat) == decimal((n / 10) as nat).push(digit_char((n % 10) as nat)));
        }
    }
}

/// Distinct numbers have distinct decimal representations.
pub proof fn lemma_decimal_injective(a: nat, b: nat)
    requires
        decimal(a) == decimal(b),
    ensures
        a == b,
    decreases a,
{
    let da = decimal(a);
    let db = decimal(b);
    assert(da.last() == digit_char(a % 10));
    assert(db.last() == digit_char(b % 10));
    assert(a % 10 == b % 10);
    if a < 10 && b < 10 {
    } else if a >= 10 && b >= 10 {
        assert(da.drop_last() =~= decimal(a / 10));
        assert(db.drop_last() =~= decimal(b / 10));
        lemma_decimal_injective(a / 10, b / 10);
    } else if a < 10 {
        lemma_decimal_nonempty(b / 10);
        assert(da.len() == 1);
        assert(db.len() == decimal(b / 10).len() + 1);
    } else {
        lemma_decimal_nonempty(a / 10);
        assert(db.len() == 1);
        assert(da.len() == decimal(a / 10).len() + 1);
    }
}

/// A decimal representation has at least one digit.
proof fn lemma_decimal_nonempty(n: nat)
    ensures
        decimal(n).len() >= 1,
    decreases n,
{
    if n >= 10 {
        lemma_decimal_nonempty(n / 10);
    }
}

/// Entries at different positions get different synthetic ids.
pub proof fn lemma_synth_ids_distinct(prefix: Seq<char>, i: int, j: int)
    requires
        0 <= i,
        0 <= j,
        i != j,
    ensures
        synth_id(prefix, i) != synth_id(prefix, j),
{
    if synth_id(prefix, i) == synth_id(prefix, j) {
        let a = synth_id(prefix, i);
        let b = synth_id(prefix, j);
        assert(a.subrange(prefix.len() as int, a.len() as int) =~= decimal((i + 1) as nat));
        assert(b.subrange(prefix.len() as int, b.len() as int) =~= decimal((j + 1) as nat));
        lemma_decimal_injective((i + 1) as nat, (j + 1) as nat);
    }
}

/// Registering a fingerprint twice is the same as registering it once.
pub proof fn lemma_ensure_idempotent<T>(fps: Seq<Seq<char>>, items: Seq<T>, fp: Seq<char>, item: T, again: T)
    ensures
        with_fp(with_fp(fps, fp), fp) == with_fp(fps, fp),
        with_item(with_fp(fps, fp), with_item(fps, items, fp, item), fp, again)
            == with_item(fps, items, fp, item),
{
    if !fps.contains(fp) {
        assert(fps.push(fp)[fps.len() as int] == fp);
    }
}

/// After registering a fingerprint it is known, the entries known before
/// keep their positions (and so their ids), and no fingerprint occurs twice.
pub proof fn lemma_ensure_registers(fps: Seq<Seq<char>>, fp: Seq<char>)
    requires
        fps.no_duplicates(),
    ensures
        with_fp(fps, fp).contains(fp),
        with_fp(fps, fp).subrange(0, fps.len() as int) == fps,
        with_fp(fps, fp).no_duplicates(),
        fps.contains(fp) ==> with_fp(fps, fp).index_of(fp) == fps.index_of(fp),
        !fps.contains(fp) ==> with_fp(fps, fp).index_of(fp) == fps.len(),
{
    let r = with_fp(fps, fp);
    if !fps.contains(fp) {
        assert(r[fps.len() as int] == fp);
        assert(r.subrange(0, fps.len() as int) =~= fps);
    } else {
        assert(r.subrange(0, fps.len() as int) =~= fps);
    }
    lemma_index_of_unique(r, fp);
    if fps.contains(fp) {
        lemma_index_of_unique(fps, fp);
    }
}

/// In a sequence without duplicates, `index_of` is the one position that
/// holds the element.
proof fn lemma_index_of_unique(s: Seq<Seq<char>>, x: Seq<char>)
    requires
        s.no_duplicates(),
        s.contains(x),
    ensures
        0 <= s.index_of(x) < s.len(),
        s[s.index_of(x)] == x,
        forall|k: int| 0 <= k < s.len() && s[k] == x ==> k == s.index_of(x),
{
}

/// Recording a replacement for a key makes it the key's replacement and
/// leaves every other key's replacement as it was.
pub proof fn lemma_override_insert(
    ovs: Seq<(Seq<char>, Seq<char>)>,
    key: Seq<char>,
    value: Seq<char>,
    other: Seq<char>,
)
    ensures
        override_for(ovs.push((key, value)), key) == Some(value),
        other != key ==> override_for(ovs.push((key, value)), other) == override_for(ovs, other),
{
    assert(ovs.push((key, value)).drop_last() =~= ovs);
}

/// The distinct entries of one kind of `<defs>` content, each with its
/// fingerprint, synthetic id and payload, and the replacement ids.
pub struct DefIds<T> {
    prefix: String,
    ids: Vec<String>,
    fingerprints: Vec<String>,
    items: Vec<T>,
    overrides: Vec<(String, String)>,
}

/// The pairs of a replacement list as character sequences.
pub open spec fn pairs_view(v: Seq<(String, String)>) -> Seq<(Seq<char>, Seq<char>)> {
    v.map_values(|p: (String, String)| (p.0@, p.1@))
}

impl<T> DefIds<T> {
    /// The prefix of the synthetic ids.
    pub closed spec fn prefix_view(&self) -> Seq<char> {
        self.prefix@
    }

    /// The fingerprints, in order of first registration.
    pub closed spec fn fingerprints_view(&self) -> Seq<Seq<char>> {
        strings_view(self.fingerprints@)
    }

    /// The payloads, in the same order.
    pub closed spec fn items_view(&self) -> Seq<T> {
        self.items@
    }

    /// The recorded replacements (synthetic id, replacement), oldest first.
    pub closed spec fn overrides_view(&self) -> Seq<(Seq<char>, Seq<char>)> {
        pairs_view(self.overrides@)
    }

    /// Every entry's id is its synthetic id, the three lists agree in
    /// length, and no fingerprint occurs twice.
    pub closed spec fn wf(&self) -> bool {
        &&& self.ids@.len() == self.fingerprints@.len()
        &&& self.items@.len() == self.fingerprints@.len()
        &&& forall|i: int| 0 <= i < self.ids@.len() ==> #[trigger] self.ids@[i]@ == synth_id(self.prefix@, i)
        &&& self.fingerprints_view().no_duplicates()
    }

    /// An empty collection whose synthetic ids start with `prefix`.
    pub fn new(prefix: &str) -> (r: Self)
        ensures
            r.wf(),
            r.prefix_view() == prefix@,
            r.fingerprints_view() == Seq::<Seq<char>>::empty(),
            r.items_view() == Seq::<T>::empty(),
            r.overrides_view() == Seq::<(Seq<char>, Seq<char>)>::empty(),
    {
        let r = DefIds {
            prefix: prefix.to_owned(),
            ids: Vec::new(),
            fingerprints: Vec::new(),
            items: Vec::new(),
            overrides: Vec::new(),
        };
        assert(r.fingerprints_view() =~= Seq::<Seq<char>>::empty());
        assert(r.overrides_view() =~= Seq::<(Seq<char>, Seq<char>)>::empty());
        r
    }

    /// The number of distinct entries.
    pub fn len(&self) -> (n: usize)
        requires
            self.wf(),
        ensures
            n == self.fingerprints_view().len(),
    {
        self.fingerprints.len()
    }

    /// Whether no entry was registered.
    pub fn is_empty(&self) -> (b: bool)
        requires
            self.wf(),
        ensures
            b == (self.fingerprints_view().len() == 0),
    {
        self.fingerprints.len() == 0
    }

    /// The position of `fp` among the fingerprints, if it is there.
    pub fn position(&self, fp: &str) -> (r: Option<usize>)
        requires
            self.wf(),
        ensures
            r is Some <==> self.fingerprints_view().contains(fp@),
            r matches Some(i) ==> i < self.fingerprints_view().len() && i == self.fingerprints_view().index_of(fp@),
    {
        let mut i: usize = 0;
        while i < self.fingerprints.len()
            invariant
                self.wf(),
                i <= self.fingerprints@.len(),
                forall|k: int| 0 <= k < i ==> self.fingerprints_view()[k] != fp@,
            decreases self.fingerprints@.len() - i,
        {
            assert(self.fingerprints_view()[i as int] == self.fingerprints@[i as int]@);
            if str_eq(self.fingerprints[i].as_str(), fp) {
                proof {
                    lemma_index_of_unique(self.fingerprints_view(), fp@);
                }
                return Some(i);
            }
            i += 1;
        }
        assert(!self.fingerprints_view().contains(fp@));
        None
    }

    /// The replacement recorded for synthetic id `synth`, the latest one
    /// when several were recorded.
    pub fn override_of(&self, synth: &str) -> (r: Option<&str>)
        ensures
            match r {
                Some(o) => override_for(self.overrides_view(), synth@) == Some(o@),
                None => override_for(self.overrides_view(), synth@) is None,
            },
    {
        let ghost ovs = self.overrides_view();
        let mut i: usize = self.overrides.len();
        assert(ovs.take(i as int) =~= ovs);
        while i > 0
            invariant
                i <= self.overrides@.len(),
                ovs == self.overrides_view(),
                override_for(ovs, synth@) == override_for(ovs.take(i as int), synth@),
            decreases i,
        {
            let ghost t = ovs.take(i as int);
            assert(t.last() == (self.overrides@[i - 1].0@, self.overrides@[i - 1].1@));
            if str_eq(self.overrides[i - 1].0.as_str(), synth) {
                return Some(self.overrides[i - 1].1.as_str());
            }
            assert(t.drop_last() =~= ovs.take(i - 1));
            i -= 1;
        }
        None
    }

    /// The id that references to the entry with fingerprint `fp` use: its
    /// synthetic id, or the replacement recorded for it; `None` when `fp`
    /// was never registered.
    pub fn lookup(&self, fp: &str) -> (r: Option<&str>)
        requires
            self.wf(),
        ensures
            r is Some <==> self.fingerprints_view().contains(fp@),
            r matches Some(s) ==> s@ == resolved_id(
                self.overrides_view(),
                synth_id(self.prefix_view(), self.fingerprints_view().index_of(fp@)),
            ),
    {
        match self.position(fp) {
            None => None,
            Some(i) => {
                let synth = self.ids[i].as_str();
                match self.override_of(synth) {
                    Some(o) => Some(o),
                    None => Some(synth),
                }
            },
        }
    }

    /// Record `orig` as the id to use in place of synthetic id `synth`,
    /// replacing an earlier record for `synth`.
    pub fn set_override(&mut self, synth: String, orig: String)
        requires
            old(self).wf(),
        ensures
            final(self).wf(),
            final(self).prefix_view() == old(self).prefix_view(),
            final(self).fingerprints_view() == old(self).fingerprints_view(),
            final(self).items_view() == old(self).items_view(),
            final(self).overrides_view() == old(self).overrides_view().push((synth@, orig@)),
    {
        let ghost before = self.overrides_view();
        self.overrides.push((synth, orig));
        assert(self.overrides_view() =~= before.push((synth@, orig@)));
    }

    /// The synthetic id of the entry at position `i`.
    pub fn id_at(&self, i: usize) -> (r: &str)
        requires
            self.wf(),
            i < self.fingerprints_view().len(),
        ensures
            r@ == synth_id(self.prefix_view(), i as int),
    {
        self.ids[i].as_str()
    }

    /// The fingerprint of the entry at position `i`.
    pub fn fingerprint_at(&self, i: usize) -> (r: &str)
        requires
            self.wf(),
            i < self.fingerprints_view().len(),
        ensures
            r@ == self.fingerprints_view()[i as int],
    {
        self.fingerprints[i].as_str()
    }

    /// The payloads, in order of first registration.
    pub fn into_items(self) -> (r: Vec<T>)
        ensures
            r@ == self.items_view(),
    {
        self.items
    }

    /// The payload of the entry at position `i`.
    pub fn item_at(&self, i: usize) -> (r: &T)
        requires
            self.wf(),
            i < self.fingerprints_view().len(),
        ensures
            *r == self.items_view()[i as int],
    {
        &self.items[i]
    }

    /// Register the entry with fingerprint `fp` and payload `item`: a known
    /// fingerprint leaves everything as it was; a new one is appended with
    /// the next synthetic id.
    pub fn ensure(&mut self, fp: String, item: T)
        requires
            old(self).wf(),
        ensures
            final(self).wf(),
            final(self).prefix_view() == old(self).prefix_view(),
            final(self).fingerprints_view() == with_fp(old(self).fingerprints_view(), fp@),
            final(self).items_view() == with_item(old(self).fingerprints_view(), old(self).items_view(), fp@, item),
            final(self).overrides_view() == old(self).overrides_view(),
    {
        if self.position(fp.as_str()).is_some() {
            return;
        }
        let n: usize = self.fingerprints.len();
        let mut id = self.prefix.clone();
        push_decimal(&mut id, (n as u128) + 1);
        let ghost old_fps = self.fingerprints_view();
        self.ids.push(id);
        self.fingerprints.push(fp);
        self.items.push(item);
        proof {
            assert(self.fingerprints_view() =~= old_fps.push(fp@));
            assert forall|a: int, b: int|
                0 <= a < b < self.fingerprints_view().len() implies self.fingerprints_view()[a]
                != self.fingerprints_view()[b] by {
                if b == n as int {
                    assert(!old_fps.contains(fp@));
                    assert(old_fps[a] == self.fingerprints_view()[a]);
                }
            }
        }
    }
}

} // verus!
