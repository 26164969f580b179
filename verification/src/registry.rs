//! The extension registry: an ordered mapping from a directory label to its
//! list of file extensions.
//!
//! Keys are unique and the entries are kept sorted by label, lexicographically
//! on the characters' scalar values; that order is load-bearing for
//! [`ExtensionRegistry::remove_highest_key`], which always removes the entry
//! whose label is maximal. `upsert` splits its raw text on the literal comma,
//! with no trimming and no filtering of empty pieces, and inserts or
//! overwrites the entry for the label.

use vstd::prelude::*;

verus! {

/// Strict lexicographic order on character sequences, by scalar value:
/// a proper prefix comes before its extensions, and otherwise the first
/// differing character decides.
pub open spec fn lex_lt(a: Seq<char>, b: Seq<char>) -> bool
    decreases a.len(),
{
    if b.len() == 0 {
        false
    } else if a.len() == 0 {
        true
    } else if a[0] == b[0] {
        lex_lt(a.drop_first(), b.drop_first())
    } else {
        (a[0] as u32) < (b[0] as u32)
    }
}

/// The order is irreflexive: no sequence comes before itself.
pub proof fn lemma_lex_irrefl(a: Seq<char>)
    ensures
        !lex_lt(a, a),
    decreases a.len(),
{
    if a.len() > 0 {
        lemma_lex_irrefl(a.drop_first());
    }
}

/// The order is connected: two sequences that neither precede the other are
/// equal.
pub proof fn lemma_lex_connected(a: Seq<char>, b: Seq<char>)
    requires
        !lex_lt(a, b),
        !lex_lt(b, a),
    ensures
        a == b,
    decreases a.len(),
{
    if a.len() == 0 || b.len() == 0 {
        assert(a =~= b);
    } else if a[0] == b[0] {
        lemma_lex_connected(a.drop_first(), b.drop_first());
        assert(a =~= b) by {
            assert forall|k: int| 0 <= k < a.len() implies a[k] == b[k] by {
                if k > 0 {
                    assert(a[k] == a.drop_first()[k - 1]);
                    assert(b[k] == b.drop_first()[k - 1]);
                }
            }
        }
    } else {
        vstd::utf8::char_u32_cast(a[0], a[0] as u32);
        vstd::utf8::char_u32_cast(b[0], b[0] as u32);
    }
}

/// The order is transitive.
pub proof fn lemma_lex_trans(a: Seq<char>, b: Seq<char>, c: Seq<char>)
    requires
        lex_lt(a, b),
        lex_lt(b, c),
    ensures
        lex_lt(a, c),
    decreases a.len(),
{
    if a.len() > 0 && b.len() > 0 && c.len() > 0 && a[0] == b[0] && b[0] == c[0] {
        lemma_lex_trans(a.drop_first(), b.drop_first(), c.drop_first());
    }
}

/// Whether two character vectors hold the same sequence.
fn chars_eq(a: &Vec<char>, b: &Vec<char>) -> (r: bool)
    ensures
        r <==> a@ == b@,
{
    if a.len() != b.len() {
        return false;
    }
    let mut i: usize = 0;
    while i < a.len()
        invariant
            i <= a.len(),
            a@.len() == b@.len(),
            forall|k: int| 0 <= k < i ==> a@[k] == b@[k],
        decreases a.len() - i,
    {
        if a[i] != b[i] {
            return false;
        }
        i += 1;
    }
    proof {
        assert(a@ =~= b@);
    }
    true
}

/// Whether `a` comes strictly before `b` in the lexicographic order.
fn chars_lt(a: &Vec<char>, b: &Vec<char>) -> (r: bool)
    ensures
        r == lex_lt(a@, b@),
{
    let a_len = a.len();
    let b_len = b.len();
    let mut i: usize = 0;
    proof {
        assert(a@.skip(0) =~= a@);
        assert(b@.skip(0) =~= b@);
    }
    loop
        invariant
            i <= a_len,
            i <= b_len,
            a_len == a@.len(),
            b_len == b@.len(),
            forall|k: int| 0 <= k < i ==> a@[k] == b@[k],
            lex_lt(a@, b@) == lex_lt(a@.skip(i as int), b@.skip(i as int)),
        decreases a_len - i,
    {
        if i == a_len {
            return i < b_len;
        }
        if i == b_len {
            return false;
        }
        let ca = a[i];
        let cb = b[i];
        if ca != cb {
            return (ca as u32) < (cb as u32);
        }
        proof {
            lemma_lex_skip_one(a@, b@, i as int);
        }
        i += 1;
    }
}

/// Dropping an equal head character from both sequences does not change how
/// they compare.
proof fn lemma_lex_skip_one(a: Seq<char>, b: Seq<char>, i: int)
    requires
        0 <= i < a.len(),
        0 <= i < b.len(),
        a[i] == b[i],
        lex_lt(a, b) == lex_lt(a.skip(i), b.skip(i)),
    ensures
        lex_lt(a, b) == lex_lt(a.skip(i + 1), b.skip(i + 1)),
{
    assert(a.skip(i).drop_first() =~= a.skip(i + 1));
    assert(b.skip(i).drop_first() =~= b.skip(i + 1));
    assert(a.skip(i)[0] == a[i]);
}

/// The pieces of `s` between literal commas, in order: no trimming and no
/// filtering, so an empty text yields one empty piece and a trailing comma
/// yields an empty trailing piece.
pub open spec fn spec_split(s: Seq<char>) -> Seq<Seq<char>>
    decreases s.len(),
{
    if s.len() == 0 {
        seq![Seq::<char>::empty()]
    } else {
        let parts = spec_split(s.drop_last());
        if s.last() == ',' {
            parts.push(Seq::<char>::empty())
        } else {
            parts.update(parts.len() - 1, parts.last().push(s.last()))
        }
    }
}

/// A split always yields at least one piece.
pub proof fn lemma_split_nonempty(s: Seq<char>)
    ensures
        spec_split(s).len() >= 1,
    decreases s.len(),
{
    if s.len() > 0 {
        lemma_split_nonempty(s.drop_last());
    }
}

/// Splits `raw` on the literal comma character, keeping every piece exactly
/// as typed.
pub fn split_commas(raw: &Vec<char>) -> (parts: Vec<Vec<char>>)
    ensures
        parts.deep_view() == spec_split(raw@),
{
    let mut done: Vec<Vec<char>> = Vec::new();
    let mut cur: Vec<char> = Vec::new();
    let mut i: usize = 0;
    proof {
        assert(raw@.take(0) =~= Seq::<char>::empty());
        assert(done.deep_view().push(cur@) =~~= spec_split(raw@.take(0)));
    }
    while i < raw.len()
        invariant
            i <= raw@.len(),
            done.deep_view().push(cur@) == spec_split(raw@.take(i as int)),
        decreases raw@.len() - i,
    {
        let ghost prev = spec_split(raw@.take(i as int));
        proof {
            lemma_split_nonempty(raw@.take(i as int));
            assert(raw@.take(i + 1).drop_last() =~= raw@.take(i as int));
            assert(raw@.take(i + 1).last() == raw@[i as int]);
        }
        let c = raw[i];
        if c == ',' {
            let ghost old_done = done.deep_view();
            done.push(cur);
            cur = Vec::new();
            proof {
                assert(done.deep_view() =~~= old_done.push(prev.last()));
                assert(done.deep_view().push(cur@) =~~= prev.push(Seq::<char>::empty()));
            }
        } else {
            let ghost old_cur = cur@;
            cur.push(c);
            proof {
                assert(prev.last() == old_cur);
                assert(done.deep_view().push(cur@) =~= prev.update(
                    prev.len() - 1,
                    prev.last().push(c),
                ));
            }
        }
        i += 1;
    }
    proof {
        assert(raw@.take(raw@.len() as int) =~= raw@);
    }
    let ghost final_done = done.deep_view();
    done.push(cur);
    proof {
        assert(done.deep_view() =~~= final_done.push(cur@));
    }
    done
}

/// A copy of the character vector.
fn copy_chars(a: &Vec<char>) -> (r: Vec<char>)
    ensures
        r@ == a@,
{
    let mut r: Vec<char> = Vec::new();
    let mut i: usize = 0;
    while i < a.len()
        invariant
            i <= a@.len(),
            r@ == a@.take(i as int),
        decreases a@.len() - i,
    {
        r.push(a[i]);
        proof {
            assert(r@ =~= a@.take(i + 1));
        }
        i += 1;
    }
    proof {
        assert(a@.take(a@.len() as int) =~= a@);
    }
    r
}

/// The mathematical content of one registry entry: a label and its ordered
/// extension list.
pub struct EntryView {
    pub label: Seq<char>,
    pub extensions: Seq<Seq<char>>,
}

/// One association of a directory label with its list of file extensions.
#[derive(Debug)]
pub struct ExtensionEntry {
    pub label: Vec<char>,
    pub extensions: Vec<Vec<char>>,
}

impl View for ExtensionEntry {
    type V = EntryView;

    open spec fn view(&self) -> EntryView {
        EntryView { label: self.label@, extensions: self.extensions.deep_view() }
    }
}

impl DeepView for ExtensionEntry {
    type V = EntryView;

    open spec fn deep_view(&self) -> EntryView {
        self@
    }
}

/// Entries stand in strictly ascending label order; in particular the keys
/// are unique and the last entry carries the maximal label.
pub open spec fn sorted_by_label(s: Seq<EntryView>) -> bool {
    forall|i: int, j: int| 0 <= i < j < s.len() ==> lex_lt(s[i].label, s[j].label)
}

/// The position at which an entry with `label` stands or would be inserted:
/// the number of entries whose label comes strictly before `label`.
pub open spec fn insert_pos(s: Seq<EntryView>, label: Seq<char>) -> int
    decreases s.len(),
{
    if s.len() == 0 {
        0
    } else if !lex_lt(s[0].label, label) {
        0
    } else {
        1 + insert_pos(s.drop_first(), label)
    }
}

/// `insert_pos` is the first position whose label does not come before
/// `label`; every earlier label does.
pub proof fn lemma_insert_pos(s: Seq<EntryView>, label: Seq<char>)
    ensures
        0 <= insert_pos(s, label) <= s.len(),
        forall|k: int| 0 <= k < insert_pos(s, label) ==> lex_lt(#[trigger] s[k].label, label),
        insert_pos(s, label) < s.len() ==> !lex_lt(s[insert_pos(s, label)].label, label),
    decreases s.len(),
{
    if s.len() > 0 && lex_lt(s[0].label, label) {
        lemma_insert_pos(s.drop_first(), label);
        let p = insert_pos(s, label);
        assert forall|k: int| 0 <= k < p implies lex_lt(#[trigger] s[k].label, label) by {
            if k > 0 {
                assert(s.drop_first()[k - 1] == s[k]);
            }
        }
        if p < s.len() {
            assert(s.drop_first()[p - 1] == s[p]);
        }
    }
}

/// The registry after an upsert: if `label` is already a key, its entry is
/// overwritten in place; otherwise a new entry enters at its sorted position.
pub open spec fn spec_upsert(
    s: Seq<EntryView>,
    label: Seq<char>,
    exts: Seq<Seq<char>>,
) -> Seq<EntryView> {
    let i = insert_pos(s, label);
    let e = EntryView { label: label, extensions: exts };
    if i < s.len() && s[i].label == label {
        s.update(i, e)
    } else {
        s.insert(i, e)
    }
}

/// From a position whose label does not come before `label` and differs from
/// it, `label` comes strictly before that position's label.
proof fn lemma_lex_gt(a: Seq<char>, b: Seq<char>)
    requires
        !lex_lt(a, b),
        a != b,
    ensures
        lex_lt(b, a),
{
    if !lex_lt(b, a) {
        lemma_lex_connected(a, b);
    }
}

/// An upsert keeps the entries sorted by label.
pub proof fn lemma_upsert_sorted(s: Seq<EntryView>, label: Seq<char>, exts: Seq<Seq<char>>)
    requires
        sorted_by_label(s),
    ensures
        sorted_by_label(spec_upsert(s, label, exts)),
{
    lemma_insert_pos(s, label);
    let i = insert_pos(s, label);
    let e = EntryView { label: label, extensions: exts };
    let r = spec_upsert(s, label, exts);
    if i < s.len() && s[i].label == label {
        assert forall|j: int, k: int| 0 <= j < k < r.len() implies lex_lt(
            r[j].label,
            r[k].label,
        ) by {
            assert(lex_lt(s[j].label, s[k].label));
        }
    } else {
        s.insert_ensures(i, e);
        if i < s.len() {
            lemma_lex_gt(s[i].label, label);
        }
        assert forall|j: int, k: int| 0 <= j < k < r.len() implies lex_lt(
            r[j].label,
            r[k].label,
        ) by {
            if k < i {
                assert(r[j] == s[j] && r[k] == s[k]);
            } else if j < i && k == i {
                assert(r[j] == s[j] && r[k] == e);
            } else if j < i && k > i {
                assert(r[j] == s[j] && r[k] == s[k - 1]);
                if k - 1 > j {
                    assert(lex_lt(s[j].label, s[k - 1].label));
                } else {
                    assert(lex_lt(s[j].label, label));
                    lemma_lex_trans(s[j].label, label, s[k - 1].label);
                }
            } else if j == i {
                assert(r[j] == e && r[k] == s[k - 1]);
                assert(lex_lt(label, s[i].label));
                if k - 1 > i {
                    lemma_lex_trans(label, s[i].label, s[k - 1].label);
                }
            } else {
                assert(r[j] == s[j - 1] && r[k] == s[k - 1]);
            }
        }
    }
}

/// After an upsert, the entry for `label` holds exactly `exts`, it stands at
/// `insert_pos`, and no other position carries that label: an upsert
/// overwrites rather than appends.
pub proof fn lemma_upsert_lookup(s: Seq<EntryView>, label: Seq<char>, exts: Seq<Seq<char>>)
    requires
        sorted_by_label(s),
    ensures
        0 <= insert_pos(s, label) < spec_upsert(s, label, exts).len(),
        spec_upsert(s, label, exts)[insert_pos(s, label)] == (EntryView {
            label: label,
            extensions: exts,
        }),
        (forall|j: int|
            0 <= j < spec_upsert(s, label, exts).len() && #[trigger] spec_upsert(
                s,
                label,
                exts,
            )[j].label == label ==> j == insert_pos(s, label)),
{
    lemma_insert_pos(s, label);
    let i = insert_pos(s, label);
    let e = EntryView { label: label, extensions: exts };
    let r = spec_upsert(s, label, exts);
    if i < s.len() && s[i].label == label {
        assert forall|j: int| 0 <= j < r.len() && #[trigger] r[j].label == label implies j
            == i by {
            if j < i {
                assert(lex_lt(s[j].label, label));
                lemma_lex_irrefl(label);
            } else if j > i {
                assert(lex_lt(s[i].label, s[j].label));
                lemma_lex_irrefl(label);
            }
        }
    } else {
        s.insert_ensures(i, e);
        if i < s.len() {
            lemma_lex_gt(s[i].label, label);
        }
        assert forall|j: int| 0 <= j < r.len() && #[trigger] r[j].label == label implies j
            == i by {
            lemma_lex_irrefl(label);
            if j < i {
                assert(r[j] == s[j]);
                assert(lex_lt(s[j].label, label));
            } else if j > i {
                assert(r[j] == s[j - 1]);
                if j - 1 > i {
                    lemma_lex_trans(label, s[i].label, s[j - 1].label);
                }
            }
        }
    }
}

/// The ordered label-to-extensions registry.
#[derive(Debug)]
pub struct ExtensionRegistry {
    entries: Vec<ExtensionEntry>,
}

impl View for ExtensionRegistry {
    type V = Seq<EntryView>;

    closed spec fn view(&self) -> Seq<EntryView> {
        self.entries.deep_view()
    }
}

impl ExtensionRegistry {
    /// The registry keeps its entries sorted by label.
    pub open spec fn wf(&self) -> bool {
        sorted_by_label(self@)
    }

    /// An empty registry.
    pub fn new() -> (r: ExtensionRegistry)
        ensures
            r@ == Seq::<EntryView>::empty(),
            r.wf(),
    {
        let r = ExtensionRegistry { entries: Vec::new() };
        proof {
            assert(r@ =~= Seq::<EntryView>::empty());
        }
        r
    }

    /// A registry holding the one given entry.
    pub fn from_entry(entry: ExtensionEntry) -> (r: ExtensionRegistry)
        ensures
            r@ == seq![entry@],
            r.wf(),
    {
        let mut entries: Vec<ExtensionEntry> = Vec::new();
        entries.push(entry);
        let r = ExtensionRegistry { entries };
        proof {
            assert(r@ =~= seq![entry@]);
        }
        r
    }

    /// How many labels the registry holds.
    pub fn len(&self) -> (n: usize)
        ensures
            n == self@.len(),
    {
        self.entries.len()
    }

    /// The entries in ascending label order, for a reader of the state.
    pub fn entries(&self) -> (r: &Vec<ExtensionEntry>)
        ensures
            r.deep_view() == self@,
    {
        &self.entries
    }

    /// The extension list recorded for `label`: `Some` exactly when the label
    /// is a key of the registry.
    pub fn lookup(&self, label: &Vec<char>) -> (r: Option<&Vec<Vec<char>>>)
        ensures
            match r {
                Some(v) => exists|i: int|
                    0 <= i < self@.len() && #[trigger] self@[i].label == label@
                        && v.deep_view() == self@[i].extensions,
                None => forall|i: int| 0 <= i < self@.len() ==> self@[i].label != label@,
            },
    {
        let mut i: usize = 0;
        while i < self.entries.len()
            invariant
                i <= self@.len(),
                forall|k: int| 0 <= k < i ==> self@[k].label != label@,
            decreases self@.len() - i,
        {
            if chars_eq(&self.entries[i].label, label) {
                proof {
                    assert(self@[i as int] == self.entries@[i as int]@);
                    assert(self@[i as int].label == label@);
                }
                return Some(&self.entries[i].extensions);
            }
            i += 1;
        }
        None
    }

    /// Splits `raw` on the literal comma and inserts or overwrites the entry
    /// for `label`; any label, the empty one included, is a valid key.
    pub fn upsert(&mut self, label: &Vec<char>, raw: &Vec<char>)
        ensures
            final(self)@ == spec_upsert(old(self)@, label@, spec_split(raw@)),
            old(self).wf() ==> final(self).wf(),
    {
        let exts = split_commas(raw);
        let entry = ExtensionEntry { label: copy_chars(label), extensions: exts };
        let ghost s = self@;
        let ghost e = EntryView { label: label@, extensions: spec_split(raw@) };
        proof {
            assert(entry@ == e);
            lemma_insert_pos(s, label@);
        }
        let n = self.entries.len();
        let mut i: usize = 0;
        loop
            invariant
                i <= n,
                n == self@.len(),
                self@ == s,
                forall|k: int| 0 <= k < i ==> lex_lt(#[trigger] s[k].label, label@),
            ensures
                i <= n,
                self@ == s,
                forall|k: int| 0 <= k < i ==> lex_lt(#[trigger] s[k].label, label@),
                i < n ==> !lex_lt(s[i as int].label, label@),
            decreases n - i,
        {
            if i == n {
                break;
            }
            if !chars_lt(&self.entries[i].label, label) {
                break;
            }
            i += 1;
        }
        proof {
            let p = insert_pos(s, label@);
            if i < p {
                assert(lex_lt(s[i as int].label, label@));
            }
            if p < i {
                assert(lex_lt(s[p].label, label@));
            }
            assert(i == p);
        }
        if i < n && chars_eq(&self.entries[i].label, label) {
            self.entries.remove(i);
            self.entries.insert(i, entry);
            proof {
                assert(final(self)@ =~= s.update(i as int, e));
            }
        } else {
            self.entries.insert(i, entry);
            proof {
                s.insert_ensures(i as int, e);
                assert(final(self)@ =~= s.insert(i as int, e));
            }
        }
        proof {
            if sorted_by_label(s) {
                lemma_upsert_sorted(s, label@, spec_split(raw@));
            }
        }
    }

    /// Removes the entry whose label is maximal in the registry's order; on
    /// an empty registry this is a no-op, not an error.
    pub fn remove_highest_key(&mut self)
        ensures
            old(self)@.len() == 0 ==> final(self)@ == old(self)@,
            old(self)@.len() > 0 ==> final(self)@ == old(self)@.drop_last(),
            old(self).wf() ==> final(self).wf(),
    {
        let ghost s = self@;
        if self.entries.len() > 0 {
            self.entries.pop();
            proof {
                assert(final(self)@ =~= s.drop_last());
            }
        }
    }
}

/// In a sorted registry the last entry's label is the maximal key: every
/// other label comes strictly before it, so removing the highest key removes
/// the last entry and never any other.
pub proof fn lemma_highest_is_max(s: Seq<EntryView>)
    requires
        sorted_by_label(s),
        s.len() > 0,
    ensures
        forall|k: int| 0 <= k < s.len() - 1 ==> lex_lt(#[trigger] s[k].label, s.last().label),
{
}

} // verus!
