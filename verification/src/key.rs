//! The identity of a metric: a name and a set of tags.
//!
//! A key keeps its tags in one canonical order, so that two keys made from the
//! same name and the same tags, given in any order, are the same key.

use crate::order::{
    bytes_lt, compare_text, lemma_bytes_lt_asymmetric, lemma_bytes_lt_irreflexive,
    lemma_bytes_lt_total, lemma_bytes_lt_transitive, lemma_encoding_injective, text_lt, Rank,
};
use vstd::prelude::*;
use vstd::relations::*;
use vstd::seq_lib::*;

verus! {

pub type KeyName = String;

/// What a tag is: its key and its value, as text.
pub type TagView = (Seq<char>, Seq<char>);

/// What a key is: its name, and its tags in canonical order.
pub struct KeyView {
    pub name: Seq<char>,
    pub tags: Seq<TagView>,
}

/// The order of tags: by key, and among equal keys by value.
pub open spec fn tag_lt(a: TagView, b: TagView) -> bool {
    text_lt(a.0, b.0) || (a.0 == b.0 && text_lt(a.1, b.1))
}

/// `a` comes before `b` or is `b`.
pub open spec fn tag_le(a: TagView, b: TagView) -> bool {
    a == b || tag_lt(a, b)
}

/// A sequence of tags is canonical when it is in non-decreasing order.
pub open spec fn canonical(tags: Seq<TagView>) -> bool {
    forall|i: int, j: int| 0 <= i < j < tags.len() ==> tag_le(#[trigger] tags[i], #[trigger] tags[j])
}

/// The same tags in canonical order.
pub open spec fn canonical_order(tags: Seq<TagView>) -> Seq<TagView> {
    tags.sort_by(|a: TagView, b: TagView| tag_le(a, b))
}

/// The key with this name and these tags, in whatever order they are given.
pub open spec fn key_of(name: Seq<char>, tags: Seq<Tag>) -> KeyView {
    KeyView { name, tags: canonical_order(tag_views(tags)) }
}

/// The key with this name and no tags.
pub open spec fn plain_key(name: Seq<char>) -> KeyView {
    KeyView { name, tags: Seq::<TagView>::empty() }
}

/// The views of a sequence of tags.
pub open spec fn tag_views(tags: Seq<Tag>) -> Seq<TagView> {
    tags.map_values(|t: Tag| t@)
}

/// `tag_le` is a total order.
pub proof fn lemma_tag_le_total_order()
    ensures
        total_ordering(|a: TagView, b: TagView| tag_le(a, b)),
{
    let le = |a: TagView, b: TagView| tag_le(a, b);
    assert forall|a: TagView, b: TagView| #[trigger] le(a, b) && le(b, a) implies a == b by {
        lemma_tag_order(a, b);
    }
    assert forall|a: TagView, b: TagView, c: TagView| #[trigger]
        le(a, b) && #[trigger] le(b, c) implies le(a, c) by {
        lemma_tag_le_transitive(a, b, c);
    }
    assert forall|a: TagView, b: TagView| #[trigger] le(a, b) || #[trigger] le(b, a) by {
        lemma_tag_order(a, b);
    }
    assert(reflexive(le));
    assert(antisymmetric(le));
    assert(transitive(le));
    assert(strongly_connected(le));
}

/// Of two tags exactly one holds: they are equal, the first comes before the
/// second, or the second before the first.
pub proof fn lemma_tag_order(a: TagView, b: TagView)
    ensures
        a == b || tag_lt(a, b) || tag_lt(b, a),
        !(tag_lt(a, b) && tag_lt(b, a)),
        !tag_lt(a, a),
{
    let (ak, av) = (vstd::utf8::encode_utf8(a.0), vstd::utf8::encode_utf8(a.1));
    let (bk, bv) = (vstd::utf8::encode_utf8(b.0), vstd::utf8::encode_utf8(b.1));
    lemma_bytes_lt_total(ak, bk);
    lemma_bytes_lt_total(av, bv);
    lemma_bytes_lt_irreflexive(ak);
    lemma_bytes_lt_irreflexive(av);
    if ak == bk {
        lemma_encoding_injective(a.0, b.0);
    }
    if av == bv {
        lemma_encoding_injective(a.1, b.1);
    }
    if bytes_lt(ak, bk) {
        lemma_bytes_lt_asymmetric(ak, bk);
    }
    if bytes_lt(av, bv) {
        lemma_bytes_lt_asymmetric(av, bv);
    }
}

/// `tag_le` is transitive.
pub proof fn lemma_tag_le_transitive(a: TagView, b: TagView, c: TagView)
    requires
        tag_le(a, b),
        tag_le(b, c),
    ensures
        tag_le(a, c),
{
    let (ak, av) = (vstd::utf8::encode_utf8(a.0), vstd::utf8::encode_utf8(a.1));
    let (bk, bv) = (vstd::utf8::encode_utf8(b.0), vstd::utf8::encode_utf8(b.1));
    let (ck, cv) = (vstd::utf8::encode_utf8(c.0), vstd::utf8::encode_utf8(c.1));
    if a != b && b != c {
        if bytes_lt(ak, bk) && bytes_lt(bk, ck) {
            lemma_bytes_lt_transitive(ak, bk, ck);
        }
        if bytes_lt(av, bv) && bytes_lt(bv, cv) {
            lemma_bytes_lt_transitive(av, bv, cv);
        }
    }
}

/// A name and value that qualify a metric.
#[derive(Debug, Eq, Hash, PartialOrd, Ord)]
pub struct Tag {
    key: String,
    value: String,
}

impl View for Tag {
    type V = TagView;

    closed spec fn view(&self) -> TagView {
        (self.key@, self.value@)
    }
}

impl Clone for Tag {
    fn clone(&self) -> (r: Self)
        ensures
            r@ == self@,
    {
        Tag { key: self.key.clone(), value: self.value.clone() }
    }
}

impl PartialEq for Tag {
    fn eq(&self, other: &Self) -> (r: bool) {
        self.key == other.key && self.value == other.value
    }
}

impl vstd::std_specs::cmp::PartialEqSpecImpl for Tag {
    open spec fn obeys_eq_spec() -> bool {
        true
    }

    open spec fn eq_spec(&self, other: &Self) -> bool {
        self@ == other@
    }
}

impl Tag {
    /// A tag with the given key and value.
    pub fn new(key: &str, value: &str) -> (t: Self)
        ensures
            t@ == (key@, value@),
    {
        Self { key: key.to_owned(), value: value.to_owned() }
    }

    /// The tag's key.
    pub fn key(&self) -> (k: &str)
        ensures
            k@ == self@.0,
    {
        self.key.as_str()
    }

    /// The tag's value.
    pub fn value(&self) -> (v: &str)
        ensures
            v@ == self@.1,
    {
        self.value.as_str()
    }

    /// How this tag stands to `other` in the order of tags.
    pub fn rank(&self, other: &Tag) -> (r: Rank)
        ensures
            (r == Rank::Same) == (self@ == other@),
            (r == Rank::Before) == tag_lt(self@, other@),
            (r == Rank::After) == tag_lt(other@, self@),
    {
        proof {
            lemma_tag_order(self@, other@);
        }
        match compare_text(self.key.as_str(), other.key.as_str()) {
            Rank::Before => Rank::Before,
            Rank::After => Rank::After,
            Rank::Same => compare_text(self.value.as_str(), other.value.as_str()),
        }
    }
}

/// Puts `tag` into `tags`, which is in canonical order, at its place.
fn insert_in_order(tags: &mut Vec<Tag>, tag: Tag)
    requires
        canonical(tag_views(old(tags)@)),
    ensures
        canonical(tag_views(final(tags)@)),
        tag_views(final(tags)@).to_multiset() == tag_views(old(tags)@).to_multiset().insert(tag@),
{
    let mut i: usize = 0;
    while i < tags.len() && tags[i].rank(&tag) == Rank::Before
        invariant
            i <= tags.len(),
            forall|j: int| 0 <= j < i ==> tag_lt(#[trigger] tags@[j]@, tag@),
        decreases tags.len() - i,
    {
        i += 1;
    }
    let ghost before = tag_views(tags@);
    tags.insert(i, tag);
    proof {
        let after = tag_views(tags@);
        assert(after =~= before.insert(i as int, tag@));
        to_multiset_insert(before, i as int, tag@);
        assert forall|a: int, b: int| 0 <= a < b < after.len() implies tag_le(
            after[a],
            after[b],
        ) by {
            if b < i {
                assert(tag_le(before[a], before[b]));
            } else if b == i {
                assert(after[a] == before[a]);
                assert(tag_lt(old(tags)@[a]@, tag@));
            } else if a == i {
                // `before[i]` does not come before the new tag
                assert(after[b] == before[b - 1]);
                assert(!tag_lt(old(tags)@[i as int]@, tag@));
                lemma_tag_order(before[i as int], tag@);
                if b - 1 > i {
                    assert(tag_le(before[i as int], before[b - 1]));
                }
                lemma_tag_le_transitive(tag@, before[i as int], before[b - 1]);
            } else if a < i {
                assert(after[b] == before[b - 1]);
                assert(after[a] == before[a]);
                assert(tag_le(before[a], before[b - 1]));
            } else {
                assert(after[a] == before[a - 1]);
                assert(after[b] == before[b - 1]);
                assert(tag_le(before[a - 1], before[b - 1]));
            }
        }
    }
}

/// The same tags in canonical order.
pub fn sort_tags(tags: Vec<Tag>) -> (sorted: Vec<Tag>)
    ensures
        tag_views(sorted@) == canonical_order(tag_views(tags@)),
        canonical(tag_views(sorted@)),
        tag_views(sorted@).to_multiset() == tag_views(tags@).to_multiset(),
{
    let mut rest = tags;
    let mut sorted: Vec<Tag> = Vec::new();
    proof {
        assert(tag_views(sorted@) =~= Seq::empty());
        assert(tag_views(sorted@).to_multiset().add(tag_views(rest@).to_multiset())
            =~= tag_views(tags@).to_multiset()) by {
            broadcast use vstd::multiset::group_multiset_axioms;
            broadcast use group_to_multiset_ensures;

            assert(Seq::<TagView>::empty().to_multiset().len() == 0);
        }
    }
    loop
        invariant
            canonical(tag_views(sorted@)),
            tag_views(sorted@).to_multiset().add(tag_views(rest@).to_multiset()) == tag_views(
                tags@,
            ).to_multiset(),
        ensures
            canonical(tag_views(sorted@)),
            tag_views(sorted@).to_multiset() == tag_views(tags@).to_multiset(),
        decreases rest.len(),
    {
        let ghost rest_before = tag_views(rest@);
        let ghost sorted_before = tag_views(sorted@);
        match rest.pop() {
            None => {
                proof {
                    broadcast use vstd::multiset::group_multiset_axioms;
                    broadcast use group_to_multiset_ensures;

                    assert(rest_before.to_multiset().len() == 0);
                    assert(sorted_before.to_multiset().add(rest_before.to_multiset())
                        =~= sorted_before.to_multiset());
                }
                break ;
            },
            Some(tag) => {
                insert_in_order(&mut sorted, tag);
                proof {
                    broadcast use vstd::multiset::group_multiset_axioms;
                    broadcast use group_to_multiset_ensures;

                    let last = rest_before.len() - 1;
                    assert(tag_views(rest@) =~= rest_before.remove(last));
                    assert(rest_before[last] == tag@);
                    assert(tag_views(sorted@).to_multiset().add(tag_views(rest@).to_multiset())
                        =~= sorted_before.to_multiset().add(rest_before.to_multiset()));
                }
            },
        }
    }
    proof {
        lemma_canonical_order(tag_views(tags@));
        lemma_canonical_tags_unique(tag_views(sorted@), canonical_order(tag_views(tags@)));
    }
    sorted
}

/// The order of sequences of tags: at the first place where two differ the
/// one with the tag that comes first comes first, and a sequence comes
/// before those that carry on where it ends.
pub open spec fn tags_lt(a: Seq<TagView>, b: Seq<TagView>) -> bool
    decreases a.len(),
{
    if b.len() == 0 {
        false
    } else if a.len() == 0 {
        true
    } else if a[0] != b[0] {
        tag_lt(a[0], b[0])
    } else {
        tags_lt(a.drop_first(), b.drop_first())
    }
}

/// The order of keys: by name, and among keys of one name by their tags.
pub open spec fn key_lt(a: KeyView, b: KeyView) -> bool {
    text_lt(a.name, b.name) || (a.name == b.name && tags_lt(a.tags, b.tags))
}

/// Of two sequences of tags exactly one holds: they are equal, the first
/// comes before the second, or the second before the first.
pub proof fn lemma_tags_order(a: Seq<TagView>, b: Seq<TagView>)
    ensures
        a == b || tags_lt(a, b) || tags_lt(b, a),
        !(tags_lt(a, b) && tags_lt(b, a)),
        !tags_lt(a, a),
    decreases a.len(),
{
    if a.len() > 0 {
        lemma_tags_order(a.drop_first(), a.drop_first());
    }
    if a.len() > 0 && b.len() > 0 {
        if a[0] == b[0] {
            lemma_tags_order(a.drop_first(), b.drop_first());
            if a.drop_first() == b.drop_first() {
                lemma_same_first_and_rest(a, b);
            }
        } else {
            lemma_tag_order(a[0], b[0]);
        }
    } else if a.len() == 0 && b.len() == 0 {
        assert(a =~= b);
    }
}

/// The order of sequences of tags is transitive.
pub proof fn lemma_tags_lt_transitive(a: Seq<TagView>, b: Seq<TagView>, c: Seq<TagView>)
    requires
        tags_lt(a, b),
        tags_lt(b, c),
    ensures
        tags_lt(a, c),
    decreases a.len(),
{
    if a.len() > 0 && b.len() > 0 && c.len() > 0 {
        lemma_tag_order(a[0], b[0]);
        lemma_tag_order(b[0], c[0]);
        lemma_tag_order(a[0], c[0]);
        if a[0] == b[0] && b[0] == c[0] {
            lemma_tags_lt_transitive(a.drop_first(), b.drop_first(), c.drop_first());
        } else if a[0] != b[0] && b[0] != c[0] {
            lemma_tag_le_transitive(a[0], b[0], c[0]);
        }
    }
}

/// Of two keys exactly one holds: they are equal, the first comes before
/// the second, or the second before the first. So the order of keys agrees
/// with their equality.
pub proof fn lemma_key_order(a: KeyView, b: KeyView)
    ensures
        a == b || key_lt(a, b) || key_lt(b, a),
        !(key_lt(a, b) && key_lt(b, a)),
        !key_lt(a, a),
{
    lemma_tags_order(a.tags, b.tags);
    lemma_tags_order(a.tags, a.tags);
    lemma_tag_order((a.name, a.name), (b.name, b.name));
}

/// The order of keys is transitive.
pub proof fn lemma_key_lt_transitive(a: KeyView, b: KeyView, c: KeyView)
    requires
        key_lt(a, b),
        key_lt(b, c),
    ensures
        key_lt(a, c),
{
    let (an, bn, cn) = (
        vstd::utf8::encode_utf8(a.name),
        vstd::utf8::encode_utf8(b.name),
        vstd::utf8::encode_utf8(c.name),
    );
    if bytes_lt(an, bn) && bytes_lt(bn, cn) {
        lemma_bytes_lt_transitive(an, bn, cn);
    }
    if a.name == b.name && b.name == c.name {
        lemma_bytes_lt_irreflexive(an);
        lemma_tags_lt_transitive(a.tags, b.tags, c.tags);
    }
}

/// Two sequences with the same first tag and the same rest are equal.
proof fn lemma_same_first_and_rest(a: Seq<TagView>, b: Seq<TagView>)
    requires
        a.len() > 0,
        b.len() > 0,
        a[0] == b[0],
        a.drop_first() == b.drop_first(),
    ensures
        a == b,
{
    assert(a.len() == a.drop_first().len() + 1);
    assert(b.len() == b.drop_first().len() + 1);
    assert forall|i: int| 0 <= i < a.len() implies a[i] == b[i] by {
        if i > 0 {
            assert(a[i] == a.drop_first()[i - 1]);
            assert(b[i] == b.drop_first()[i - 1]);
        }
    }
    assert(a =~= b);
}

/// What `tags_lt` says of two sequences that agree on their first `k` tags
/// is what it says of the rest.
proof fn lemma_tags_lt_skip(a: Seq<TagView>, b: Seq<TagView>, k: int)
    requires
        0 <= k <= a.len(),
        k <= b.len(),
        forall|i: int| 0 <= i < k ==> a[i] == b[i],
    ensures
        tags_lt(a, b) == tags_lt(a.skip(k), b.skip(k)),
        tags_lt(b, a) == tags_lt(b.skip(k), a.skip(k)),
        a == b <==> a.skip(k) == b.skip(k),
    decreases k,
{
    if k == 0 {
        assert(a.skip(0) =~= a);
        assert(b.skip(0) =~= b);
    } else {
        assert(a[0] == b[0]);
        assert forall|i: int| 0 <= i < k - 1 implies a.drop_first()[i] == b.drop_first()[i] by {
            assert(a.drop_first()[i] == a[i + 1]);
            assert(b.drop_first()[i] == b[i + 1]);
        }
        lemma_tags_lt_skip(a.drop_first(), b.drop_first(), k - 1);
        assert(a.drop_first().skip(k - 1) =~= a.skip(k));
        assert(b.drop_first().skip(k - 1) =~= b.skip(k));
        if a.drop_first() == b.drop_first() {
            lemma_same_first_and_rest(a, b);
        }
    }
}

/// How the tags `a` stand to the tags `b` in the order of sequences of tags.
fn rank_tags(a: &Vec<Tag>, b: &Vec<Tag>) -> (r: Rank)
    ensures
        (r == Rank::Same) == (tag_views(a@) == tag_views(b@)),
        (r == Rank::Before) == tags_lt(tag_views(a@), tag_views(b@)),
        (r == Rank::After) == tags_lt(tag_views(b@), tag_views(a@)),
{
    let ghost x = tag_views(a@);
    let ghost y = tag_views(b@);
    proof {
        lemma_tags_order(x, y);
    }
    let n: usize = if a.len() < b.len() {
        a.len()
    } else {
        b.len()
    };
    let mut i: usize = 0;
    while i < n
        invariant
            i <= n,
            n <= a@.len(),
            n <= b@.len(),
            n == a@.len() || n == b@.len(),
            x == tag_views(a@),
            y == tag_views(b@),
            forall|j: int| 0 <= j < i ==> x[j] == y[j],
        decreases n - i,
    {
        let r = a[i].rank(&b[i]);
        if r != Rank::Same {
            proof {
                lemma_tags_lt_skip(x, y, i as int);
                assert(x.skip(i as int)[0] == a@[i as int]@);
                assert(y.skip(i as int)[0] == b@[i as int]@);
                lemma_tag_order(a@[i as int]@, b@[i as int]@);
                lemma_tags_order(x, y);
            }
            return r;
        }
        assert(x[i as int] == y[i as int]);
        i += 1;
    }
    proof {
        lemma_tags_lt_skip(x, y, n as int);
        let p = x.skip(n as int);
        let q = y.skip(n as int);
        if a@.len() == b@.len() {
            assert(p =~= q);
        } else if a@.len() < b@.len() {
            assert(p.len() == 0 && q.len() > 0);
        } else {
            assert(q.len() == 0 && p.len() > 0);
        }
        lemma_tags_order(x, y);
    }
    if a.len() == b.len() {
        Rank::Same
    } else if a.len() < b.len() {
        Rank::Before
    } else {
        Rank::After
    }
}

/// Names a metric: a name, qualified by tags.
#[derive(Debug, Eq, Hash, PartialOrd, Ord)]
pub struct Key {
    pub(crate) name: KeyName,
    pub(crate) tags: Vec<Tag>,
}

impl View for Key {
    type V = KeyView;

    closed spec fn view(&self) -> KeyView {
        KeyView { name: self.name@, tags: tag_views(self.tags@) }
    }
}

impl Key {
    #[verifier::type_invariant]
    spec fn in_canonical_order(&self) -> bool {
        canonical(tag_views(self.tags@))
    }

    /// A key with this name and no tags.
    pub fn from_name(name: &str) -> (k: Self)
        ensures
            k@ == plain_key(name@),
    {
        let tags: Vec<Tag> = Vec::with_capacity(0);
        assert(tag_views(tags@) =~= Seq::empty());
        Key { name: name.to_owned(), tags }
    }

    /// A key with this name and these tags. The order in which the tags are
    /// given leaves no trace: the key holds them in canonical order.
    pub fn from(name: &str, tags: Vec<Tag>) -> (k: Self)
        ensures
            k@ == key_of(name@, tags@),
            canonical(k@.tags),
            k@.tags.to_multiset() == tag_views(tags@).to_multiset(),
    {
        let sorted = sort_tags(tags);
        Key { name: name.to_owned(), tags: sorted }
    }

    /// The key's name.
    pub fn key(&self) -> (name: &str)
        ensures
            name@ == self@.name,
    {
        self.name.as_str()
    }

    /// The key's tags, in canonical order.
    pub fn tags(&self) -> (tags: &[Tag])
        ensures
            tag_views(tags@) == self@.tags,
            canonical(self@.tags),
    {
        proof {
            use_type_invariant(self);
        }
        self.tags.as_slice()
    }

    /// How this key stands to `other` in the order of keys, which is the
    /// order that `<` and sorting go by.
    pub fn rank(&self, other: &Key) -> (r: Rank)
        ensures
            (r == Rank::Same) == (self@ == other@),
            (r == Rank::Before) == key_lt(self@, other@),
            (r == Rank::After) == key_lt(other@, self@),
    {
        proof {
            lemma_key_order(self@, other@);
        }
        match compare_text(self.name.as_str(), other.name.as_str()) {
            Rank::Before => Rank::Before,
            Rank::After => Rank::After,
            Rank::Same => rank_tags(&self.tags, &other.tags),
        }
    }

    /// Whether the key's name is `name` and it has no tags.
    pub fn is_plain(&self, name: &str) -> (r: bool)
        ensures
            r == (self@ == plain_key(name@)),
    {
        let r = self.tags.len() == 0 && compare_text(self.name.as_str(), name) == Rank::Same;
        proof {
            if self.tags.len() == 0 {
                assert(self@.tags =~= Seq::<TagView>::empty());
            } else {
                assert(self@.tags.len() != 0);
            }
        }
        r
    }
}

impl Clone for Key {
    fn clone(&self) -> (r: Self)
        ensures
            r@ == self@,
    {
        proof {
            use_type_invariant(self);
        }
        let mut tags: Vec<Tag> = Vec::with_capacity(self.tags.len());
        let mut i: usize = 0;
        while i < self.tags.len()
            invariant
                i <= self.tags.len(),
                tags.len() == i,
                forall|j: int| 0 <= j < i ==> tags@[j]@ == self.tags@[j]@,
            decreases self.tags.len() - i,
        {
            let tag = self.tags[i].clone();
            tags.push(tag);
            i += 1;
        }
        assert(tag_views(tags@) =~= tag_views(self.tags@));
        Key { name: self.name.clone(), tags }
    }
}

impl PartialEq for Key {
    fn eq(&self, other: &Self) -> (r: bool) {
        if !(self.name == other.name) || self.tags.len() != other.tags.len() {
            assert(self.name@ != other.name@ || tag_views(self.tags@).len() != tag_views(
                other.tags@,
            ).len());
            return false;
        }
        let mut i: usize = 0;
        while i < self.tags.len()
            invariant
                i <= self.tags.len(),
                self.tags.len() == other.tags.len(),
                forall|j: int| 0 <= j < i ==> self.tags@[j]@ == other.tags@[j]@,
            decreases self.tags.len() - i,
        {
            if self.tags[i] != other.tags[i] {
                assert(tag_views(self.tags@)[i as int] != tag_views(other.tags@)[i as int]);
                return false;
            }
            i += 1;
        }
        assert(tag_views(self.tags@) =~= tag_views(other.tags@));
        true
    }
}

impl vstd::std_specs::cmp::PartialEqSpecImpl for Key {
    open spec fn obeys_eq_spec() -> bool {
        true
    }

    open spec fn eq_spec(&self, other: &Self) -> bool {
        self@ == other@
    }
}

/// The canonical order of some tags is canonical and holds those tags, each
/// as often as it was given.
pub proof fn lemma_canonical_order(tags: Seq<TagView>)
    ensures
        canonical(canonical_order(tags)),
        canonical_order(tags).to_multiset() == tags.to_multiset(),
{
    let le = |a: TagView, b: TagView| tag_le(a, b);
    lemma_tag_le_total_order();
    tags.lemma_sort_by_ensures(le);
    let sorted = canonical_order(tags);
    assert forall|i: int, j: int| 0 <= i < j < sorted.len() implies tag_le(
        #[trigger] sorted[i],
        #[trigger] sorted[j],
    ) by {
        assert(le(sorted[i], sorted[j]));
    }
}

/// In what order the tags of a key are given leaves no trace: tags that are
/// the same but for their order have one canonical order, and so make one
/// key.
pub proof fn lemma_order_of_tags_is_forgotten(a: Seq<TagView>, b: Seq<TagView>)
    requires
        a.to_multiset() == b.to_multiset(),
    ensures
        canonical_order(a) == canonical_order(b),
{
    lemma_canonical_order(a);
    lemma_canonical_order(b);
    lemma_canonical_tags_unique(canonical_order(a), canonical_order(b));
}

/// The key of a name and no tags is the plain key of that name.
pub proof fn lemma_key_of_no_tags(name: Seq<char>)
    ensures
        key_of(name, Seq::<Tag>::empty()) == plain_key(name),
{
    let none = tag_views(Seq::<Tag>::empty());
    assert(none =~= Seq::<TagView>::empty());
    lemma_canonical_order(none);
    lemma_canonical_tags_unique(canonical_order(none), Seq::<TagView>::empty());
}

/// Two canonical sequences that hold the same tags, each as often as the
/// other, are the same sequence: in what order the tags of a key were given
/// does not tell two keys apart.
pub proof fn lemma_canonical_tags_unique(a: Seq<TagView>, b: Seq<TagView>)
    requires
        canonical(a),
        canonical(b),
        a.to_multiset() == b.to_multiset(),
    ensures
        a == b,
{
    let le = |x: TagView, y: TagView| tag_le(x, y);
    lemma_tag_le_total_order();
    assert(sorted_by(a, le)) by {
        assert forall|i: int, j: int| 0 <= i < j < a.len() implies #[trigger] le(a[i], a[j]) by {
            assert(tag_le(a[i], a[j]));
        }
    }
    assert(sorted_by(b, le)) by {
        assert forall|i: int, j: int| 0 <= i < j < b.len() implies #[trigger] le(b[i], b[j]) by {
            assert(tag_le(b[i], b[j]));
        }
    }
    lemma_sorted_unique(a, b, le);
}

} // verus!
