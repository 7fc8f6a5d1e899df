//! Texts in order, character by character, and lists of them sorted.
use vstd::prelude::*;

use crate::sorting::{arrange, drop_repeats, Ranked};
use crate::text::{chars_of, same, texts};

verus! {

/// `a` comes before `b` or is `b`: the first character that differs decides,
/// and a text comes before what it is the beginning of.
pub open spec fn text_le(a: Seq<char>, b: Seq<char>) -> bool
    decreases a.len(),
{
    if a.len() == 0 {
        true
    } else if b.len() == 0 {
        false
    } else if a[0] != b[0] {
        a[0] < b[0]
    } else {
        text_le(a.skip(1), b.skip(1))
    }
}

pub open spec fn text_lt(a: Seq<char>, b: Seq<char>) -> bool {
    text_le(a, b) && a != b
}

pub proof fn lemma_text_le_reflexive(a: Seq<char>)
    ensures
        text_le(a, a),
    decreases a.len(),
{
    if a.len() > 0 {
        lemma_text_le_reflexive(a.skip(1));
    }
}

pub proof fn lemma_text_le_total(a: Seq<char>, b: Seq<char>)
    ensures
        text_le(a, b) || text_le(b, a),
    decreases a.len(),
{
    if a.len() > 0 && b.len() > 0 {
        lemma_text_le_total(a.skip(1), b.skip(1));
    }
}

pub proof fn lemma_text_le_antisymmetric(a: Seq<char>, b: Seq<char>)
    requires
        text_le(a, b),
        text_le(b, a),
    ensures
        a == b,
    decreases a.len(),
{
    if a.len() > 0 && b.len() > 0 {
        lemma_text_le_antisymmetric(a.skip(1), b.skip(1));
        assert(a =~= seq![a[0]] + a.skip(1));
        assert(b =~= seq![b[0]] + b.skip(1));
    }
    assert(a =~= b);
}

pub proof fn lemma_text_le_transitive(a: Seq<char>, b: Seq<char>, c: Seq<char>)
    requires
        text_le(a, b),
        text_le(b, c),
    ensures
        text_le(a, c),
    decreases a.len(),
{
    if a.len() > 0 && b.len() > 0 && c.len() > 0 && a[0] == b[0] && b[0] == c[0] {
        lemma_text_le_transitive(a.skip(1), b.skip(1), c.skip(1));
    }
}

/// Whether `a` comes before `b` or is `b`.
pub fn at_most(a: &str, b: &str) -> (r: bool)
    ensures
        r == text_le(a@, b@),
{
    let left = chars_of(a);
    let right = chars_of(b);
    let mut i: usize = 0;
    assert(a@.skip(0) == a@);
    assert(b@.skip(0) == b@);
    while i < left.len() && i < right.len() && left[i] == right[i]
        invariant
            left@ == a@,
            right@ == b@,
            i <= left.len(),
            i <= right.len(),
            text_le(a@, b@) == text_le(a@.skip(i as int), b@.skip(i as int)),
        decreases left.len() - i,
    {
        assert(a@.skip(i as int).skip(1) == a@.skip(i + 1));
        assert(b@.skip(i as int).skip(1) == b@.skip(i + 1));
        i = i + 1;
    }
    if i == left.len() {
        return true;
    }
    if i == right.len() {
        return false;
    }
    left[i] < right[i]
}

/// The order of texts.
pub open spec fn text_rank() -> spec_fn(Seq<char>, Seq<char>) -> bool {
    |a: Seq<char>, b: Seq<char>| text_le(a, b)
}

proof fn lemma_text_rank()
    ensures
        crate::sorting::is_ranking(text_rank()),
{
    let rank = text_rank();
    assert forall|a: Seq<char>, b: Seq<char>| #[trigger] rank(a, b) || rank(b, a) by {
        lemma_text_le_total(a, b);
    }
    assert forall|a: Seq<char>, b: Seq<char>, c: Seq<char>| #[trigger]
        rank(a, b) && #[trigger] rank(b, c) implies rank(a, c) by {
        lemma_text_le_transitive(a, b, c);
    }
}

impl Ranked for String {
    type Key = Seq<char>;

    open spec fn key(&self) -> Seq<char> {
        self@
    }

    open spec fn rank() -> spec_fn(Seq<char>, Seq<char>) -> bool {
        text_rank()
    }

    fn comes_first(&self, other: &String) -> (r: bool) {
        at_most(self.as_str(), other.as_str())
    }

    fn is_same(&self, other: &String) -> (r: bool) {
        same(self.as_str(), other.as_str())
    }

    fn copy(&self) -> (r: String) {
        self.clone()
    }
}

/// The same texts in order.
pub open spec fn sorted(list: Seq<Seq<char>>) -> Seq<Seq<char>> {
    crate::sorting::arranged(list, text_rank())
}

/// The same texts in order, each once.
pub open spec fn sorted_unique(list: Seq<Seq<char>>) -> Seq<Seq<char>> {
    crate::sorting::without_repeats(sorted(list))
}

/// `list` is in order.
pub open spec fn is_sorted(list: Seq<Seq<char>>) -> bool {
    forall|i: int, j: int| 0 <= i < j < list.len() ==> text_le(#[trigger] list[i], #[trigger] list[j])
}

/// `list` is in order and no text stands in it twice.
pub open spec fn is_increasing(list: Seq<Seq<char>>) -> bool {
    forall|i: int, j: int| 0 <= i < j < list.len() ==> text_lt(#[trigger] list[i], #[trigger] list[j])
}

/// `sorted` is in order and holds what it was given, as often as it was given
/// it.
pub proof fn lemma_sorted(list: Seq<Seq<char>>)
    ensures
        is_sorted(sorted(list)),
        sorted(list).to_multiset() == list.to_multiset(),
        sorted(list).len() == list.len(),
{
    lemma_text_rank();
    crate::sorting::lemma_arranged(list, text_rank());
    let r = sorted(list);
    assert forall|i: int, j: int| 0 <= i < j < r.len() implies text_le(
        #[trigger] r[i],
        #[trigger] r[j],
    ) by {
        assert(text_rank()(r[i], r[j]));
    }
}

/// `sorted_unique` is in order, names nothing twice, and holds exactly what it
/// was given.
pub proof fn lemma_sorted_unique(list: Seq<Seq<char>>)
    ensures
        is_increasing(sorted_unique(list)),
        forall|y: Seq<char>| #[trigger] sorted_unique(list).contains(y) <==> list.contains(y),
{
    lemma_text_rank();
    crate::sorting::lemma_arranged(list, text_rank());
    crate::sorting::lemma_without_repeats(sorted(list), text_rank());
    let r = sorted_unique(list);
    assert forall|i: int, j: int| 0 <= i < j < r.len() implies text_lt(
        #[trigger] r[i],
        #[trigger] r[j],
    ) by {
        assert(text_rank()(r[i], r[j]));
        if r[i] == r[j] {
            assert(text_rank()(r[i], r[i + 1]));
            if i + 1 < j {
                assert(text_rank()(r[i + 1], r[j]));
            } else {
                lemma_text_le_reflexive(r[j]);
            }
            lemma_text_le_antisymmetric(r[i], r[i + 1]);
            assert(r[i + 1] != r[i + 1 - 1]);
        }
    }
}

/// The strings in order.
pub fn sort(list: &Vec<String>) -> (r: Vec<String>)
    ensures
        texts(r@) == sorted(texts(list@)),
{
    let out = arrange(list);
    assert(crate::sorting::keys(list@) =~= texts(list@));
    assert(crate::sorting::keys(out@) =~= texts(out@));
    out
}

/// The strings in order, each once.
pub fn sort_unique(list: &Vec<String>) -> (r: Vec<String>)
    ensures
        texts(r@) == sorted_unique(texts(list@)),
{
    let out = drop_repeats(&arrange(list));
    assert(crate::sorting::keys(list@) =~= texts(list@));
    assert(crate::sorting::keys(out@) =~= texts(out@));
    out
}

/// `a` and `b` agree before `k`, and there `a` ends or has the smaller
/// character.
spec fn parts_at(a: Seq<char>, b: Seq<char>, k: int) -> bool {
    &&& 0 <= k <= a.len()
    &&& k <= b.len()
    &&& forall|j: int| 0 <= j < k ==> #[trigger] a[j] == b[j]
    &&& k == a.len() || (k < b.len() && a[k] < b[k])
}

proof fn lemma_parts(a: Seq<char>, b: Seq<char>)
    ensures
        text_le(a, b) <==> exists|k: int| #[trigger] parts_at(a, b, k),
    decreases a.len(),
{
    if a.len() == 0 {
        assert(parts_at(a, b, 0));
    } else if b.len() > 0 {
        let s = a.skip(1);
        let t = b.skip(1);
        if a[0] == b[0] {
            lemma_parts(s, t);
            if text_le(s, t) {
                let k = choose|k: int| #[trigger] parts_at(s, t, k);
                assert forall|j: int| 0 <= j < k + 1 implies #[trigger] a[j] == b[j] by {
                    if j > 0 {
                        assert(s[j - 1] == t[j - 1]);
                    }
                }
                assert(parts_at(a, b, k + 1));
            }
            if exists|k: int| #[trigger] parts_at(a, b, k) {
                let k = choose|k: int| #[trigger] parts_at(a, b, k);
                assert forall|j: int| 0 <= j < k - 1 implies #[trigger] s[j] == t[j] by {
                    assert(a[j + 1] == b[j + 1]);
                }
                assert(k > 0);
                assert(parts_at(s, t, k - 1));
            }
        } else if a[0] < b[0] {
            assert(parts_at(a, b, 0));
        } else if exists|k: int| #[trigger] parts_at(a, b, k) {
            let k = choose|k: int| #[trigger] parts_at(a, b, k);
            if k > 0 {
                assert(a[0] == b[0]);
            }
        }
    }
}

/// Texts are ordered as in a dictionary: the first character that differs
/// decides, and a text comes before what it is the beginning of.
pub proof fn law_texts_are_ordered_as_in_a_dictionary(a: Seq<char>, b: Seq<char>)
    ensures
        text_le(a, b) <==> exists|k: int|
            {
                &&& 0 <= k <= a.len()
                &&& k <= b.len()
                &&& #[trigger] a.take(k) == b.take(k)
                &&& k == a.len() || (k < b.len() && a[k] < b[k])
            },
{
    lemma_parts(a, b);
    if text_le(a, b) {
        let k = choose|k: int| #[trigger] parts_at(a, b, k);
        assert(a.take(k) =~= b.take(k));
    }
    if exists|k: int|
        {
            &&& 0 <= k <= a.len()
            &&& k <= b.len()
            &&& #[trigger] a.take(k) == b.take(k)
            &&& k == a.len() || (k < b.len() && a[k] < b[k])
        } {
        let k = choose|k: int|
            {
                &&& 0 <= k <= a.len()
                &&& k <= b.len()
                &&& #[trigger] a.take(k) == b.take(k)
                &&& k == a.len() || (k < b.len() && a[k] < b[k])
            };
        assert forall|j: int| 0 <= j < k implies #[trigger] a[j] == b[j] by {
            assert(a.take(k)[j] == b.take(k)[j]);
        }
        assert(parts_at(a, b, k));
    }
}

/// Sorting keeps what it is given, as often as it is given it, and puts it in
/// order. Sorting without repeats keeps each text once.
pub proof fn law_sorting_keeps_the_texts(list: Seq<Seq<char>>)
    ensures
        sorted(list).to_multiset() == list.to_multiset(),
        forall|i: int, j: int|
            0 <= i < j < sorted(list).len() ==> text_le(
                #[trigger] sorted(list)[i],
                #[trigger] sorted(list)[j],
            ),
        forall|text: Seq<char>| #[trigger]
            sorted_unique(list).contains(text) <==> list.contains(text),
        forall|i: int, j: int|
            0 <= i < j < sorted_unique(list).len() ==> text_le(
                #[trigger] sorted_unique(list)[i],
                #[trigger] sorted_unique(list)[j],
            ) && sorted_unique(list)[i] != sorted_unique(list)[j],
{
    lemma_sorted(list);
    lemma_sorted_unique(list);
}

} // verus!
