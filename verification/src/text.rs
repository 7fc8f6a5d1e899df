//! Text as the rest of the crate needs it: joining, trimming and searching,
//! each with its meaning over sequences of characters.
use vstd::prelude::*;

verus! {

/// `String::push` appends the one character to the end of the string and
/// leaves what was there before it.
pub assume_specification[ String::push ](s: &mut String, c: char)
    ensures
        final(s)@ == old(s)@.push(c),
;

/// The texts of a list of strings.
pub open spec fn texts(v: Seq<String>) -> Seq<Seq<char>> {
    v.map_values(|s: String| s@)
}

/// The characters of `s`, in order.
pub fn chars_of(s: &str) -> (r: Vec<char>)
    ensures
        r@ == s@,
{
    let mut out: Vec<char> = Vec::new();
    for c in it: s.chars()
        invariant
            out@ == s@.take(it.index() as int),
            it.seq() == s@,
    {
        out.push(c);
    }
    out
}

/// Whether the two are the same text.
pub fn same(a: &str, b: &str) -> (r: bool)
    ensures
        r == (a@ == b@),
{
    let left = chars_of(a);
    let right = chars_of(b);
    if left.len() != right.len() {
        return false;
    }
    for i in 0..left.len()
        invariant
            left@ == a@,
            right@ == b@,
            left@.len() == right@.len(),
            forall|j: int| 0 <= j < i ==> left@[j] == right@[j],
    {
        if left[i] != right[i] {
            assert(a@[i as int] != b@[i as int]);
            return false;
        }
    }
    assert(a@ =~= b@);
    true
}

/// Whether `list` holds `text`.
pub fn holds(list: &Vec<String>, text: &str) -> (r: bool)
    ensures
        r == texts(list@).contains(text@),
{
    for i in 0..list.len()
        invariant
            forall|j: int| 0 <= j < i ==> texts(list@)[j] != text@,
    {
        if same(list[i].as_str(), text) {
            assert(texts(list@)[i as int] == text@);
            return true;
        }
    }
    false
}

/// Every dash an underscore: the kernel takes both spellings of a module name
/// for the same module.
pub open spec fn underscored_text(s: Seq<char>) -> Seq<char> {
    s.map_values(|c: char| if c == '-' { '_' } else { c })
}

pub fn underscored(s: &str) -> (r: String)
    ensures
        r@ == underscored_text(s@),
{
    let chars = chars_of(s);
    let mut out = String::new();
    for i in 0..chars.len()
        invariant
            chars@ == s@,
            out@ == underscored_text(s@).take(i as int),
    {
        out.push(if chars[i] == '-' { '_' } else { chars[i] });
        assert(underscored_text(s@).take(i + 1) == underscored_text(s@).take(i as int).push(
            underscored_text(s@)[i as int],
        ));
    }
    assert(underscored_text(s@).take(s@.len() as int) == underscored_text(s@));
    out
}

/// The parts in order, with `sep` between each two.
pub open spec fn joined(parts: Seq<Seq<char>>, sep: Seq<char>) -> Seq<char>
    decreases parts.len(),
{
    if parts.len() == 0 {
        Seq::empty()
    } else if parts.len() == 1 {
        parts[0]
    } else {
        joined(parts.drop_last(), sep) + sep + parts.last()
    }
}

pub fn join(parts: &Vec<String>, sep: &str) -> (r: String)
    ensures
        r@ == joined(texts(parts@), sep@),
{
    let mut out = String::new();
    for i in 0..parts.len()
        invariant
            out@ == joined(texts(parts@).take(i as int), sep@),
    {
        if i > 0 {
            out.append(sep);
        }
        out.append(parts[i].as_str());
        assert(texts(parts@).take(i + 1).drop_last() == texts(parts@).take(i as int));
        assert(out@ =~= joined(texts(parts@).take(i + 1), sep@));
    }
    assert(texts(parts@).take(parts@.len() as int) == texts(parts@));
    out
}

/// Whether `needle` stands somewhere in `hay`.
pub open spec fn has_part(hay: Seq<char>, needle: Seq<char>) -> bool {
    exists|i: int|
        0 <= i && i + needle.len() <= hay.len() && #[trigger] hay.subrange(i, i + needle.len())
            == needle
}

pub fn contains(hay: &str, needle: &str) -> (r: bool)
    ensures
        r == has_part(hay@, needle@),
{
    let h = chars_of(hay);
    let n = chars_of(needle);
    if n.len() == 0 {
        assert(hay@.subrange(0int, 0int + needle@.len()) =~= needle@);
        return true;
    }
    if n.len() > h.len() {
        return false;
    }
    let last: usize = h.len() - n.len();
    let mut i: usize = 0;
    while i <= last
        invariant
            h@ == hay@,
            n@ == needle@,
            0 < n.len() <= h.len(),
            last == h.len() - n.len(),
            i <= last + 1,
            forall|k: int| 0 <= k < i ==> #[trigger] hay@.subrange(k, k + needle@.len()) != needle@,
        decreases last + 1 - i,
    {
        let mut j: usize = 0;
        while j < n.len() && h[i + j] == n[j]
            invariant
                i <= last,
                last == h.len() - n.len(),
                n.len() <= h.len(),
                j <= n.len(),
                forall|k: int| 0 <= k < j ==> h@[i + k] == n@[k],
            decreases n.len() - j,
        {
            j = j + 1;
        }
        if j == n.len() {
            assert(hay@.subrange(i as int, i + needle@.len()) =~= needle@);
            return true;
        }
        assert(hay@.subrange(i as int, i + needle@.len())[j as int] != needle@[j as int]);
        i = i + 1;
    }
    false
}

/// `suffix` stands at the end of `s`.
pub open spec fn ends_in(s: Seq<char>, suffix: Seq<char>) -> bool {
    s.len() >= suffix.len() && s.skip(s.len() - suffix.len()) == suffix
}

/// What stands before `suffix`, where `s` ends in it.
pub fn strip_suffix(s: &str, suffix: &str) -> (r: Option<String>)
    ensures
        r is Some == ends_in(s@, suffix@),
        r matches Some(stem) ==> stem@ == s@.take(s@.len() - suffix@.len()),
{
    let n = s.unicode_len();
    let m = suffix.unicode_len();
    if n < m {
        return None;
    }
    let tail = s.substring_char(n - m, n);
    assert(tail@ == s@.skip(n - m));
    if same(tail, suffix) {
        let stem = s.substring_char(0, n - m);
        assert(stem@ == s@.take(n - m));
        Some(stem.to_owned())
    } else {
        None
    }
}

/// The characters with the Unicode property White_Space.
pub open spec fn white_space(c: char) -> bool {
    let n = c as int;
    ||| 0x09 <= n <= 0x0d
    ||| n == 0x20
    ||| n == 0x85
    ||| n == 0xa0
    ||| n == 0x1680
    ||| 0x2000 <= n <= 0x200a
    ||| n == 0x2028
    ||| n == 0x2029
    ||| n == 0x202f
    ||| n == 0x205f
    ||| n == 0x3000
}

pub fn is_white_space(c: char) -> (r: bool)
    ensures
        r == white_space(c),
{
    let n: u32 = c as u32;
    (0x09 <= n && n <= 0x0d) || n == 0x20 || n == 0x85 || n == 0xa0 || n == 0x1680 || (0x2000 <= n
        && n <= 0x200a) || n == 0x2028 || n == 0x2029 || n == 0x202f || n == 0x205f || n == 0x3000
}

pub open spec fn trimmed_start(s: Seq<char>) -> Seq<char>
    decreases s.len(),
{
    if s.len() > 0 && white_space(s[0]) {
        trimmed_start(s.skip(1))
    } else {
        s
    }
}

pub open spec fn trimmed_end(s: Seq<char>) -> Seq<char>
    decreases s.len(),
{
    if s.len() > 0 && white_space(s.last()) {
        trimmed_end(s.drop_last())
    } else {
        s
    }
}

/// Without the white space at either end.
pub open spec fn trimmed(s: Seq<char>) -> Seq<char> {
    trimmed_end(trimmed_start(s))
}

pub fn trim(s: &str) -> (r: String)
    ensures
        r@ == trimmed(s@),
{
    let chars = chars_of(s);
    let n: usize = chars.len();
    let mut lo: usize = 0;
    assert(s@.skip(0) == s@);
    while lo < n && is_white_space(chars[lo])
        invariant
            chars@ == s@,
            n == chars.len(),
            lo <= n,
            trimmed_start(s@) == trimmed_start(s@.skip(lo as int)),
        decreases n - lo,
    {
        assert(s@.skip(lo as int).skip(1) == s@.skip(lo + 1));
        lo = lo + 1;
    }
    let ghost front = s@.skip(lo as int);
    assert(trimmed_start(s@) == front);
    let mut hi: usize = n;
    assert(front == s@.subrange(lo as int, hi as int));
    while hi > lo && is_white_space(chars[hi - 1])
        invariant
            chars@ == s@,
            n == chars.len(),
            lo <= hi <= n,
            trimmed_end(front) == trimmed_end(s@.subrange(lo as int, hi as int)),
        decreases hi - lo,
    {
        assert(s@.subrange(lo as int, hi as int).drop_last() == s@.subrange(lo as int, hi - 1));
        hi = hi - 1;
    }
    s.substring_char(lo, hi).to_owned()
}

/// A dash becomes an underscore, and every other character stays what and where
/// it is.
pub proof fn law_only_dashes_change(s: Seq<char>)
    ensures
        underscored_text(s).len() == s.len(),
        forall|i: int|
            0 <= i < s.len() ==> #[trigger] underscored_text(s)[i] == (if s[i] == '-' {
                '_'
            } else {
                s[i]
            }),
{
}

/// Joining puts the separator between each two parts and nowhere else: what
/// comes first is followed by it and by the rest joined.
pub proof fn law_a_separator_stands_between_parts(
    first: Seq<char>,
    rest: Seq<Seq<char>>,
    sep: Seq<char>,
)
    ensures
        joined(Seq::empty(), sep) == Seq::<char>::empty(),
        joined(seq![first], sep) == first,
        rest.len() > 0 ==> joined(seq![first] + rest, sep) == first + sep + joined(rest, sep),
    decreases rest.len(),
{
    if rest.len() > 0 {
        let all = seq![first] + rest;
        assert(all.drop_last() =~= seq![first] + rest.drop_last());
        assert(all.last() == rest.last());
        law_a_separator_stands_between_parts(first, rest.drop_last(), sep);
        if rest.len() == 1 {
            assert(all.drop_last() =~= seq![first]);
            assert(joined(all, sep) =~= first + sep + joined(rest, sep));
        } else {
            assert(joined(all, sep) =~= first + sep + joined(rest, sep));
        }
    }
}

/// A text has a part exactly where it is something, the part, and something
/// more.
pub proof fn law_a_part_has_something_around_it(hay: Seq<char>, part: Seq<char>)
    ensures
        has_part(hay, part) <==> exists|before: Seq<char>, after: Seq<char>|
            hay == #[trigger] (before + part + after),
{
    if has_part(hay, part) {
        let i = choose|i: int|
            0 <= i && i + part.len() <= hay.len() && #[trigger] hay.subrange(i, i + part.len())
                == part;
        assert(hay =~= hay.take(i) + part + hay.skip(i + part.len()));
    }
    if exists|before: Seq<char>, after: Seq<char>| hay == #[trigger] (before + part + after) {
        let (before, after) = choose|before: Seq<char>, after: Seq<char>|
            hay == #[trigger] (before + part + after);
        let at = before.len() as int;
        assert(hay.subrange(at, at + part.len()) =~= part);
    }
}

/// A text ends in a suffix exactly where it is a stem with the suffix behind
/// it, and the stem is what stands before the suffix.
pub proof fn law_an_ending_follows_a_stem(s: Seq<char>, stem: Seq<char>, suffix: Seq<char>)
    ensures
        ends_in(stem + suffix, suffix),
        (stem + suffix).take((stem + suffix).len() - suffix.len()) == stem,
        ends_in(s, suffix) ==> s == s.take(s.len() - suffix.len()) + suffix,
{
    assert((stem + suffix).skip(stem.len() as int) =~= suffix);
    assert((stem + suffix).take(stem.len() as int) =~= stem);
    if ends_in(s, suffix) {
        assert(s =~= s.take(s.len() - suffix.len()) + s.skip(s.len() - suffix.len()));
    }
}

/// What counts as white space.
pub proof fn law_white_space_is_unicode_white_space(c: char)
    ensures
        white_space(c) <==> {
            ||| '\t' <= c <= '\r'
            ||| c == ' '
            ||| c == '\u{85}'
            ||| c == '\u{a0}'
            ||| c == '\u{1680}'
            ||| '\u{2000}' <= c <= '\u{200a}'
            ||| c == '\u{2028}'
            ||| c == '\u{2029}'
            ||| c == '\u{202f}'
            ||| c == '\u{205f}'
            ||| c == '\u{3000}'
        },
{
}

proof fn lemma_trimmed_start(s: Seq<char>) -> (lo: int)
    ensures
        0 <= lo <= s.len(),
        trimmed_start(s) == s.skip(lo),
        forall|k: int| 0 <= k < lo ==> white_space(#[trigger] s[k]),
        lo < s.len() ==> !white_space(s[lo]),
    decreases s.len(),
{
    if s.len() > 0 && white_space(s[0]) {
        let rest = s.skip(1);
        let lo = lemma_trimmed_start(rest);
        assert(rest.skip(lo) =~= s.skip(lo + 1));
        assert forall|k: int| 0 <= k < lo + 1 implies white_space(#[trigger] s[k]) by {
            if k > 0 {
                assert(white_space(rest[k - 1]));
            }
        }
        lo + 1
    } else {
        assert(s.skip(0) =~= s);
        0
    }
}

proof fn lemma_trimmed_end(s: Seq<char>) -> (hi: int)
    ensures
        0 <= hi <= s.len(),
        trimmed_end(s) == s.take(hi),
        forall|k: int| hi <= k < s.len() ==> white_space(#[trigger] s[k]),
        hi > 0 ==> !white_space(s[hi - 1]),
    decreases s.len(),
{
    if s.len() > 0 && white_space(s.last()) {
        let front = s.drop_last();
        let hi = lemma_trimmed_end(front);
        assert(front.take(hi) =~= s.take(hi));
        assert forall|k: int| hi <= k < s.len() implies white_space(#[trigger] s[k]) by {
            if k < front.len() {
                assert(white_space(front[k]));
            }
        }
        hi
    } else {
        assert(s.take(s.len() as int) =~= s);
        s.len() as int
    }
}

/// Trimming takes the white space at both ends away and nothing else.
pub proof fn law_trimming_leaves_the_core(s: Seq<char>)
    ensures
        exists|lo: int, hi: int|
            {
                &&& 0 <= lo <= hi <= s.len()
                &&& trimmed(s) == #[trigger] s.subrange(lo, hi)
                &&& forall|k: int| 0 <= k < lo || hi <= k < s.len() ==> white_space(#[trigger] s[k])
                &&& lo < hi ==> !white_space(s[lo]) && !white_space(s[hi - 1])
            },
{
    let lo = lemma_trimmed_start(s);
    let rest = s.skip(lo);
    let hi = lemma_trimmed_end(rest);
    assert forall|k: int| 0 <= k < lo || lo + hi <= k < s.len() implies white_space(
        #[trigger] s[k],
    ) by {
        if k >= lo {
            assert(white_space(rest[k - lo]));
        }
    }
    assert(rest.take(hi) =~= s.subrange(lo, lo + hi));
}

/// The texts of strings are what the strings hold, one for one.
pub proof fn law_texts_are_what_the_strings_hold(v: Seq<String>)
    ensures
        texts(v).len() == v.len(),
        forall|i: int| 0 <= i < v.len() ==> #[trigger] texts(v)[i] == v[i]@,
{
}

} // verus!
