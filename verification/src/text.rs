//! Operations on text, stated over sequences of characters.

use vstd::prelude::*;
use vstd::std_specs::iter::IteratorSpec;

verus! {

broadcast use vstd::string::group_string_axioms;

/// The views of a sequence of strings.
pub open spec fn texts(v: Seq<String>) -> Seq<Seq<char>> {
    Seq::new(v.len(), |i: int| v[i]@)
}

/// Strict lexicographic order by code point: a proper prefix comes first,
/// otherwise the first differing character decides.
pub open spec fn precedes(a: Seq<char>, b: Seq<char>) -> bool
    decreases a.len(),
{
    if b.len() == 0 {
        false
    } else if a.len() == 0 {
        true
    } else if a[0] != b[0] {
        a[0] < b[0]
    } else {
        precedes(a.skip(1), b.skip(1))
    }
}

/// The order by which listings are sorted: `a` is at most `b` when `b` does
/// not come strictly before `a`.
pub open spec fn text_order() -> spec_fn(Seq<char>, Seq<char>) -> bool {
    |a: Seq<char>, b: Seq<char>| !precedes(b, a)
}

/// A sequence of texts put in lexicographic order.
pub open spec fn sorted(s: Seq<Seq<char>>) -> Seq<Seq<char>> {
    s.sort_by(text_order())
}

/// No text comes before itself.
pub proof fn lemma_precedes_irreflexive(a: Seq<char>)
    ensures
        !precedes(a, a),
    decreases a.len(),
{
    if a.len() > 0 {
        lemma_precedes_irreflexive(a.skip(1));
    }
}

/// Of two texts at most one comes before the other.
pub proof fn lemma_precedes_asymmetric(a: Seq<char>, b: Seq<char>)
    ensures
        !(precedes(a, b) && precedes(b, a)),
    decreases a.len(),
{
    if a.len() > 0 && b.len() > 0 && a[0] == b[0] {
        lemma_precedes_asymmetric(a.skip(1), b.skip(1));
    }
}

/// Two texts of which neither comes before the other are the same text.
pub proof fn lemma_precedes_connected(a: Seq<char>, b: Seq<char>)
    ensures
        precedes(a, b) || precedes(b, a) || a == b,
    decreases a.len(),
{
    if a.len() > 0 && b.len() > 0 && a[0] == b[0] {
        lemma_precedes_connected(a.skip(1), b.skip(1));
        if a.skip(1) == b.skip(1) {
            assert(a =~= seq![a[0]] + a.skip(1));
            assert(b =~= seq![b[0]] + b.skip(1));
        }
    } else if a.len() == 0 && b.len() == 0 {
        assert(a =~= b);
    }
}

/// The strict order is transitive.
pub proof fn lemma_precedes_transitive(a: Seq<char>, b: Seq<char>, c: Seq<char>)
    requires
        precedes(a, b),
        precedes(b, c),
    ensures
        precedes(a, c),
    decreases a.len(),
{
    if a.len() > 0 && a[0] == b[0] && b[0] == c[0] {
        lemma_precedes_transitive(a.skip(1), b.skip(1), c.skip(1));
    }
}

/// The order by which listings are sorted is a total order.
pub proof fn lemma_text_order_total()
    ensures
        vstd::relations::total_ordering(text_order()),
{
    let leq = text_order();
    assert forall|x: Seq<char>| #[trigger] leq(x, x) by {
        lemma_precedes_irreflexive(x);
    }
    assert forall|x: Seq<char>, y: Seq<char>| #[trigger] leq(x, y) && #[trigger] leq(y, x) implies x
        == y by {
        lemma_precedes_connected(x, y);
    }
    assert forall|x: Seq<char>, y: Seq<char>, z: Seq<char>| #[trigger]
        leq(x, y) && #[trigger] leq(y, z) implies leq(x, z) by {
        if precedes(z, x) {
            lemma_precedes_connected(x, y);
            lemma_precedes_connected(y, z);
            if precedes(x, y) {
                lemma_precedes_transitive(z, x, y);
            }
        }
    }
    assert forall|x: Seq<char>, y: Seq<char>| #[trigger] leq(x, y) || #[trigger] leq(y, x) by {
        lemma_precedes_asymmetric(x, y);
    }
}

/// What sorting gives: the same texts, each as often as before, with none
/// that comes before an earlier one.
pub proof fn lemma_sorted_meaning(s: Seq<Seq<char>>)
    ensures
        sorted(s).to_multiset() == s.to_multiset(),
        sorted(s).len() == s.len(),
        forall|i: int, j: int|
            0 <= i < j < sorted(s).len() ==> !precedes(#[trigger] sorted(s)[j], #[trigger] sorted(s)[i]),
{
    lemma_text_order_total();
    s.lemma_sort_by_ensures(text_order());
    s.to_multiset_ensures();
    sorted(s).to_multiset_ensures();
    assert forall|i: int, j: int| 0 <= i < j < sorted(s).len() implies !precedes(
        #[trigger] sorted(s)[j],
        #[trigger] sorted(s)[i],
    ) by {
        assert(text_order()(sorted(s)[i], sorted(s)[j]));
    }
}

/// Sorting does not depend on the order in which the texts arrive: two
/// sequences that hold the same texts, each as often as the other, sort to
/// the same sequence.
pub proof fn lemma_sorted_ignores_arrival(a: Seq<Seq<char>>, b: Seq<Seq<char>>)
    requires
        a.to_multiset() == b.to_multiset(),
    ensures
        sorted(a) == sorted(b),
{
    lemma_text_order_total();
    a.lemma_sort_by_ensures(text_order());
    b.lemma_sort_by_ensures(text_order());
    vstd::seq_lib::lemma_sorted_unique(sorted(a), sorted(b), text_order());
}

/// Whether `needle` stands in `hay` at position `i`.
pub open spec fn occurs_at(hay: Seq<char>, needle: Seq<char>, i: int) -> bool {
    0 <= i && i + needle.len() <= hay.len() && hay.subrange(i, i + needle.len()) == needle
}

/// Whether `i` is the first position of `hay` at which `needle` stands.
pub open spec fn first_at(hay: Seq<char>, needle: Seq<char>, i: int) -> bool {
    occurs_at(hay, needle, i) && forall|j: int| 0 <= j < i ==> !occurs_at(hay, needle, j)
}

/// The first position of `hay` at which `needle` stands, if there is one.
pub open spec fn index_of(hay: Seq<char>, needle: Seq<char>) -> Option<int> {
    if exists|i: int| occurs_at(hay, needle, i) {
        Some(choose|i: int| first_at(hay, needle, i))
    } else {
        None
    }
}

/// What takes the place of one character when every `c` is replaced by `with`.
pub open spec fn replacement(x: char, c: char, with: Seq<char>) -> Seq<char> {
    if x == c {
        with
    } else {
        seq![x]
    }
}

/// `s` with every occurrence of `c` replaced by `with`.
pub open spec fn replaced(s: Seq<char>, c: char, with: Seq<char>) -> Seq<char> {
    s.map_values(|x: char| replacement(x, c, with)).flatten()
}

/// The texts of `words` in order, with `sep` between each two neighbours.
pub open spec fn joined(words: Seq<Seq<char>>, sep: Seq<char>) -> Seq<char>
    decreases words.len(),
{
    if words.len() == 0 {
        Seq::empty()
    } else if words.len() == 1 {
        words[0]
    } else {
        joined(words.drop_last(), sep) + sep + words.last()
    }
}

/// Whether `c` is white space.
pub open spec fn is_space(c: char) -> bool {
    ||| '\u{9}' <= c <= '\u{d}'
    ||| c == ' '
    ||| c == '\u{85}'
    ||| c == '\u{a0}'
    ||| c == '\u{1680}'
    ||| '\u{2000}' <= c <= '\u{200a}'
    ||| c == '\u{2028}'
    ||| c == '\u{2029}'
    ||| c == '\u{202f}'
    ||| c == '\u{205f}'
    ||| c == '\u{3000}'
}

/// `s` without the white space at its start.
pub open spec fn trimmed_start(s: Seq<char>) -> Seq<char>
    decreases s.len(),
{
    if s.len() > 0 && is_space(s[0]) {
        trimmed_start(s.skip(1))
    } else {
        s
    }
}

/// `s` without the white space at its end.
pub open spec fn trimmed_end(s: Seq<char>) -> Seq<char>
    decreases s.len(),
{
    if s.len() > 0 && is_space(s.last()) {
        trimmed_end(s.drop_last())
    } else {
        s
    }
}

/// `s` without the white space at either end.
pub open spec fn trimmed(s: Seq<char>) -> Seq<char> {
    trimmed_end(trimmed_start(s))
}

/// A position that is known to be the first occurrence is the one that
/// `index_of` names.
pub proof fn lemma_index_of_first(hay: Seq<char>, needle: Seq<char>, i: int)
    requires
        first_at(hay, needle, i),
    ensures
        index_of(hay, needle) == Some(i),
{
    let k = choose|k: int| first_at(hay, needle, k);
    assert(first_at(hay, needle, k));
    if k < i {
        assert(!occurs_at(hay, needle, k));
    }
    if i < k {
        assert(!occurs_at(hay, needle, i));
    }
}

/// Replacing in a text that is one character longer replaces in the shorter
/// text and then in that character.
pub proof fn lemma_replaced_push(s: Seq<char>, x: char, c: char, with: Seq<char>)
    ensures
        replaced(s.push(x), c, with) == replaced(s, c, with) + replacement(x, c, with),
{
    let f = |y: char| replacement(y, c, with);
    assert(s.push(x).map_values(f) =~= s.map_values(f).push(f(x)));
    s.map_values(f).lemma_flatten_push(f(x));
}

/// A text in which `c` does not occur is left as it is.
pub proof fn lemma_replaced_absent(s: Seq<char>, c: char, with: Seq<char>)
    requires
        !s.contains(c),
    ensures
        replaced(s, c, with) == s,
    decreases s.len(),
{
    if s.len() == 0 {
        assert(s.map_values(|y: char| replacement(y, c, with)) =~= Seq::<Seq<char>>::empty());
        assert(replaced(s, c, with) =~= s);
    } else {
        let front = s.drop_last();
        assert forall|i: int| 0 <= i < front.len() implies front[i] != c by {
            assert(s.contains(s[i]));
        }
        assert(s.contains(s.last()));
        lemma_replaced_absent(front, c, with);
        lemma_replaced_push(front, s.last(), c, with);
        assert(s =~= front.push(s.last()));
    }
}

/// The characters of `s`, in order.
pub fn chars_of(s: &str) -> (v: Vec<char>)
    ensures
        v@ == s@,
{
    let mut v: Vec<char> = Vec::new();
    let mut it = s.chars();
    let ghost mut done: int = 0;
    loop
        invariant
            0 <= done <= s@.len(),
            v@ == s@.take(done),
            it.remaining() == s@.skip(done),
            it.obeys_prophetic_iter_laws(),
        ensures
            v@ == s@,
        decreases s@.len() - done,
    {
        match it.next() {
            Some(c) => {
                v.push(c);
                proof {
                    done = done + 1;
                }
            },
            None => {
                break ;
            },
        }
    }
    v
}

/// A copy of each string of `v`, in order.
pub fn copy_texts(v: &Vec<String>) -> (r: Vec<String>)
    ensures
        texts(r@) == texts(v@),
{
    let mut out: Vec<String> = Vec::new();
    let mut i: usize = 0;
    while i < v.len()
        invariant
            i <= v.len(),
            out.len() == i,
            forall|j: int| 0 <= j < i ==> (#[trigger] out@[j])@ == v@[j]@,
        decreases v.len() - i,
    {
        out.push(v[i].clone());
        i += 1;
    }
    assert(texts(out@) =~= texts(v@));
    out
}

/// Whether two strings hold the same characters.
pub fn same_text(a: &str, b: &str) -> (r: bool)
    ensures
        r == (a@ == b@),
{
    let mut ia = a.chars();
    let mut ib = b.chars();
    let ghost mut done: int = 0;
    loop
        invariant
            0 <= done <= a@.len(),
            done <= b@.len(),
            a@.take(done) == b@.take(done),
            ia.remaining() == a@.skip(done),
            ib.remaining() == b@.skip(done),
            ia.obeys_prophetic_iter_laws(),
            ib.obeys_prophetic_iter_laws(),
        decreases a@.len() - done,
    {
        let x = ia.next();
        let y = ib.next();
        match (x, y) {
            (None, None) => {
                assert(a@ == a@.take(done));
                assert(b@ == b@.take(done));
                return true;
            },
            (Some(c), Some(d)) => {
                if c != d {
                    assert(a@[done] != b@[done]);
                    return false;
                }
                proof {
                    assert(a@.take(done + 1) == a@.take(done).push(a@[done]));
                    assert(b@.take(done + 1) == b@.take(done).push(b@[done]));
                    done = done + 1;
                }
            },
            _ => {
                assert(a@.len() != b@.len());
                return false;
            },
        }
    }
}

/// Whether `c` occurs in `s`.
pub fn has_char(s: &str, c: char) -> (r: bool)
    ensures
        r == s@.contains(c),
{
    let mut it = s.chars();
    let ghost mut done: int = 0;
    loop
        invariant
            0 <= done <= s@.len(),
            forall|i: int| 0 <= i < done ==> s@[i] != c,
            it.remaining() == s@.skip(done),
            it.obeys_prophetic_iter_laws(),
        decreases s@.len() - done,
    {
        match it.next() {
            Some(d) => {
                if d == c {
                    assert(s@[done] == c);
                    return true;
                }
                proof {
                    done = done + 1;
                }
            },
            None => {
                return false;
            },
        }
    }
}

/// Whether `a` comes strictly before `b` in lexicographic order.
pub fn text_precedes(a: &str, b: &str) -> (r: bool)
    ensures
        r == precedes(a@, b@),
{
    let mut ia = a.chars();
    let mut ib = b.chars();
    let ghost mut done: int = 0;
    assert(a@.skip(0) == a@ && b@.skip(0) == b@);
    loop
        invariant
            0 <= done <= a@.len(),
            done <= b@.len(),
            precedes(a@, b@) == precedes(a@.skip(done), b@.skip(done)),
            ia.remaining() == a@.skip(done),
            ib.remaining() == b@.skip(done),
            ia.obeys_prophetic_iter_laws(),
            ib.obeys_prophetic_iter_laws(),
        decreases a@.len() - done,
    {
        let x = ia.next();
        let y = ib.next();
        match (x, y) {
            (_, None) => {
                return false;
            },
            (None, Some(_)) => {
                return true;
            },
            (Some(c), Some(d)) => {
                if c != d {
                    return c < d;
                }
                proof {
                    assert(a@.skip(done).skip(1) == a@.skip(done + 1));
                    assert(b@.skip(done).skip(1) == b@.skip(done + 1));
                    done = done + 1;
                }
            },
        }
    }
}

/// The first position at which `needle` stands in `hay`, counted in characters.
pub fn find_text(hay: &str, needle: &str) -> (r: Option<usize>)
    ensures
        r is Some == index_of(hay@, needle@) is Some,
        r is Some ==> index_of(hay@, needle@) == Some(r->0 as int),
        r is Some ==> first_at(hay@, needle@, r->0 as int),
{
    let h = chars_of(hay);
    let n = chars_of(needle);
    if n.len() > h.len() {
        return None;
    }
    let last: usize = h.len() - n.len();
    let mut i: usize = 0;
    while i <= last
        invariant
            h@ == hay@,
            n@ == needle@,
            n.len() <= h.len(),
            last == h.len() - n.len(),
            i <= last + 1,
            forall|j: int| 0 <= j < i ==> !occurs_at(hay@, needle@, j),
        decreases last + 1 - i,
    {
        let mut k: usize = 0;
        while k < n.len() && h[i + k] == n[k]
            invariant
                i <= last,
                last == h.len() - n.len(),
                k <= n.len(),
                forall|j: int| 0 <= j < k ==> h@[i + j] == n@[j],
            decreases n.len() - k,
        {
            k += 1;
        }
        if k == n.len() {
            proof {
                assert(h@.subrange(i as int, i + n.len()) =~= n@);
                lemma_index_of_first(hay@, needle@, i as int);
            }
            return Some(i);
        }
        proof {
            assert(h@.subrange(i as int, i + n.len())[k as int] == h@[i + k]);
        }
        i += 1;
    }
    None
}

/// `s` with every occurrence of `c` replaced by `with`.
pub fn replace_char(s: &str, c: char, with: &str) -> (r: String)
    ensures
        r@ == replaced(s@, c, with@),
{
    let chars = chars_of(s);
    let mut out = String::new();
    let mut start: usize = 0;
    let mut i: usize = 0;
    assert(s@.take(0) =~= Seq::<char>::empty());
    assert(s@.subrange(0, 0) =~= Seq::<char>::empty());
    proof {
        lemma_replaced_absent(Seq::<char>::empty(), c, with@);
    }
    while i < chars.len()
        invariant
            chars@ == s@,
            start <= i <= chars.len(),
            out@ + s@.subrange(start as int, i as int) == replaced(s@.take(i as int), c, with@),
        decreases chars.len() - i,
    {
        proof {
            lemma_replaced_push(s@.take(i as int), s@[i as int], c, with@);
            assert(s@.take(i + 1) =~= s@.take(i as int).push(s@[i as int]));
        }
        if chars[i] == c {
            out.append(s.substring_char(start, i));
            out.append(with);
            start = i + 1;
            assert(s@.subrange(start as int, start as int) =~= Seq::<char>::empty());
            assert(out@ + Seq::<char>::empty() =~= out@);
        } else {
            assert(s@.subrange(start as int, i + 1) =~= s@.subrange(start as int, i as int).push(
                s@[i as int],
            ));
            assert(out@ + s@.subrange(start as int, i as int).push(s@[i as int]) =~= (out@
                + s@.subrange(start as int, i as int)) + seq![s@[i as int]]);
        }
        i += 1;
    }
    out.append(s.substring_char(start, i));
    assert(s@.take(i as int) =~= s@);
    out
}

/// The strings of `words` from position `from` on, with `sep` between each
/// two neighbours; nothing where `from` is past the end.
pub fn join_words(words: &Vec<String>, from: usize, sep: &str) -> (r: String)
    ensures
        r@ == if from <= words.len() {
            joined(texts(words@).skip(from as int), sep@)
        } else {
            Seq::empty()
        },
{
    let mut out = String::new();
    if from > words.len() {
        return out;
    }
    let mut i: usize = from;
    let ghost all = texts(words@).skip(from as int);
    assert(all.take(0) =~= Seq::<Seq<char>>::empty());
    while i < words.len()
        invariant
            from <= i <= words.len(),
            all == texts(words@).skip(from as int),
            out@ == joined(all.take(i - from), sep@),
        decreases words.len() - i,
    {
        proof {
            let next = all.take(i - from + 1);
            assert(next.drop_last() =~= all.take(i - from));
            assert(next.last() == words@[i as int]@);
            if i == from {
                assert(Seq::<char>::empty() + words@[i as int]@ =~= words@[i as int]@);
            }
        }
        if i > from {
            out.append(sep);
        }
        out.append(words[i].as_str());
        i += 1;
    }
    assert(all.take(i - from) =~= all);
    out
}

/// Whether `c` is white space.
pub fn space(c: char) -> (r: bool)
    ensures
        r == is_space(c),
{
    ('\u{9}' <= c && c <= '\u{d}') || c == ' ' || c == '\u{85}' || c == '\u{a0}' || c
        == '\u{1680}' || ('\u{2000}' <= c && c <= '\u{200a}') || c == '\u{2028}' || c
        == '\u{2029}' || c == '\u{202f}' || c == '\u{205f}' || c == '\u{3000}'
}

/// `s` without the white space at either end.
pub fn trim_text(s: &str) -> (r: String)
    ensures
        r@ == trimmed(s@),
{
    let chars = chars_of(s);
    let mut from: usize = 0;
    assert(s@.skip(0) =~= s@);
    while from < chars.len() && space(chars[from])
        invariant
            chars@ == s@,
            from <= chars.len(),
            trimmed_start(s@) == trimmed_start(s@.skip(from as int)),
        decreases chars.len() - from,
    {
        assert(s@.skip(from as int).skip(1) =~= s@.skip(from + 1));
        from += 1;
    }
    let ghost rest = s@.skip(from as int);
    assert(trimmed_start(s@) == rest);
    let mut to: usize = chars.len();
    assert(rest.take(to - from) =~= rest);
    while to > from && space(chars[to - 1])
        invariant
            chars@ == s@,
            rest == s@.skip(from as int),
            from <= to <= chars.len(),
            trimmed_end(rest) == trimmed_end(rest.take(to - from)),
        decreases to,
    {
        assert(rest.take(to - from).drop_last() =~= rest.take(to - from - 1));
        to -= 1;
    }
    assert(rest.take(to - from) =~= s@.subrange(from as int, to as int));
    s.substring_char(from, to).to_owned()
}

/// Putting one more text into a sequence adds it once to what the sequence
/// holds, wherever it is put.
pub proof fn lemma_insert_to_multiset(s: Seq<Seq<char>>, k: int, x: Seq<char>)
    requires
        0 <= k <= s.len(),
    ensures
        s.insert(k, x).to_multiset() == s.to_multiset().insert(x),
{
    broadcast use vstd::seq_lib::group_to_multiset_ensures;

    let head = s.take(k);
    let tail = s.skip(k);
    assert(s =~= head + tail);
    assert(s.insert(k, x) =~= head.push(x) + tail);
    vstd::seq_lib::lemma_multiset_commutative(head, tail);
    vstd::seq_lib::lemma_multiset_commutative(head.push(x), tail);
    assert(head.push(x).to_multiset().add(tail.to_multiset()) =~= head.to_multiset().add(
        tail.to_multiset(),
    ).insert(x));
}

/// The strings of `v` in lexicographic order.
pub fn sort_texts(v: &Vec<String>) -> (r: Vec<String>)
    ensures
        texts(r@) == sorted(texts(v@)),
{
    let mut r: Vec<String> = Vec::new();
    let mut i: usize = 0;
    assert(texts(r@) =~= texts(v@).take(0));
    while i < v.len()
        invariant
            i <= v.len(),
            vstd::relations::sorted_by(texts(r@), text_order()),
            texts(r@).to_multiset() == texts(v@).take(i as int).to_multiset(),
        decreases v.len() - i,
    {
        let item = v[i].clone();
        let mut k: usize = 0;
        while k < r.len() && !text_precedes(item.as_str(), r[k].as_str())
            invariant
                k <= r.len(),
                forall|j: int| 0 <= j < k ==> !precedes(item@, #[trigger] r@[j]@),
            decreases r.len() - k,
        {
            k += 1;
        }
        let ghost before = texts(r@);
        proof {
            assert forall|j: int| 0 <= j < k implies !precedes(item@, #[trigger] before[j]) by {
                assert(before[j] == r@[j]@);
            }
            if k < r.len() {
                assert(before[k as int] == r@[k as int]@);
            }
        }
        r.insert(k, item);
        proof {
            let after = texts(r@);
            assert(after =~= before.insert(k as int, item@));
            lemma_insert_to_multiset(before, k as int, item@);
            let upto = texts(v@).take(i as int);
            assert(texts(v@).take(i + 1) =~= upto.push(item@));
            vstd::seq_lib::to_multiset_build(upto, item@);
            assert forall|a: int, b: int| 0 <= a < b < after.len() implies #[trigger] text_order()(
                after[a],
                after[b],
            ) by {
                if a == k {
                    assert(after[b] == before[b - 1]);
                    assert(precedes(item@, before[k as int]));
                    if b - 1 > k {
                        assert(text_order()(before[k as int], before[b - 1]));
                    }
                    if precedes(after[b], item@) {
                        lemma_precedes_transitive(after[b], item@, before[k as int]);
                        lemma_precedes_irreflexive(before[k as int]);
                    }
                } else if b == k {
                    assert(after[a] == before[a]);
                } else {
                    let a0 = if a < k { a } else { a - 1 };
                    let b0 = if b < k { b } else { b - 1 };
                    assert(after[a] == before[a0]);
                    assert(after[b] == before[b0]);
                    assert(text_order()(before[a0], before[b0]));
                }
            }
        }
        i += 1;
    }
    proof {
        let whole = texts(v@);
        assert(whole.take(v.len() as int) =~= whole);
        lemma_text_order_total();
        whole.lemma_sort_by_ensures(text_order());
        vstd::seq_lib::lemma_sorted_unique(texts(r@), sorted(whole), text_order());
    }
    r
}

} // verus!
