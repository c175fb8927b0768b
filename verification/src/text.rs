//! Text helpers: white space, trimming, splitting into fields and the
//! lexicographic order of character sequences.

use vstd::prelude::*;

verus! {

/// Whether `c` has the Unicode property `White_Space`.
pub open spec fn is_white_space(c: char) -> bool {
    let n = c as int;
    ||| 0x09 <= n <= 0x0D
    ||| n == 0x20
    ||| n == 0x85
    ||| n == 0xA0
    ||| n == 0x1680
    ||| 0x2000 <= n <= 0x200A
    ||| n == 0x2028
    ||| n == 0x2029
    ||| n == 0x202F
    ||| n == 0x205F
    ||| n == 0x3000
}

/// `s` without its leading white space.
pub open spec fn trim_start(s: Seq<char>) -> Seq<char>
    decreases s.len(),
{
    if s.len() > 0 && is_white_space(s[0]) {
        trim_start(s.drop_first())
    } else {
        s
    }
}

/// `s` without its trailing white space.
pub open spec fn trim_end(s: Seq<char>) -> Seq<char>
    decreases s.len(),
{
    if s.len() > 0 && is_white_space(s.last()) {
        trim_end(s.drop_last())
    } else {
        s
    }
}

/// `s` without its leading and trailing white space.
pub open spec fn trim(s: Seq<char>) -> Seq<char> {
    trim_end(trim_start(s))
}

/// The fields of `s` between occurrences of `sep`. There is always at least
/// one field; `k` separators give `k + 1` fields, some of which may be empty.
pub open spec fn split(s: Seq<char>, sep: char) -> Seq<Seq<char>>
    decreases s.len(),
{
    if s.len() == 0 {
        seq![Seq::empty()]
    } else {
        let before = split(s.drop_last(), sep);
        if s.last() == sep {
            before.push(Seq::empty())
        } else {
            before.drop_last().push(before.last().push(s.last()))
        }
    }
}

/// Strict lexicographic order by code point: whether `a` sorts before `b`.
pub open spec fn sorts_before(a: Seq<char>, b: Seq<char>) -> bool
    decreases a.len(),
{
    if b.len() == 0 {
        false
    } else if a.len() == 0 {
        true
    } else if a[0] != b[0] {
        (a[0] as int) < (b[0] as int)
    } else {
        sorts_before(a.drop_first(), b.drop_first())
    }
}

/// Whether every character of `s` is white space.
pub open spec fn all_white_space(s: Seq<char>) -> bool {
    forall|i: int| 0 <= i < s.len() ==> is_white_space(#[trigger] s[i])
}

/// Whether `s` neither starts nor ends with white space.
pub open spec fn tight(s: Seq<char>) -> bool {
    s.len() > 0 ==> !is_white_space(s[0]) && !is_white_space(s.last())
}

/// The fields put together again, with `sep` between every two.
pub open spec fn join(fields: Seq<Seq<char>>, sep: char) -> Seq<char>
    decreases fields.len(),
{
    if fields.len() == 0 {
        Seq::empty()
    } else if fields.len() == 1 {
        fields[0]
    } else {
        join(fields.drop_last(), sep).push(sep) + fields.last()
    }
}

proof fn lemma_trim_start_strips(pre: Seq<char>, rest: Seq<char>)
    requires
        all_white_space(pre),
        rest.len() > 0 ==> !is_white_space(rest[0]),
    ensures
        trim_start(pre + rest) == rest,
    decreases pre.len(),
{
    if pre.len() == 0 {
        assert(pre + rest =~= rest);
    } else {
        assert((pre + rest)[0] == pre[0]);
        assert((pre + rest).drop_first() =~= pre.drop_first() + rest);
        assert forall|i: int| 0 <= i < pre.drop_first().len() implies is_white_space(
            #[trigger] pre.drop_first()[i],
        ) by {
            assert(pre.drop_first()[i] == pre[i + 1]);
        }
        lemma_trim_start_strips(pre.drop_first(), rest);
    }
}

proof fn lemma_trim_end_strips(rest: Seq<char>, post: Seq<char>)
    requires
        all_white_space(post),
        rest.len() > 0 ==> !is_white_space(rest.last()),
    ensures
        trim_end(rest + post) == rest,
    decreases post.len(),
{
    if post.len() == 0 {
        assert(rest + post =~= rest);
    } else {
        assert((rest + post).last() == post.last());
        assert((rest + post).drop_last() =~= rest + post.drop_last());
        assert forall|i: int| 0 <= i < post.drop_last().len() implies is_white_space(
            #[trigger] post.drop_last()[i],
        ) by {
            assert(post.drop_last()[i] == post[i]);
        }
        lemma_trim_end_strips(rest, post.drop_last());
    }
}

/// Trimming takes away the white space around a text that neither starts
/// nor ends with white space, and nothing else.
pub proof fn law_trim_strips_surroundings(pre: Seq<char>, body: Seq<char>, post: Seq<char>)
    requires
        all_white_space(pre),
        all_white_space(post),
        tight(body),
    ensures
        trim(pre + body + post) == body,
{
    if body.len() == 0 {
        assert(pre + body + post =~= (pre + post) + Seq::<char>::empty());
        assert forall|i: int| 0 <= i < (pre + post).len() implies is_white_space(
            #[trigger] (pre + post)[i],
        ) by {
            if i < pre.len() {
                assert((pre + post)[i] == pre[i]);
            } else {
                assert((pre + post)[i] == post[i - pre.len()]);
            }
        }
        lemma_trim_start_strips(pre + post, Seq::<char>::empty());
        assert(body =~= Seq::<char>::empty());
    } else {
        assert(pre + body + post =~= pre + (body + post));
        assert((body + post)[0] == body[0]);
        lemma_trim_start_strips(pre, body + post);
        lemma_trim_end_strips(body, post);
    }
}

/// What is left after trimming neither starts nor ends with white space.
pub proof fn law_trim_is_tight(s: Seq<char>)
    ensures
        tight(trim(s)),
{
    lemma_trim_start_no_leading(s);
    lemma_trim_end_keeps_start(trim_start(s));
}

proof fn lemma_trim_start_no_leading(s: Seq<char>)
    ensures
        trim_start(s).len() > 0 ==> !is_white_space(trim_start(s)[0]),
    decreases s.len(),
{
    if s.len() > 0 && is_white_space(s[0]) {
        lemma_trim_start_no_leading(s.drop_first());
    }
}

proof fn lemma_trim_end_keeps_start(s: Seq<char>)
    ensures
        trim_end(s).len() > 0 ==> trim_end(s)[0] == s[0] && !is_white_space(trim_end(s).last()),
    decreases s.len(),
{
    if s.len() > 0 && is_white_space(s.last()) {
        lemma_trim_end_keeps_start(s.drop_last());
    }
}

/// A split always yields at least one field.
pub proof fn lemma_split_nonempty(s: Seq<char>, sep: char)
    ensures
        split(s, sep).len() >= 1,
    decreases s.len(),
{
    if s.len() > 0 {
        lemma_split_nonempty(s.drop_last(), sep);
    }
}

/// A text without a separator is a single field.
pub proof fn lemma_split_single(s: Seq<char>, sep: char)
    requires
        !s.contains(sep),
    ensures
        split(s, sep) == seq![s],
    decreases s.len(),
{
    if s.len() == 0 {
        assert(s =~= Seq::<char>::empty());
    } else {
        assert(s[s.len() - 1] != sep);
        assert forall|i: int| 0 <= i < s.drop_last().len() implies s.drop_last()[i] != sep by {
            assert(s.drop_last()[i] == s[i]);
        }
        lemma_split_single(s.drop_last(), sep);
        assert(s.drop_last().push(s.last()) =~= s);
        assert(seq![s.drop_last()].drop_last().push(s.drop_last().push(s.last())) =~= seq![s]);
    }
}

/// A separator followed by a text that holds none adds that text as one
/// more field.
pub proof fn lemma_split_append(head: Seq<char>, tail: Seq<char>, sep: char)
    requires
        !tail.contains(sep),
    ensures
        split(head.push(sep) + tail, sep) == split(head, sep).push(tail),
    decreases tail.len(),
{
    let s = head.push(sep) + tail;
    if tail.len() == 0 {
        assert(s =~= head.push(sep));
        assert(s.drop_last() =~= head);
        assert(tail =~= Seq::<char>::empty());
    } else {
        assert(tail[tail.len() - 1] != sep);
        assert forall|i: int| 0 <= i < tail.drop_last().len() implies tail.drop_last()[i]
            != sep by {
            assert(tail.drop_last()[i] == tail[i]);
        }
        lemma_split_append(head, tail.drop_last(), sep);
        assert(s.drop_last() =~= head.push(sep) + tail.drop_last());
        assert(s.last() == tail.last());
        let before = split(head, sep).push(tail.drop_last());
        assert(before.drop_last() =~= split(head, sep));
        assert(tail.drop_last().push(tail.last()) =~= tail);
    }
}

/// No field of a split holds the separator.
pub proof fn law_split_fields_hold_no_separator(s: Seq<char>, sep: char, k: int)
    requires
        0 <= k < split(s, sep).len(),
    ensures
        !split(s, sep)[k].contains(sep),
    decreases s.len(),
{
    if s.len() > 0 {
        let before = split(s.drop_last(), sep);
        lemma_split_nonempty(s.drop_last(), sep);
        if k < before.len() - 1 || (s.last() == sep && k < before.len()) {
            law_split_fields_hold_no_separator(s.drop_last(), sep, k);
        } else if s.last() != sep {
            law_split_fields_hold_no_separator(s.drop_last(), sep, before.len() - 1);
            let field = before.last().push(s.last());
            assert forall|i: int| 0 <= i < field.len() implies field[i] != sep by {
                if i < before.last().len() {
                    assert(before.last()[i] != sep);
                }
            }
        }
    }
}

/// Splitting loses nothing: the fields, joined again, are the text.
pub proof fn law_join_of_split(s: Seq<char>, sep: char)
    ensures
        join(split(s, sep), sep) == s,
    decreases s.len(),
{
    if s.len() == 0 {
        assert(s =~= Seq::<char>::empty());
    } else {
        let before = split(s.drop_last(), sep);
        lemma_split_nonempty(s.drop_last(), sep);
        law_join_of_split(s.drop_last(), sep);
        if s.last() == sep {
            assert(before.push(Seq::<char>::empty()).drop_last() =~= before);
            assert(s.drop_last().push(sep) + Seq::<char>::empty() =~= s);
        } else {
            let last = before.last().push(s.last());
            let fields = before.drop_last().push(last);
            assert(fields.drop_last() =~= before.drop_last());
            if before.len() == 1 {
                assert(last =~= s);
            } else {
                assert(join(before.drop_last(), sep).push(sep) + last =~= (join(
                    before.drop_last(),
                    sep,
                ).push(sep) + before.last()).push(s.last()));
                assert(s.drop_last().push(s.last()) =~= s);
            }
        }
    }
}

/// No text sorts before itself.
pub proof fn law_order_irreflexive(a: Seq<char>)
    ensures
        !sorts_before(a, a),
    decreases a.len(),
{
    if a.len() > 0 {
        law_order_irreflexive(a.drop_first());
    }
}

/// Of two texts at most one sorts before the other.
pub proof fn law_order_asymmetric(a: Seq<char>, b: Seq<char>)
    requires
        sorts_before(a, b),
    ensures
        !sorts_before(b, a),
    decreases a.len(),
{
    if a.len() > 0 && b.len() > 0 && a[0] == b[0] {
        law_order_asymmetric(a.drop_first(), b.drop_first());
    }
}

/// Of two different texts one sorts before the other.
pub proof fn law_order_total(a: Seq<char>, b: Seq<char>)
    requires
        a != b,
    ensures
        sorts_before(a, b) || sorts_before(b, a),
    decreases a.len(),
{
    if a.len() > 0 && b.len() > 0 && a[0] == b[0] {
        if a.drop_first() == b.drop_first() {
            assert(a =~= seq![a[0]] + a.drop_first());
            assert(b =~= seq![b[0]] + b.drop_first());
        }
        law_order_total(a.drop_first(), b.drop_first());
    } else if a.len() == 0 && b.len() == 0 {
        assert(a =~= b);
    }
}

/// What sorts before a text sorts before all that the text sorts before.
pub proof fn law_order_transitive(a: Seq<char>, b: Seq<char>, c: Seq<char>)
    requires
        sorts_before(a, b),
        sorts_before(b, c),
    ensures
        sorts_before(a, c),
    decreases a.len(),
{
    if a.len() > 0 && b.len() > 0 && c.len() > 0 && a[0] == b[0] && b[0] == c[0] {
        law_order_transitive(a.drop_first(), b.drop_first(), c.drop_first());
    }
}

/// The code point of `c`.
fn code_point(c: char) -> (code: u32)
    ensures
        code as int == c as int,
{
    c as u32
}

/// Decides `is_white_space`.
pub fn white_space(c: char) -> (b: bool)
    ensures
        b == is_white_space(c),
{
    let n: u32 = c as u32;
    (0x09 <= n && n <= 0x0D) || n == 0x20 || n == 0x85 || n == 0xA0 || n == 0x1680 || (0x2000 <= n
        && n <= 0x200A) || n == 0x2028 || n == 0x2029 || n == 0x202F || n == 0x205F || n == 0x3000
}

/// The characters of `s`, in order.
pub fn chars_of(s: &str) -> (chars: Vec<char>)
    ensures
        chars@ == s@,
{
    let mut chars: Vec<char> = Vec::new();
    for c in it: s.chars()
        invariant
            chars@ == it.seq().take(it.index() as int),
    {
        chars.push(c);
    }
    chars
}

/// The half-open range of `chars` that is left when leading and trailing
/// white space is taken away. Where nothing is left, the range is empty and
/// lies at the end.
pub fn trim_bounds(chars: &[char]) -> (bounds: (usize, usize))
    ensures
        bounds.0 <= bounds.1 <= chars@.len(),
        chars@.subrange(bounds.0 as int, bounds.1 as int) == trim(chars@),
        all_white_space(chars@.take(bounds.0 as int)),
        all_white_space(chars@.skip(bounds.1 as int)),
        bounds.0 < chars@.len() ==> !is_white_space(chars@[bounds.0 as int]),
        bounds.0 < bounds.1 ==> !is_white_space(chars@[bounds.1 - 1]),
{
    let n: usize = chars.len();
    let mut start: usize = 0;
    proof {
        assert(chars@.skip(0) =~= chars@);
    }
    while start < n && white_space(chars[start])
        invariant
            start <= n == chars@.len(),
            trim_start(chars@) == trim_start(chars@.skip(start as int)),
            all_white_space(chars@.take(start as int)),
        decreases n - start,
    {
        proof {
            assert(chars@.skip(start as int).drop_first() =~= chars@.skip(start + 1));
            assert forall|i: int| 0 <= i < start + 1 implies is_white_space(
                #[trigger] chars@.take(start + 1)[i],
            ) by {
                if i < start {
                    assert(chars@.take(start as int)[i] == chars@[i]);
                }
            }
        }
        start += 1;
    }
    assert(trim_start(chars@) == chars@.skip(start as int));
    let mut end: usize = n;
    proof {
        assert(chars@.skip(start as int) =~= chars@.subrange(start as int, end as int));
    }
    while end > start && white_space(chars[end - 1])
        invariant
            start <= end <= n == chars@.len(),
            trim(chars@) == trim_end(chars@.subrange(start as int, end as int)),
            all_white_space(chars@.skip(end as int)),
        decreases end - start,
    {
        proof {
            assert(chars@.subrange(start as int, end as int).drop_last() =~= chars@.subrange(
                start as int,
                end - 1,
            ));
            assert forall|i: int| 0 <= i < n - (end - 1) implies is_white_space(
                #[trigger] chars@.skip(end - 1)[i],
            ) by {
                if i > 0 {
                    assert(chars@.skip(end as int)[i - 1] == chars@[end + i - 1]);
                }
            }
        }
        end -= 1;
    }
    (start, end)
}

/// The half-open ranges of `chars` that hold the fields between occurrences
/// of `sep`, in order: the first starts at the beginning, each of the others
/// one past the separator that ends the one before, and the last ends at the
/// end.
pub fn field_bounds(chars: &[char], sep: char) -> (bounds: Vec<(usize, usize)>)
    ensures
        bounds@.len() == split(chars@, sep).len(),
        bounds@[0].0 == 0,
        bounds@.last().1 == chars@.len(),
        forall|k: int|
            0 <= k < bounds@.len() - 1 ==> (#[trigger] bounds@[k]).1 + 1 == bounds@[k + 1].0,
        forall|k: int|
            0 <= k < bounds@.len() ==> {
                &&& bounds@[k].0 <= bounds@[k].1 <= chars@.len()
                &&& chars@.subrange((#[trigger] bounds@[k]).0 as int, bounds@[k].1 as int) == split(
                    chars@,
                    sep,
                )[k]
            },
{
    let n: usize = chars.len();
    let mut bounds: Vec<(usize, usize)> = Vec::new();
    let mut from: usize = 0;
    let mut i: usize = 0;
    proof {
        assert(chars@.take(0) =~= Seq::<char>::empty());
        assert(chars@.subrange(0, 0) =~= Seq::<char>::empty());
    }
    while i < n
        invariant
            from <= i <= n == chars@.len(),
            bounds@.len() + 1 == split(chars@.take(i as int), sep).len(),
            split(chars@.take(i as int), sep).last() == chars@.subrange(from as int, i as int),
            bounds@.len() == 0 ==> from == 0,
            bounds@.len() > 0 ==> bounds@[0].0 == 0 && bounds@.last().1 + 1 == from,
            forall|k: int|
                0 <= k < bounds@.len() - 1 ==> (#[trigger] bounds@[k]).1 + 1 == bounds@[k + 1].0,
            forall|k: int|
                0 <= k < bounds@.len() ==> {
                    &&& bounds@[k].0 <= bounds@[k].1 <= i
                    &&& chars@.subrange((#[trigger] bounds@[k]).0 as int, bounds@[k].1 as int)
                        == split(chars@.take(i as int), sep)[k]
                },
        decreases n - i,
    {
        proof {
            assert(chars@.take(i + 1).drop_last() =~= chars@.take(i as int));
            assert(chars@.subrange(from as int, i as int).push(chars@[i as int]) =~= chars@.subrange(
                from as int,
                i + 1,
            ));
            assert(chars@.subrange(i + 1, i + 1) =~= Seq::<char>::empty());
        }
        if chars[i] == sep {
            bounds.push((from, i));
            from = i + 1;
        }
        i += 1;
    }
    proof {
        assert(chars@.take(n as int) =~= chars@);
    }
    bounds.push((from, n));
    bounds
}

/// Whether `chars` spells `word`.
pub fn slice_is_text(chars: &[char], word: &str) -> (same: bool)
    ensures
        same == (chars@ == word@),
{
    let letters: Vec<char> = chars_of(word);
    if chars.len() != letters.len() {
        return false;
    }
    let mut i: usize = 0;
    while i < chars.len()
        invariant
            i <= chars@.len() == letters@.len(),
            letters@ == word@,
            chars@.take(i as int) == letters@.take(i as int),
        decreases chars@.len() - i,
    {
        if chars[i] != letters[i] {
            return false;
        }
        proof {
            assert(chars@.take(i + 1) =~= chars@.take(i as int).push(chars@[i as int]));
            assert(letters@.take(i + 1) =~= letters@.take(i as int).push(letters@[i as int]));
        }
        i += 1;
    }
    proof {
        assert(chars@.take(i as int) =~= chars@);
        assert(letters@.take(i as int) =~= letters@);
    }
    true
}

/// Whether `a` sorts strictly before `b` in lexicographic order by code
/// point, which is also the order of their UTF-8 encodings.
pub fn text_sorts_before(a: &str, b: &str) -> (before: bool)
    ensures
        before == sorts_before(a@, b@),
{
    let x: Vec<char> = chars_of(a);
    let y: Vec<char> = chars_of(b);
    let mut i: usize = 0;
    proof {
        assert(x@.skip(0) =~= x@);
        assert(y@.skip(0) =~= y@);
    }
    while i < x.len() && i < y.len() && x[i] == y[i]
        invariant
            i <= x@.len(),
            i <= y@.len(),
            x@ == a@,
            y@ == b@,
            sorts_before(a@, b@) == sorts_before(x@.skip(i as int), y@.skip(i as int)),
        decreases x@.len() - i,
    {
        proof {
            assert(x@.skip(i as int).drop_first() =~= x@.skip(i + 1));
            assert(y@.skip(i as int).drop_first() =~= y@.skip(i + 1));
        }
        i += 1;
    }
    if i == y.len() {
        false
    } else if i == x.len() {
        true
    } else {
        code_point(x[i]) < code_point(y[i])
    }
}

} // verus!
