//! Laws of the link parser: what holds of every text.

use vstd::prelude::*;
use crate::note::{
    capture_end, escaped_at, lemma_capture_end, lemma_scan_past_end, link_of, links_in, render,
    scan, LinkView,
};
use crate::text::first_at;

verus! {

/// Whether `c` does not occur in `s`.
pub open spec fn free_of(s: Seq<char>, c: char) -> bool {
    forall|k: int| 0 <= k < s.len() ==> s[k] != c
}

/// Whether a text holds no `[` and leaves what follows it unescaped.
pub open spec fn plain(s: Seq<char>) -> bool {
    free_of(s, '[') && !escaped_at(s, s.len() as int)
}

/// Whether a character is escaped depends only on the text before it.
pub proof fn lemma_escaped_at_prefix(pre: Seq<char>, rest: Seq<char>, i: int)
    requires
        0 <= i <= pre.len(),
    ensures
        escaped_at(pre + rest, i) == escaped_at(pre, i),
    decreases i,
{
    if i > 0 {
        lemma_escaped_at_prefix(pre, rest, i - 1);
        assert((pre + rest)[i - 1] == pre[i - 1]);
    }
}

/// Whether a link can be written so that it is read back: the target holds
/// none of `]`, `|`, `#` and no line break, the header no `]`, no `|` and
/// no line break, the alias no `]` and no line break.
pub open spec fn well_formed(link: LinkView) -> bool {
    &&& free_of(link.value, ']') && free_of(link.value, '\n') && free_of(link.value, '|')
        && free_of(link.value, '#')
    &&& link.header matches Some(h) ==> free_of(h, ']') && free_of(h, '\n') && free_of(h, '|')
    &&& link.alias matches Some(a) ==> free_of(a, ']') && free_of(a, '\n')
}

/// What stands between the brackets of a written link.
pub open spec fn body_of(link: LinkView) -> Seq<char> {
    link.value + (match link.header {
        Some(h) => seq!['#'] + h,
        None => Seq::empty(),
    }) + (match link.alias {
        Some(a) => seq!['|'] + a,
        None => Seq::empty(),
    })
}

/// Where `c` first occurs at `at`, or nowhere and `at` is the end,
/// `first_at` is `at`.
pub proof fn lemma_first_at_is(s: Seq<char>, c: char, from: int, at: int)
    requires
        0 <= from <= at <= s.len(),
        forall|k: int| from <= k < at ==> s[k] != c,
        at < s.len() ==> s[at] == c,
    ensures
        first_at(s, c, from) == at,
    decreases at - from,
{
    if from < at {
        lemma_first_at_is(s, c, from + 1, at);
    }
}

/// Where the first `]` or line break at or after `from` stands at `at`, or
/// there is none and `at` is the end, `capture_end` is `at`.
pub proof fn lemma_capture_end_is(s: Seq<char>, from: int, at: int)
    requires
        0 <= from <= at <= s.len(),
        forall|k: int| from <= k < at ==> s[k] != ']' && s[k] != '\n',
        at < s.len() ==> s[at] == ']' || s[at] == '\n',
    ensures
        capture_end(s, from) == at,
    decreases at - from,
{
    if from < at {
        lemma_capture_end_is(s, from + 1, at);
    }
}

/// The scan passes over a stretch without `[`.
pub proof fn lemma_scan_plain(s: Seq<char>, from: int, to: int)
    requires
        0 <= from <= to <= s.len(),
        forall|k: int| from <= k < to ==> s[k] != '[',
    ensures
        scan(s, from) == scan(s, to),
    decreases to - from,
{
    if from < to {
        lemma_scan_plain(s, from + 1, to);
    }
}

/// Where no `[` follows, the scan finds nothing.
pub proof fn lemma_scan_without_bracket(s: Seq<char>, from: int)
    requires
        0 <= from,
        forall|k: int| from <= k < s.len() ==> s[k] != '[',
    ensures
        scan(s, from) == Seq::<LinkView>::empty(),
    decreases s.len() - from,
{
    if from < s.len() {
        lemma_scan_without_bracket(s, from + 1);
    }
}

/// The body of a well-formed link is read back as that link.
pub proof fn lemma_body_reads_back(link: LinkView, start: int, end: int)
    requires
        well_formed(link),
        0 <= start,
        0 <= end,
    ensures
        link_of(body_of(link), start, end) == (LinkView {
            start: start as nat,
            end: end as nat,
            ..link
        }),
{
    let head = link.value + (match link.header {
        Some(h) => seq!['#'] + h,
        None => Seq::empty(),
    });
    let body = body_of(link);
    let bar = first_at(body, '|', 0);
    assert forall|k: int| 0 <= k < head.len() implies head[k] != '|' by {
        if k < link.value.len() {
            assert(head[k] == link.value[k]);
        } else if k > link.value.len() {
            assert(head[k] == link.header->Some_0[k - link.value.len() - 1]);
        }
    }
    match link.alias {
        Some(a) => {
            assert(body =~= head + (seq!['|'] + a));
            assert forall|k: int| 0 <= k < head.len() implies body[k] != '|' by {
                assert(body[k] == head[k]);
            }
            assert(body[head.len() as int] == '|');
            lemma_first_at_is(body, '|', 0, head.len() as int);
            assert(body.skip(bar + 1) =~= a);
        },
        None => {
            assert(body =~= head);
            lemma_first_at_is(body, '|', 0, body.len() as int);
        },
    }
    let reference = body.take(bar);
    assert(reference =~= head);
    let hash = first_at(reference, '#', 0);
    match link.header {
        Some(h) => {
            assert forall|k: int| 0 <= k < link.value.len() implies reference[k] != '#' by {
                assert(reference[k] == link.value[k]);
            }
            assert(reference[link.value.len() as int] == '#');
            lemma_first_at_is(reference, '#', 0, link.value.len() as int);
            assert(reference.skip(hash + 1) =~= h);
            assert(reference.take(hash) =~= link.value);
        },
        None => {
            assert(reference =~= link.value);
            lemma_first_at_is(reference, '#', 0, reference.len() as int);
            assert(reference.take(hash) =~= link.value);
        },
    }
}

/// A written link is `[[`, its body and `]]`.
pub proof fn lemma_render_shape(link: LinkView)
    ensures
        render(link) == seq!['[', '['] + body_of(link) + seq![']', ']'],
        render(link).len() == body_of(link).len() + 4,
{
    assert(render(link) =~= seq!['[', '['] + body_of(link) + seq![']', ']']);
}

/// Reading back what was written. A well-formed link, written unescaped
/// after a text without `[` and before any text, is found where it stands:
/// with its target, its header and alias if it has them, and the positions
/// of its first `[` and its last `]`. The scan goes on behind it.
pub proof fn lemma_written_link_is_found(pre: Seq<char>, link: LinkView, post: Seq<char>)
    requires
        plain(pre),
        well_formed(link),
    ensures
        links_in(pre + render(link) + post) == seq![
            LinkView {
                start: pre.len(),
                end: (pre.len() + render(link).len() - 1) as nat,
                ..link
            },
        ] + scan(pre + render(link) + post, (pre.len() + render(link).len()) as int),
{
    let s = pre + render(link) + post;
    let n = pre.len() as int;
    let body = body_of(link);
    let m = body.len() as int;
    lemma_render_shape(link);
    assert forall|k: int| 0 <= k < n implies s[k] != '[' by {
        assert(s[k] == pre[k]);
    }
    lemma_scan_plain(s, 0, n);
    assert(s =~= pre + (render(link) + post));
    lemma_escaped_at_prefix(pre, render(link) + post, n);
    assert(s[n] == '[' && s[n + 1] == '[') by {
        assert(s[n] == render(link)[0]);
        assert(s[n + 1] == render(link)[1]);
    }
    assert forall|k: int| n + 2 <= k < n + 2 + m implies s[k] != ']' && s[k] != '\n' by {
        assert(s[k] == render(link)[k - n]);
        assert(render(link)[k - n] == body[k - n - 2]);
        lemma_body_free(link, k - n - 2);
    }
    assert(s[n + 2 + m] == ']' && s[n + 3 + m] == ']') by {
        assert(s[n + 2 + m] == render(link)[m + 2]);
        assert(s[n + 3 + m] == render(link)[m + 3]);
    }
    lemma_capture_end_is(s, n + 2, n + 2 + m);
    assert(s.subrange(n + 2, n + 2 + m) =~= body);
    lemma_body_reads_back(link, n, n + 3 + m);
}

/// No character of a well-formed link's body is `]` or a line break.
pub proof fn lemma_body_free(link: LinkView, k: int)
    requires
        well_formed(link),
        0 <= k < body_of(link).len(),
    ensures
        body_of(link)[k] != ']',
        body_of(link)[k] != '\n',
{
    let body = body_of(link);
    let v = link.value.len() as int;
    let h = match link.header {
        Some(h) => seq!['#'] + h,
        None => Seq::empty(),
    };
    let a = match link.alias {
        Some(a) => seq!['|'] + a,
        None => Seq::empty(),
    };
    assert(body =~= link.value + h + a);
    if k < v {
        assert(body[k] == link.value[k]);
    } else if k < v + h.len() {
        assert(body[k] == h[k - v]);
        if k > v {
            assert(h[k - v] == link.header->Some_0[k - v - 1]);
        }
    } else {
        assert(body[k] == a[k - v - h.len()]);
        if k > v + h.len() {
            assert(a[k - v - h.len()] == link.alias->Some_0[k - v - h.len() - 1]);
        }
    }
}

/// A written link alone is read back as itself, from position zero to the
/// position of its last `]`.
pub proof fn lemma_round_trip(link: LinkView)
    requires
        well_formed(link),
    ensures
        links_in(render(link)) == seq![
            LinkView { start: 0, end: (render(link).len() - 1) as nat, ..link },
        ],
{
    let none = Seq::<char>::empty();
    lemma_written_link_is_found(none, link, none);
    assert(none + render(link) + none =~= render(link));
    lemma_scan_past_end(render(link), render(link).len() as int);
}

/// An escaped link is no link: after a text without `[` that leaves what
/// follows unescaped, a backslash before `[[`, a body without `[`, and `]]`
/// yield nothing.
pub proof fn lemma_escaped_link_is_none(pre: Seq<char>, body: Seq<char>)
    requires
        plain(pre),
        free_of(body, '['),
    ensures
        links_in(pre + seq!['\\', '[', '['] + body + seq![']', ']']) == Seq::<LinkView>::empty(),
{
    let s = pre + seq!['\\', '[', '['] + body + seq![']', ']'];
    let n = pre.len() as int;
    assert forall|k: int| 0 <= k < n implies s[k] != '[' by {
        assert(s[k] == pre[k]);
    }
    lemma_scan_plain(s, 0, n);
    assert(s =~= pre + (seq!['\\', '[', '['] + body + seq![']', ']']));
    lemma_escaped_at_prefix(pre, seq!['\\', '[', '['] + body + seq![']', ']'], n);
    assert(s[n] == '\\' && s[n + 1] == '[' && s[n + 2] == '[');
    assert forall|k: int| n + 3 <= k < s.len() implies s[k] != '[' by {
        if k < n + 3 + body.len() {
            assert(s[k] == body[k - n - 3]);
        }
    }
    assert(escaped_at(s, n + 1));
    assert(!escaped_at(s, n + 2));
    assert(scan(s, n) == scan(s, n + 1));
    assert(scan(s, n + 1) == scan(s, n + 2));
    assert(scan(s, n + 2) == scan(s, n + 3));
    lemma_scan_without_bracket(s, n + 3);
}

/// An unterminated link is no link: after a text without `[` that leaves
/// what follows unescaped, `[[` and a target without `]` that runs to the
/// end of its line yield nothing, and the scan goes on two characters
/// behind the target. Where at most two characters follow the target, the
/// text holds no link.
pub proof fn lemma_unterminated_link_is_none(pre: Seq<char>, target: Seq<char>, rest: Seq<char>)
    requires
        plain(pre),
        free_of(target, ']'),
        free_of(target, '\n'),
        rest.len() == 0 || rest[0] == '\n',
    ensures
        links_in(pre + seq!['[', '['] + target + rest) == scan(
            pre + seq!['[', '['] + target + rest,
            (pre.len() + target.len() + 4) as int,
        ),
        rest.len() <= 2 ==> links_in(pre + seq!['[', '['] + target + rest) == Seq::<
            LinkView,
        >::empty(),
{
    let s = pre + seq!['[', '['] + target + rest;
    let n = pre.len() as int;
    let m = target.len() as int;
    assert forall|k: int| 0 <= k < n implies s[k] != '[' by {
        assert(s[k] == pre[k]);
    }
    lemma_scan_plain(s, 0, n);
    assert(s =~= pre + (seq!['[', '['] + target + rest));
    lemma_escaped_at_prefix(pre, seq!['[', '['] + target + rest, n);
    assert(s[n] == '[' && s[n + 1] == '[');
    assert forall|k: int| n + 2 <= k < n + 2 + m implies s[k] != ']' && s[k] != '\n' by {
        assert(s[k] == target[k - n - 2]);
    }
    if rest.len() > 0 {
        assert(s[n + 2 + m] == rest[0]);
    }
    lemma_capture_end_is(s, n + 2, n + 2 + m);
    lemma_scan_past_end(s, n + m + 4);
}

/// Every link that the scan finds is a closed span of the text: it starts
/// with `[[` at its start, where the first `[` is not escaped, ends with
/// `]]` at its end, holds neither `]` nor a line break in between, and is
/// what its body says.
pub proof fn lemma_links_are_closed_spans(s: Seq<char>, from: int, k: int)
    requires
        0 <= from,
        0 <= k < scan(s, from).len(),
    ensures
        ({
            let l = scan(s, from)[k];
            let start = l.start as int;
            let end = l.end as int;
            &&& from <= start
            &&& start + 3 <= end < s.len()
            &&& s[start] == '[' && s[start + 1] == '['
            &&& !escaped_at(s, start)
            &&& s[end - 1] == ']' && s[end] == ']'
            &&& forall|m: int| start + 2 <= m < end - 1 ==> s[m] != ']' && s[m] != '\n'
            &&& l == link_of(s.subrange(start + 2, end - 1), start, end)
        }),
    decreases s.len() + 2 - from,
{
    if from < s.len() {
        if s[from] != '[' || escaped_at(s, from) || from + 1 >= s.len() || s[from + 1] != '[' {
            lemma_links_are_closed_spans(s, from + 1, k);
        } else {
            let close = capture_end(s, from + 2);
            lemma_capture_end(s, from + 2);
            if close + 1 < s.len() && s[close] == ']' && s[close + 1] == ']' {
                if k > 0 {
                    lemma_links_are_closed_spans(s, close + 2, k - 1);
                }
            } else {
                lemma_links_are_closed_spans(s, close + 2, k);
            }
        }
    }
}

/// The links that the scan finds stand in the order of the text, and none
/// reaches into the next.
pub proof fn lemma_links_are_ordered(s: Seq<char>, from: int, k: int)
    requires
        0 <= from,
        0 <= k,
        k + 1 < scan(s, from).len(),
    ensures
        scan(s, from)[k].end < scan(s, from)[k + 1].start,
    decreases s.len() + 2 - from,
{
    if from < s.len() {
        if s[from] != '[' || escaped_at(s, from) || from + 1 >= s.len() || s[from + 1] != '[' {
            lemma_links_are_ordered(s, from + 1, k);
        } else {
            let close = capture_end(s, from + 2);
            lemma_capture_end(s, from + 2);
            if close + 1 < s.len() && s[close] == ']' && s[close + 1] == ']' {
                if k > 0 {
                    lemma_links_are_ordered(s, close + 2, k - 1);
                } else {
                    lemma_links_are_closed_spans(s, close + 2, 0);
                }
            } else {
                lemma_links_are_ordered(s, close + 2, k);
            }
        }
    }
}

} // verus!
