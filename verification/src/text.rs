//! Text handling for the command grammar: characters of a string, trimming
//! of surrounding whitespace, and splitting into words at single spaces.

use vstd::prelude::*;
use vstd::string::*;

verus! {

/// The characters that count as whitespace: those with the Unicode property
/// `White_Space`.
pub open spec fn is_whitespace(c: char) -> bool {
    let u = c as u32;
    ||| 0x09 <= u <= 0x0D
    ||| u == 0x20
    ||| u == 0x85
    ||| u == 0xA0
    ||| u == 0x1680
    ||| 0x2000 <= u <= 0x200A
    ||| u == 0x2028
    ||| u == 0x2029
    ||| u == 0x202F
    ||| u == 0x205F
    ||| u == 0x3000
}

/// `text` without its leading whitespace.
pub open spec fn trim_front(text: Seq<char>) -> Seq<char>
    decreases text.len(),
{
    if text.len() > 0 && is_whitespace(text[0]) {
        trim_front(text.drop_first())
    } else {
        text
    }
}

/// `text` without its trailing whitespace.
pub open spec fn trim_back(text: Seq<char>) -> Seq<char>
    decreases text.len(),
{
    if text.len() > 0 && is_whitespace(text.last()) {
        trim_back(text.drop_last())
    } else {
        text
    }
}

/// `text` without the whitespace at either end.
pub open spec fn trimmed(text: Seq<char>) -> Seq<char> {
    trim_back(trim_front(text))
}

/// The position of the first space in `text`, or its length if it has none.
pub open spec fn first_space(text: Seq<char>) -> int
    decreases text.len(),
{
    if text.len() == 0 || text[0] == ' ' {
        0
    } else {
        1 + first_space(text.drop_first())
    }
}

/// The words of `text`: the pieces between its spaces. A text with `n`
/// spaces has `n + 1` words, some of which may be empty.
pub open spec fn words(text: Seq<char>) -> Seq<Seq<char>>
    decreases text.len(),
{
    let cut = first_space(text);
    if 0 <= cut < text.len() {
        seq![text.take(cut)] + words(text.skip(cut + 1))
    } else {
        seq![text]
    }
}

/// Tells whether `c` is whitespace.
pub fn is_whitespace_char(c: char) -> (space: bool)
    ensures
        space == is_whitespace(c),
{
    let u: u32 = c as u32;
    (0x09 <= u && u <= 0x0D) || u == 0x20 || u == 0x85 || u == 0xA0 || u == 0x1680 || (0x2000 <= u
        && u <= 0x200A) || u == 0x2028 || u == 0x2029 || u == 0x202F || u == 0x205F || u == 0x3000
}

/// The characters of `text`, in order.
pub fn chars_of(text: &str) -> (chars: Vec<char>)
    ensures
        chars@ == text@,
{
    broadcast use group_string_axioms;

    let mut chars: Vec<char> = Vec::new();
    for c in it: text.chars()
        invariant
            it.seq() == text@,
            chars@ == text@.take(it.index()),
    {
        chars.push(c);
        proof {
            assert(text@.take(it.index() + 1) =~= text@.take(it.index()).push(c));
        }
    }
    proof {
        assert(chars@ =~= text@);
    }
    chars
}

/// Stripping whitespace from the front of `text` leaves `text.skip(count)`
/// when the first `count` characters are whitespace and the next one is not.
pub proof fn lemma_trim_front(text: Seq<char>, count: int)
    requires
        0 <= count <= text.len(),
        forall|i: int| 0 <= i < count ==> is_whitespace(#[trigger] text[i]),
        count < text.len() ==> !is_whitespace(text[count]),
    ensures
        trim_front(text) == text.skip(count),
    decreases count,
{
    if count == 0 {
        assert(text.skip(0) =~= text);
    } else {
        let rest = text.drop_first();
        assert forall|i: int| 0 <= i < count - 1 implies is_whitespace(#[trigger] rest[i]) by {
            assert(rest[i] == text[i + 1]);
        }
        lemma_trim_front(rest, count - 1);
        assert(rest.skip(count - 1) =~= text.skip(count));
    }
}

/// Stripping whitespace from the back of `text` leaves `text.take(keep)` when
/// everything from `keep` on is whitespace and the character before is not.
pub proof fn lemma_trim_back(text: Seq<char>, keep: int)
    requires
        0 <= keep <= text.len(),
        forall|i: int| keep <= i < text.len() ==> is_whitespace(#[trigger] text[i]),
        keep > 0 ==> !is_whitespace(text[keep - 1]),
    ensures
        trim_back(text) == text.take(keep),
    decreases text.len() - keep,
{
    if keep == text.len() {
        assert(text.take(keep) =~= text);
    } else {
        let rest = text.drop_last();
        assert forall|i: int| keep <= i < rest.len() implies is_whitespace(#[trigger] rest[i]) by {
            assert(rest[i] == text[i]);
        }
        lemma_trim_back(rest, keep);
        assert(rest.take(keep) =~= text.take(keep));
    }
}

/// The bounds of the part of `text` between `start` and `end` without the
/// whitespace at either end of that part.
pub fn trim_bounds(text: &Vec<char>, start: usize, end: usize) -> (bounds: (usize, usize))
    requires
        start <= end <= text.len(),
    ensures
        start <= bounds.0 <= bounds.1 <= end,
        text@.subrange(bounds.0 as int, bounds.1 as int) == trimmed(
            text@.subrange(start as int, end as int),
        ),
{
    let mut first: usize = start;
    while first < end && is_whitespace_char(text[first])
        invariant
            start <= first <= end <= text.len(),
            forall|i: int| start <= i < first ==> is_whitespace(#[trigger] text[i]),
        decreases end - first,
    {
        first = first + 1;
    }
    let mut last: usize = end;
    while last > first && is_whitespace_char(text[last - 1])
        invariant
            first <= last <= end <= text.len(),
            forall|i: int| last <= i < end ==> is_whitespace(#[trigger] text[i]),
        decreases last,
    {
        last = last - 1;
    }
    proof {
        let whole = text@.subrange(start as int, end as int);
        assert forall|i: int| 0 <= i < first - start implies is_whitespace(#[trigger] whole[i]) by {
            assert(whole[i] == text[i + start]);
        }
        lemma_trim_front(whole, first - start);
        let front = whole.skip(first - start);
        assert forall|i: int| last - first <= i < front.len() implies is_whitespace(
            #[trigger] front[i],
        ) by {
            assert(front[i] == text[i + first]);
        }
        lemma_trim_back(front, last - first);
        assert(front.take(last - first) =~= text@.subrange(first as int, last as int));
    }
    (first, last)
}

/// A text that neither starts nor ends with whitespace is its own trimmed
/// form.
pub proof fn lemma_trimmed_unchanged(text: Seq<char>)
    requires
        text.len() > 0 ==> !is_whitespace(text[0]) && !is_whitespace(text.last()),
    ensures
        trimmed(text) == text,
{
}

/// A text without a space is its own single word.
pub proof fn lemma_single_word(text: Seq<char>)
    requires
        !text.contains(' '),
    ensures
        words(text) == seq![text],
{
    assert forall|i: int| 0 <= i < text.len() implies #[trigger] text[i] != ' ' by {
        assert(text.contains(text[i]));
    }
    lemma_first_space(text, text.len() as int);
}

/// The words of a text that starts with a space-free word and a space are
/// that word and then the words of what follows the space.
pub proof fn lemma_words_after_first(head: Seq<char>, tail: Seq<char>)
    requires
        !head.contains(' '),
    ensures
        words(head + seq![' '] + tail) == seq![head] + words(tail),
{
    let text = head + seq![' '] + tail;
    assert forall|i: int| 0 <= i < head.len() implies #[trigger] text[i] != ' ' by {
        assert(text[i] == head[i]);
        assert(head.contains(head[i]));
    }
    assert(text[head.len() as int] == ' ');
    lemma_first_space(text, head.len() as int);
    assert(text.take(head.len() as int) =~= head);
    assert(text.skip(head.len() as int + 1) =~= tail);
}

/// The pieces of `text` that the pairs of bounds in `bounds` cut out.
pub open spec fn pieces(text: Seq<char>, bounds: Seq<(usize, usize)>) -> Seq<Seq<char>> {
    Seq::new(bounds.len(), |k: int| text.subrange(bounds[k].0 as int, bounds[k].1 as int))
}

/// The first space of `text` is at `cut` when no earlier character is a space
/// and `cut` is the position of a space or the end of the text.
pub proof fn lemma_first_space(text: Seq<char>, cut: int)
    requires
        0 <= cut <= text.len(),
        forall|i: int| 0 <= i < cut ==> #[trigger] text[i] != ' ',
        cut < text.len() ==> text[cut] == ' ',
    ensures
        first_space(text) == cut,
    decreases cut,
{
    if cut > 0 {
        let rest = text.drop_first();
        assert forall|i: int| 0 <= i < cut - 1 implies #[trigger] rest[i] != ' ' by {
            assert(rest[i] == text[i + 1]);
        }
        lemma_first_space(rest, cut - 1);
    }
}

/// No word of a text holds a space.
pub proof fn lemma_words_hold_no_space(text: Seq<char>, index: int)
    requires
        0 <= index < words(text).len(),
    ensures
        !words(text)[index].contains(' '),
    decreases text.len(),
{
    lemma_first_space_bounds(text);
    let cut = first_space(text);
    if 0 <= cut < text.len() {
        if index == 0 {
            assert(words(text)[0] == text.take(cut));
        } else {
            lemma_words_hold_no_space(text.skip(cut + 1), index - 1);
            assert(words(text)[index] == words(text.skip(cut + 1))[index - 1]);
        }
    } else {
        assert(words(text)[0] == text);
    }
}

/// The first space lies within the text (or at its end), and nothing before
/// it is a space.
pub proof fn lemma_first_space_bounds(text: Seq<char>)
    ensures
        0 <= first_space(text) <= text.len(),
        forall|i: int| 0 <= i < first_space(text) ==> #[trigger] text[i] != ' ',
        first_space(text) < text.len() ==> text[first_space(text)] == ' ',
        !text.take(first_space(text)).contains(' '),
    decreases text.len(),
{
    if text.len() == 0 || text[0] == ' ' {
    } else {
        let rest = text.drop_first();
        lemma_first_space_bounds(rest);
        assert forall|i: int| 0 <= i < first_space(text) implies #[trigger] text[i] != ' ' by {
            if i > 0 {
                assert(text[i] == rest[i - 1]);
            }
        }
        if first_space(text) < text.len() {
            assert(text[first_space(text)] == rest[first_space(rest)]);
        }
    }
    let head = text.take(first_space(text));
    assert forall|i: int| 0 <= i < head.len() implies head[i] != ' ' by {
        assert(head[i] == text[i]);
    }
}

/// Splits the part of `text` between `start` and `end` at its spaces and
/// returns the bounds of the words, in order.
pub fn split_words(text: &Vec<char>, start: usize, end: usize) -> (bounds: Vec<(usize, usize)>)
    requires
        start <= end <= text.len(),
    ensures
        pieces(text@, bounds@) == words(text@.subrange(start as int, end as int)),
        bounds.len() >= 1,
        forall|k: int|
            0 <= k < bounds.len() ==> start <= (#[trigger] bounds[k]).0 <= bounds[k].1 <= end,
{
    let mut bounds: Vec<(usize, usize)> = Vec::new();
    let mut pos: usize = start;
    let mut done: bool = false;
    proof {
        assert(pieces(text@, bounds@) =~= Seq::<Seq<char>>::empty());
        assert(Seq::<Seq<char>>::empty() + words(text@.subrange(start as int, end as int)) =~= words(
            text@.subrange(start as int, end as int),
        ));
    }
    while !done
        invariant
            start <= pos <= end <= text.len(),
            done ==> pieces(text@, bounds@) == words(text@.subrange(start as int, end as int)),
            done ==> bounds.len() >= 1,
            !done ==> pieces(text@, bounds@) + words(text@.subrange(pos as int, end as int)) == words(
                text@.subrange(start as int, end as int),
            ),
            forall|k: int|
                0 <= k < bounds.len() ==> start <= (#[trigger] bounds[k]).0 <= bounds[k].1 <= end,
        decreases
                (if done {
                    0
                } else {
                    end - pos + 1
                }),
    {
        let mut cut: usize = pos;
        while cut < end && text[cut] != ' '
            invariant
                pos <= cut <= end <= text.len(),
                forall|i: int| pos <= i < cut ==> #[trigger] text[i] != ' ',
            decreases end - cut,
        {
            cut = cut + 1;
        }
        let ghost before = bounds@;
        bounds.push((pos, cut));
        proof {
            let rest = text@.subrange(pos as int, end as int);
            assert forall|i: int| 0 <= i < cut - pos implies #[trigger] rest[i] != ' ' by {
                assert(rest[i] == text[i + pos]);
            }
            lemma_first_space(rest, cut - pos);
            assert(rest.take(cut - pos) =~= text@.subrange(pos as int, cut as int));
            assert(pieces(text@, bounds@) =~= pieces(text@, before).push(
                text@.subrange(pos as int, cut as int),
            ));
            if cut < end {
                assert(rest.skip(cut - pos + 1) =~= text@.subrange(cut + 1, end as int));
                assert(pieces(text@, bounds@) + words(text@.subrange(cut + 1, end as int)) =~= pieces(
                    text@,
                    before,
                ) + words(rest));
            } else {
                assert(words(rest) =~= seq![rest]);
                assert(pieces(text@, bounds@) =~= pieces(text@, before) + words(rest));
            }
        }
        if cut == end {
            done = true;
        } else {
            pos = cut + 1;
        }
    }
    bounds
}

} // verus!
