//! Lines and words of a text.
use vstd::prelude::*;
use vstd::string::*;
use crate::text::{find_char, is_space, is_white_space, text_from};

verus! {

/// The contents of a list of strings.
pub open spec fn texts_of(strings: Seq<String>) -> Seq<Seq<char>> {
    strings.map_values(|s: String| s@)
}

/// Adds a string to a list.
pub fn push_text(list: &mut Vec<String>, text: String)
    ensures
        texts_of(final(list)@) == texts_of(old(list)@).push(text@),
{
    list.push(text);
    assert(texts_of(list@) == texts_of(old(list)@).push(text@));
}

/// A list without strings.
pub fn no_texts() -> (r: Vec<String>)
    ensures
        texts_of(r@) == Seq::<Seq<char>>::empty(),
{
    let list: Vec<String> = Vec::new();
    assert(texts_of(list@) == Seq::<Seq<char>>::empty());
    list
}

/// The lines of `t` from `from` on, without their line feeds.
pub open spec fn lines_from(t: Seq<char>, from: int) -> Seq<Seq<char>>
    decreases t.len() - from,
{
    let end = find_char(t, '\n', from);
    if from < 0 || from >= t.len() || end < from {
        Seq::empty()
    } else if end >= t.len() {
        seq![t.subrange(from, t.len() as int)]
    } else {
        seq![t.subrange(from, end)] + lines_from(t, end + 1)
    }
}

/// The first offset from `i` on that holds no white space, or the length.
pub open spec fn word_start(t: Seq<char>, i: int) -> int
    decreases t.len() - i,
{
    if 0 <= i < t.len() && is_space(t[i]) {
        word_start(t, i + 1)
    } else {
        i
    }
}

/// The first offset from `i` on that holds white space, or the length.
pub open spec fn word_stop(t: Seq<char>, i: int) -> int
    decreases t.len() - i,
{
    if 0 <= i < t.len() && !is_space(t[i]) {
        word_stop(t, i + 1)
    } else {
        i
    }
}

/// The words of `t` from `from` on: the longest runs without white space.
pub open spec fn words_from(t: Seq<char>, from: int) -> Seq<Seq<char>>
    decreases t.len() - from,
{
    let start = word_start(t, from);
    let stop = word_stop(t, start);
    if from < 0 || start < from || start >= t.len() || stop <= start || stop > t.len() {
        Seq::empty()
    } else {
        seq![t.subrange(start, stop)] + words_from(t, stop)
    }
}

/// The words of a text.
pub open spec fn words(t: Seq<char>) -> Seq<Seq<char>> {
    words_from(t, 0)
}

/// The texts with a line feed between each two.
pub open spec fn join_lines(list: Seq<Seq<char>>) -> Seq<char>
    decreases list.len(),
{
    if list.len() == 0 {
        Seq::empty()
    } else if list.len() == 1 {
        list[0]
    } else {
        join_lines(list.drop_last()) + "\n"@ + list.last()
    }
}

/// The words of a line.
pub fn split_words(line: &Vec<char>) -> (r: Vec<String>)
    ensures
        texts_of(r@) == words(line@),
{
    let mut list = no_texts();
    let mut from: usize = 0;
    proof {
        let all = words(line@);
        assert(Seq::<Seq<char>>::empty() + all == all);
    }
    loop
        invariant
            from <= line@.len(),
            words(line@) == texts_of(list@) + words_from(line@, from as int),
        decreases line@.len() - from,
    {
        let mut start = from;
        while start < line.len() && is_white_space(line[start])
            invariant
                from <= start <= line@.len(),
                word_start(line@, from as int) == word_start(line@, start as int),
            decreases line@.len() - start,
        {
            start = start + 1;
        }
        let mut stop = start;
        while stop < line.len() && !is_white_space(line[stop])
            invariant
                start <= stop <= line@.len(),
                word_stop(line@, start as int) == word_stop(line@, stop as int),
            decreases line@.len() - stop,
        {
            stop = stop + 1;
        }
        let ghost before = texts_of(list@);
        if start == line.len() {
            assert(before + Seq::<Seq<char>>::empty() == before);
            return list;
        }
        assert(stop > start);
        push_text(&mut list, text_from(line, start, stop));
        proof {
            let word = line@.subrange(start as int, stop as int);
            let rest = words_from(line@, stop as int);
            assert(before + (seq![word] + rest) == before.push(word) + rest);
        }
        from = stop;
    }
}

/// The lines of a text, as characters, without their line feeds.
pub fn split_lines(text: &Vec<char>) -> (r: Vec<Vec<char>>)
    ensures
        r@.map_values(|line: Vec<char>| line@) == lines_from(text@, 0),
{
    let mut list: Vec<Vec<char>> = Vec::new();
    let mut from: usize = 0;
    proof {
        let all = lines_from(text@, 0);
        assert(list@.map_values(|line: Vec<char>| line@) + all == all);
    }
    while from < text.len()
        invariant
            from <= text@.len(),
            lines_from(text@, 0) == list@.map_values(|line: Vec<char>| line@) + lines_from(
                text@,
                from as int,
            ),
        decreases text@.len() - from,
    {
        let mut line: Vec<char> = Vec::new();
        let mut end = from;
        while end < text.len() && text[end] != '\n'
            invariant
                from <= end <= text@.len(),
                line@ == text@.subrange(from as int, end as int),
                find_char(text@, '\n', from as int) == find_char(text@, '\n', end as int),
            decreases text@.len() - end,
        {
            line.push(text[end]);
            end = end + 1;
            assert(text@.subrange(from as int, end as int) == text@.subrange(from as int, end - 1).push(
                text@[end - 1],
            ));
        }
        let ghost before = list@.map_values(|line: Vec<char>| line@);
        let ghost content = line@;
        list.push(line);
        proof {
            let rest = if end < text@.len() {
                lines_from(text@, end + 1)
            } else {
                Seq::empty()
            };
            assert(seq![content] + rest == lines_from(text@, from as int));
            assert(list@.map_values(|line: Vec<char>| line@) == before.push(content));
            assert(before + (seq![content] + rest) == before.push(content) + rest);
        }
        from = if end < text.len() {
            end + 1
        } else {
            end
        };
    }
    proof {
        let all = list@.map_values(|line: Vec<char>| line@);
        assert(all + Seq::<Seq<char>>::empty() == all);
    }
    list
}

/// The strings with a line feed between each two.
pub fn join_texts(list: &Vec<String>) -> (r: String)
    ensures
        r@ == join_lines(texts_of(list@)),
{
    let mut out = String::new();
    let mut i: usize = 0;
    let ghost all = texts_of(list@);
    assert(all.take(0) == Seq::<Seq<char>>::empty());
    while i < list.len()
        invariant
            i <= list@.len() == all.len(),
            all == texts_of(list@),
            out@ == join_lines(all.take(i as int)),
        decreases list@.len() - i,
    {
        if i > 0 {
            out.append("\n");
        }
        out.append(list[i].as_str());
        proof {
            let part = all.take(i + 1);
            assert(part.drop_last() == all.take(i as int));
            assert(part.last() == list@[i as int]@);
            if i == 0 {
                assert(out@ == part[0]);
            }
        }
        i = i + 1;
    }
    assert(all.take(i as int) == all);
    out
}

} // verus!
