//! The description of an episode: the free text of a video, line by line,
//! each line escaped and wrapped in a paragraph element.

use crate::text::chars_of;
use vstd::prelude::*;

verus! {

/// What stands for one character in escaped text.
pub open spec fn escape_char(c: char) -> Seq<char> {
    if c == '&' {
        seq!['&', 'a', 'm', 'p', ';']
    } else if c == '<' {
        seq!['&', 'l', 't', ';']
    } else if c == '>' {
        seq!['&', 'g', 't', ';']
    } else {
        seq![c]
    }
}

/// Text with `&`, `<` and `>` replaced by their entities.
pub open spec fn escape_text(s: Seq<char>) -> Seq<char>
    decreases s.len(),
{
    if s.len() == 0 {
        Seq::<char>::empty()
    } else {
        escape_text(s.drop_last()) + escape_char(s.last())
    }
}

/// The lines of a text: what stands between its line feeds. A text with
/// `n` line feeds has `n + 1` lines, and some of them may be empty.
pub open spec fn split_lines(s: Seq<char>) -> Seq<Seq<char>>
    decreases s.len(),
{
    if s.len() == 0 {
        seq![Seq::<char>::empty()]
    } else {
        let before = split_lines(s.drop_last());
        if s.last() == '\n' {
            before.push(Seq::<char>::empty())
        } else {
            before.drop_last().push(before.last().push(s.last()))
        }
    }
}

/// One line as a paragraph element.
pub open spec fn paragraph(line: Seq<char>) -> Seq<char> {
    seq!['<', 'p', '>'] + escape_text(line) + seq!['<', '/', 'p', '>']
}

/// The paragraph elements of some lines, one after the other.
pub open spec fn paragraphs(lines: Seq<Seq<char>>) -> Seq<char>
    decreases lines.len(),
{
    if lines.len() == 0 {
        Seq::<char>::empty()
    } else {
        paragraphs(lines.drop_last()) + paragraph(lines.last())
    }
}

/// The markup of a free text: one paragraph element for each of its lines.
pub open spec fn description_markup(raw: Seq<char>) -> Seq<char> {
    paragraphs(split_lines(raw))
}

/// `html_escape::encode_text_to_string`: appends `text` to `output` with
/// each `&`, `<` and `>` replaced by `&amp;`, `&lt;` and `&gt;`, and every
/// other character as it is.
#[verifier::external_body]
fn encode_text_to_string(text: &str, output: &mut String)
    ensures
        final(output)@ == old(output)@ + escape_text(text@),
{
    html_escape::encode_text_to_string(text, output);
}

/// Appends the paragraph element of `line` to `out`.
fn push_paragraph(out: &mut String, line: &str)
    ensures
        final(out)@ == old(out)@ + paragraph(line@),
{
    proof {
        reveal_strlit("<p>");
        reveal_strlit("</p>");
    }
    out.append("<p>");
    encode_text_to_string(line, out);
    out.append("</p>");
}

/// Extending a text by one character extends its last line, or begins a new one.
proof fn lemma_split_lines_step(s: Seq<char>, i: int, start: int, done: Seq<Seq<char>>)
    requires
        0 <= start <= i < s.len(),
        split_lines(s.subrange(0, i)) == done.push(s.subrange(start, i)),
    ensures
        s[i] == '\n' ==> split_lines(s.subrange(0, i + 1)) == done.push(s.subrange(start, i)).push(
            s.subrange(i + 1, i + 1),
        ),
        s[i] != '\n' ==> split_lines(s.subrange(0, i + 1)) == done.push(s.subrange(start, i + 1)),
{
    let t = s.subrange(0, i + 1);
    assert(t.drop_last() =~= s.subrange(0, i));
    let before = split_lines(t.drop_last());
    if s[i] == '\n' {
        assert(s.subrange(i + 1, i + 1) =~= Seq::<char>::empty());
    } else {
        assert(before.last().push(s[i]) =~= s.subrange(start, i + 1));
    }
}

/// Writes the description of an episode from the free text of a video:
/// nothing where there is no text, else one paragraph element for each line.
pub fn gen_description(description: Option<String>) -> (r: String)
    ensures
        r@ == match description {
            Some(d) => description_markup(d@),
            None => Seq::<char>::empty(),
        },
{
    let text = match description {
        Some(d) => d,
        None => {
            return String::new();
        },
    };
    let raw = text.as_str();
    let chars = chars_of(raw);
    let n = chars.len();
    let mut out = String::new();
    let mut start: usize = 0;
    let mut i: usize = 0;
    let ghost mut done: Seq<Seq<char>> = Seq::empty();
    proof {
        assert(chars@.subrange(0, 0) =~= Seq::<char>::empty());
    }
    while i < n
        invariant
            0 <= start <= i <= n,
            n == chars.len(),
            chars@ == raw@,
            split_lines(chars@.subrange(0, i as int)) == done.push(
                chars@.subrange(start as int, i as int),
            ),
            out@ == paragraphs(done),
        decreases n - i,
    {
        proof {
            lemma_split_lines_step(chars@, i as int, start as int, done);
        }
        if chars[i] == '\n' {
            let line = raw.substring_char(start, i);
            push_paragraph(&mut out, line);
            proof {
                let next = done.push(line@);
                assert(next.drop_last() =~= done);
                done = next;
            }
            start = i + 1;
        }
        i += 1;
    }
    let line = raw.substring_char(start, n);
    push_paragraph(&mut out, line);
    proof {
        let lines = done.push(line@);
        assert(lines.drop_last() =~= done);
        assert(chars@.subrange(0, n as int) =~= chars@);
    }
    out
}

/// How often `c` occurs in `s`.
pub open spec fn count_char(s: Seq<char>, c: char) -> nat
    decreases s.len(),
{
    if s.len() == 0 {
        0
    } else {
        count_char(s.drop_last(), c) + if s.last() == c {
            1nat
        } else {
            0nat
        }
    }
}

/// Lines put together again, with a line feed between each two.
pub open spec fn join_lines(lines: Seq<Seq<char>>) -> Seq<char>
    decreases lines.len(),
{
    if lines.len() == 0 {
        Seq::<char>::empty()
    } else if lines.len() == 1 {
        lines[0]
    } else {
        join_lines(lines.drop_last()) + seq!['\n'] + lines.last()
    }
}

/// Whether one of the three entities begins at place `i` of `t`.
pub open spec fn entity_at(t: Seq<char>, i: int) -> bool {
    ||| (i + 5 <= t.len() && t.subrange(i, i + 5) == seq!['&', 'a', 'm', 'p', ';'])
    ||| (i + 4 <= t.len() && t.subrange(i, i + 4) == seq!['&', 'l', 't', ';'])
    ||| (i + 4 <= t.len() && t.subrange(i, i + 4) == seq!['&', 'g', 't', ';'])
}

proof fn lemma_count_push(s: Seq<char>, x: char, c: char)
    ensures
        count_char(s.push(x), c) == count_char(s, c) + if x == c {
            1nat
        } else {
            0nat
        },
{
    assert(s.push(x).drop_last() =~= s);
}

proof fn lemma_count_concat(a: Seq<char>, b: Seq<char>, c: char)
    ensures
        count_char(a + b, c) == count_char(a, c) + count_char(b, c),
    decreases b.len(),
{
    if b.len() > 0 {
        lemma_count_concat(a, b.drop_last(), c);
        assert((a + b).drop_last() =~= a + b.drop_last());
    }
}

proof fn lemma_count_absent(s: Seq<char>, c: char)
    requires
        forall|i: int| 0 <= i < s.len() ==> s[i] != c,
    ensures
        count_char(s, c) == 0,
    decreases s.len(),
{
    if s.len() > 0 {
        lemma_count_absent(s.drop_last(), c);
    }
}

/// Escaped text holds no `<` and no `>`, and each `&` in it begins an entity.
pub proof fn lemma_escape_text_is_safe(s: Seq<char>)
    ensures
        count_char(escape_text(s), '<') == 0,
        count_char(escape_text(s), '>') == 0,
        forall|i: int|
            0 <= i < escape_text(s).len() && escape_text(s)[i] == '&' ==> #[trigger] entity_at(
                escape_text(s),
                i,
            ),
    decreases s.len(),
{
    if s.len() > 0 {
        let init = escape_text(s.drop_last());
        let tail = escape_char(s.last());
        let all = escape_text(s);
        lemma_escape_text_is_safe(s.drop_last());
        lemma_count_concat(init, tail, '<');
        lemma_count_concat(init, tail, '>');
        lemma_count_absent(tail, '<');
        lemma_count_absent(tail, '>');
        assert forall|i: int| 0 <= i < all.len() && all[i] == '&' implies #[trigger] entity_at(
            all,
            i,
        ) by {
            if i < init.len() {
                assert(entity_at(init, i));
                assert(i + 5 <= init.len() ==> all.subrange(i, i + 5) =~= init.subrange(i, i + 5));
                assert(i + 4 <= init.len() ==> all.subrange(i, i + 4) =~= init.subrange(i, i + 4));
            } else {
                assert(all.subrange(i, i + tail.len()) =~= tail);
            }
        }
    }
}

proof fn lemma_paragraph_count(line: Seq<char>)
    ensures
        count_char(paragraph(line), '<') == 2,
        count_char(paragraph(line), '>') == 2,
{
    let open = seq!['<', 'p', '>'];
    let close = seq!['<', '/', 'p', '>'];
    let none = Seq::<char>::empty();
    assert(open =~= none.push('<').push('p').push('>'));
    assert(close =~= none.push('<').push('/').push('p').push('>'));
    lemma_count_push(none, '<', '<');
    lemma_count_push(none.push('<'), 'p', '<');
    lemma_count_push(none.push('<').push('p'), '>', '<');
    lemma_count_push(none.push('<'), '/', '<');
    lemma_count_push(none.push('<').push('/'), 'p', '<');
    lemma_count_push(none.push('<').push('/').push('p'), '>', '<');
    lemma_count_push(none, '<', '>');
    lemma_count_push(none.push('<'), 'p', '>');
    lemma_count_push(none.push('<').push('p'), '>', '>');
    lemma_count_push(none.push('<'), '/', '>');
    lemma_count_push(none.push('<').push('/'), 'p', '>');
    lemma_count_push(none.push('<').push('/').push('p'), '>', '>');
    lemma_escape_text_is_safe(line);
    lemma_count_concat(open, escape_text(line), '<');
    lemma_count_concat(open + escape_text(line), close, '<');
    lemma_count_concat(open, escape_text(line), '>');
    lemma_count_concat(open + escape_text(line), close, '>');
}

proof fn lemma_paragraphs_count(lines: Seq<Seq<char>>)
    ensures
        count_char(paragraphs(lines), '<') == 2 * lines.len(),
        count_char(paragraphs(lines), '>') == 2 * lines.len(),
    decreases lines.len(),
{
    if lines.len() > 0 {
        lemma_paragraphs_count(lines.drop_last());
        lemma_paragraph_count(lines.last());
        lemma_count_concat(paragraphs(lines.drop_last()), paragraph(lines.last()), '<');
        lemma_count_concat(paragraphs(lines.drop_last()), paragraph(lines.last()), '>');
    }
}

/// A text has one line more than it has line feeds; no line holds a line
/// feed; and the lines, joined by line feeds, are the text again.
pub proof fn lemma_split_lines(s: Seq<char>)
    ensures
        split_lines(s).len() == count_char(s, '\n') + 1,
        forall|k: int|
            0 <= k < split_lines(s).len() ==> count_char(#[trigger] split_lines(s)[k], '\n') == 0,
        join_lines(split_lines(s)) == s,
    decreases s.len(),
{
    if s.len() > 0 {
        lemma_split_lines(s.drop_last());
        let before = split_lines(s.drop_last());
        let lines = split_lines(s);
        if s.last() == '\n' {
            assert(lines.drop_last() =~= before);
        } else {
            lemma_count_push(before.last(), s.last(), '\n');
            assert(lines.drop_last() =~= before.drop_last());
            if before.len() > 1 {
                assert(join_lines(before) == join_lines(before.drop_last()) + seq!['\n']
                    + before.last());
                assert(join_lines(lines) =~= join_lines(before).push(s.last()));
            }
        }
    }
}

/// The markup of a text holds one paragraph element for each line of the
/// text, and no `<` or `>` but those of the paragraph tags: each occurs
/// twice for every line, whatever the text holds.
pub proof fn lemma_description_paragraphs(raw: Seq<char>)
    ensures
        count_char(description_markup(raw), '<') == 2 * (count_char(raw, '\n') + 1),
        count_char(description_markup(raw), '>') == 2 * (count_char(raw, '\n') + 1),
{
    lemma_split_lines(raw);
    lemma_paragraphs_count(split_lines(raw));
}

} // verus!
