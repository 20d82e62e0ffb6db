//! Line-level model of the backing stores: a store file is a sequence of
//! characters, split at `'\n'` into lines; a list of items is rendered back
//! by joining its lines with `'\n'`. Blank lines (whitespace only) are kept
//! in storage but filtered out when the pending list is displayed.

use vstd::prelude::*;

verus! {

/// ASCII whitespace, the characters a blank line may consist of.
pub open spec fn is_space_char(c: char) -> bool {
    c == ' ' || c == '\t' || c == '\r' || c == '\n' || c == '\u{b}' || c == '\u{c}'
}

/// A line is blank when every character in it is whitespace; in particular
/// the empty line is blank.
pub open spec fn is_blank_line(l: Seq<char>) -> bool {
    forall|i: int| 0 <= i < l.len() ==> is_space_char(l[i])
}

/// The lines of a display: the blank ones dropped, the order of the rest kept.
pub open spec fn visible_lines(ls: Seq<Seq<char>>) -> Seq<Seq<char>> {
    ls.filter(|l: Seq<char>| !is_blank_line(l))
}

/// Filtering the empty list of lines yields the empty list.
pub proof fn lemma_visible_lines_empty()
    ensures
        visible_lines(Seq::<Seq<char>>::empty()) == Seq::<Seq<char>>::empty(),
{
    reveal(Seq::filter);
}

/// Filtering one more line keeps it exactly when it is not blank.
pub proof fn lemma_visible_lines_push(ls: Seq<Seq<char>>, x: Seq<char>)
    ensures
        is_blank_line(x) ==> visible_lines(ls.push(x)) == visible_lines(ls),
        !is_blank_line(x) ==> visible_lines(ls.push(x)) == visible_lines(ls).push(x),
{
    reveal(Seq::filter);
    assert(ls.push(x).drop_last() =~= ls);
    assert(ls.push(x).last() == x);
}

/// The lines of a store file: its characters split at every `'\n'`.
/// Splitting never yields an empty result; the empty file is one empty line.
pub open spec fn split_lines(s: Seq<char>) -> Seq<Seq<char>>
    decreases s.len(),
{
    if s.len() == 0 {
        seq![s]
    } else if s[0] == '\n' {
        seq![Seq::<char>::empty()] + split_lines(s.drop_first())
    } else {
        let rest = split_lines(s.drop_first());
        seq![seq![s[0]] + rest[0]] + rest.drop_first()
    }
}

/// A store file rendered from its lines: the lines joined with `'\n'`.
pub open spec fn join_lines(ls: Seq<Seq<char>>) -> Seq<char>
    decreases ls.len(),
{
    if ls.len() == 0 {
        Seq::empty()
    } else if ls.len() == 1 {
        ls[0]
    } else {
        ls[0] + seq!['\n'] + join_lines(ls.drop_first())
    }
}

/// Splitting yields at least one line.
pub proof fn lemma_split_nonempty(s: Seq<char>)
    ensures
        split_lines(s).len() >= 1,
    decreases s.len(),
{
    if s.len() != 0 {
        lemma_split_nonempty(s.drop_first());
    }
}

/// A text without a newline is a single line.
pub proof fn lemma_split_no_newline(s: Seq<char>)
    requires
        forall|i: int| 0 <= i < s.len() ==> s[i] != '\n',
    ensures
        split_lines(s) == seq![s],
    decreases s.len(),
{
    if s.len() == 0 {
    } else {
        lemma_split_no_newline(s.drop_first());
        lemma_split_nonempty(s.drop_first());
        assert(seq![s[0]] + s.drop_first() =~= s);
        assert(split_lines(s) =~= seq![s]);
    }
}

/// Splitting at the first newline: the text before it is the first line, and
/// the rest of the text splits into the remaining lines.
pub proof fn lemma_split_at_first_newline(s: Seq<char>, k: int)
    requires
        0 <= k < s.len(),
        s[k] == '\n',
        forall|i: int| 0 <= i < k ==> s[i] != '\n',
    ensures
        split_lines(s) == seq![s.subrange(0, k)] + split_lines(
            s.subrange(k + 1, s.len() as int),
        ),
    decreases s.len(),
{
    if k == 0 {
        assert(s.subrange(0, 0) =~= Seq::<char>::empty());
        assert(s.subrange(1, s.len() as int) =~= s.drop_first());
    } else {
        let t = s.drop_first();
        assert(t[k - 1] == '\n');
        assert(forall|i: int| 0 <= i < k - 1 ==> t[i] != '\n');
        lemma_split_at_first_newline(t, k - 1);
        lemma_split_nonempty(t.subrange(k as int, t.len() as int));
        assert(t.subrange(0, k - 1) =~= s.subrange(1, k));
        assert(t.subrange(k as int, t.len() as int) =~= s.subrange(k + 1, s.len() as int));
        assert(seq![s[0]] + s.subrange(1, k) =~= s.subrange(0, k));
        assert(split_lines(s) =~= seq![s.subrange(0, k)] + split_lines(
            s.subrange(k + 1, s.len() as int),
        ));
    }
}

/// Joining one more line appends a separating newline, except to the empty
/// list of lines.
pub proof fn lemma_join_push(ls: Seq<Seq<char>>, x: Seq<char>)
    ensures
        ls.len() == 0 ==> join_lines(ls.push(x)) == x,
        ls.len() > 0 ==> join_lines(ls.push(x)) == join_lines(ls) + seq!['\n'] + x,
    decreases ls.len(),
{
    if ls.len() == 0 {
        assert(join_lines(ls.push(x)) == ls.push(x)[0]);
    } else {
        lemma_join_push(ls.drop_first(), x);
        assert(ls.push(x).drop_first() =~= ls.drop_first().push(x));
        if ls.len() == 1 {
            assert(join_lines(ls.push(x)) == ls[0] + seq!['\n'] + x);
            assert(join_lines(ls) == ls[0]);
        } else {
            assert(join_lines(ls.push(x)) == ls[0] + seq!['\n'] + (join_lines(ls.drop_first())
                + seq!['\n'] + x));
            assert(ls[0] + seq!['\n'] + (join_lines(ls.drop_first()) + seq!['\n'] + x) =~= (ls[0]
                + seq!['\n'] + join_lines(ls.drop_first())) + seq!['\n'] + x);
        }
    }
}

/// The lines of a store file's text, in order: the text split at every `'\n'`.
pub fn parse_lines(content: &str) -> (r: Vec<String>)
    ensures
        r.deep_view() == split_lines(content@),
{
    let n = content.unicode_len();
    let mut r: Vec<String> = Vec::new();
    let mut start: usize = 0;
    let mut i: usize = 0;
    proof {
        assert(content@.subrange(0, n as int) =~= content@);
    }
    while i < n
        invariant
            start <= i <= n,
            n == content@.len(),
            forall|j: int| start <= j < i ==> content@[j] != '\n',
            split_lines(content@) == r.deep_view() + split_lines(
                content@.subrange(start as int, n as int),
            ),
        decreases n - i,
    {
        if content.get_char(i) == '\n' {
            let ghost prev = r.deep_view();
            let line = content.substring_char(start, i);
            r.push(String::from_str(line));
            proof {
                let sub = content@.subrange(start as int, n as int);
                assert(sub[i - start] == '\n');
                assert(forall|j: int| 0 <= j < i - start ==> sub[j] != '\n');
                lemma_split_at_first_newline(sub, i - start);
                assert(sub.subrange(0, i - start) =~= content@.subrange(start as int, i as int));
                assert(sub.subrange(i - start + 1, sub.len() as int) =~= content@.subrange(
                    i + 1,
                    n as int,
                ));
                assert(r.deep_view() =~= prev.push(content@.subrange(start as int, i as int)));
                assert(prev + (seq![sub.subrange(0, i - start)] + split_lines(
                    content@.subrange(i + 1, n as int),
                )) =~= r.deep_view() + split_lines(content@.subrange(i + 1, n as int)));
            }
            start = i + 1;
        }
        i += 1;
    }
    let ghost prev = r.deep_view();
    let last = content.substring_char(start, n);
    r.push(String::from_str(last));
    proof {
        let sub = content@.subrange(start as int, n as int);
        lemma_split_no_newline(sub);
        assert(r.deep_view() =~= prev.push(sub));
        assert(prev + seq![sub] =~= prev.push(sub));
    }
    r
}

/// The text of a store file holding the given items: the items joined with
/// a `'\n'` between each pair of neighbours.
pub fn render_lines(items: &Vec<String>) -> (r: String)
    ensures
        r@ == join_lines(items.deep_view()),
{
    let mut out = String::new();
    let mut i: usize = 0;
    proof {
        assert(items.deep_view().subrange(0, 0) =~= Seq::<Seq<char>>::empty());
    }
    while i < items.len()
        invariant
            i <= items@.len(),
            out@ == join_lines(items.deep_view().subrange(0, i as int)),
        decreases items@.len() - i,
    {
        if i > 0 {
            out.append("\n");
        }
        out.append(items[i].as_str());
        proof {
            let dv = items.deep_view();
            lemma_join_push(dv.subrange(0, i as int), dv[i as int]);
            assert(dv.subrange(0, i + 1) =~= dv.subrange(0, i as int).push(dv[i as int]));
            reveal_strlit("\n");
            assert("\n"@ =~= seq!['\n']);
        }
        i += 1;
    }
    proof {
        assert(items.deep_view().subrange(0, items@.len() as int) =~= items.deep_view());
    }
    out
}

/// One item as the line that is appended to a store file: the item's text
/// followed by a line terminator.
pub fn line_with_newline(item: &String) -> (r: String)
    ensures
        r@ == item@.push('\n'),
{
    let mut out = item.clone();
    out.append("\n");
    proof {
        reveal_strlit("\n");
        assert(item@ + "\n"@ =~= item@.push('\n'));
    }
    out
}

/// Whether one stored item is blank (whitespace only or empty).
pub fn is_blank(s: &String) -> (r: bool)
    ensures
        r == is_blank_line(s@),
{
    let slice = s.as_str();
    let n = slice.unicode_len();
    let mut i: usize = 0;
    while i < n
        invariant
            i <= n,
            n == slice@.len(),
            slice@ == s@,
            forall|j: int| 0 <= j < i ==> is_space_char(s@[j]),
        decreases n - i,
    {
        let c = slice.get_char(i);
        if !(c == ' ' || c == '\t' || c == '\r' || c == '\n' || c == '\u{b}' || c == '\u{c}') {
            assert(!is_space_char(s@[i as int]));
            return false;
        }
        i += 1;
    }
    true
}

} // verus!
