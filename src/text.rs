use vstd::prelude::*;
use vstd::std_specs::iter::IteratorSpec;
use vstd::seq_lib::lemma_flatten_concat;

verus! {

/// Why text could not be laid out.
#[derive(Debug, Clone, Copy, PartialEq, Eq, Structural)]
pub enum WrapError {
    /// A column budget of zero was given.
    InvalidBudget,
}

/// Whether `c` is white space in Unicode's sense, as `char::is_whitespace`
/// decides it.
pub open spec fn is_space(c: char) -> bool {
    ('\u{9}' <= c && c <= '\u{d}') || c == ' ' || c == '\u{85}' || c == '\u{a0}' || c == '\u{1680}'
        || ('\u{2000}' <= c && c <= '\u{200a}') || c == '\u{2028}' || c == '\u{2029}' || c
        == '\u{202f}' || c == '\u{205f}' || c == '\u{3000}'
}

/// Whether `c` is white space.
pub fn is_white(c: char) -> (r: bool)
    ensures
        r == is_space(c),
{
    ('\u{9}' <= c && c <= '\u{d}') || c == ' ' || c == '\u{85}' || c == '\u{a0}' || c == '\u{1680}'
        || ('\u{2000}' <= c && c <= '\u{200a}') || c == '\u{2028}' || c == '\u{2029}' || c
        == '\u{202f}' || c == '\u{205f}' || c == '\u{3000}'
}

/// The words of `s`: its maximal runs of characters that are not white
/// space, in order.
pub open spec fn words(s: Seq<char>) -> Seq<Seq<char>>
    decreases s.len(),
{
    if s.len() == 0 {
        Seq::empty()
    } else {
        let before = words(s.drop_last());
        let c = s.last();
        if is_space(c) {
            before
        } else if s.len() >= 2 && !is_space(s[s.len() - 2]) {
            before.drop_last().push(before.last().push(c))
        } else {
            before.push(seq![c])
        }
    }
}

/// The pieces of `s` between its line breaks, as `str::split('\n')` gives
/// them: one more piece than there are breaks.
pub open spec fn pieces(s: Seq<char>) -> Seq<Seq<char>>
    decreases s.len(),
{
    if s.len() == 0 {
        seq![Seq::empty()]
    } else {
        let before = pieces(s.drop_last());
        let c = s.last();
        if c == '\n' {
            before.push(Seq::empty())
        } else {
            before.drop_last().push(before.last().push(c))
        }
    }
}

/// The characters of `s`, one per element.
fn chars_of(s: &str) -> (r: Vec<char>)
    ensures
        r@ == s@,
{
    let mut it = s.chars();
    let mut out: Vec<char> = Vec::new();
    loop
        invariant
            out@ + it.remaining() == s@,
            it.decrease() is Some,
        ensures
            out@ == s@,
        decreases it.decrease()->0,
    {
        let ghost old_remaining = it.remaining();
        match it.next() {
            Some(c) => {
                proof {
                    assert(out@.push(c) + it.remaining() =~= out@ + old_remaining);
                }
                out.push(c);
            },
            None => {
                assert(out@ =~= s@);
                break ;
            },
        }
    }
    out
}

/// The whitespace-separated words of `s`; runs of white space count as one
/// separator, and leading or trailing white space gives no empty word.
pub fn split_words(s: &str) -> (r: Vec<String>)
    ensures
        r.deep_view() == words(s@),
{
    let chars = chars_of(s);
    let n = chars.len();
    let mut out: Vec<String> = Vec::new();
    let mut i: usize = 0;
    let mut start: usize = 0;
    proof {
        assert(s@.take(0) =~= Seq::<char>::empty());
    }
    while i < n
        invariant
            n == s@.len(),
            chars@ == s@,
            start <= i <= n,
            i > 0 && !is_space(s@[i - 1]) ==> start < i && out.deep_view().push(
                s@.subrange(start as int, i as int),
            ) == words(s@.take(i as int)),
            !(i > 0 && !is_space(s@[i - 1])) ==> out.deep_view() == words(s@.take(i as int)),
        decreases n - i,
    {
        let c = chars[i];
        let in_word = i > 0 && !is_white(chars[i - 1]);
        let ghost before = out.deep_view();
        proof {
            let t = s@.take(i + 1);
            assert(t.drop_last() =~= s@.take(i as int));
            assert(t.last() == c);
            if i > 0 {
                assert(t[t.len() - 2] == s@[i - 1]);
            }
        }
        if is_white(c) {
            if in_word {
                let w = String::from_str(s.substring_char(start, i));
                out.push(w);
                assert(out.deep_view() =~= before.push(w@));
            }
        } else {
            if in_word {
                assert(s@.subrange(start as int, i as int).push(c) =~= s@.subrange(
                    start as int,
                    i + 1,
                ));
                assert(before.push(s@.subrange(start as int, i as int)).drop_last() =~= before);
            } else {
                start = i;
                assert(s@.subrange(start as int, i + 1) =~= seq![c]);
            }
        }
        i = i + 1;
    }
    assert(s@.take(n as int) =~= s@);
    if n > 0 && !is_white(chars[n - 1]) {
        let ghost before = out.deep_view();
        let w = String::from_str(s.substring_char(start, n));
        out.push(w);
        assert(out.deep_view() =~= before.push(w@));
    }
    out
}

/// The fragments of `w`: the first holds `first` characters, each later one
/// `rest`, and the last holds what remains. A word that fits in the first
/// budget is its own single fragment.
pub open spec fn fragments(w: Seq<char>, first: nat, rest: nat) -> Seq<Seq<char>>
    decreases w.len(),
{
    if w.len() <= first || first == 0 {
        seq![w]
    } else {
        seq![w.take(first as int)] + fragments(w.skip(first as int), rest, rest)
    }
}

/// Joining the fragments that `split_word` returns gives the word back.
pub proof fn lemma_split_word_round_trip(w: Seq<char>, first: nat, rest: nat)
    requires
        first >= 1,
        rest >= 1,
    ensures
        fragments(w, first, rest).flatten() == w,
    decreases w.len(),
{
    let fr = fragments(w, first, rest);
    if w.len() <= first {
        fr.lemma_flatten_one_element();
    } else {
        lemma_split_word_round_trip(w.skip(first as int), rest, rest);
        assert(fr.drop_first() =~= fragments(w.skip(first as int), rest, rest));
        assert(fr.flatten() =~= w.take(first as int) + w.skip(first as int));
    }
}

/// The shape of the fragments of any word: there is at least one, every
/// fragment but the last fills its budget, and the last one is within its
/// budget and, for a non-empty word, not empty.
pub proof fn lemma_fragments_shape(w: Seq<char>, first: nat, rest: nat)
    requires
        first >= 1,
        rest >= 1,
    ensures
        fragments(w, first, rest).len() >= 1,
        forall|i: int|
            0 <= i < fragments(w, first, rest).len() - 1 ==> #[trigger] fragments(
                w,
                first,
                rest,
            )[i].len() == if i == 0 {
                first
            } else {
                rest
            },
        fragments(w, first, rest).last().len() <= if fragments(w, first, rest).len() == 1 {
            first
        } else {
            rest
        },
        w.len() > 0 ==> fragments(w, first, rest).last().len() >= 1,
        fragments(w, first, rest).len() == 1 <==> w.len() <= first,
    decreases w.len(),
{
    let fr = fragments(w, first, rest);
    if w.len() > first {
        let tail = fragments(w.skip(first as int), rest, rest);
        lemma_fragments_shape(w.skip(first as int), rest, rest);
        assert(fr == seq![w.take(first as int)] + tail);
        assert forall|i: int| 0 <= i < fr.len() - 1 implies #[trigger] fr[i].len() == if i == 0 {
            first
        } else {
            rest
        } by {
            if i > 0 {
                assert(fr[i] == tail[i - 1]);
            }
        }
        assert(fr.last() == tail.last());
    }
}

/// Every fragment but the last holds exactly its budget: `first` characters
/// for the first, `rest` for each later one. The last holds between one and
/// `rest` characters; this needs a non-empty word that does not fit whole in
/// the first budget unless it also fits in `rest`.
pub proof fn lemma_split_word_sizes(w: Seq<char>, first: nat, rest: nat)
    requires
        first >= 1,
        rest >= 1,
        w.len() > 0,
        w.len() > first || w.len() <= rest,
    ensures
        forall|i: int|
            0 <= i < fragments(w, first, rest).len() - 1 ==> #[trigger] fragments(
                w,
                first,
                rest,
            )[i].len() == if i == 0 {
                first
            } else {
                rest
            },
        1 <= fragments(w, first, rest).last().len() <= rest,
{
    lemma_fragments_shape(w, first, rest);
}

/// Splits `x` into fragments of `first_split` characters for the first and
/// `rest_split` for each later one, so that a word may begin on a partly
/// filled line and continue on full ones.
pub fn split_word(x: &str, first_split: usize, rest_split: usize) -> (r: Result<
    Vec<String>,
    WrapError,
>)
    ensures
        first_split == 0 || rest_split == 0 <==> r is Err,
        r matches Ok(v) ==> v.deep_view() == fragments(x@, first_split as nat, rest_split as nat),
{
    if first_split == 0 || rest_split == 0 {
        return Err(WrapError::InvalidBudget);
    }
    let n = x.unicode_len();
    let mut result: Vec<String> = Vec::new();
    let mut start: usize = 0;
    let mut budget: usize = first_split;
    proof {
        assert(x@.skip(0) =~= x@);
        assert(result.deep_view() + fragments(x@, first_split as nat, rest_split as nat)
            =~= fragments(x@, first_split as nat, rest_split as nat));
    }
    while n - start > budget
        invariant
            n == x@.len(),
            start <= n,
            budget >= 1,
            rest_split >= 1,
            budget == first_split || budget == rest_split,
            result.deep_view() + fragments(x@.skip(start as int), budget as nat, rest_split as nat)
                == fragments(x@, first_split as nat, rest_split as nat),
        decreases n - start,
    {
        let piece = String::from_str(x.substring_char(start, start + budget));
        proof {
            let rest_of = x@.skip(start as int);
            assert(rest_of.take(budget as int) =~= x@.subrange(start as int, start + budget));
            assert(rest_of.skip(budget as int) =~= x@.skip(start + budget));
        }
        let ghost before = result.deep_view();
        result.push(piece);
        proof {
            assert(result.deep_view() =~= before.push(piece@));
            let tail = fragments(x@.skip(start + budget), rest_split as nat, rest_split as nat);
            assert(before + fragments(x@.skip(start as int), budget as nat, rest_split as nat)
                =~= result.deep_view() + tail);
        }
        start = start + budget;
        budget = rest_split;
    }
    let last = String::from_str(x.substring_char(start, n));
    let ghost before = result.deep_view();
    result.push(last);
    proof {
        assert(x@.skip(start as int) =~= x@.subrange(start as int, n as int));
        assert(result.deep_view() =~= before.push(last@));
    }
    Ok(result)
}


/// The pieces of `s` between its line breaks, in order, without the breaks.
pub fn split_lines(s: &str) -> (r: Vec<String>)
    ensures
        r.deep_view() == pieces(s@),
{
    let chars = chars_of(s);
    let n = chars.len();
    let mut out: Vec<String> = Vec::new();
    let mut i: usize = 0;
    let mut start: usize = 0;
    proof {
        assert(s@.take(0) =~= Seq::<char>::empty());
        assert(out.deep_view().push(s@.subrange(0, 0)) =~= pieces(s@.take(0)));
    }
    while i < n
        invariant
            n == s@.len(),
            chars@ == s@,
            start <= i <= n,
            out.deep_view().push(s@.subrange(start as int, i as int)) == pieces(s@.take(i as int)),
        decreases n - i,
    {
        let c = chars[i];
        let ghost before = out.deep_view();
        proof {
            let t = s@.take(i + 1);
            assert(t.drop_last() =~= s@.take(i as int));
            assert(t.last() == c);
        }
        if c == '\n' {
            let piece = String::from_str(s.substring_char(start, i));
            out.push(piece);
            assert(out.deep_view() =~= before.push(piece@));
            start = i + 1;
            assert(s@.subrange(start as int, i + 1) =~= Seq::<char>::empty());
            assert(out.deep_view().push(s@.subrange(start as int, i + 1)) =~= before.push(
                piece@,
            ).push(Seq::empty()));
        } else {
            assert(s@.subrange(start as int, i as int).push(c) =~= s@.subrange(
                start as int,
                i + 1,
            ));
            assert(before.push(s@.subrange(start as int, i as int)).drop_last() =~= before);
        }
        i = i + 1;
    }
    assert(s@.take(n as int) =~= s@);
    let ghost before = out.deep_view();
    let piece = String::from_str(s.substring_char(start, n));
    out.push(piece);
    assert(out.deep_view() =~= before.push(piece@));
    out
}

/// What placing the word `w` does to a paragraph whose open line is `open`,
/// with `m` columns: the lines it completes, and the line it leaves open.
/// A word longer than a line is split: its first fragment fills the open
/// line when at least one column is left there after the space, else the
/// open line is closed first. Its later fragments fill whole lines. After a
/// non-empty open line the word's last fragment stays open, so that later
/// words may join it; on an empty open line every fragment is a line.
pub open spec fn place_word(open: Seq<char>, w: Seq<char>, m: nat) -> (Seq<Seq<char>>, Seq<char>) {
    if w.len() > m {
        if open.len() > 0 && open.len() + 1 < m {
            let fr = fragments(w, (m - open.len() - 1) as nat, m);
            (seq![open + seq![' '] + fr[0]] + fr.subrange(1, fr.len() - 1), fr.last())
        } else if open.len() > 0 {
            let fr = fragments(w, m, m);
            (seq![open] + fr.subrange(0, fr.len() - 1), fr.last())
        } else {
            (fragments(w, m, m), Seq::empty())
        }
    } else if open.len() > 0 && open.len() + 1 + w.len() > m {
        (seq![open], w)
    } else if open.len() > 0 {
        (Seq::empty(), open + seq![' '] + w)
    } else {
        (Seq::empty(), w)
    }
}

/// The lines that the words `ws` complete, placed one after another from an
/// empty open line, and the line they leave open.
pub open spec fn lay_words(ws: Seq<Seq<char>>, m: nat) -> (Seq<Seq<char>>, Seq<char>)
    decreases ws.len(),
{
    if ws.len() == 0 {
        (Seq::empty(), Seq::empty())
    } else {
        let before = lay_words(ws.drop_last(), m);
        let step = place_word(before.1, ws.last(), m);
        (before.0 + step.0, step.1)
    }
}

/// The display lines of one paragraph in `m` columns.
pub open spec fn paragraph_lines(p: Seq<char>, m: nat) -> Seq<Seq<char>> {
    let laid = lay_words(words(p), m);
    if laid.1.len() > 0 {
        laid.0.push(laid.1)
    } else {
        laid.0
    }
}

/// The display lines of the paragraphs `ps` in `m` columns; no line holds
/// text of two paragraphs.
pub open spec fn reflow_lines(ps: Seq<Seq<char>>, m: nat) -> Seq<Seq<char>>
    decreases ps.len(),
{
    if ps.len() == 0 {
        Seq::empty()
    } else {
        reflow_lines(ps.drop_last(), m) + paragraph_lines(ps.last(), m)
    }
}

/// Lays the paragraphs out in lines of at most `max_columns` characters,
/// splitting the words that are longer than a line. Columns count characters
/// (Unicode scalar values), not bytes and not display width. Zero columns
/// are refused.
pub fn reflow(paragraphs: &Vec<String>, max_columns: usize) -> (r: Result<Vec<String>, WrapError>)
    ensures
        max_columns == 0 <==> r is Err,
        r matches Ok(v) ==> v.deep_view() == reflow_lines(paragraphs.deep_view(), max_columns as nat),
{
    if max_columns == 0 {
        return Err(WrapError::InvalidBudget);
    }
    let m = max_columns;
    let ghost ps = paragraphs.deep_view();
    let mut out: Vec<String> = Vec::new();
    let mut k: usize = 0;
    proof {
        assert(ps.take(0) =~= Seq::<Seq<char>>::empty());
    }
    while k < paragraphs.len()
        invariant
            m == max_columns,
            m >= 1,
            ps == paragraphs.deep_view(),
            k <= paragraphs.len(),
            out.deep_view() == reflow_lines(ps.take(k as int), m as nat),
        decreases paragraphs.len() - k,
    {
        let ws = split_words(paragraphs[k].as_str());
        let ghost wsv = ws.deep_view();
        let ghost prior = out.deep_view();
        let mut open = String::new();
        let mut j: usize = 0;
        proof {
            assert(wsv.take(0) =~= Seq::<Seq<char>>::empty());
            assert(out.deep_view() =~= prior + lay_words(wsv.take(0), m as nat).0);
        }
        while j < ws.len()
            invariant
                m == max_columns,
                m >= 1,
                wsv == ws.deep_view(),
                j <= ws.len(),
                out.deep_view() == prior + lay_words(wsv.take(j as int), m as nat).0,
                open@ == lay_words(wsv.take(j as int), m as nat).1,
            decreases ws.len() - j,
        {
            let w = ws[j].as_str();
            let ghost laid = lay_words(wsv.take(j as int), m as nat);
            let ghost step = place_word(open@, w@, m as nat);
            proof {
                assert(wsv.take(j + 1).drop_last() =~= wsv.take(j as int));
                assert(wsv.take(j + 1).last() == w@);
            }
            let wlen = w.unicode_len();
            let olen = open.as_str().unicode_len();
            let ghost out0 = out.deep_view();
            proof {
                reveal_strlit(" ");
                assert(" "@ =~= seq![' ']);
            }
            if wlen > m {
                if olen > 0 && olen < m - 1 {
                    let fr = match split_word(w, m - olen - 1, m) {
                        Ok(fr) => fr,
                        Err(e) => return Err(e),
                    };
                    let ghost frv = fr.deep_view();
                    proof {
                        lemma_fragments_shape(w@, (m - olen - 1) as nat, m as nat);
                    }
                    let ghost first_line = open@ + seq![' '] + frv[0];
                    assert(step.0 == seq![first_line] + frv.subrange(1, frv.len() - 1));
                    assert(step.1 == frv.last());
                    let mut line = open;
                    line.append(" ");
                    line.append(fr[0].as_str());
                    assert(line@ =~= first_line);
                    out.push(line);
                    assert(out.deep_view() =~= out0 + seq![first_line]);
                    let last = fr.len() - 1;
                    let mut t: usize = 1;
                    while t < last
                        invariant
                            1 <= t <= last,
                            last == fr.len() - 1,
                            frv == fr.deep_view(),
                            out.deep_view() == out0 + seq![first_line] + frv.subrange(1, t as int),
                        decreases last - t,
                    {
                        let ghost o = out.deep_view();
                        out.push(fr[t].clone());
                        assert(out.deep_view() =~= o.push(frv[t as int]));
                        assert(frv.subrange(1, t + 1) =~= frv.subrange(1, t as int).push(
                            frv[t as int],
                        ));
                        assert(out.deep_view() =~= out0 + seq![first_line] + frv.subrange(
                            1,
                            t + 1,
                        ));
                        t = t + 1;
                    }
                    open = fr[last].clone();
                    assert(out.deep_view() =~= out0 + step.0);
                } else {
                    let mut fr = match split_word(w, m, m) {
                        Ok(fr) => fr,
                        Err(e) => return Err(e),
                    };
                    let ghost frd = fr.deep_view();
                    proof {
                        lemma_fragments_shape(w@, m as nat, m as nat);
                    }
                    if olen > 0 {
                        out.push(open);
                        let ghost o = out.deep_view();
                        open = match fr.pop() {
                            Some(l) => l,
                            None => String::new(),
                        };
                        let ghost rest = fr.deep_view();
                        assert(rest =~= frd.subrange(0, frd.len() - 1));
                        out.append(&mut fr);
                        assert(out.deep_view() =~= o + rest);
                        assert(out.deep_view() =~= out0 + step.0);
                    } else {
                        let ghost o = out.deep_view();
                        out.append(&mut fr);
                        open = String::new();
                        assert(out.deep_view() =~= o + frd);
                        assert(out.deep_view() =~= out0 + step.0);
                    }
                }
            } else if olen > 0 && (olen >= m || wlen > m - olen - 1) {
                out.push(open);
                open = String::from_str(w);
                assert(out.deep_view() =~= out0 + step.0);
            } else if olen > 0 {
                open.append(" ");
                open.append(w);
                assert(out.deep_view() =~= out0 + step.0);
            } else {
                open = String::from_str(w);
                assert(out.deep_view() =~= out0 + step.0);
            }
            proof {
                assert(prior + (laid.0 + step.0) =~= out0 + step.0);
            }
            j = j + 1;
        }
        proof {
            assert(wsv.take(ws.len() as int) =~= wsv);
            assert(ps.take(k + 1).drop_last() =~= ps.take(k as int));
            assert(ps.take(k + 1).last() == paragraphs[k as int]@);
        }
        let ghost o = out.deep_view();
        if open.as_str().unicode_len() > 0 {
            out.push(open);
            assert(out.deep_view() =~= o.push(open@));
        }
        assert(out.deep_view() =~= prior + paragraph_lines(paragraphs[k as int]@, m as nat));
        k = k + 1;
    }
    assert(ps.take(paragraphs.len() as int) =~= ps);
    Ok(out)
}

/// Every line of `ls` holds between one and `m` characters.
pub open spec fn lines_fit(ls: Seq<Seq<char>>, m: nat) -> bool {
    forall|i: int| 0 <= i < ls.len() ==> 1 <= #[trigger] ls[i].len() <= m
}

proof fn lemma_fit_concat(a: Seq<Seq<char>>, b: Seq<Seq<char>>, m: nat)
    requires
        lines_fit(a, m),
        lines_fit(b, m),
    ensures
        lines_fit(a + b, m),
{
    assert forall|i: int| 0 <= i < (a + b).len() implies 1 <= #[trigger] (a + b)[i].len() <= m by {
        if i >= a.len() {
            assert((a + b)[i] == b[i - a.len()]);
        }
    }
}

/// No word is empty.
proof fn lemma_words_not_empty(s: Seq<char>)
    ensures
        forall|i: int| 0 <= i < words(s).len() ==> #[trigger] words(s)[i].len() >= 1,
        s.len() > 0 && !is_space(s.last()) ==> words(s).len() > 0,
    decreases s.len(),
{
    if s.len() > 0 {
        let before = words(s.drop_last());
        lemma_words_not_empty(s.drop_last());
        if s.len() >= 2 {
            assert(s.drop_last().last() == s[s.len() - 2]);
        }
        let ws = words(s);
        assert forall|i: int| 0 <= i < ws.len() implies #[trigger] ws[i].len() >= 1 by {
            if !is_space(s.last()) && s.len() >= 2 && !is_space(s[s.len() - 2]) && i
                < before.len() - 1 {
                assert(ws[i] == before[i]);
            }
        }
    }
}

proof fn lemma_fragments_fit(w: Seq<char>, m: nat)
    requires
        m >= 1,
        w.len() >= 1,
    ensures
        lines_fit(fragments(w, m, m), m),
{
    lemma_fragments_shape(w, m, m);
    let fr = fragments(w, m, m);
    assert forall|i: int| 0 <= i < fr.len() implies 1 <= #[trigger] fr[i].len() <= m by {
        if i == fr.len() - 1 {
            assert(fr[i] == fr.last());
        }
    }
}

proof fn lemma_place_word_fits(open: Seq<char>, w: Seq<char>, m: nat)
    requires
        m >= 1,
        open.len() <= m,
        w.len() >= 1,
    ensures
        lines_fit(place_word(open, w, m).0, m),
        place_word(open, w, m).1.len() <= m,
{
    let step = place_word(open, w, m);
    if w.len() > m {
        if open.len() > 0 && open.len() + 1 < m {
            let f = (m - open.len() - 1) as nat;
            let fr = fragments(w, f, m);
            lemma_fragments_shape(w, f, m);
            let mid = fr.subrange(1, fr.len() - 1);
            let first_line = open + seq![' '] + fr[0];
            assert(lines_fit(seq![first_line], m));
            assert forall|i: int| 0 <= i < mid.len() implies 1 <= #[trigger] mid[i].len() <= m by {
                assert(mid[i] == fr[i + 1]);
            }
            lemma_fit_concat(seq![first_line], mid, m);
        } else {
            lemma_fragments_fit(w, m);
            if open.len() > 0 {
                assert(lines_fit(seq![open], m));
                lemma_fit_concat(seq![open], fragments(w, m, m), m);
            }
        }
    } else if open.len() > 0 && open.len() + 1 + w.len() > m {
        assert(lines_fit(seq![open], m));
    }
}

proof fn lemma_lay_words_fits(ws: Seq<Seq<char>>, m: nat)
    requires
        m >= 1,
        forall|i: int| 0 <= i < ws.len() ==> #[trigger] ws[i].len() >= 1,
    ensures
        lines_fit(lay_words(ws, m).0, m),
        lay_words(ws, m).1.len() <= m,
    decreases ws.len(),
{
    if ws.len() > 0 {
        let before = lay_words(ws.drop_last(), m);
        lemma_lay_words_fits(ws.drop_last(), m);
        lemma_place_word_fits(before.1, ws.last(), m);
        lemma_fit_concat(before.0, place_word(before.1, ws.last(), m).0, m);
    }
}

/// Every line that reflow gives holds at least one and at most
/// `max_columns` characters; the fragments of a split word fill their lines
/// exactly, and so stay within the bound too.
pub proof fn lemma_reflow_lines_fit(paragraphs: Seq<Seq<char>>, max_columns: nat)
    requires
        max_columns >= 1,
    ensures
        forall|i: int|
            0 <= i < reflow_lines(paragraphs, max_columns).len() ==> 1 <= #[trigger] reflow_lines(
                paragraphs,
                max_columns,
            )[i].len() <= max_columns,
    decreases paragraphs.len(),
{
    if paragraphs.len() > 0 {
        let p = paragraphs.last();
        lemma_reflow_lines_fit(paragraphs.drop_last(), max_columns);
        lemma_words_not_empty(p);
        lemma_lay_words_fits(words(p), max_columns);
        let laid = lay_words(words(p), max_columns);
        if laid.1.len() > 0 {
            assert(lines_fit(seq![laid.1], max_columns));
            lemma_fit_concat(laid.0, seq![laid.1], max_columns);
            assert(laid.0 + seq![laid.1] =~= laid.0.push(laid.1));
        }
        lemma_fit_concat(
            reflow_lines(paragraphs.drop_last(), max_columns),
            paragraph_lines(p, max_columns),
            max_columns,
        );
        assert(lines_fit(reflow_lines(paragraphs, max_columns), max_columns));
    }
}

/// The lines cut from a word longer than the line fill it exactly; only the
/// word's last fragment may be shorter. When the open line has room for a
/// character after the space, the word's first fragment completes it to
/// exactly `m` characters, every later line is a whole line of the word,
/// and the last fragment stays open. Otherwise the open line, if any, is
/// closed as it stands, and the word is cut in fragments of `m` characters
/// but the last, which holds between one and `m`: after a closed open line
/// the fragments but the last follow it as lines and the last stays open;
/// on an empty open line every fragment is a line.
pub proof fn lemma_long_word_lines_fill(open: Seq<char>, w: Seq<char>, m: nat)
    requires
        m >= 1,
        w.len() > m,
    ensures
        open.len() > 0 && open.len() + 1 < m ==> {
            &&& forall|i: int|
                0 <= i < place_word(open, w, m).0.len() ==> #[trigger] place_word(
                    open,
                    w,
                    m,
                ).0[i].len() == m
            &&& 1 <= place_word(open, w, m).1.len() <= m
        },
        !(open.len() > 0 && open.len() + 1 < m) ==> {
            &&& forall|i: int|
                0 <= i < fragments(w, m, m).len() - 1 ==> #[trigger] fragments(w, m, m)[i].len()
                    == m
            &&& 1 <= fragments(w, m, m).last().len() <= m
        },
        open.len() > 0 && open.len() + 1 >= m ==> {
            &&& place_word(open, w, m).0 == seq![open] + fragments(w, m, m).subrange(
                0,
                fragments(w, m, m).len() - 1,
            )
            &&& place_word(open, w, m).1 == fragments(w, m, m).last()
        },
        open.len() == 0 ==> {
            &&& place_word(open, w, m).0 == fragments(w, m, m)
            &&& place_word(open, w, m).1.len() == 0
        },
{
    let step = place_word(open, w, m);
    if open.len() > 0 && open.len() + 1 < m {
        let f = (m - open.len() - 1) as nat;
        let fr = fragments(w, f, m);
        lemma_fragments_shape(w, f, m);
        assert forall|i: int| 0 <= i < step.0.len() implies #[trigger] step.0[i].len() == m by {
            if i > 0 {
                assert(step.0[i] == fr[i]);
            }
        }
    } else {
        lemma_fragments_shape(w, m, m);
    }
}

/// The characters of `s` that are not white space, in order.
pub open spec fn visible(s: Seq<char>) -> Seq<char>
    decreases s.len(),
{
    if s.len() == 0 {
        Seq::empty()
    } else if is_space(s.last()) {
        visible(s.drop_last())
    } else {
        visible(s.drop_last()).push(s.last())
    }
}

proof fn lemma_visible_add(a: Seq<char>, b: Seq<char>)
    ensures
        visible(a + b) == visible(a) + visible(b),
    decreases b.len(),
{
    if b.len() == 0 {
        assert(a + b =~= a);
        assert(visible(a) + visible(b) =~= visible(a));
    } else {
        lemma_visible_add(a, b.drop_last());
        assert((a + b).drop_last() =~= a + b.drop_last());
        assert((a + b).last() == b.last());
        if !is_space(b.last()) {
            assert(visible(a) + visible(b.drop_last()).push(b.last()) =~= (visible(a) + visible(
                b.drop_last(),
            )).push(b.last()));
        }
    }
}

proof fn lemma_visible_space(a: Seq<char>, b: Seq<char>)
    ensures
        visible(a + seq![' '] + b) == visible(a) + visible(b),
{
    lemma_visible_add(a + seq![' '], b);
    lemma_visible_add(a, seq![' ']);
    assert(seq![' '].drop_last() =~= Seq::<char>::empty());
    assert(seq![' '].last() == ' ');
    assert(visible(Seq::<char>::empty()) =~= Seq::<char>::empty());
    assert(visible(seq![' ']) =~= Seq::<char>::empty());
    assert(visible(a) + visible(seq![' ']) =~= visible(a));
}

proof fn lemma_flatten_single(x: Seq<char>)
    ensures
        seq![x].flatten() == x,
{
    seq![x].lemma_flatten_one_element();
}

/// Flattening the words of `s` loses only white space.
proof fn lemma_visible_words(s: Seq<char>)
    ensures
        visible(words(s).flatten()) == visible(s),
    decreases s.len(),
{
    if s.len() > 0 {
        let before = words(s.drop_last());
        let c = s.last();
        lemma_visible_words(s.drop_last());
        lemma_words_not_empty(s.drop_last());
        if !is_space(c) {
            lemma_visible_add(before.flatten(), seq![c]);
            assert(seq![c].drop_last() =~= Seq::<char>::empty());
            assert(seq![c].last() == c);
            assert(visible(Seq::<char>::empty()) =~= Seq::<char>::empty());
            assert(visible(seq![c]) =~= seq![c]);
            if s.len() >= 2 && !is_space(s[s.len() - 2]) {
                assert(s.drop_last().last() == s[s.len() - 2]);
                let init = before.drop_last();
                let l = before.last();
                assert(before =~= init.push(l));
                init.lemma_flatten_push(l);
                init.lemma_flatten_push(l.push(c));
                assert(init.flatten() + l.push(c) =~= before.flatten() + seq![c]);
            } else {
                before.lemma_flatten_push(seq![c]);
            }
            assert(visible(s) =~= visible(s.drop_last()) + seq![c]);
        }
    }
}

proof fn lemma_place_word_keeps(open: Seq<char>, w: Seq<char>, m: nat)
    requires
        m >= 1,
    ensures
        visible(place_word(open, w, m).0.flatten() + place_word(open, w, m).1) == visible(open)
            + visible(w),
{
    let step = place_word(open, w, m);
    let empty = Seq::<char>::empty();
    let none = Seq::<Seq<char>>::empty();
    assert(none.flatten() =~= empty);
    if w.len() > m {
        if open.len() > 0 && open.len() + 1 < m {
            let f = (m - open.len() - 1) as nat;
            let fr = fragments(w, f, m);
            lemma_fragments_shape(w, f, m);
            lemma_split_word_round_trip(w, f, m);
            let mid = fr.subrange(1, fr.len() - 1);
            let first_line = open + seq![' '] + fr[0];
            assert(fr =~= seq![fr[0]] + mid + seq![fr.last()]);
            lemma_flatten_concat(seq![fr[0]] + mid, seq![fr.last()]);
            lemma_flatten_concat(seq![fr[0]], mid);
            lemma_flatten_single(fr[0]);
            lemma_flatten_single(fr.last());
            lemma_flatten_concat(seq![first_line], mid);
            lemma_flatten_single(first_line);
            assert(step.0.flatten() + step.1 =~= open + seq![' '] + w);
            lemma_visible_space(open, w);
        } else {
            lemma_split_word_round_trip(w, m, m);
            if open.len() > 0 {
                let fr = fragments(w, m, m);
                let init = fr.subrange(0, fr.len() - 1);
                lemma_fragments_shape(w, m, m);
                assert(fr =~= init.push(fr.last()));
                init.lemma_flatten_push(fr.last());
                lemma_flatten_concat(seq![open], init);
                lemma_flatten_single(open);
                assert(step.0.flatten() + step.1 =~= open + w);
            } else {
                assert(step.0.flatten() + step.1 =~= open + w);
            }
            lemma_visible_add(open, w);
        }
    } else if open.len() > 0 && open.len() + 1 + w.len() > m {
        lemma_flatten_single(open);
        lemma_visible_add(open, w);
    } else if open.len() > 0 {
        assert(step.0.flatten() + step.1 =~= open + seq![' '] + w);
        lemma_visible_space(open, w);
    } else {
        assert(step.0.flatten() + step.1 =~= open + w);
        lemma_visible_add(open, w);
    }
}

proof fn lemma_lay_words_keeps(ws: Seq<Seq<char>>, m: nat)
    requires
        m >= 1,
    ensures
        visible(lay_words(ws, m).0.flatten() + lay_words(ws, m).1) == visible(ws.flatten()),
    decreases ws.len(),
{
    if ws.len() == 0 {
        assert(Seq::<Seq<char>>::empty().flatten() =~= Seq::<char>::empty());
        assert(lay_words(ws, m).0.flatten() + lay_words(ws, m).1 =~= Seq::<char>::empty());
        assert(ws =~= Seq::<Seq<char>>::empty());
    } else {
        let before = lay_words(ws.drop_last(), m);
        let w = ws.last();
        let step = place_word(before.1, w, m);
        lemma_lay_words_keeps(ws.drop_last(), m);
        lemma_place_word_keeps(before.1, w, m);
        lemma_flatten_concat(before.0, step.0);
        lemma_visible_add(before.0.flatten(), step.0.flatten() + step.1);
        assert(before.0.flatten() + step.0.flatten() + step.1 =~= before.0.flatten() + (
        step.0.flatten() + step.1));
        lemma_visible_add(before.0.flatten(), before.1);
        assert(ws =~= ws.drop_last().push(w));
        ws.drop_last().lemma_flatten_push(w);
        lemma_visible_add(ws.drop_last().flatten(), w);
    }
}

/// Reflow keeps every character but white space, in order: the lines that
/// it gives, read one after another, hold the same characters that are not
/// white space as the paragraphs. So no word, and no part of a split word,
/// is dropped, repeated or moved.
pub proof fn lemma_reflow_keeps_text(paragraphs: Seq<Seq<char>>, max_columns: nat)
    requires
        max_columns >= 1,
    ensures
        visible(reflow_lines(paragraphs, max_columns).flatten()) == visible(paragraphs.flatten()),
    decreases paragraphs.len(),
{
    let m = max_columns;
    if paragraphs.len() == 0 {
        assert(Seq::<Seq<char>>::empty().flatten() =~= Seq::<char>::empty());
        assert(paragraphs =~= Seq::<Seq<char>>::empty());
    } else {
        let init = paragraphs.drop_last();
        let p = paragraphs.last();
        let laid = lay_words(words(p), m);
        lemma_reflow_keeps_text(init, m);
        lemma_lay_words_keeps(words(p), m);
        lemma_visible_words(p);
        if laid.1.len() > 0 {
            laid.0.lemma_flatten_push(laid.1);
        } else {
            assert(laid.0.flatten() + laid.1 =~= laid.0.flatten());
        }
        lemma_flatten_concat(reflow_lines(init, m), paragraph_lines(p, m));
        lemma_visible_add(reflow_lines(init, m).flatten(), paragraph_lines(p, m).flatten());
        assert(paragraphs =~= init.push(p));
        init.lemma_flatten_push(p);
        lemma_visible_add(init.flatten(), p);
    }
}

} // verus!
