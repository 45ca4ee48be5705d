//! The round trip of the codec: a message read from a line, written back,
//! reads again as the same message.
use vstd::prelude::*;
use vstd::utf8::{encode_utf8_valid_utf8, valid_utf8};
use crate::message::{
    args_of, cap_invalid, cap_word, encoded, is_numeric, mode_invalid, mode_word, line_is_utf8, line_of_message, message_of_line, message_text,
    numeric_value, numeric_word, parse_outcome, star_word, Command, Message,
};
use crate::wire::{
    is_line_end, lemma_line_len_full, lemma_trailing_at_bounds, lemma_word_len_bounds, marked,
    middles, parse_line, render_line, split_marked, trail, trailing_at, word_len, words, LineView,
    AT, COLON, CR, LF, SPACE,
};

verus! {

broadcast use encode_utf8_valid_utf8;

pub open spec fn no_space(s: Seq<u8>) -> bool {
    forall|i: int| 0 <= i < s.len() ==> #[trigger] s[i] != SPACE
}

/// No space in `s` is directly followed by a colon.
pub open spec fn no_pair(s: Seq<u8>) -> bool {
    forall|i: int| 0 <= i && i + 1 < s.len() ==> !(#[trigger] s[i] == SPACE && s[i + 1] == COLON)
}

pub open spec fn no_end(s: Seq<u8>) -> bool {
    forall|i: int| 0 <= i < s.len() ==> !is_line_end(#[trigger] s[i])
}

/// A parameter that can be written in the middle of a line.
pub open spec fn is_middle(p: Seq<u8>) -> bool {
    p.len() > 0 && no_space(p) && p[0] != COLON
}

pub open spec fn opt_no_space(o: Option<Seq<u8>>) -> bool {
    match o {
        Some(t) => no_space(t),
        None => true,
    }
}

pub open spec fn opt_no_end(o: Option<Seq<u8>>) -> bool {
    match o {
        Some(t) => no_end(t),
        None => true,
    }
}

/// The parts of a line that its text gives back when parsed.
pub open spec fn wf_line(w: LineView) -> bool {
    &&& opt_no_space(w.tags)
    &&& opt_no_space(w.prefix)
    &&& w.command.len() > 0
    &&& no_space(w.command)
    &&& (w.prefix is None ==> w.command[0] != COLON)
    &&& (w.tags is None && w.prefix is None ==> w.command[0] != AT)
    &&& forall|k: int| 0 <= k < w.params.len() ==> is_middle(#[trigger] w.params[k])
}

/// Every part of the line is free of CR and LF.
pub open spec fn line_no_end(w: LineView) -> bool {
    &&& opt_no_end(w.tags)
    &&& opt_no_end(w.prefix)
    &&& no_end(w.command)
    &&& forall|k: int| 0 <= k < w.params.len() ==> no_end(#[trigger] w.params[k])
    &&& opt_no_end(w.trailing)
}

proof fn lemma_word_len_concat(x: Seq<u8>, y: Seq<u8>)
    requires
        no_space(x),
        y.len() == 0 || y[0] == SPACE,
    ensures
        word_len(x + y) == x.len(),
    decreases x.len(),
{
    if x.len() == 0 {
        assert(x + y =~= y);
    } else {
        assert((x + y).drop_first() =~= x.drop_first() + y);
        assert((x + y)[0] == x[0]);
        assert(no_space(x.drop_first())) by {
            assert forall|i: int| 0 <= i < x.drop_first().len() implies #[trigger] x.drop_first()[i]
                != SPACE by {
                assert(x.drop_first()[i] == x[i + 1]);
            }
        }
        lemma_word_len_concat(x.drop_first(), y);
    }
}

proof fn lemma_words_concat(x: Seq<u8>, y: Seq<u8>)
    requires
        x.len() > 0,
        no_space(x),
        y.len() == 0 || y[0] == SPACE,
    ensures
        words(x + y) == seq![x] + (if y.len() == 0 {
            Seq::<Seq<u8>>::empty()
        } else {
            words(y.drop_first())
        }),
{
    let s = x + y;
    lemma_word_len_concat(x, y);
    assert(s[0] == x[0]);
    if y.len() == 0 {
        assert(s =~= x);
        assert(seq![x] + Seq::<Seq<u8>>::empty() =~= seq![x]);
    } else {
        assert(s.take(x.len() as int) =~= x);
        assert(s.skip(x.len() + 1 as int) =~= y.drop_first());
    }
}

proof fn lemma_split_marked_render(o: Option<Seq<u8>>, marker: u8, rest: Seq<u8>)
    requires
        marker != SPACE,
        opt_no_space(o),
        o is None ==> rest.len() > 0 && rest[0] != marker,
    ensures
        split_marked(marked(o, marker) + rest, marker) == (o, rest),
{
    let s = marked(o, marker) + rest;
    match o {
        Some(t) => {
            let tt = s.drop_first();
            assert(s[0] == marker);
            assert(tt =~= t + (seq![SPACE] + rest));
            lemma_word_len_concat(t, seq![SPACE] + rest);
            assert(tt.take(t.len() as int) =~= t);
            assert(tt.skip(t.len() + 1 as int) =~= rest);
        },
        None => {
            assert(s =~= rest);
        },
    }
}

proof fn lemma_middles_facts(ps: Seq<Seq<u8>>)
    requires
        forall|k: int| 0 <= k < ps.len() ==> is_middle(#[trigger] ps[k]),
    ensures
        middles(ps).len() == 0 || middles(ps)[0] == SPACE,
        forall|i: int|
            0 <= i < middles(ps).len() && #[trigger] middles(ps)[i] == SPACE ==> i + 1 < middles(
                ps,
            ).len() && middles(ps)[i + 1] != COLON,
        words(middles(ps)) == ps,
    decreases ps.len(),
{
    if ps.len() > 0 {
        let first = ps[0];
        let rest = ps.drop_first();
        assert(is_middle(first));
        assert forall|k: int| 0 <= k < rest.len() implies is_middle(#[trigger] rest[k]) by {
            assert(rest[k] == ps[k + 1]);
        }
        lemma_middles_facts(rest);
        let m1 = middles(rest);
        let m = middles(ps);
        assert(m == seq![SPACE] + first + m1);
        assert forall|i: int| 0 <= i < m.len() && #[trigger] m[i] == SPACE implies i + 1 < m.len()
            && m[i + 1] != COLON by {
            if i == 0 {
                assert(m[1] == first[0]);
            } else if i <= first.len() {
                assert(m[i] == first[i - 1]);
            } else {
                let j = i - 1 - first.len();
                assert(m[i] == m1[j]);
                assert(m1[j] == SPACE);
                assert(m[i + 1] == m1[j + 1]);
            }
        }
        assert(m.drop_first() =~= first + m1);
        lemma_words_concat(first, m1);
        if m1.len() > 0 {
            assert(words(m1) == words(m1.drop_first()));
        }
        assert(words(m) == words(m.drop_first()));
        assert(words(m) =~= ps);
    } else {
        assert(words(middles(ps)) =~= ps);
    }
}

proof fn lemma_trailing_at_concat(x: Seq<u8>, t: Seq<u8>)
    requires
        no_pair(x),
    ensures
        trailing_at(x + seq![SPACE, COLON] + t) == x.len(),
    decreases x.len(),
{
    let s = x + seq![SPACE, COLON] + t;
    if x.len() == 0 {
        assert(s[0] == SPACE && s[1] == COLON);
    } else {
        assert(s[0] == x[0]);
        if x.len() > 1 {
            assert(s[1] == x[1]);
        } else {
            assert(s[1] == SPACE);
        }
        assert(s.drop_first() =~= x.drop_first() + seq![SPACE, COLON] + t);
        assert(no_pair(x.drop_first())) by {
            assert forall|i: int| 0 <= i && i + 1 < x.drop_first().len() implies !(
            #[trigger] x.drop_first()[i] == SPACE && x.drop_first()[i + 1] == COLON) by {
                assert(x.drop_first()[i] == x[i + 1]);
                assert(x.drop_first()[i + 1] == x[i + 2]);
            }
        }
        lemma_trailing_at_concat(x.drop_first(), t);
    }
}

proof fn lemma_trailing_at_none(x: Seq<u8>)
    requires
        no_pair(x),
    ensures
        trailing_at(x) == x.len(),
    decreases x.len(),
{
    if x.len() >= 2 {
        assert(no_pair(x.drop_first())) by {
            assert forall|i: int| 0 <= i && i + 1 < x.drop_first().len() implies !(
            #[trigger] x.drop_first()[i] == SPACE && x.drop_first()[i + 1] == COLON) by {
                assert(x.drop_first()[i] == x[i + 1]);
                assert(x.drop_first()[i + 1] == x[i + 2]);
            }
        }
        lemma_trailing_at_none(x.drop_first());
    }
}

proof fn lemma_head(c: Seq<u8>, ps: Seq<Seq<u8>>)
    requires
        c.len() > 0,
        no_space(c),
        forall|k: int| 0 <= k < ps.len() ==> is_middle(#[trigger] ps[k]),
    ensures
        no_pair(c + middles(ps)),
        words(c + middles(ps)) == seq![c] + ps,
{
    let m = middles(ps);
    lemma_middles_facts(ps);
    let x = c + m;
    assert forall|i: int| 0 <= i && i + 1 < x.len() implies !(#[trigger] x[i] == SPACE && x[i
        + 1] == COLON) by {
        if i < c.len() {
            assert(x[i] == c[i]);
        } else {
            let j = i - c.len();
            assert(x[i] == m[j]);
            if m[j] == SPACE {
                assert(x[i + 1] == m[j + 1]);
            }
        }
    }
    lemma_words_concat(c, m);
    if m.len() > 0 {
        assert(words(m) == words(m.drop_first()));
    }
    assert(words(x) =~= seq![c] + ps);
}

proof fn lemma_tail(x: Seq<u8>, o: Option<Seq<u8>>)
    requires
        no_pair(x),
    ensures
        ({
            let r2 = x + trail(o);
            let j = trailing_at(r2);
            &&& r2.take(j as int) == x
            &&& (if j < r2.len() {
                Some(r2.skip(j + 2 as int))
            } else {
                None
            }) == o
        }),
{
    let r2 = x + trail(o);
    let j = trailing_at(r2);
    match o {
        Some(t) => {
            assert(r2 =~= x + seq![SPACE, COLON] + t);
            lemma_trailing_at_concat(x, t);
            assert(r2.take(j as int) =~= x);
            assert(r2.skip(j + 2 as int) =~= t);
        },
        None => {
            assert(r2 =~= x);
            lemma_trailing_at_none(x);
            assert(r2.take(j as int) =~= x);
        },
    }
}

/// The text of well-formed parts parses back to the same parts.
#[verifier::rlimit(80)]
pub proof fn lemma_parse_render(w: LineView)
    requires
        wf_line(w),
    ensures
        parse_line(render_line(w)) == w,
{
    let c = w.command;
    let x = c + middles(w.params);
    lemma_head(c, w.params);
    lemma_tail(x, w.trailing);
    let r2 = x + trail(w.trailing);
    assert(r2[0] == c[0]);
    let r1 = marked(w.prefix, COLON) + r2;
    lemma_split_marked_render(w.prefix, COLON, r2);
    if w.prefix is Some {
        assert(r1[0] == COLON);
    } else {
        assert(r1 =~= r2);
    }
    lemma_split_marked_render(w.tags, AT, r1);
    assert(render_line(w) =~= marked(w.tags, AT) + r1);
    let ws = words(x);
    assert(ws[0] == c);
    assert(ws.drop_first() =~= w.params);
}

/// The words of a text without a space-colon pair are non-empty and
/// space-free; only the first can start with a colon, and only when the text
/// does; they hold no CR or LF when the text holds none.
#[verifier::rlimit(60)]
proof fn lemma_words_facts(s: Seq<u8>)
    requires
        no_pair(s),
    ensures
        forall|k: int|
            0 <= k < words(s).len() ==> (#[trigger] words(s)[k]).len() > 0 && no_space(words(s)[k])
                && (words(s)[k][0] == COLON ==> k == 0 && s[0] == COLON) && (no_end(s) ==> no_end(
                words(s)[k],
            )),
    decreases s.len(),
{
    if s.len() == 0 {
    } else if s[0] == SPACE {
        let s1 = s.drop_first();
        assert(no_pair(s1)) by {
            assert forall|i: int| 0 <= i && i + 1 < s1.len() implies !(#[trigger] s1[i] == SPACE
                && s1[i + 1] == COLON) by {
                assert(s1[i] == s[i + 1]);
                assert(s1[i + 1] == s[i + 2]);
            }
        }
        lemma_words_facts(s1);
        assert(words(s) == words(s1));
        if s1.len() > 0 {
            assert(s1[0] == s[1]);
        }
        if no_end(s) {
            assert forall|i: int| 0 <= i < s1.len() implies !is_line_end(#[trigger] s1[i]) by {
                assert(s1[i] == s[i + 1]);
            }
        }
        assert forall|k: int| 0 <= k < words(s).len() implies (#[trigger] words(s)[k]).len() > 0
            && no_space(words(s)[k]) && (words(s)[k][0] == COLON ==> k == 0 && s[0] == COLON) && (
        no_end(s) ==> no_end(words(s)[k])) by {
            assert(words(s)[k] == words(s1)[k]);
            if words(s1)[k][0] == COLON {
                assert(s1.len() >= 1 && s1[0] == COLON);
                assert(s[0] == SPACE && s[1] == COLON);
            }
        }
    } else {
        lemma_word_len_bounds(s);
        let wl = word_len(s);
        assert(wl > 0) by {
            assert(word_len(s) == 1 + word_len(s.drop_first()));
        }
        if wl < s.len() {
            let w = s.take(wl as int);
            let rest = s.skip(wl + 1 as int);
            assert(no_pair(rest)) by {
                assert forall|i: int| 0 <= i && i + 1 < rest.len() implies !(#[trigger] rest[i]
                    == SPACE && rest[i + 1] == COLON) by {
                    assert(rest[i] == s[wl + 1 + i]);
                    assert(rest[i + 1] == s[wl + 2 + i]);
                }
            }
            lemma_words_facts(rest);
            let ws = words(s);
            assert(ws == seq![w] + words(rest));
            assert forall|k: int| 0 <= k < ws.len() implies (#[trigger] ws[k]).len() > 0 && no_space(
                ws[k],
            ) && (ws[k][0] == COLON ==> k == 0 && s[0] == COLON) && (no_end(s) ==> no_end(
                ws[k],
            )) by {
                if k == 0 {
                    assert(ws[0] == w);
                    assert(w[0] == s[0]);
                    assert forall|i: int| 0 <= i < w.len() implies #[trigger] w[i] != SPACE by {
                        assert(w[i] == s[i]);
                    }
                    if no_end(s) {
                        assert forall|i: int| 0 <= i < w.len() implies !is_line_end(
                            #[trigger] w[i],
                        ) by {
                            assert(w[i] == s[i]);
                        }
                    }
                } else {
                    assert(ws[k] == words(rest)[k - 1]);
                    if ws[k][0] == COLON {
                        assert(rest[0] == s[wl + 1 as int]);
                        assert(s[wl as int] == SPACE);
                    }
                    if no_end(s) {
                        assert forall|i: int| 0 <= i < rest.len() implies !is_line_end(
                            #[trigger] rest[i],
                        ) by {
                            assert(rest[i] == s[wl + 1 + i]);
                        }
                    }
                }
            }
        } else {
            assert(words(s) == seq![s]);
            assert(words(s)[0] == s);
        }
    }
}

proof fn lemma_split_marked_facts(s: Seq<u8>, marker: u8)
    ensures
        opt_no_space(split_marked(s, marker).0),
        no_end(s) ==> opt_no_end(split_marked(s, marker).0) && no_end(split_marked(s, marker).1),
        split_marked(s, marker).0 is None ==> split_marked(s, marker).1 == s && !(s.len() > 0
            && s[0] == marker),
{
    if s.len() > 0 && s[0] == marker {
        let t = s.drop_first();
        lemma_word_len_bounds(t);
        let f = t.take(word_len(t) as int);
        assert forall|i: int| 0 <= i < f.len() implies #[trigger] f[i] != SPACE by {
            assert(f[i] == t[i]);
        }
        if no_end(s) {
            assert forall|i: int| 0 <= i < t.len() implies !is_line_end(#[trigger] t[i]) by {
                assert(t[i] == s[i + 1]);
            }
            assert forall|i: int| 0 <= i < f.len() implies !is_line_end(#[trigger] f[i]) by {
                assert(f[i] == t[i]);
            }
            if word_len(t) < t.len() {
                let r = t.skip(word_len(t) + 1 as int);
                assert forall|i: int| 0 <= i < r.len() implies !is_line_end(#[trigger] r[i]) by {
                    assert(r[i] == t[word_len(t) + 1 + i]);
                }
            } else {
                assert(t.take(word_len(t) as int) =~= t);
            }
        }
    }
}

/// What the parse of a line guarantees of its parts.
proof fn lemma_parse_facts(b: Seq<u8>)
    requires
        no_end(b),
    ensures
        ({
            let l = parse_line(b);
            &&& opt_no_space(l.tags)
            &&& opt_no_space(l.prefix)
            &&& line_no_end(l)
            &&& no_space(l.command)
            &&& (l.command.len() > 0 && l.prefix is None ==> l.command[0] != COLON)
            &&& forall|k: int| 0 <= k < l.params.len() ==> is_middle(#[trigger] l.params[k])
        }),
{
    let l = parse_line(b);
    lemma_split_marked_facts(b, AT);
    let r1 = split_marked(b, AT).1;
    lemma_split_marked_facts(r1, COLON);
    let r2 = split_marked(r1, COLON).1;
    let j = trailing_at(r2);
    lemma_trailing_at_bounds(r2);
    lemma_trailing_at_minimal(r2);
    let head = r2.take(j as int);
    assert(no_pair(head)) by {
        assert forall|i: int| 0 <= i && i + 1 < head.len() implies !(#[trigger] head[i] == SPACE
            && head[i + 1] == COLON) by {
            assert(head[i] == r2[i]);
            assert(head[i + 1] == r2[i + 1]);
        }
    }
    assert forall|i: int| 0 <= i < head.len() implies !is_line_end(#[trigger] head[i]) by {
        assert(head[i] == r2[i]);
    }
    lemma_words_facts(head);
    let ws = words(head);
    if j < r2.len() {
        let t = r2.skip(j + 2 as int);
        assert forall|i: int| 0 <= i < t.len() implies !is_line_end(#[trigger] t[i]) by {
            assert(t[i] == r2[j + 2 + i]);
        }
    }
    if ws.len() > 0 {
        assert(l.command == ws[0]);
        assert forall|k: int| 0 <= k < l.params.len() implies is_middle(#[trigger] l.params[k])
            && no_end(l.params[k]) by {
            assert(l.params[k] == ws[k + 1]);
        }
        if l.command[0] == COLON {
            assert(head[0] == r2[0]);
        }
    } else {
        assert(l.command =~= Seq::<u8>::empty());
        assert(l.params =~= Seq::<Seq<u8>>::empty());
    }
}

proof fn lemma_trailing_at_minimal(s: Seq<u8>)
    ensures
        forall|i: int|
            0 <= i < trailing_at(s) && i + 1 < s.len() ==> !(#[trigger] s[i] == SPACE && s[i + 1]
                == COLON),
    decreases s.len(),
{
    if s.len() >= 2 && !(s[0] == SPACE && s[1] == COLON) {
        lemma_trailing_at_minimal(s.drop_first());
        assert forall|i: int| 0 <= i < trailing_at(s) && i + 1 < s.len() implies !(
        #[trigger] s[i] == SPACE && s[i + 1] == COLON) by {
            if i > 0 {
                assert(s[i] == s.drop_first()[i - 1]);
                assert(s[i + 1] == s.drop_first()[i]);
            }
        }
    }
}

proof fn lemma_middles_no_end(ps: Seq<Seq<u8>>)
    requires
        forall|k: int| 0 <= k < ps.len() ==> no_end(#[trigger] ps[k]),
    ensures
        no_end(middles(ps)),
    decreases ps.len(),
{
    if ps.len() > 0 {
        let rest = ps.drop_first();
        assert forall|k: int| 0 <= k < rest.len() implies no_end(#[trigger] rest[k]) by {
            assert(rest[k] == ps[k + 1]);
        }
        lemma_middles_no_end(rest);
        let m = middles(ps);
        let first = ps[0];
        assert(no_end(first));
        assert(m == seq![SPACE] + first + middles(rest));
        assert forall|i: int| 0 <= i < m.len() implies !is_line_end(#[trigger] m[i]) by {
            if i == 0 {
            } else if i <= first.len() {
                assert(m[i] == first[i - 1]);
            } else {
                assert(m[i] == middles(rest)[i - 1 - first.len()]);
            }
        }
    }
}

proof fn lemma_render_no_end(w: LineView)
    requires
        line_no_end(w),
    ensures
        no_end(render_line(w)),
{
    lemma_middles_no_end(w.params);
    let parts = seq![
        marked(w.tags, AT),
        marked(w.prefix, COLON),
        w.command,
        middles(w.params),
        trail(w.trailing),
    ];
    assert forall|k: int| 0 <= k < 5 implies no_end(#[trigger] parts[k]) by {
        if k == 0 {
            if let Some(t) = w.tags {
                let x = marked(w.tags, AT);
                assert forall|i: int| 0 <= i < x.len() implies !is_line_end(#[trigger] x[i]) by {
                    if 0 < i <= t.len() {
                        assert(x[i] == t[i - 1]);
                    }
                }
            }
        } else if k == 1 {
            if let Some(t) = w.prefix {
                let x = marked(w.prefix, COLON);
                assert forall|i: int| 0 <= i < x.len() implies !is_line_end(#[trigger] x[i]) by {
                    if 0 < i <= t.len() {
                        assert(x[i] == t[i - 1]);
                    }
                }
            }
        } else if k == 4 {
            if let Some(t) = w.trailing {
                let x = trail(w.trailing);
                assert forall|i: int| 0 <= i < x.len() implies !is_line_end(#[trigger] x[i]) by {
                    if i >= 2 {
                        assert(x[i] == t[i - 2]);
                    }
                }
            }
        }
    }
    lemma_concat_no_end(parts[0], parts[1]);
    lemma_concat_no_end(parts[0] + parts[1], parts[2]);
    lemma_concat_no_end(parts[0] + parts[1] + parts[2], parts[3]);
    lemma_concat_no_end(parts[0] + parts[1] + parts[2] + parts[3], parts[4]);
}

proof fn lemma_concat_no_end(a: Seq<u8>, b: Seq<u8>)
    requires
        no_end(a),
        no_end(b),
    ensures
        no_end(a + b),
{
    assert forall|i: int| 0 <= i < (a + b).len() implies !is_line_end(#[trigger] (a + b)[i]) by {
        if i >= a.len() {
            assert((a + b)[i] == b[i - a.len()]);
        }
    }
}

proof fn lemma_numeric_digits(c: Seq<u8>)
    requires
        is_numeric(c),
    ensures
        numeric_word(numeric_value(c)) == c,
        numeric_value(c) <= 999,
{
    let d0 = c[0] - 48;
    let d1 = c[1] - 48;
    let d2 = c[2] - 48;
    let v = d0 * 100 + d1 * 10 + d2;
    assert(0 <= v <= 999);
    assert(numeric_value(c) == v);
    let code = numeric_value(c);
    assert((v / 100) % 10 == d0 && (v / 10) % 10 == d1 && v % 10 == d2) by (nonlinear_arith)
        requires
            0 <= d0 <= 9,
            0 <= d1 <= 9,
            0 <= d2 <= 9,
            v == d0 * 100 + d1 * 10 + d2,
    ;
    assert(numeric_word(code) =~= c);
}

proof fn lemma_star_valid()
    ensures
        valid_utf8(star_word()),
{
    reveal_with_fuel(valid_utf8, 2);
}

/// A line with a command word that is read as a message: the parts that
/// message is written with are well formed, free of CR and LF, UTF-8, and
/// stand for the same message.
#[verifier::rlimit(80)]
proof fn lemma_canonical(b: Seq<u8>, m: Message)
    requires
        no_end(b),
        parse_line(b).command.len() > 0,
        line_is_utf8(parse_line(b)),
        message_of_line(m, parse_line(b)),
        !(parse_line(b).tags is None && parse_line(b).prefix is None && parse_line(b).command[0]
            == AT),
    ensures
        wf_line(line_of_message(m)),
        line_no_end(line_of_message(m)),
        line_is_utf8(line_of_message(m)),
        message_of_line(m, line_of_message(m)),
        mode_invalid(line_of_message(m)) == mode_invalid(parse_line(b)),
        cap_invalid(line_of_message(m)) == cap_invalid(parse_line(b)),
{
    let l = parse_line(b);
    assert(mode_word()[0] == 77 && cap_word().len() == 3);
    let w = line_of_message(m);
    lemma_parse_facts(b);
    let a = args_of(l);
    assert forall|i: int| 0 <= i < l.params.len() implies a[i] == l.params[i] by {}
    assert(w.tags == l.tags && w.prefix == l.prefix);
    match m.command {
        Command::NICK(n) => {
            assert(args_of(w) =~= a);
        },
        Command::USER(u, mm, r) => {
            lemma_star_valid();
            assert(l.params.len() >= 3);
            assert(is_middle(l.params[0]) && is_middle(l.params[1]));
            assert(no_end(l.params[0]) && no_end(l.params[1]));
            assert(valid_utf8(l.params[0]) && valid_utf8(l.params[1]));
            assert(args_of(w).len() == 4);
            assert(args_of(w)[0] == a[0] && args_of(w)[1] == a[1] && args_of(w)[3] == a[3]);
        },
        Command::JOIN(ch, k, n) => {
            if a.len() >= 2 {
                assert(is_middle(l.params[0]) && no_end(l.params[0]));
            }
            if a.len() == 3 {
                assert(is_middle(l.params[1]) && no_end(l.params[1]));
            }
            assert(args_of(w) =~= a);
        },
        Command::PRIVMSG(t, mm) => {
            assert(is_middle(l.params[0]) && no_end(l.params[0]));
            assert(args_of(w) =~= a);
        },
        Command::PING(x, y) => {
            if a.len() == 2 {
                assert(is_middle(l.params[0]) && no_end(l.params[0]));
            }
            assert(args_of(w) =~= a);
        },
        Command::PONG(x, y) => {
            if a.len() == 2 {
                assert(is_middle(l.params[0]) && no_end(l.params[0]));
            }
            assert(args_of(w) =~= a);
        },
        Command::Response(code, ps, t) => {
            lemma_numeric_digits(l.command);
            assert(w == l);
        },
        Command::Raw(name, ps, t) => {
            assert(w == l);
        },
    }
}

proof fn lemma_outcome_ok(t: Seq<u8>, m: Message)
    requires
        parse_line(t).command.len() > 0,
        line_is_utf8(parse_line(t)),
        !mode_invalid(parse_line(t)),
        !cap_invalid(parse_line(t)),
        message_of_line(m, parse_line(t)),
    ensures
        parse_outcome(Ok(m), t),
{
}

/// Reading a line as a message, writing that message and reading what was
/// written gives a line that the same message stands for: `encode` writes
/// the message's text whole, followed by CR LF, and that text parses back to
/// the message. Runs of spaces between words are written as one.
#[verifier::rlimit(40)]
pub proof fn lemma_round_trip(b: Seq<u8>, m: Message)
    requires
        no_end(b),
        parse_outcome(Ok(m), b),
        !(parse_line(b).tags is None && parse_line(b).prefix is None && parse_line(b).command[0]
            == AT),
    ensures
        encoded(m) == message_text(m) + seq![CR, LF],
        parse_outcome(Ok(m), message_text(m)),
{
    let l = parse_line(b);
    assert(l.command.len() > 0 && line_is_utf8(l) && !mode_invalid(l) && !cap_invalid(l)
        && message_of_line(m, l));
    lemma_canonical(b, m);
    let w = line_of_message(m);
    lemma_parse_render(w);
    assert(parse_line(message_text(m)) == w);
    lemma_outcome_ok(message_text(m), m);
    lemma_render_no_end(w);
    lemma_line_len_full(message_text(m));
    assert(message_text(m).take(message_text(m).len() as int) =~= message_text(m));
}

} // verus!
