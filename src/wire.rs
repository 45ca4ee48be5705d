//! Byte-level rules of the IRC line format: line terminators, the
//! sanitising cut that keeps a single line, and the split of a line into
//! space-separated words.
use vstd::prelude::*;

verus! {

pub const CR: u8 = 13;

pub const LF: u8 = 10;

pub const SPACE: u8 = 32;

pub const COLON: u8 = 58;

pub const AT: u8 = 64;

pub open spec fn is_line_end(b: u8) -> bool {
    b == CR || b == LF
}

/// Number of bytes before the first CR or LF (the whole length when there is none).
pub open spec fn line_len(s: Seq<u8>) -> nat
    decreases s.len(),
{
    if s.len() == 0 {
        0
    } else if is_line_end(s[0]) {
        0
    } else {
        1 + line_len(s.drop_first())
    }
}

/// Length of the terminator that starts at `p`: two for CR LF, one for a bare
/// CR or LF, none past the end.
pub open spec fn terminator_len(s: Seq<u8>, p: int) -> nat {
    if p < s.len() {
        if s[p] == CR && p + 1 < s.len() && s[p + 1] == LF {
            2
        } else {
            1
        }
    } else {
        0
    }
}

/// The text up to and including its first line terminator, preferring CR LF
/// over a bare CR at the same position.
pub open spec fn sanitized(s: Seq<u8>) -> Seq<u8> {
    s.take((line_len(s) + terminator_len(s, line_len(s) as int)) as int)
}

pub proof fn lemma_line_len_bounds(s: Seq<u8>)
    ensures
        line_len(s) <= s.len(),
        line_len(s) < s.len() ==> is_line_end(s[line_len(s) as int]),
        forall|i: int| 0 <= i < line_len(s) ==> !is_line_end(#[trigger] s[i]),
    decreases s.len(),
{
    if s.len() > 0 && !is_line_end(s[0]) {
        lemma_line_len_bounds(s.drop_first());
        assert forall|i: int| 0 <= i < line_len(s) implies !is_line_end(#[trigger] s[i]) by {
            if i > 0 {
                assert(s[i] == s.drop_first()[i - 1]);
            }
        }
    }
}

/// A line is terminator-free exactly when its `line_len` is its length.
pub proof fn lemma_line_len_full(s: Seq<u8>)
    requires
        forall|i: int| 0 <= i < s.len() ==> !is_line_end(#[trigger] s[i]),
    ensures
        line_len(s) == s.len(),
    decreases s.len(),
{
    if s.len() > 0 {
        assert(!is_line_end(s[0]));
        assert forall|i: int| 0 <= i < s.drop_first().len() implies !is_line_end(
            #[trigger] s.drop_first()[i],
        ) by {
            assert(s.drop_first()[i] == s[i + 1]);
        }
        lemma_line_len_full(s.drop_first());
    }
}

proof fn lemma_line_len_step(s: Seq<u8>, i: int)
    requires
        0 <= i < s.len(),
        !is_line_end(s[i]),
    ensures
        line_len(s.subrange(i, s.len() as int)) == 1 + line_len(s.subrange(i + 1, s.len() as int)),
{
    let t = s.subrange(i, s.len() as int);
    assert(t.drop_first() =~= s.subrange(i + 1, s.len() as int));
}

/// Index of the first CR or LF in `s`, or its length when there is none.
pub fn find_line_end(s: &[u8]) -> (r: usize)
    ensures
        r == line_len(s@),
{
    let mut i: usize = 0;
    assert(s@.subrange(0, s@.len() as int) =~= s@);
    while i < s.len()
        invariant
            i <= s@.len(),
            line_len(s@) == i + line_len(s@.subrange(i as int, s@.len() as int)),
        decreases s@.len() - i,
    {
        if s[i] == CR || s[i] == LF {
            assert(s@.subrange(i as int, s@.len() as int)[0] == s@[i as int]);
            return i;
        }
        proof {
            lemma_line_len_step(s@, i as int);
        }
        i = i + 1;
    }
    i
}

/// Copies `s[from..to]` into a new vector.
pub fn copy_range(s: &[u8], from: usize, to: usize) -> (r: Vec<u8>)
    requires
        from <= to <= s@.len(),
    ensures
        r@ == s@.subrange(from as int, to as int),
{
    let mut r: Vec<u8> = Vec::new();
    let mut i: usize = from;
    while i < to
        invariant
            from <= i <= to,
            to <= s@.len(),
            r@ == s@.subrange(from as int, i as int),
        decreases to - i,
    {
        r.push(s[i]);
        i = i + 1;
        assert(r@ =~= s@.subrange(from as int, i as int));
    }
    r
}

/// Cuts `data` right after its first line terminator, so that text placed
/// after an embedded CR or LF can never become a second command.
pub fn sanitize(data: Vec<u8>) -> (r: Vec<u8>)
    ensures
        r@ == sanitized(data@),
{
    let p = find_line_end(data.as_slice());
    proof {
        lemma_line_len_bounds(data@);
    }
    if p == data.len() {
        assert(data@.take(p as int) =~= data@);
        return data;
    }
    let n: usize = if data[p] == CR && p + 1 < data.len() && data[p + 1] == LF {
        p + 2
    } else {
        p + 1
    };
    let r = copy_range(data.as_slice(), 0, n);
    assert(r@ =~= data@.take(n as int));
    r
}

/// Number of bytes before the first space (the whole length when there is none).
pub open spec fn word_len(s: Seq<u8>) -> nat
    decreases s.len(),
{
    if s.len() == 0 {
        0
    } else if s[0] == SPACE {
        0
    } else {
        1 + word_len(s.drop_first())
    }
}

/// The non-empty space-separated words of `s`; runs of spaces count as one.
pub open spec fn words(s: Seq<u8>) -> Seq<Seq<u8>>
    decreases s.len(),
{
    if s.len() == 0 {
        seq![]
    } else if s[0] == SPACE {
        words(s.drop_first())
    } else if word_len(s) < s.len() {
        seq![s.take(word_len(s) as int)] + words(s.skip(word_len(s) + 1 as int))
    } else {
        seq![s]
    }
}

/// Position of the first space that is directly followed by a colon, which
/// opens the trailing parameter (the whole length when there is none).
pub open spec fn trailing_at(s: Seq<u8>) -> nat
    decreases s.len(),
{
    if s.len() < 2 {
        s.len()
    } else if s[0] == SPACE && s[1] == COLON {
        0
    } else {
        1 + trailing_at(s.drop_first())
    }
}

/// Splits off a leading field that starts with `marker` and runs to the first
/// space: the field without its marker, and what follows the space.
pub open spec fn split_marked(s: Seq<u8>, marker: u8) -> (Option<Seq<u8>>, Seq<u8>) {
    if s.len() > 0 && s[0] == marker {
        let t = s.drop_first();
        if word_len(t) < t.len() {
            (Some(t.take(word_len(t) as int)), t.skip(word_len(t) + 1 as int))
        } else {
            (Some(t), seq![])
        }
    } else {
        (None, s)
    }
}

/// The parts of one IRC line, as bytes.
pub struct LineView {
    pub tags: Option<Seq<u8>>,
    pub prefix: Option<Seq<u8>>,
    pub command: Seq<u8>,
    pub params: Seq<Seq<u8>>,
    pub trailing: Option<Seq<u8>>,
}

/// `[@tags SP] [:prefix SP] command (SP middle)* [SP :trailing]`, with runs of
/// spaces between words taken as one.
pub open spec fn parse_line(l: Seq<u8>) -> LineView {
    let (tags, r1) = split_marked(l, AT);
    let (prefix, r2) = split_marked(r1, COLON);
    let j = trailing_at(r2);
    let head = r2.take(j as int);
    let trailing = if j < r2.len() {
        Some(r2.skip(j + 2 as int))
    } else {
        None
    };
    let ws = words(head);
    LineView {
        tags,
        prefix,
        command: if ws.len() > 0 {
            ws[0]
        } else {
            seq![]
        },
        params: if ws.len() > 0 {
            ws.drop_first()
        } else {
            seq![]
        },
        trailing,
    }
}

/// The parts of one IRC line.
pub struct Line {
    pub tags: Option<Vec<u8>>,
    pub prefix: Option<Vec<u8>>,
    pub command: Vec<u8>,
    pub params: Vec<Vec<u8>>,
    pub trailing: Option<Vec<u8>>,
}

pub open spec fn views(v: Seq<Vec<u8>>) -> Seq<Seq<u8>> {
    v.map_values(|x: Vec<u8>| x@)
}

pub open spec fn opt_view(o: Option<Vec<u8>>) -> Option<Seq<u8>> {
    match o {
        Some(v) => Some(v@),
        None => None,
    }
}

impl View for Line {
    type V = LineView;

    open spec fn view(&self) -> LineView {
        LineView {
            tags: opt_view(self.tags),
            prefix: opt_view(self.prefix),
            command: self.command@,
            params: views(self.params@),
            trailing: opt_view(self.trailing),
        }
    }
}

proof fn lemma_word_len_step(s: Seq<u8>, i: int)
    requires
        0 <= i < s.len(),
        s[i] != SPACE,
    ensures
        word_len(s.skip(i)) == 1 + word_len(s.skip(i + 1)),
{
    assert(s.skip(i).drop_first() =~= s.skip(i + 1));
}

pub proof fn lemma_word_len_bounds(s: Seq<u8>)
    ensures
        word_len(s) <= s.len(),
        word_len(s) < s.len() ==> s[word_len(s) as int] == SPACE,
        forall|i: int| 0 <= i < word_len(s) ==> #[trigger] s[i] != SPACE,
    decreases s.len(),
{
    if s.len() > 0 && s[0] != SPACE {
        lemma_word_len_bounds(s.drop_first());
        assert forall|i: int| 0 <= i < word_len(s) implies #[trigger] s[i] != SPACE by {
            if i > 0 {
                assert(s[i] == s.drop_first()[i - 1]);
            }
        }
    }
}

pub proof fn lemma_trailing_at_bounds(s: Seq<u8>)
    ensures
        trailing_at(s) <= s.len(),
        trailing_at(s) < s.len() ==> trailing_at(s) + 2 <= s.len() && s[trailing_at(s) as int]
            == SPACE && s[trailing_at(s) + 1 as int] == COLON,
    decreases s.len(),
{
    if s.len() >= 2 && !(s[0] == SPACE && s[1] == COLON) {
        lemma_trailing_at_bounds(s.drop_first());
    }
}

/// Index of the first space at or after `from`, or the length when there is none.
pub fn find_space(s: &[u8], from: usize) -> (r: usize)
    requires
        from <= s@.len(),
    ensures
        r == from + word_len(s@.skip(from as int)),
        r <= s@.len(),
{
    let mut i: usize = from;
    while i < s.len()
        invariant
            from <= i <= s@.len(),
            from + word_len(s@.skip(from as int)) == i + word_len(s@.skip(i as int)),
        decreases s@.len() - i,
    {
        if s[i] == SPACE {
            assert(s@.skip(i as int)[0] == s@[i as int]);
            return i;
        }
        proof {
            lemma_word_len_step(s@, i as int);
        }
        i = i + 1;
    }
    i
}

/// Position of the first space followed by a colon at or after `from`, or
/// the length when there is none.
pub fn find_trailing(s: &[u8], from: usize) -> (r: usize)
    requires
        from <= s@.len(),
    ensures
        r == from + trailing_at(s@.skip(from as int)),
        r <= s@.len(),
{
    let mut i: usize = from;
    while i < s.len() && s.len() - i >= 2
        invariant
            from <= i <= s@.len(),
            from + trailing_at(s@.skip(from as int)) == i + trailing_at(s@.skip(i as int)),
        decreases s@.len() - i,
    {
        if s[i] == SPACE && s[i + 1] == COLON {
            assert(s@.skip(i as int)[0] == s@[i as int]);
            assert(s@.skip(i as int)[1] == s@[i + 1]);
            return i;
        }
        assert(s@.skip(i as int).drop_first() =~= s@.skip(i + 1));
        i = i + 1;
    }
    s.len()
}

/// Splits off the field that starts at `from` with `marker`, if there is one:
/// the field, and the position where the rest of the line starts.
fn split_marked_at(l: &[u8], from: usize, marker: u8) -> (r: (Option<Vec<u8>>, usize))
    requires
        from <= l@.len(),
    ensures
        r.1 <= l@.len(),
        (opt_view(r.0), l@.skip(r.1 as int)) == split_marked(l@.skip(from as int), marker),
{
    let ghost s = l@.skip(from as int);
    if from < l.len() && l[from] == marker {
        assert(s[0] == l@[from as int]);
        let ghost t = s.drop_first();
        assert(t =~= l@.skip(from + 1));
        let k = find_space(l, from + 1);
        let f = copy_range(l, from + 1, k);
        assert(f@ =~= t.take(word_len(t) as int));
        if k < l.len() {
            assert(t.skip(word_len(t) + 1 as int) =~= l@.skip(k + 1));
            (Some(f), k + 1)
        } else {
            assert(t =~= t.take(word_len(t) as int));
            assert(l@.skip(k as int) =~= Seq::<u8>::empty());
            (Some(f), k)
        }
    } else {
        (None, from)
    }
}

/// Splits one line (without its terminator) into its parts.
pub fn split_line(l: &[u8]) -> (r: Line)
    ensures
        r@ == parse_line(l@),
{
    assert(l@.skip(0) =~= l@);
    let (tags, after_tags) = split_marked_at(l, 0, AT);
    let (prefix, after_prefix) = split_marked_at(l, after_tags, COLON);
    let ghost r2 = l@.skip(after_prefix as int);
    let j = find_trailing(l, after_prefix);
    proof {
        lemma_trailing_at_bounds(r2);
    }
    let head = copy_range(l, after_prefix, j);
    assert(head@ =~= r2.take(trailing_at(r2) as int));
    assert(head@.skip(0) =~= head@);
    let mut ws = split_words(head.as_slice(), 0);
    let trailing = if j < l.len() {
        let t = copy_range(l, j + 2, l.len());
        assert(t@ =~= r2.skip(trailing_at(r2) + 2 as int));
        Some(t)
    } else {
        None
    };
    let ghost ws0 = views(ws@);
    let command = if ws.len() > 0 {
        let c = ws.remove(0);
        assert(views(ws@) =~= ws0.drop_first());
        c
    } else {
        assert(views(ws@) =~= Seq::<Seq<u8>>::empty());
        Vec::new()
    };
    Line { tags, prefix, command, params: ws, trailing }
}

/// The words of `s[from..]`.
pub fn split_words(s: &[u8], from: usize) -> (r: Vec<Vec<u8>>)
    requires
        from <= s@.len(),
    ensures
        views(r@) == words(s@.skip(from as int)),
{
    let mut out: Vec<Vec<u8>> = Vec::new();
    let mut i: usize = from;
    while i < s.len()
        invariant
            from <= i <= s@.len(),
            words(s@.skip(from as int)) == views(out@) + words(s@.skip(i as int)),
        decreases s@.len() - i,
    {
        let ghost t = s@.skip(i as int);
        if s[i] == SPACE {
            assert(t[0] == s@[i as int]);
            assert(t.drop_first() =~= s@.skip(i + 1));
            i = i + 1;
        } else {
            assert(t[0] == s@[i as int]);
            let k = find_space(s, i);
            let w = copy_range(s, i, k);
            assert(w@ =~= t.take(word_len(t) as int));
            let ghost before = views(out@);
            out.push(w);
            assert(views(out@) =~= before.push(w@));
            if k < s.len() {
                assert(t.skip(word_len(t) + 1 as int) =~= s@.skip(k + 1));
                i = k + 1;
            } else {
                assert(t =~= t.take(word_len(t) as int));
                assert(s@.skip(k as int) =~= Seq::<u8>::empty());
                i = k;
            }
            assert(words(s@.skip(from as int)) =~= views(out@) + words(s@.skip(i as int)));
        }
    }
    assert(s@.skip(i as int) =~= Seq::<u8>::empty());
    assert(views(out@) + Seq::<Seq<u8>>::empty() =~= views(out@));
    out
}

/// A leading field: its marker, the field, and the space that ends it.
pub open spec fn marked(o: Option<Seq<u8>>, marker: u8) -> Seq<u8> {
    match o {
        Some(t) => seq![marker] + t + seq![SPACE],
        None => seq![],
    }
}

/// Each middle parameter, with the space that comes before it.
pub open spec fn middles(ps: Seq<Seq<u8>>) -> Seq<u8>
    decreases ps.len(),
{
    if ps.len() == 0 {
        seq![]
    } else {
        seq![SPACE] + ps[0] + middles(ps.drop_first())
    }
}

/// The trailing parameter, with the space and colon that open it.
pub open spec fn trail(o: Option<Seq<u8>>) -> Seq<u8> {
    match o {
        Some(t) => seq![SPACE, COLON] + t,
        None => seq![],
    }
}

/// The text of a line from its parts, without a terminator.
pub open spec fn render_line(l: LineView) -> Seq<u8> {
    marked(l.tags, AT) + marked(l.prefix, COLON) + l.command + middles(l.params) + trail(l.trailing)
}

fn append_bytes(out: &mut Vec<u8>, b: &[u8])
    ensures
        final(out)@ == old(out)@ + b@,
{
    let mut i: usize = 0;
    while i < b.len()
        invariant
            i <= b@.len(),
            out@ == old(out)@ + b@.take(i as int),
        decreases b@.len() - i,
    {
        out.push(b[i]);
        i = i + 1;
        assert(out@ =~= old(out)@ + b@.take(i as int));
    }
    assert(b@.take(b@.len() as int) =~= b@);
}

fn append_marked(out: &mut Vec<u8>, o: &Option<Vec<u8>>, marker: u8)
    ensures
        final(out)@ == old(out)@ + marked(opt_view(*o), marker),
{
    match o {
        Some(t) => {
            out.push(marker);
            append_bytes(out, t.as_slice());
            out.push(SPACE);
            assert(final(out)@ =~= old(out)@ + marked(opt_view(*o), marker));
        },
        None => {
            assert(out@ =~= old(out)@ + marked(opt_view(*o), marker));
        },
    }
}

/// Writes the parts of a line as its text, without a terminator.
pub fn render(l: &Line) -> (r: Vec<u8>)
    ensures
        r@ == render_line(l@),
{
    let mut out: Vec<u8> = Vec::new();
    append_marked(&mut out, &l.tags, AT);
    append_marked(&mut out, &l.prefix, COLON);
    append_bytes(&mut out, l.command.as_slice());
    let ghost base = out@;
    let ghost ps = views(l.params@);
    let mut i: usize = 0;
    assert(ps.skip(0) =~= ps);
    while i < l.params.len()
        invariant
            i <= l.params@.len(),
            ps == views(l.params@),
            out@ + middles(ps.skip(i as int)) == base + middles(ps),
        decreases l.params@.len() - i,
    {
        assert(ps.skip(i as int).drop_first() =~= ps.skip(i + 1));
        assert(ps.skip(i as int)[0] == l.params@[i as int]@);
        out.push(SPACE);
        append_bytes(&mut out, l.params[i].as_slice());
        i = i + 1;
        assert(out@ + middles(ps.skip(i as int)) =~= base + middles(ps));
    }
    assert(ps.skip(i as int) =~= Seq::<Seq<u8>>::empty());
    assert(out@ =~= base + middles(ps));
    match &l.trailing {
        Some(t) => {
            out.push(SPACE);
            out.push(COLON);
            append_bytes(&mut out, t.as_slice());
        },
        None => {},
    }
    assert(out@ =~= render_line(l@));
    out
}

} // verus!
