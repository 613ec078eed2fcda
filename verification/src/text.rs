use vstd::prelude::*;

verus! {

/// Unicode `White_Space`: the characters that separate tokens.
pub open spec fn is_whitespace(c: char) -> bool {
    let u = c as u32;
    ||| 0x09 <= u <= 0x0D
    ||| u == 0x20
    ||| u == 0x85
    ||| u == 0xA0
    ||| u == 0x1680
    ||| 0x2000 <= u <= 0x200A
    ||| u == 0x2028
    ||| u == 0x2029
    ||| u == 0x202F
    ||| u == 0x205F
    ||| u == 0x3000
}

/// Whether `c` is Unicode whitespace.
pub fn char_is_whitespace(c: char) -> (ws: bool)
    ensures
        ws == is_whitespace(c),
{
    let u = c as u32;
    (0x09 <= u && u <= 0x0D) || u == 0x20 || u == 0x85 || u == 0xA0 || u == 0x1680 || (0x2000 <= u
        && u <= 0x200A) || u == 0x2028 || u == 0x2029 || u == 0x202F || u == 0x205F || u == 0x3000
}

/// The pieces of `s` between newline characters; there is always at least one.
pub open spec fn segments(s: Seq<char>) -> Seq<Seq<char>>
    decreases s.len(),
{
    if s.len() == 0 {
        seq![Seq::empty()]
    } else {
        let p = segments(s.drop_last());
        if s.last() == '\n' {
            p.push(Seq::empty())
        } else {
            p.update(p.len() - 1, p.last().push(s.last()))
        }
    }
}

/// `segments` never returns an empty sequence.
pub proof fn lemma_segments_nonempty(s: Seq<char>)
    ensures
        segments(s).len() >= 1,
    decreases s.len(),
{
    if s.len() > 0 {
        lemma_segments_nonempty(s.drop_last());
    }
}

/// A line with one trailing carriage return removed.
pub open spec fn strip_cr(l: Seq<char>) -> Seq<char> {
    if l.len() > 0 && l.last() == '\r' {
        l.drop_last()
    } else {
        l
    }
}

/// The lines of a text: split at `\n` or `\r\n`; a final line ending is
/// optional and adds no empty line.
pub open spec fn lines(s: Seq<char>) -> Seq<Seq<char>> {
    let g = segments(s);
    let body = Seq::new((g.len() - 1) as nat, |k: int| strip_cr(g[k]));
    if g.last().len() == 0 {
        body
    } else {
        body.push(g.last())
    }
}

/// The maximal runs of non-whitespace characters of `l`, in order.
pub open spec fn tokens(l: Seq<char>) -> Seq<Seq<char>>
    decreases l.len(),
{
    if l.len() == 0 {
        seq![]
    } else {
        let p = tokens(l.drop_last());
        let c = l.last();
        if is_whitespace(c) {
            p
        } else if l.len() >= 2 && !is_whitespace(l[l.len() - 2]) {
            p.update(p.len() - 1, p.last().push(c))
        } else {
            p.push(seq![c])
        }
    }
}

/// A text ending in a non-whitespace character has at least one token.
pub proof fn lemma_tokens_nonempty(l: Seq<char>)
    requires
        l.len() >= 1,
        !is_whitespace(l.last()),
    ensures
        tokens(l).len() >= 1,
    decreases l.len(),
{
    if l.len() >= 2 && !is_whitespace(l[l.len() - 2]) {
        assert(l.drop_last().last() == l[l.len() - 2]);
        lemma_tokens_nonempty(l.drop_last());
    }
}

/// The views of a vector of character vectors.
pub open spec fn views(v: Seq<Vec<char>>) -> Seq<Seq<char>> {
    v.map_values(|x: Vec<char>| x@)
}

/// The characters of a string, in order.
pub fn chars_of(s: &str) -> (v: Vec<char>)
    ensures
        v@ == s@,
{
    let mut v: Vec<char> = Vec::new();
    for c in it: s.chars()
        invariant
            v@ == it.seq().take(it.index() as int),
    {
        v.push(c);
    }
    v
}

/// An element-wise copy of a character vector.
pub fn copy_chars(s: &Vec<char>) -> (v: Vec<char>)
    ensures
        v@ == s@,
{
    let mut v: Vec<char> = Vec::new();
    for i in 0..s.len()
        invariant
            v@ == s@.take(i as int),
    {
        v.push(s[i]);
        assert(v@ =~= s@.take(i + 1));
    }
    assert(s@.take(s.len() as int) =~= s@);
    v
}

/// Whether two character sequences are equal.
pub fn chars_eq(a: &Vec<char>, b: &Vec<char>) -> (eq: bool)
    ensures
        eq == (a@ == b@),
{
    if a.len() != b.len() {
        return false;
    }
    for i in 0..a.len()
        invariant
            a.len() == b.len(),
            forall|j: int| 0 <= j < i ==> a@[j] == b@[j],
    {
        if a[i] != b[i] {
            return false;
        }
    }
    assert(a@ =~= b@);
    true
}

/// Whether a token is the word `w`.
pub fn is_word(t: &Vec<char>, w: &str) -> (eq: bool)
    ensures
        eq == (t@ == w@),
{
    let wc = chars_of(w);
    chars_eq(t, &wc)
}

/// Splits a text into lines, as `lines` describes.
pub fn split_lines(src: &Vec<char>) -> (ls: Vec<Vec<char>>)
    ensures
        views(ls@) == lines(src@),
{
    let mut done: Vec<Vec<char>> = Vec::new();
    let mut cur: Vec<char> = Vec::new();
    proof {
        assert(src@.take(0) =~= Seq::<char>::empty());
    }
    for i in 0..src.len()
        invariant
            segments(src@.take(i as int)).len() == done.len() + 1,
            forall|k: int|
                0 <= k < done.len() ==> #[trigger] done@[k]@ == strip_cr(
                    segments(src@.take(i as int))[k],
                ),
            cur@ == segments(src@.take(i as int)).last(),
    {
        let c = src[i];
        proof {
            assert(src@.take(i + 1).drop_last() =~= src@.take(i as int));
            lemma_segments_nonempty(src@.take(i as int));
        }
        if c == '\n' {
            let ghost before = cur@;
            if cur.len() > 0 && cur[cur.len() - 1] == '\r' {
                cur.pop();
            }
            assert(cur@ == strip_cr(before));
            done.push(cur);
            cur = Vec::new();
        } else {
            cur.push(c);
        }
    }
    assert(src@.take(src.len() as int) =~= src@);
    if cur.len() > 0 {
        done.push(cur);
    }
    assert(views(done@) =~= lines(src@));
    done
}

/// The tokens of a line, as `tokens` describes.
pub fn split_tokens(line: &Vec<char>) -> (ts: Vec<Vec<char>>)
    ensures
        views(ts@) == tokens(line@),
{
    let mut ts: Vec<Vec<char>> = Vec::new();
    proof {
        assert(line@.take(0) =~= Seq::<char>::empty());
        assert(views(ts@) =~= tokens(line@.take(0)));
    }
    for i in 0..line.len()
        invariant
            views(ts@) == tokens(line@.take(i as int)),
    {
        let c = line[i];
        let ghost pre = line@.take(i as int);
        let ghost cur = line@.take(i + 1);
        proof {
            assert(cur.drop_last() =~= pre);
        }
        if char_is_whitespace(c) {
        } else if i >= 1 && !char_is_whitespace(line[i - 1]) {
            proof {
                assert(pre.last() == line@[i - 1]);
                lemma_tokens_nonempty(pre);
            }
            let mut t = ts.pop().unwrap();
            t.push(c);
            ts.push(t);
            assert(views(ts@) =~= tokens(cur));
        } else {
            let mut t: Vec<char> = Vec::new();
            t.push(c);
            ts.push(t);
            assert(views(ts@) =~= tokens(cur));
        }
    }
    assert(line@.take(line.len() as int) =~= line@);
    ts
}

/// The value of a sequence of decimal digits.
pub open spec fn digits_value(d: Seq<char>) -> int
    decreases d.len(),
{
    if d.len() == 0 {
        0
    } else {
        digits_value(d.drop_last()) * 10 + (d.last() as int - '0' as int)
    }
}

/// All characters are ASCII decimal digits.
pub open spec fn all_digits(d: Seq<char>) -> bool {
    forall|i: int| 0 <= i < d.len() ==> '0' <= #[trigger] d[i] <= '9'
}

/// A byte written in decimal, with an optional leading `+`: the syntax that
/// unsigned integer parsing accepts.
pub open spec fn parse_u8(t: Seq<char>) -> Option<u8> {
    let d = if t.len() > 0 && t[0] == '+' {
        t.drop_first()
    } else {
        t
    };
    if d.len() == 0 || !all_digits(d) || digits_value(d) > 255 {
        None
    } else {
        Some(digits_value(d) as u8)
    }
}

/// A digit string has a non-negative value.
pub proof fn lemma_digits_value_nonneg(d: Seq<char>)
    requires
        all_digits(d),
    ensures
        digits_value(d) >= 0,
    decreases d.len(),
{
    if d.len() > 0 {
        assert(all_digits(d.drop_last()));
        lemma_digits_value_nonneg(d.drop_last());
    }
}

/// Parses a byte in decimal, as `parse_u8` describes.
pub fn parse_byte(t: &Vec<char>) -> (r: Option<u8>)
    ensures
        r == parse_u8(t@),
{
    let start: usize = if t.len() > 0 && t[0] == '+' {
        1
    } else {
        0
    };
    let ghost d = if t@.len() > 0 && t@[0] == '+' {
        t@.drop_first()
    } else {
        t@
    };
    assert(d =~= t@.subrange(start as int, t@.len() as int));
    if start >= t.len() {
        return None;
    }
    let mut acc: u32 = 0;
    let mut i: usize = start;
    while i < t.len()
        invariant
            start <= i <= t.len(),
            d == t@.subrange(start as int, t@.len() as int),
            d == (if t@.len() > 0 && t@[0] == '+' {
                t@.drop_first()
            } else {
                t@
            }),
            all_digits(t@.subrange(start as int, i as int)),
            acc == if digits_value(t@.subrange(start as int, i as int)) < 256 {
                digits_value(t@.subrange(start as int, i as int))
            } else {
                256
            },
        decreases t.len() - i,
    {
        let c = t[i];
        let ghost pre = t@.subrange(start as int, i as int);
        let ghost next = t@.subrange(start as int, i + 1);
        assert(next.drop_last() =~= pre);
        if c < '0' || c > '9' {
            assert(d[i - start] == c);
            assert(!all_digits(d));
            return None;
        }
        assert(all_digits(next));
        proof {
            lemma_digits_value_nonneg(pre);
        }
        let dig = (c as u32) - ('0' as u32);
        acc = if acc >= 256 {
            256
        } else if acc * 10 + dig >= 256 {
            256
        } else {
            acc * 10 + dig
        };
        i = i + 1;
    }
    assert(t@.subrange(start as int, i as int) =~= d);
    if acc >= 256 {
        None
    } else {
        Some(acc as u8)
    }
}


/// Spaces, tabs, carriage returns and newlines separate tokens; ASCII
/// letters, digits and the punctuation of mnemonics do not.
pub proof fn lemma_whitespace_classes(c: char)
    ensures
        is_whitespace(' ') && is_whitespace('\t') && is_whitespace('\r') && is_whitespace('\n'),
        ('a' <= c <= 'z' || 'A' <= c <= 'Z' || '0' <= c <= '9' || c == '=' || c == '-' || c == '<'
            || c == '>' || c == '#' || c == '+' || c == '_') ==> !is_whitespace(c),
{
}

/// A whitespace character splits the token list: the tokens of
/// `a + [c] + b` are those of `a` followed by those of `b`.
pub proof fn lemma_tokens_split(a: Seq<char>, c: char, b: Seq<char>)
    requires
        is_whitespace(c),
    ensures
        tokens(a + seq![c] + b) == tokens(a) + tokens(b),
    decreases b.len(),
{
    let l = a + seq![c] + b;
    if b.len() == 0 {
        assert(l.drop_last() =~= a);
        assert(b =~= Seq::<char>::empty());
        assert(tokens(a) + tokens(b) =~= tokens(a));
    } else {
        let b1 = b.drop_last();
        let d = b.last();
        lemma_tokens_split(a, c, b1);
        assert(l.drop_last() =~= a + seq![c] + b1);
        let p = tokens(a + seq![c] + b1);
        assert(p == tokens(a) + tokens(b1));
        if is_whitespace(d) {
        } else if b1.len() >= 1 && !is_whitespace(b1.last()) {
            assert(l[l.len() - 2] == b1.last());
            assert(b[b.len() - 2] == b1.last());
            lemma_tokens_nonempty(b1);
            assert(tokens(b) == tokens(b1).update(tokens(b1).len() - 1, tokens(b1).last().push(d)));
            assert(tokens(l) =~= tokens(a) + tokens(b));
        } else {
            if b1.len() >= 1 {
                assert(l[l.len() - 2] == b1.last());
                assert(b[b.len() - 2] == b1.last());
            } else {
                assert(l[l.len() - 2] == c);
            }
            assert(tokens(b) == tokens(b1).push(seq![d]));
            assert(tokens(l) =~= tokens(a) + tokens(b));
        }
    }
}

/// A non-empty run without whitespace is a single token.
pub proof fn lemma_tokens_word(w: Seq<char>)
    requires
        w.len() > 0,
        forall|i: int| 0 <= i < w.len() ==> !is_whitespace(#[trigger] w[i]),
    ensures
        tokens(w) == seq![w],
    decreases w.len(),
{
    if w.len() == 1 {
        assert(w.drop_last() =~= Seq::<char>::empty());
        assert(!is_whitespace(w[0]));
        assert(w.last() == w[0]);
        assert(seq![w.last()] =~= w);
        assert(tokens(w.drop_last()) == Seq::<Seq<char>>::empty());
        assert(tokens(w) =~= seq![seq![w.last()]]);
    } else {
        let w1 = w.drop_last();
        assert(forall|i: int| 0 <= i < w1.len() ==> w1[i] == w[i]);
        lemma_tokens_word(w1);
        assert(w[w.len() - 2] == w1.last());
        assert(!is_whitespace(w[w.len() - 1]));
        assert(w1.push(w.last()) =~= w);
        assert(tokens(w) =~= seq![w]);
    }
}

/// The tokens of a text consisting of whitespace only are none.
pub proof fn lemma_tokens_of_blank(w: Seq<char>)
    requires
        forall|i: int| 0 <= i < w.len() ==> is_whitespace(#[trigger] w[i]),
    ensures
        tokens(w) == Seq::<Seq<char>>::empty(),
    decreases w.len(),
{
    if w.len() > 0 {
        let w1 = w.drop_last();
        assert(forall|i: int| 0 <= i < w1.len() ==> w1[i] == w[i]);
        lemma_tokens_of_blank(w1);
        assert(is_whitespace(w[w.len() - 1]));
    }
}

/// A newline splits the segments: the segments of `a + ['\n'] + b` are
/// those of `a` followed by those of `b`.
pub proof fn lemma_segments_split(a: Seq<char>, b: Seq<char>)
    ensures
        segments(a + seq!['\n'] + b) == segments(a) + segments(b),
    decreases b.len(),
{
    let l = a + seq!['\n'] + b;
    if b.len() == 0 {
        assert(l.drop_last() =~= a);
        assert(b =~= Seq::<char>::empty());
        assert(segments(l) =~= segments(a) + segments(b));
    } else {
        let b1 = b.drop_last();
        lemma_segments_split(a, b1);
        assert(l.drop_last() =~= a + seq!['\n'] + b1);
        lemma_segments_nonempty(b1);
        lemma_segments_nonempty(a);
        assert(segments(l) =~= segments(a) + segments(b));
    }
}

/// A text without newlines is a single segment.
pub proof fn lemma_segments_no_newline(w: Seq<char>)
    requires
        forall|i: int| 0 <= i < w.len() ==> #[trigger] w[i] != '\n',
    ensures
        segments(w) == seq![w],
    decreases w.len(),
{
    if w.len() == 0 {
        assert(w =~= Seq::<char>::empty());
    } else {
        let w1 = w.drop_last();
        assert(forall|i: int| 0 <= i < w1.len() ==> w1[i] == w[i]);
        lemma_segments_no_newline(w1);
        assert(w[w.len() - 1] != '\n');
        assert(w1.push(w.last()) =~= w);
        assert(segments(w) =~= seq![w]);
    }
}

} // verus!
