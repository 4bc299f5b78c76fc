//! Character-sequence model of the text operations the codecs rest on:
//! whitespace trimming, prefix tests, splitting into lines and joining them.

use vstd::prelude::*;
use vstd::string::*;

verus! {

/// The whitespace characters the trimming functions recognise: the
/// Unicode White_Space set, as `char::is_whitespace` documents it.
pub open spec fn is_ws(c: char) -> bool {
    let u = c as u32;
    u == 0x09 || u == 0x0A || u == 0x0B || u == 0x0C || u == 0x0D || u == 0x20 || u == 0x85
        || u == 0xA0 || u == 0x1680 || (0x2000 <= u && u <= 0x200A) || u == 0x2028 || u == 0x2029
        || u == 0x202F || u == 0x205F || u == 0x3000
}

/// A sequence is trimmed when it is empty or neither starts nor ends
/// with whitespace.
pub open spec fn is_trimmed(s: Seq<char>) -> bool {
    s.len() == 0 || (!is_ws(s[0]) && !is_ws(s[s.len() - 1]))
}

pub open spec fn trim_start(s: Seq<char>) -> Seq<char>
    decreases s.len(),
{
    if s.len() > 0 && is_ws(s[0]) {
        trim_start(s.skip(1))
    } else {
        s
    }
}

pub open spec fn trim_end(s: Seq<char>) -> Seq<char>
    decreases s.len(),
{
    if s.len() > 0 && is_ws(s[s.len() - 1]) {
        trim_end(s.take(s.len() - 1))
    } else {
        s
    }
}

pub open spec fn trim(s: Seq<char>) -> Seq<char> {
    trim_end(trim_start(s))
}

/// `s` begins with the prefix `p`.
pub open spec fn starts_with(s: Seq<char>, p: Seq<char>) -> bool {
    p.len() <= s.len() && (forall|i: int| 0 <= i < p.len() ==> s[i] == p[i])
}

/// Split on every newline character; the result always has one more piece
/// than `s` has newlines, so it is never empty.
pub open spec fn split_nl(s: Seq<char>) -> Seq<Seq<char>>
    decreases s.len(),
{
    if s.len() == 0 {
        seq![Seq::<char>::empty()]
    } else if s[0] == '\n' {
        seq![Seq::<char>::empty()] + split_nl(s.skip(1))
    } else {
        let rest = split_nl(s.skip(1));
        rest.update(0, seq![s[0]] + rest[0])
    }
}

/// The raw lines of `s`: split on newlines, except that a final newline
/// does not open an extra empty line, and the empty text has no lines.
pub open spec fn raw_lines(s: Seq<char>) -> Seq<Seq<char>> {
    if s.len() == 0 {
        Seq::<Seq<char>>::empty()
    } else if s[s.len() - 1] == '\n' {
        split_nl(s.take(s.len() - 1))
    } else {
        split_nl(s)
    }
}

/// One trailing carriage return removed, so that a `\r\n` ending counts
/// as a plain line ending, as Rust's `str::lines` treats it.
pub open spec fn strip_cr(l: Seq<char>) -> Seq<char> {
    if l.len() > 0 && l[l.len() - 1] == '\r' {
        l.take(l.len() - 1)
    } else {
        l
    }
}

/// The lines of `s` as the codecs see them: the raw lines, each with a
/// trailing carriage return stripped.
pub open spec fn spec_lines(s: Seq<char>) -> Seq<Seq<char>> {
    raw_lines(s).map_values(|l: Seq<char>| strip_cr(l))
}

/// Join pieces with a single newline between consecutive pieces.
pub open spec fn join_nl(ls: Seq<Seq<char>>) -> Seq<char>
    decreases ls.len(),
{
    if ls.len() == 0 {
        Seq::<char>::empty()
    } else if ls.len() == 1 {
        ls[0]
    } else {
        ls[0] + seq!['\n'] + join_nl(ls.skip(1))
    }
}

/// Index of the first occurrence of `c` in `s`, or -1 when absent.
pub open spec fn find_char(s: Seq<char>, c: char) -> int
    decreases s.len(),
{
    if s.len() == 0 {
        -1
    } else if s[0] == c {
        0
    } else {
        let r = find_char(s.skip(1), c);
        if r < 0 {
            -1
        } else {
            r + 1
        }
    }
}

pub proof fn lemma_split_nl_nonempty(s: Seq<char>)
    ensures
        split_nl(s).len() >= 1,
    decreases s.len(),
{
    if s.len() > 0 {
        lemma_split_nl_nonempty(s.skip(1));
    }
}

/// Splitting at a separator: the pieces left of the newline and right of it.
pub proof fn lemma_split_nl_concat(a: Seq<char>, b: Seq<char>)
    ensures
        split_nl(a + seq!['\n'] + b) == split_nl(a) + split_nl(b),
    decreases a.len(),
{
    let s = a + seq!['\n'] + b;
    lemma_split_nl_nonempty(b);
    if a.len() == 0 {
        assert(s =~= seq!['\n'] + b);
        assert(s.skip(1) =~= b);
        assert(split_nl(s) =~= split_nl(a) + split_nl(b));
    } else if a[0] == '\n' {
        lemma_split_nl_concat(a.skip(1), b);
        assert(s.skip(1) =~= a.skip(1) + seq!['\n'] + b);
        assert(split_nl(s) =~= split_nl(a) + split_nl(b));
    } else {
        lemma_split_nl_concat(a.skip(1), b);
        assert(s.skip(1) =~= a.skip(1) + seq!['\n'] + b);
        lemma_split_nl_nonempty(a.skip(1));
        let ra = split_nl(a.skip(1));
        let rs = split_nl(s.skip(1));
        assert(rs == ra + split_nl(b));
        assert(rs[0] == ra[0]);
        assert(rs.update(0, seq![s[0]] + rs[0]) =~= ra.update(0, seq![a[0]] + ra[0]) + split_nl(b));
        assert(split_nl(s) =~= split_nl(a) + split_nl(b));
    }
}

/// A piece without newlines splits into itself alone.
pub proof fn lemma_split_nl_single(s: Seq<char>)
    requires
        forall|i: int| 0 <= i < s.len() ==> s[i] != '\n',
    ensures
        split_nl(s) == seq![s],
    decreases s.len(),
{
    if s.len() == 0 {
        assert(s =~= Seq::<char>::empty());
        assert(split_nl(s) =~= seq![s]);
    } else {
        assert(forall|i: int| 0 <= i < s.skip(1).len() ==> s.skip(1)[i] != '\n');
        lemma_split_nl_single(s.skip(1));
        assert(seq![s[0]] + s.skip(1) =~= s);
        assert(split_nl(s) =~= seq![s]);
    }
}

/// Joining the split of a text gives the text back.
pub proof fn lemma_join_split_nl(s: Seq<char>)
    ensures
        join_nl(split_nl(s)) == s,
    decreases s.len(),
{
    if s.len() == 0 {
        assert(join_nl(split_nl(s)) =~= s);
    } else if s[0] == '\n' {
        lemma_join_split_nl(s.skip(1));
        lemma_split_nl_nonempty(s.skip(1));
        let ls = seq![Seq::<char>::empty()] + split_nl(s.skip(1));
        assert(ls.skip(1) =~= split_nl(s.skip(1)));
        assert(join_nl(ls) =~= s);
    } else {
        lemma_join_split_nl(s.skip(1));
        lemma_split_nl_nonempty(s.skip(1));
        let rest = split_nl(s.skip(1));
        let ls = rest.update(0, seq![s[0]] + rest[0]);
        if rest.len() == 1 {
            assert(join_nl(ls) == seq![s[0]] + rest[0]);
            assert(join_nl(ls) =~= s);
        } else {
            assert(ls.skip(1) =~= rest.skip(1));
            assert(join_nl(ls) == (seq![s[0]] + rest[0]) + seq!['\n'] + join_nl(rest.skip(1)));
            assert(join_nl(rest) == rest[0] + seq!['\n'] + join_nl(rest.skip(1)));
            assert(join_nl(ls) =~= seq![s[0]] + join_nl(rest));
            assert(seq![s[0]] + s.skip(1) =~= s);
        }
    }
}

/// Joining two runs of pieces joins their joins around one newline.
pub proof fn lemma_join_nl_concat(x: Seq<Seq<char>>, y: Seq<Seq<char>>)
    requires
        x.len() > 0,
        y.len() > 0,
    ensures
        join_nl(x + y) == join_nl(x) + seq!['\n'] + join_nl(y),
    decreases x.len(),
{
    if x.len() == 1 {
        assert((x + y).skip(1) =~= y);
        assert((x + y)[0] == x[0]);
        assert(join_nl(x + y) =~= join_nl(x) + seq!['\n'] + join_nl(y));
    } else {
        lemma_join_nl_concat(x.skip(1), y);
        assert((x + y).skip(1) =~= x.skip(1) + y);
        assert((x + y)[0] == x[0]);
        assert(join_nl(x + y) =~= join_nl(x) + seq!['\n'] + join_nl(y));
    }
}

/// Appending one character extends the last piece, or opens a new one.
pub proof fn lemma_split_nl_push(s: Seq<char>, c: char)
    ensures
        c == '\n' ==> split_nl(s.push(c)) == split_nl(s) + seq![Seq::<char>::empty()],
        c != '\n' ==> split_nl(s.push(c)) == split_nl(s).update(
            split_nl(s).len() - 1,
            split_nl(s).last().push(c),
        ),
    decreases s.len(),
{
    lemma_split_nl_nonempty(s);
    if c == '\n' {
        assert(s.push(c) =~= s + seq!['\n'] + Seq::<char>::empty());
        lemma_split_nl_concat(s, Seq::<char>::empty());
    } else {
        if s.len() == 0 {
            assert(s.push(c).len() == 1);
            assert(s.push(c)[0] == c);
            assert(s.push(c).skip(1) =~= Seq::<char>::empty());
            let rest = split_nl(s.push(c).skip(1));
            assert(rest == seq![Seq::<char>::empty()]);
            assert(split_nl(s.push(c)) == rest.update(0, seq![c] + rest[0]));
            assert(split_nl(s.push(c)) =~~= split_nl(s).update(0, split_nl(s).last().push(c)));
        } else {
            lemma_split_nl_push(s.skip(1), c);
            lemma_split_nl_nonempty(s.skip(1));
            assert(s.push(c)[0] == s[0]);
            assert(s.push(c).skip(1) =~= s.skip(1).push(c));
            let r = split_nl(s.skip(1));
            let rp = split_nl(s.skip(1).push(c));
            let n = r.len() as int;
            assert(rp == r.update(n - 1, r.last().push(c)));
            if s[0] == '\n' {
                assert(split_nl(s.push(c)) == seq![Seq::<char>::empty()] + rp);
                assert(split_nl(s) == seq![Seq::<char>::empty()] + r);
                assert(split_nl(s).last() == r.last());
                assert(seq![Seq::<char>::empty()] + rp =~~= (seq![Seq::<char>::empty()] + r).update(
                    n,
                    r.last().push(c),
                ));
            } else {
                assert(split_nl(s.push(c)) == rp.update(0, seq![s[0]] + rp[0]));
                assert(split_nl(s) == r.update(0, seq![s[0]] + r[0]));
                if n == 1 {
                    assert(rp[0] == r[0].push(c));
                    assert(seq![s[0]] + r[0].push(c) =~= (seq![s[0]] + r[0]).push(c));
                    assert(rp.update(0, seq![s[0]] + rp[0]) =~~= r.update(0, seq![s[0]] + r[0]).update(
                        0,
                        (seq![s[0]] + r[0]).push(c),
                    ));
                } else {
                    assert(rp[0] == r[0]);
                    assert(split_nl(s).last() == r.last());
                    assert(rp.update(0, seq![s[0]] + r[0]) =~~= r.update(0, seq![s[0]] + r[0]).update(
                        n - 1,
                        r.last().push(c),
                    ));
                }
            }
        }
    }
}

/// The last line of a text that does not end in a newline is not empty.
pub proof fn lemma_split_nl_last(s: Seq<char>)
    requires
        s.len() > 0,
        s[s.len() - 1] != '\n',
    ensures
        split_nl(s).last().len() > 0,
    decreases s.len(),
{
    lemma_split_nl_nonempty(s.skip(1));
    if s.len() == 1 {
        assert(s.skip(1) =~= Seq::<char>::empty());
    } else {
        assert(s.skip(1)[s.skip(1).len() - 1] == s[s.len() - 1]);
        lemma_split_nl_last(s.skip(1));
        let rest = split_nl(s.skip(1));
        if s[0] == '\n' {
            assert(split_nl(s).last() == rest.last());
        } else {
            if rest.len() == 1 {
                assert(split_nl(s).last() == seq![s[0]] + rest[0]);
            } else {
                assert(split_nl(s).last() == rest.last());
            }
        }
    }
}

/// In a text with no `\r\n` pair and no final `\r`, no piece of the
/// split ends in a carriage return, so stripping changes nothing.
pub proof fn lemma_split_nl_no_cr(s: Seq<char>)
    requires
        forall|i: int| 0 <= i < s.len() - 1 ==> !(#[trigger] s[i] == '\r' && s[i + 1] == '\n'),
        s.len() > 0 ==> s[s.len() - 1] != '\r',
    ensures
        forall|k: int|
            0 <= k < split_nl(s).len() ==> strip_cr(#[trigger] split_nl(s)[k]) == split_nl(s)[k],
    decreases s.len(),
{
    if s.len() == 0 {
    } else {
        let tail = s.skip(1);
        assert forall|i: int| 0 <= i < tail.len() - 1 implies !(#[trigger] tail[i] == '\r'
            && tail[i + 1] == '\n') by {
            assert(tail[i] == s[i + 1]);
            assert(tail[i + 1] == s[i + 2]);
        }
        if tail.len() > 0 {
            assert(tail[tail.len() - 1] == s[s.len() - 1]);
        }
        lemma_split_nl_no_cr(tail);
        let rest = split_nl(tail);
        lemma_split_nl_nonempty(tail);
        if s[0] == '\n' {
            assert forall|k: int| 0 <= k < split_nl(s).len() implies strip_cr(
                #[trigger] split_nl(s)[k],
            ) == split_nl(s)[k] by {
                if k == 0 {
                    assert(split_nl(s)[0] == Seq::<char>::empty());
                } else {
                    assert(split_nl(s)[k] == rest[k - 1]);
                }
            }
        } else {
            assert forall|k: int| 0 <= k < split_nl(s).len() implies strip_cr(
                #[trigger] split_nl(s)[k],
            ) == split_nl(s)[k] by {
                if k == 0 {
                    let piece = seq![s[0]] + rest[0];
                    assert(split_nl(s)[0] == piece);
                    if rest[0].len() > 0 {
                        assert(piece[piece.len() - 1] == rest[0][rest[0].len() - 1]);
                        assert(strip_cr(rest[0]) == rest[0]);
                    } else {
                        assert(piece[piece.len() - 1] == s[0]);
                        if tail.len() == 0 {
                            assert(s[0] == s[s.len() - 1]);
                        } else if tail[0] != '\n' {
                            lemma_split_nl_nonempty(tail.skip(1));
                            assert(rest[0] == seq![tail[0]] + split_nl(tail.skip(1))[0]);
                            assert(rest[0].len() > 0);
                        } else {
                            assert(s[1] == '\n');
                        }
                    }
                } else {
                    assert(split_nl(s)[k] == rest[k]);
                }
            }
        }
    }
}

pub proof fn lemma_trim_start_ws_prefix(w: Seq<char>, s: Seq<char>)
    requires
        forall|i: int| 0 <= i < w.len() ==> is_ws(w[i]),
    ensures
        trim_start(w + s) == trim_start(s),
    decreases w.len(),
{
    if w.len() == 0 {
        assert(w + s =~= s);
    } else {
        assert((w + s)[0] == w[0]);
        assert((w + s).skip(1) =~= w.skip(1) + s);
        lemma_trim_start_ws_prefix(w.skip(1), s);
    }
}

pub proof fn lemma_trim_end_ws_suffix(s: Seq<char>, w: Seq<char>)
    requires
        forall|i: int| 0 <= i < w.len() ==> is_ws(w[i]),
    ensures
        trim_end(s + w) == trim_end(s),
    decreases w.len(),
{
    if w.len() == 0 {
        assert(s + w =~= s);
    } else {
        assert((s + w)[(s + w).len() - 1] == w[w.len() - 1]);
        assert((s + w).take((s + w).len() - 1) =~= s + w.take(w.len() - 1));
        lemma_trim_end_ws_suffix(s, w.take(w.len() - 1));
    }
}

/// Trimming strips any whitespace padding around an already trimmed core.
pub proof fn lemma_trim_pad(w1: Seq<char>, s: Seq<char>, w2: Seq<char>)
    requires
        forall|i: int| 0 <= i < w1.len() ==> is_ws(w1[i]),
        forall|i: int| 0 <= i < w2.len() ==> is_ws(w2[i]),
        is_trimmed(s),
    ensures
        trim(w1 + s + w2) == s,
{
    assert(w1 + s + w2 =~= w1 + (s + w2));
    lemma_trim_start_ws_prefix(w1, s + w2);
    if s.len() == 0 {
        assert(s + w2 =~= w2);
        lemma_trim_start_ws_prefix(w2, Seq::<char>::empty());
        assert(w2 + Seq::<char>::empty() =~= w2);
        assert(trim_start(s + w2) == Seq::<char>::empty());
        assert(trim(w1 + s + w2) =~= s);
    } else {
        assert((s + w2)[0] == s[0]);
        assert(trim_start(s + w2) == s + w2);
        lemma_trim_end_ws_suffix(s, w2);
        assert(trim_end(s) == s);
    }
}

/// A trimmed sequence trims to itself.
pub proof fn lemma_trim_trimmed(s: Seq<char>)
    requires
        is_trimmed(s),
    ensures
        trim(s) == s,
{
    lemma_trim_pad(Seq::<char>::empty(), s, Seq::<char>::empty());
    assert(Seq::<char>::empty() + s + Seq::<char>::empty() =~= s);
}

pub proof fn lemma_find_char_at(s: Seq<char>, c: char, k: int)
    requires
        0 <= k < s.len(),
        s[k] == c,
        forall|i: int| 0 <= i < k ==> s[i] != c,
    ensures
        find_char(s, c) == k,
    decreases k,
{
    if k > 0 {
        assert(forall|i: int| 0 <= i < k - 1 ==> s.skip(1)[i] == s[i + 1]);
        lemma_find_char_at(s.skip(1), c, k - 1);
    }
}

pub proof fn lemma_find_char_none(s: Seq<char>, c: char)
    requires
        forall|i: int| 0 <= i < s.len() ==> s[i] != c,
    ensures
        find_char(s, c) == -1,
    decreases s.len(),
{
    if s.len() > 0 {
        assert(forall|i: int| 0 <= i < s.skip(1).len() ==> s.skip(1)[i] == s[i + 1]);
        lemma_find_char_none(s.skip(1), c);
    }
}

/// Relies on `String::push`: appends the given char to the end of the string.
#[verifier::external_body]
fn push_char(s: &mut String, c: char)
    ensures
        final(s)@ == old(s)@.push(c),
{
    s.push(c);
}

/// The characters of a string slice, in order.
pub fn chars_of(s: &str) -> (r: Vec<char>)
    ensures
        r@ == s@,
{
    let n = s.unicode_len();
    let mut r: Vec<char> = Vec::new();
    let mut i: usize = 0;
    while i < n
        invariant
            i <= n,
            n == s@.len(),
            r@ == s@.take(i as int),
        decreases n - i,
    {
        let c = s.get_char(i);
        r.push(c);
        i = i + 1;
        proof {
            assert(r@ =~= s@.take(i as int));
        }
    }
    proof {
        assert(s@.take(n as int) =~= s@);
    }
    r
}

/// A string holding exactly the given characters.
pub fn string_of(cs: &Vec<char>) -> (r: String)
    ensures
        r@ == cs@,
{
    let mut r = String::new();
    let mut i: usize = 0;
    while i < cs.len()
        invariant
            i <= cs.len(),
            r@ == cs@.take(i as int),
        decreases cs.len() - i,
    {
        push_char(&mut r, cs[i]);
        i = i + 1;
        proof {
            assert(r@ =~= cs@.take(i as int));
        }
    }
    proof {
        assert(cs@.take(cs.len() as int) =~= cs@);
    }
    r
}

/// Copy of the characters of `s` between `a` (inclusive) and `b` (exclusive).
pub fn sub_vec(s: &Vec<char>, a: usize, b: usize) -> (r: Vec<char>)
    requires
        a <= b <= s@.len(),
    ensures
        r@ == s@.subrange(a as int, b as int),
{
    let mut r: Vec<char> = Vec::new();
    let mut i: usize = a;
    while i < b
        invariant
            a <= i <= b <= s@.len(),
            r@ == s@.subrange(a as int, i as int),
        decreases b - i,
    {
        r.push(s[i]);
        i = i + 1;
        proof {
            assert(r@ =~= s@.subrange(a as int, i as int));
        }
    }
    r
}

fn is_ws_char(c: char) -> (r: bool)
    ensures
        r == is_ws(c),
{
    let u = c as u32;
    u == 0x09 || u == 0x0A || u == 0x0B || u == 0x0C || u == 0x0D || u == 0x20 || u == 0x85
        || u == 0xA0 || u == 0x1680 || (0x2000 <= u && u <= 0x200A) || u == 0x2028 || u == 0x2029
        || u == 0x202F || u == 0x205F || u == 0x3000
}

/// Whitespace trimmed from both ends, as Rust's `str::trim` does for the
/// whitespace characters of `is_ws`.
pub fn trim_vec(s: &Vec<char>) -> (r: Vec<char>)
    ensures
        r@ == trim(s@),
        is_trimmed(r@),
{
    let n = s.len();
    proof {
        assert(s@.skip(0) =~= s@);
    }
    let mut i: usize = 0;
    while i < n && is_ws_char(s[i])
        invariant
            i <= n,
            n == s@.len(),
            trim_start(s@) == trim_start(s@.skip(i as int)),
        decreases n - i,
    {
        proof {
            assert(s@.skip(i as int)[0] == s@[i as int]);
            assert(s@.skip(i as int).skip(1) =~= s@.skip(i as int + 1));
        }
        i = i + 1;
    }
    proof {
        if i < n {
            assert(trim_start(s@) == s@.skip(i as int));
        } else {
            assert(s@.skip(i as int) =~= Seq::<char>::empty());
            assert(trim_start(s@) == s@.skip(i as int));
        }
    }
    let ghost t = s@.skip(i as int);
    proof {
        assert(t.take(n - i as int) =~= t);
    }
    let mut j: usize = n;
    while j > i && is_ws_char(s[j - 1])
        invariant
            i <= j <= n,
            n == s@.len(),
            t == s@.skip(i as int),
            trim_end(t) == trim_end(t.take(j - i as int)),
        decreases j,
    {
        proof {
            let m = j - i as int;
            assert(t.take(m)[m - 1] == s@[j - 1]);
            assert(t.take(m).take(m - 1) =~= t.take(m - 1));
        }
        j = j - 1;
    }
    proof {
        if j > i {
            assert(t.take(j - i as int)[j - i as int - 1] == s@[j - 1]);
            assert(trim_end(t) == t.take(j - i as int));
        } else {
            assert(t.take(0) =~= Seq::<char>::empty());
            assert(trim_end(t) == t.take(j - i as int));
        }
        assert(t.take(j - i as int) =~= s@.subrange(i as int, j as int));
    }
    let r = sub_vec(s, i, j);
    proof {
        let res = s@.subrange(i as int, j as int);
        if res.len() > 0 {
            assert(res[0] == s@[i as int]);
            assert(res[res.len() - 1] == s@[j - 1]);
        }
    }
    r
}

/// Does the line start with the literal prefix `p`?
pub fn has_prefix(s: &Vec<char>, p: &str) -> (r: bool)
    ensures
        r == starts_with(s@, p@),
{
    let pl = p.unicode_len();
    if pl > s.len() {
        return false;
    }
    let mut i: usize = 0;
    while i < pl
        invariant
            i <= pl,
            pl == p@.len(),
            pl <= s@.len(),
            forall|k: int| 0 <= k < i ==> s@[k] == p@[k],
        decreases pl - i,
    {
        if s[i] != p.get_char(i) {
            return false;
        }
        i = i + 1;
    }
    true
}

/// Is the line exactly the literal `p`?
pub fn eq_str(s: &Vec<char>, p: &str) -> (r: bool)
    ensures
        r == (s@ == p@),
{
    if s.len() != p.unicode_len() {
        return false;
    }
    let r = has_prefix(s, p);
    proof {
        if starts_with(s@, p@) {
            assert(s@ =~= p@);
        } else {
            assert(s@ != p@);
        }
    }
    r
}

/// The lines of the text, as `spec_lines` describes them.
pub fn lines_of(s: &Vec<char>) -> (r: Vec<Vec<char>>)
    ensures
        r.deep_view() == spec_lines(s@),
{
    let n = s.len();
    let mut done: Vec<Vec<char>> = Vec::new();
    let mut cur: Vec<char> = Vec::new();
    let mut i: usize = 0;
    while i < n
        invariant
            i <= n,
            n == s@.len(),
            split_nl(s@.take(i as int)) == done.deep_view() + seq![cur@],
        decreases n - i,
    {
        proof {
            assert(s@.take(i as int).push(s@[i as int]) =~= s@.take(i as int + 1));
            lemma_split_nl_push(s@.take(i as int), s@[i as int]);
            lemma_split_nl_nonempty(s@.take(i as int));
        }
        let c = s[i];
        if c == '\n' {
            let ghost old_done = done.deep_view();
            let ghost old_cur = cur@;
            done.push(cur);
            cur = Vec::new();
            proof {
                assert(done.deep_view() =~~= old_done.push(old_cur));
                assert(split_nl(s@.take(i as int + 1)) =~~= done.deep_view() + seq![cur@]);
            }
        } else {
            let ghost old_done = done.deep_view();
            let ghost old_cur = cur@;
            cur.push(c);
            proof {
                let prev = old_done + seq![old_cur];
                assert(prev.last() == old_cur);
                assert(prev.update(prev.len() as int - 1, old_cur.push(c)) =~~= old_done + seq![cur@]);
                assert(done.deep_view() =~~= old_done);
                assert(split_nl(s@.take(i as int + 1)) =~~= done.deep_view() + seq![cur@]);
            }
        }
        i = i + 1;
    }
    proof {
        assert(s@.take(n as int) =~= s@);
    }
    if cur.len() > 0 {
        proof {
            if n > 0 && s@[n - 1] == '\n' {
                assert(s@.take(n - 1).push('\n') =~= s@);
                lemma_split_nl_push(s@.take(n - 1), '\n');
                let full = split_nl(s@.take(n - 1)) + seq![Seq::<char>::empty()];
                assert(full == done.deep_view() + seq![cur@]);
                assert(cur@ == full.last());
                assert(false);
            }
            if n == 0 {
                assert(split_nl(s@) == seq![Seq::<char>::empty()]);
                let full = done.deep_view() + seq![cur@];
                assert(full.len() == 1);
                assert(full[0] == cur@);
                assert(full[0] == Seq::<char>::empty());
                assert(false);
            }
            assert(split_nl(s@) == done.deep_view() + seq![cur@]);
        }
        let ghost old_done = done.deep_view();
        let ghost last_cur = cur@;
        done.push(cur);
        proof {
            assert(done.deep_view() =~~= old_done.push(last_cur));
            assert(done.deep_view() =~~= raw_lines(s@));
        }
    } else {
        proof {
            if n == 0 {
                assert(split_nl(s@.take(0)) =~= seq![Seq::<char>::empty()]);
                assert(done.deep_view() + seq![cur@] =~= seq![Seq::<char>::empty()]);
                assert(done.deep_view() =~= Seq::<Seq<char>>::empty());
                assert(done.deep_view() =~= raw_lines(s@));
            } else if s@[n - 1] != '\n' {
                lemma_split_nl_last(s@);
                let full = done.deep_view() + seq![cur@];
                assert(full.last() == cur@);
                assert(false);
            } else {
                assert(s@.take(n - 1).push('\n') =~= s@);
                lemma_split_nl_push(s@.take(n - 1), '\n');
                let full = split_nl(s@.take(n - 1)) + seq![Seq::<char>::empty()];
                assert(full == done.deep_view() + seq![cur@]);
                lemma_split_nl_nonempty(s@.take(n - 1));
                assert(full.take(full.len() - 1) =~= split_nl(s@.take(n - 1)));
                assert(full.take(full.len() - 1) =~= done.deep_view());
                assert(done.deep_view() =~= raw_lines(s@));
            }
        }
    }
    let ghost raw = done.deep_view();
    proof {
        assert(raw.take(0).map_values(|l: Seq<char>| strip_cr(l)) =~~= Seq::<Seq<char>>::empty());
    }
    let mut out: Vec<Vec<char>> = Vec::new();
    let mut j: usize = 0;
    while j < done.len()
        invariant
            j <= done@.len(),
            raw == done.deep_view(),
            raw.len() == done@.len(),
            raw == raw_lines(s@),
            out.deep_view() == raw.take(j as int).map_values(|l: Seq<char>| strip_cr(l)),
        decreases done.len() - j,
    {
        let line = &done[j];
        proof {
            assert(raw[j as int] =~= line@);
        }
        let m = line.len();
        let stripped = if m > 0 && line[m - 1] == '\r' {
            sub_vec(line, 0, m - 1)
        } else {
            sub_vec(line, 0, m)
        };
        proof {
            assert(stripped@ =~= strip_cr(raw[j as int]));
        }
        let ghost old_out = out.deep_view();
        out.push(stripped);
        j = j + 1;
        proof {
            assert(out.deep_view() =~~= old_out.push(strip_cr(raw[j - 1])));
            assert(raw.take(j as int).map_values(|l: Seq<char>| strip_cr(l)) =~~= old_out.push(
                strip_cr(raw[j - 1]),
            ));
        }
    }
    proof {
        assert(raw.take(raw.len() as int) =~= raw);
        assert(out.deep_view() =~~= spec_lines(s@));
    }
    out
}

/// The pieces joined with single newlines.
pub fn join_lines(ls: &Vec<Vec<char>>) -> (r: Vec<char>)
    ensures
        r@ == join_nl(ls.deep_view()),
{
    let n = ls.len();
    if n == 0 {
        let r: Vec<char> = Vec::new();
        return r;
    }
    let mut r: Vec<char> = Vec::new();
    let mut i: usize = 0;
    while i < n
        invariant
            i <= n,
            n == ls@.len(),
            n > 0,
            i > 0 ==> r@ == join_nl(ls.deep_view().take(i as int)),
            i == 0 ==> r@ == Seq::<char>::empty(),
        decreases n - i,
    {
        if i > 0 {
            r.push('\n');
        }
        let mut k: usize = 0;
        let ghost base = r@;
        let line = &ls[i];
        while k < line.len()
            invariant
                k <= line@.len(),
                line@ == ls.deep_view()[i as int],
                i < n,
                n == ls@.len(),
                r@ == base + line@.take(k as int),
            decreases line.len() - k,
        {
            r.push(line[k]);
            k = k + 1;
            proof {
                assert(r@ =~= base + line@.take(k as int));
            }
        }
        proof {
            assert(line@.take(line@.len() as int) =~= line@);
        }
        i = i + 1;
        proof {
            let dv = ls.deep_view();
            if i == 1 {
                assert(join_nl(dv.take(1)) == dv.take(1)[0]);
                assert(r@ =~= join_nl(dv.take(i as int)));
            } else {
                lemma_join_nl_concat(dv.take(i as int - 1), seq![dv[i as int - 1]]);
                assert(dv.take(i as int - 1) + seq![dv[i as int - 1]] =~= dv.take(i as int));
                assert(join_nl(seq![dv[i as int - 1]]) == dv[i as int - 1]);
                assert(r@ =~= join_nl(dv.take(i as int)));
            }
        }
    }
    proof {
        assert(ls.deep_view().take(n as int) =~= ls.deep_view());
    }
    r
}

/// The lines from index `k` on, each copied.
pub fn tail_lines(ls: &Vec<Vec<char>>, k: usize) -> (r: Vec<Vec<char>>)
    requires
        k <= ls@.len(),
    ensures
        r.deep_view() == ls.deep_view().skip(k as int),
{
    let mut r: Vec<Vec<char>> = Vec::new();
    let mut i: usize = k;
    while i < ls.len()
        invariant
            k <= i <= ls@.len(),
            r.deep_view() == ls.deep_view().subrange(k as int, i as int),
        decreases ls.len() - i,
    {
        let piece = sub_vec(&ls[i], 0, ls[i].len());
        proof {
            assert(piece@ =~= ls.deep_view()[i as int]);
        }
        let ghost old_r = r.deep_view();
        r.push(piece);
        i = i + 1;
        proof {
            assert(r.deep_view() =~~= old_r.push(piece@));
            assert(ls.deep_view().subrange(k as int, i as int) =~~= old_r.push(piece@));
        }
    }
    proof {
        assert(ls.deep_view().subrange(k as int, ls@.len() as int) =~~= ls.deep_view().skip(
            k as int,
        ));
    }
    r
}

/// First occurrence of `c` in `s`, if any.
pub fn find_char_vec(s: &Vec<char>, c: char) -> (r: Option<usize>)
    ensures
        match r {
            Some(k) => find_char(s@, c) == k && k < s@.len(),
            None => find_char(s@, c) == -1,
        },
{
    let n = s.len();
    let mut i: usize = 0;
    while i < n
        invariant
            i <= n,
            n == s@.len(),
            forall|k: int| 0 <= k < i ==> s@[k] != c,
        decreases n - i,
    {
        if s[i] == c {
            proof {
                lemma_find_char_at(s@, c, i as int);
            }
            return Some(i);
        }
        i = i + 1;
    }
    proof {
        lemma_find_char_none(s@, c);
    }
    None
}

} // verus!
