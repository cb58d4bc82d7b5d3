//! Text as bytes: the lines of a text, the words of a line, and numbers in
//! decimal.

use vstd::prelude::*;

verus! {

/// The byte that ends a line.
pub const NEWLINE: u8 = 10;

/// The byte that a writer puts after a word.
pub const SPACE: u8 = 32;

/// What a text is cut at.
#[derive(Clone, Copy, Debug, PartialEq, Eq, Structural)]
pub enum Separator {
    /// The end of a line.
    Newline,
    /// A blank within a line: a space, a tab or a carriage return.
    Blank,
}

impl Separator {
    /// Whether `b` is a separator of this kind.
    pub open spec fn spec_matches(self, b: u8) -> bool {
        match self {
            Separator::Newline => b == NEWLINE,
            Separator::Blank => b == SPACE || b == 9 || b == 13,
        }
    }

    /// Whether `b` is a separator of this kind.
    #[verifier::when_used_as_spec(spec_matches)]
    pub fn matches(self, b: u8) -> (m: bool)
        ensures
            m == self.spec_matches(b),
    {
        match self {
            Separator::Newline => b == NEWLINE,
            Separator::Blank => b == SPACE || b == 9 || b == 13,
        }
    }
}

/// Whether no byte of `s` is a separator.
pub open spec fn free_of(s: Seq<u8>, sep: Separator) -> bool {
    forall|i: int| 0 <= i < s.len() ==> !sep.matches(#[trigger] s[i])
}

/// The number of bytes of `s` before its first separator: all of them where it
/// has none.
pub open spec fn run_len(s: Seq<u8>, sep: Separator) -> nat
    decreases s.len(),
{
    if s.len() == 0 || sep.matches(s[0]) {
        0
    } else {
        1 + run_len(s.skip(1), sep)
    }
}

/// The pieces that `s` falls into when it is cut at every separator. Each
/// separator ends a piece, so that two in a row hold an empty piece between
/// them, and a text that ends in one has no empty piece after it.
pub open spec fn pieces(s: Seq<u8>, sep: Separator) -> Seq<Seq<u8>>
    decreases s.len(),
{
    if s.len() == 0 {
        Seq::empty()
    } else {
        let n = run_len(s, sep);
        if n >= s.len() {
            seq![s]
        } else {
            seq![s.take(n as int)] + pieces(s.skip(n as int + 1), sep)
        }
    }
}

/// The pieces of `ps` that are not empty, in order.
pub open spec fn nonempty(ps: Seq<Seq<u8>>) -> Seq<Seq<u8>>
    decreases ps.len(),
{
    if ps.len() == 0 {
        Seq::empty()
    } else if ps.last().len() > 0 {
        nonempty(ps.drop_last()).push(ps.last())
    } else {
        nonempty(ps.drop_last())
    }
}

/// The lines of a text. A newline ends a line; the last line may go without.
pub open spec fn lines(s: Seq<u8>) -> Seq<Seq<u8>> {
    pieces(s, Separator::Newline)
}

/// The words of a line: what stands between blanks.
pub open spec fn words(line: Seq<u8>) -> Seq<Seq<u8>> {
    nonempty(pieces(line, Separator::Blank))
}

/// Whether `b` is a decimal digit.
pub open spec fn is_digit(b: u8) -> bool {
    48 <= b <= 57
}

/// The number `n` in decimal, without leading zeros.
pub open spec fn decimal(n: nat) -> Seq<u8>
    decreases n,
{
    if n < 10 {
        seq![(48 + n) as u8]
    } else {
        decimal(n / 10).push((48 + n % 10) as u8)
    }
}

/// The number that the digits `t` write in decimal.
pub open spec fn digits_value(t: Seq<u8>) -> nat
    decreases t.len(),
{
    if t.len() == 0 {
        0
    } else {
        10 * digits_value(t.drop_last()) + (t.last() - 48) as nat
    }
}

/// The channel value that the word `t` writes: one to three decimal digits
/// that make a number up to 255.
pub open spec fn channel_value(t: Seq<u8>) -> Option<u8> {
    if 1 <= t.len() <= 3 && (forall|i: int| 0 <= i < t.len() ==> is_digit(#[trigger] t[i]))
        && digits_value(t) <= 255 {
        Some(digits_value(t) as u8)
    } else {
        None
    }
}

/// What each of `v` holds, as a sequence of bytes.
pub open spec fn texts(v: Seq<Vec<u8>>) -> Seq<Seq<u8>> {
    Seq::new(v.len(), |i: int| v[i]@)
}

/// The run before the first separator ends at a separator or at the end, and
/// holds no separator.
pub proof fn lemma_run_len(s: Seq<u8>, sep: Separator)
    ensures
        run_len(s, sep) <= s.len(),
        free_of(s.take(run_len(s, sep) as int), sep),
        run_len(s, sep) < s.len() ==> sep.matches(s[run_len(s, sep) as int]),
    decreases s.len(),
{
    if s.len() == 0 || sep.matches(s[0]) {
    } else {
        lemma_run_len(s.skip(1), sep);
        let n = run_len(s, sep);
        assert forall|i: int| 0 <= i < n implies !sep.matches(#[trigger] s.take(n as int)[i]) by {
            if i > 0 {
                assert(s.take(n as int)[i] == s.skip(1).take(n - 1)[i - 1]);
            }
        }
    }
}

/// A separator-free stretch that ends at a separator, or at the end of the
/// text, is the run before the first separator.
pub proof fn lemma_run_len_is(s: Seq<u8>, sep: Separator, n: int)
    requires
        0 <= n <= s.len(),
        forall|i: int| 0 <= i < n ==> !sep.matches(#[trigger] s[i]),
        n == s.len() || sep.matches(s[n]),
    ensures
        run_len(s, sep) == n,
    decreases n,
{
    if n > 0 {
        let rest = s.skip(1);
        assert forall|i: int| 0 <= i < n - 1 implies !sep.matches(#[trigger] rest[i]) by {
            assert(rest[i] == s[i + 1]);
        }
        lemma_run_len_is(rest, sep, n - 1);
    }
}

/// The pieces of a text from `start` on, where the next separator stands at
/// `end`: the stretch up to it, and the pieces of what follows it.
pub proof fn lemma_pieces_cut(s: Seq<u8>, sep: Separator, start: int, end: int)
    requires
        0 <= start <= end < s.len(),
        forall|i: int| start <= i < end ==> !sep.matches(#[trigger] s[i]),
        sep.matches(s[end]),
    ensures
        pieces(s.skip(start), sep) == seq![s.subrange(start, end)] + pieces(s.skip(end + 1), sep),
{
    let rest = s.skip(start);
    assert forall|i: int| 0 <= i < end - start implies !sep.matches(#[trigger] rest[i]) by {
        assert(rest[i] == s[start + i]);
    }
    lemma_run_len_is(rest, sep, end - start);
    assert(rest.take(end - start) =~= s.subrange(start, end));
    assert(rest.skip(end - start + 1) =~= s.skip(end + 1));
}

/// The pieces of the end of a text that holds no separator from `start` on:
/// that end, if it is not empty.
pub proof fn lemma_pieces_tail(s: Seq<u8>, sep: Separator, start: int)
    requires
        0 <= start <= s.len(),
        forall|i: int| start <= i < s.len() ==> !sep.matches(#[trigger] s[i]),
    ensures
        pieces(s.skip(start), sep) == if start == s.len() {
            Seq::<Seq<u8>>::empty()
        } else {
            seq![s.skip(start)]
        },
{
    let rest = s.skip(start);
    if start < s.len() {
        assert forall|i: int| 0 <= i < rest.len() implies !sep.matches(#[trigger] rest[i]) by {
            assert(rest[i] == s[start + i]);
        }
        lemma_run_len_is(rest, sep, rest.len() as int);
    }
}

/// A text that is empty or ends in a separator, followed by a stretch without
/// separators and one separator, has the pieces of the text and the stretch as
/// one more.
pub proof fn lemma_pieces_push(a: Seq<u8>, l: Seq<u8>, end: u8, sep: Separator)
    requires
        a.len() == 0 || sep.matches(a.last()),
        free_of(l, sep),
        sep.matches(end),
    ensures
        pieces(a + l.push(end), sep) == pieces(a, sep).push(l),
    decreases a.len(),
{
    let s = a + l.push(end);
    if a.len() == 0 {
        assert(s =~= l.push(end));
        assert forall|i: int| 0 <= i < l.len() implies !sep.matches(#[trigger] s[i]) by {
            assert(s[i] == l[i]);
        }
        lemma_run_len_is(s, sep, l.len() as int);
        assert(s.take(l.len() as int) =~= l);
        assert(s.skip(l.len() as int + 1) =~= Seq::<u8>::empty());
        assert(pieces(Seq::<u8>::empty(), sep) =~= Seq::<Seq<u8>>::empty());
        assert(pieces(s, sep) =~= seq![l]);
        assert(pieces(a, sep).push(l) =~= seq![l]);
    } else {
        lemma_run_len(a, sep);
        let n = run_len(a, sep);
        if n >= a.len() {
            assert(a.take(n as int)[a.len() - 1] == a.last());
        }
        assert(n < a.len());
        assert forall|i: int| 0 <= i < n implies !sep.matches(#[trigger] s[i]) by {
            assert(s[i] == a.take(n as int)[i]);
        }
        assert(s[n as int] == a[n as int]);
        lemma_run_len_is(s, sep, n as int);
        let rest = a.skip(n as int + 1);
        assert(s.take(n as int) =~= a.take(n as int));
        assert(s.skip(n as int + 1) =~= rest + l.push(end));
        if rest.len() > 0 {
            assert(rest.last() == a.last());
        }
        lemma_pieces_push(rest, l, end, sep);
        assert(pieces(s, sep) =~= (seq![a.take(n as int)] + pieces(rest, sep)).push(l));
    }
}

/// Where no piece is empty, taking the pieces that are not empty takes all.
pub proof fn lemma_nonempty_all(ps: Seq<Seq<u8>>)
    requires
        forall|i: int| 0 <= i < ps.len() ==> (#[trigger] ps[i]).len() > 0,
    ensures
        nonempty(ps) == ps,
    decreases ps.len(),
{
    if ps.len() > 0 {
        lemma_nonempty_all(ps.drop_last());
        assert(ps.drop_last().push(ps.last()) =~= ps);
    }
}

/// A number in decimal is made of digits, at least one; it holds no
/// separator, and the digits write the number.
pub proof fn lemma_decimal(n: nat)
    ensures
        decimal(n).len() >= 1,
        forall|i: int| 0 <= i < decimal(n).len() ==> is_digit(#[trigger] decimal(n)[i]),
        free_of(decimal(n), Separator::Newline),
        free_of(decimal(n), Separator::Blank),
        digits_value(decimal(n)) == n,
        n < 10 ==> decimal(n).len() == 1,
        10 <= n < 100 ==> decimal(n).len() == 2,
        100 <= n < 1000 ==> decimal(n).len() == 3,
    decreases n,
{
    if n < 10 {
        assert(decimal(n).drop_last() =~= Seq::<u8>::empty());
        assert(digits_value(decimal(n).drop_last()) == 0);
    } else {
        lemma_decimal(n / 10);
        assert(decimal(n).drop_last() =~= decimal(n / 10));
    }
}

/// A channel value, written in decimal, is read back as itself.
pub proof fn lemma_channel_value_of_decimal(v: u8)
    ensures
        channel_value(decimal(v as nat)) == Some(v),
{
    lemma_decimal(v as nat);
}

/// Cuts `bytes` at every separator.
pub fn split(bytes: &[u8], sep: Separator) -> (out: Vec<Vec<u8>>)
    ensures
        texts(out@) == pieces(bytes@, sep),
{
    let n: usize = bytes.len();
    let mut out: Vec<Vec<u8>> = Vec::new();
    let mut piece: Vec<u8> = Vec::new();
    let ghost mut start: int = 0;
    let mut i: usize = 0;
    proof {
        assert(bytes@.skip(0) =~= bytes@);
        assert(texts(out@) + pieces(bytes@.skip(0), sep) =~= pieces(bytes@, sep));
    }
    while i < n
        invariant
            n == bytes@.len(),
            0 <= start <= i <= n,
            piece@ == bytes@.subrange(start, i as int),
            forall|j: int| start <= j < i ==> !sep.matches(#[trigger] bytes@[j]),
            pieces(bytes@, sep) == texts(out@) + pieces(bytes@.skip(start), sep),
        decreases n - i,
    {
        let b: u8 = bytes[i];
        if sep.matches(b) {
            proof {
                lemma_pieces_cut(bytes@, sep, start, i as int);
                assert(texts(out@.push(piece)) =~= texts(out@).push(piece@));
                assert(texts(out@).push(piece@) + pieces(bytes@.skip(i + 1), sep) =~= texts(out@)
                    + (seq![piece@] + pieces(bytes@.skip(i + 1), sep)));
                start = i + 1;
            }
            out.push(piece);
            piece = Vec::new();
            assert(piece@ =~= bytes@.subrange(start, i + 1));
        } else {
            piece.push(b);
            assert(piece@ =~= bytes@.subrange(start, i + 1));
        }
        i += 1;
    }
    proof {
        lemma_pieces_tail(bytes@, sep, start);
        assert(bytes@.subrange(start, n as int) =~= bytes@.skip(start));
    }
    if piece.len() > 0 {
        proof {
            assert(texts(out@.push(piece)) =~= texts(out@).push(piece@));
            assert(texts(out@).push(piece@) =~= texts(out@) + seq![piece@]);
        }
        out.push(piece);
    } else {
        assert(texts(out@) + Seq::<Seq<u8>>::empty() =~= texts(out@));
    }
    out
}

/// Taking the pieces that are not empty, one piece further.
pub proof fn lemma_nonempty_step(ps: Seq<Seq<u8>>, i: int)
    requires
        0 <= i < ps.len(),
    ensures
        nonempty(ps.take(i + 1)) == if ps[i].len() > 0 {
            nonempty(ps.take(i)).push(ps[i])
        } else {
            nonempty(ps.take(i))
        },
{
    let next = ps.take(i + 1);
    assert(next.drop_last() =~= ps.take(i));
    assert(next.last() == ps[i]);
}

/// The words of a line.
pub fn split_words(line: &[u8]) -> (out: Vec<Vec<u8>>)
    ensures
        texts(out@) == words(line@),
{
    let all: Vec<Vec<u8>> = split(line, Separator::Blank);
    let ghost ps = texts(all@);
    let mut out: Vec<Vec<u8>> = Vec::new();
    let mut i: usize = 0;
    proof {
        assert(ps.take(0) =~= Seq::<Seq<u8>>::empty());
        assert(texts(out@) =~= Seq::<Seq<u8>>::empty());
    }
    while i < all.len()
        invariant
            i <= all@.len(),
            ps == texts(all@),
            texts(out@) == nonempty(ps.take(i as int)),
        decreases all@.len() - i,
    {
        proof {
            lemma_nonempty_step(ps, i as int);
        }
        if all[i].len() > 0 {
            let word: Vec<u8> = copy_of(&all[i]);
            proof {
                assert(texts(out@.push(word)) =~= texts(out@).push(word@));
            }
            out.push(word);
        }
        i += 1;
    }
    proof {
        assert(ps.take(all@.len() as int) =~= ps);
    }
    out
}

/// A copy of `bytes`.
fn copy_of(bytes: &Vec<u8>) -> (out: Vec<u8>)
    ensures
        out@ == bytes@,
{
    let mut out: Vec<u8> = Vec::new();
    let mut i: usize = 0;
    while i < bytes.len()
        invariant
            i <= bytes@.len(),
            out@ == bytes@.take(i as int),
        decreases bytes@.len() - i,
    {
        out.push(bytes[i]);
        assert(out@ =~= bytes@.take(i + 1));
        i += 1;
    }
    assert(bytes@.take(bytes@.len() as int) =~= bytes@);
    out
}

/// The channel value that the word `word` writes, if it writes one.
pub fn parse_channel(word: &Vec<u8>) -> (r: Option<u8>)
    ensures
        r == channel_value(word@),
{
    let n: usize = word.len();
    if n == 0 || n > 3 {
        return None;
    }
    let mut value: u32 = 0;
    let mut i: usize = 0;
    proof {
        assert(word@.take(0) =~= Seq::<u8>::empty());
    }
    while i < n
        invariant
            n == word@.len(),
            n <= 3,
            i <= n,
            value == digits_value(word@.take(i as int)),
            value < 1000,
            i == 0 ==> value == 0,
            i == 1 ==> value < 10,
            i == 2 ==> value < 100,
            forall|j: int| 0 <= j < i ==> is_digit(#[trigger] word@[j]),
        decreases n - i,
    {
        let b: u8 = word[i];
        if b < 48 || b > 57 {
            return None;
        }
        proof {
            let next = word@.take(i + 1);
            assert(next.drop_last() =~= word@.take(i as int));
            assert(next.last() == b);
        }
        value = 10 * value + (b - 48) as u32;
        i += 1;
    }
    proof {
        assert(word@.take(n as int) =~= word@);
    }
    if value <= 255 {
        Some(value as u8)
    } else {
        None
    }
}

/// Appends the number `n` in decimal to `out`.
pub fn push_decimal(out: &mut Vec<u8>, n: usize)
    ensures
        final(out)@ == old(out)@ + decimal(n as nat),
    decreases n,
{
    if n < 10 {
        out.push(48 + n as u8);
        assert(out@ =~= old(out)@ + decimal(n as nat));
    } else {
        push_decimal(out, n / 10);
        out.push(48 + (n % 10) as u8);
        assert(out@ =~= old(out)@ + decimal(n as nat));
    }
}

} // verus!
